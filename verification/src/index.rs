//! Names grouped under names.

use vstd::prelude::*;

use crate::table::Table;
use crate::text::{opt_view, same_opt, same_text, views};

verus! {

/// The names without this one.
pub open spec fn without(ids: Seq<Seq<char>>, id: Seq<char>) -> Seq<Seq<char>>
    decreases ids.len(),
{
    if ids.len() == 0 {
        Seq::empty()
    } else if ids.last() == id {
        without(ids.drop_last(), id)
    } else {
        without(ids.drop_last(), id).push(ids.last())
    }
}

/// The names in a group; none where there is no such group.
pub open spec fn ids_of(groups: Map<Seq<char>, Seq<Seq<char>>>, group: Seq<char>) -> Seq<
    Seq<char>,
> {
    if groups.dom().contains(group) {
        groups[group]
    } else {
        Seq::empty()
    }
}

/// The groups without this name in this group. A group that loses its last name is
/// gone.
pub open spec fn unbind(
    groups: Map<Seq<char>, Seq<Seq<char>>>,
    group: Seq<char>,
    id: Seq<char>,
) -> Map<Seq<char>, Seq<Seq<char>>> {
    let left = without(ids_of(groups, group), id);
    if left.len() == 0 {
        groups.remove(group)
    } else {
        groups.insert(group, left)
    }
}

/// The groups with this name in this group, behind the others.
pub open spec fn bind(
    groups: Map<Seq<char>, Seq<Seq<char>>>,
    group: Seq<char>,
    id: Seq<char>,
) -> Map<Seq<char>, Seq<Seq<char>>> {
    groups.insert(group, ids_of(groups, group).push(id))
}

/// Which names are left.
pub proof fn lemma_without(ids: Seq<Seq<char>>, id: Seq<char>, x: Seq<char>)
    ensures
        without(ids, id).contains(x) == (ids.contains(x) && x != id),
    decreases ids.len(),
{
    if ids.len() > 0 {
        let short = ids.drop_last();
        let last = ids.last();
        lemma_without(short, id, x);
        assert(ids =~= short.push(last));
        lemma_pushed(short, last, x);
        if last != id {
            lemma_pushed(without(short, id), last, x);
        }
    }
}

/// Which names a sequence has with one more.
pub proof fn lemma_pushed(s: Seq<Seq<char>>, y: Seq<char>, x: Seq<char>)
    ensures
        s.push(y).contains(x) == (s.contains(x) || x == y),
{
    if s.contains(x) {
        let k = choose|k: int| 0 <= k < s.len() && s[k] == x;
        assert(s.push(y)[k] == x);
    }
    assert(s.push(y)[s.len() as int] == y);
}

/// No name is left twice that was not there twice.
pub proof fn lemma_without_unique(ids: Seq<Seq<char>>, id: Seq<char>)
    requires
        ids.no_duplicates(),
    ensures
        without(ids, id).no_duplicates(),
    decreases ids.len(),
{
    if ids.len() > 0 {
        let short = ids.drop_last();
        let last = ids.last();
        lemma_without_unique(short, id);
        if last != id {
            lemma_without(short, id, last);
            assert(!short.contains(last)) by {
                if short.contains(last) {
                    let k = choose|k: int| 0 <= k < short.len() && short[k] == last;
                    assert(ids[k] == ids[ids.len() - 1]);
                }
            }
            lemma_push_unique(without(short, id), last);
        }
    }
}

/// A new name makes none stand twice.
pub proof fn lemma_push_unique(s: Seq<Seq<char>>, x: Seq<char>)
    requires
        s.no_duplicates(),
        !s.contains(x),
    ensures
        s.push(x).no_duplicates(),
{
    assert forall|i: int, j: int|
        0 <= i < s.push(x).len() && 0 <= j < s.push(x).len() && i != j implies s.push(x)[i]
        != s.push(x)[j] by {
        if i == s.len() {
            assert(s.contains(s[j]));
        } else if j == s.len() {
            assert(s.contains(s[i]));
        }
    }
}

/// The groups after a name moved from one group to another; no group stands for
/// none.
pub open spec fn rebound(
    groups: Map<Seq<char>, Seq<Seq<char>>>,
    from: Option<Seq<char>>,
    to: Option<Seq<char>>,
    id: Seq<char>,
) -> Map<Seq<char>, Seq<Seq<char>>> {
    if from == to {
        groups
    } else {
        let left = match from {
            Some(group) => unbind(groups, group, id),
            None => groups,
        };
        match to {
            Some(group) => bind(left, group, id),
            None => left,
        }
    }
}

/// What a move leaves: every other name where it was, and the name in its new group
/// alone.
pub proof fn lemma_rebound(
    bound: Map<Seq<char>, Seq<Seq<char>>>,
    from: Option<Seq<char>>,
    to: Option<Seq<char>>,
    id: Seq<char>,
    w: Seq<char>,
    x: Seq<char>,
)
    requires
        forall|v: Seq<char>| #[trigger]
            ids_of(bound, v).contains(id) == (from == Some(v)),
    ensures
        x != id ==> ids_of(rebound(bound, from, to, id), w).contains(x) == ids_of(
            bound,
            w,
        ).contains(x),
        ids_of(rebound(bound, from, to, id), w).contains(id) == (to == Some(w)),
{
    if from != to {
        let left = match from {
            Some(v) => unbind(bound, v, id),
            None => bound,
        };
        assert(ids_of(left, w).contains(x) == (ids_of(bound, w).contains(x) && !(from == Some(w)
            && x == id))) by {
            if from == Some(w) {
                lemma_without(ids_of(bound, w), id, x);
            }
        }
        assert(ids_of(left, w).contains(id) == false) by {
            assert(ids_of(bound, w).contains(id) == (from == Some(w)));
            if from == Some(w) {
                lemma_without(ids_of(bound, w), id, id);
            }
        }
        if to == Some(w) {
            lemma_pushed(ids_of(left, w), id, x);
            lemma_pushed(ids_of(left, w), id, id);
        }
    } else {
        assert(ids_of(bound, w).contains(id) == (from == Some(w)));
    }
}

/// A move leaves no empty group, and no name in a group twice.
pub proof fn lemma_rebound_unique(
    bound: Map<Seq<char>, Seq<Seq<char>>>,
    from: Option<Seq<char>>,
    to: Option<Seq<char>>,
    id: Seq<char>,
)
    requires
        forall|v: Seq<char>| #[trigger]
            ids_of(bound, v).contains(id) == (from == Some(v)),
        forall|v: Seq<char>| #[trigger]
            bound.dom().contains(v) ==> bound[v].len() > 0 && bound[v].no_duplicates(),
    ensures
        forall|v: Seq<char>| #[trigger]
            rebound(bound, from, to, id).dom().contains(v) ==> rebound(
                bound,
                from,
                to,
                id,
            )[v].len() > 0 && rebound(bound, from, to, id)[v].no_duplicates(),
{
    if from != to {
        let left = match from {
            Some(v) => unbind(bound, v, id),
            None => bound,
        };
        if let Some(v) = from {
            lemma_without_unique(ids_of(bound, v), id);
        }
        assert forall|v: Seq<char>| #[trigger] left.dom().contains(v) implies left[v].len() > 0
            && left[v].no_duplicates() by {
            assert(bound.dom().contains(v) || from == Some(v));
            if from == Some(v) {
                assert(ids_of(bound, v).contains(id));
                assert(bound.dom().contains(v));
            }
        }
        if let Some(v) = to {
            assert(!ids_of(left, v).contains(id)) by {
                assert(ids_of(bound, v).contains(id) == (from == Some(v)));
            }
            assert(ids_of(left, v).no_duplicates());
            lemma_push_unique(ids_of(left, v), id);
        }
    }
}

spec fn group_views(table: Map<Seq<char>, Vec<String>>) -> Map<Seq<char>, Seq<Seq<char>>> {
    Map::new(|g: Seq<char>| table.dom().contains(g), |g: Seq<char>| views(table[g]@))
}

/// Names grouped under names.
pub struct Index {
    table: Table<String, Vec<String>>,
}

impl View for Index {
    type V = Map<Seq<char>, Seq<Seq<char>>>;

    closed spec fn view(&self) -> Map<Seq<char>, Seq<Seq<char>>> {
        group_views(self.table@)
    }
}

fn drop_name(names: &Vec<String>, name: &str) -> (r: Vec<String>)
    ensures
        views(r@) == without(views(names@), name@),
{
    let ghost all = views(names@);
    let mut out: Vec<String> = Vec::new();
    let mut i: usize = 0;
    assert(views(out@) =~= without(all.take(0), name@));
    while i < names.len()
        invariant
            i <= names@.len(),
            all == views(names@),
            views(out@) == without(all.take(i as int), name@),
        decreases names@.len() - i,
    {
        let ghost before = views(out@);
        assert(all.take(i + 1).drop_last() =~= all.take(i as int));
        assert(all.take(i + 1).last() == names@[i as int]@);
        if !same_text(names[i].as_str(), name) {
            out.push(names[i].clone());
            assert(views(out@) =~= before.push(names@[i as int]@));
        }
        i = i + 1;
    }
    assert(all.take(i as int) =~= all);
    out
}

impl Index {
    /// No groups.
    pub fn new() -> (r: Index)
        ensures
            r@ == Map::<Seq<char>, Seq<Seq<char>>>::empty(),
    {
        let index: Index = Index { table: Table::new() };
        assert(index@ =~= Map::empty());
        index
    }

    /// The names in a group.
    pub fn get(&self, group: &String) -> (r: Option<&Vec<String>>)
        ensures
            r.is_some() == self@.dom().contains(group@),
            r matches Some(names) ==> views(names@) == self@[group@],
    {
        self.table.get(group)
    }

    /// Takes a name out of a group.
    pub fn remove(&mut self, group: &String, name: &str)
        requires
            old(self)@.dom().contains(group@),
        ensures
            final(self)@ == unbind(old(self)@, group@, name@),
    {
        let ghost start = self.table@;
        if let Some(names) = self.table.remove(group) {
            let left: Vec<String> = drop_name(&names, name);
            assert(views(left@).len() == left@.len());
            if left.len() > 0 {
                self.table.insert(group.clone(), left);
                assert(self@ =~= group_views(start).insert(group@, views(left@)));
            } else {
                assert(self@ =~= group_views(start).remove(group@));
            }
        }
    }

    /// Moves a name from one group to another; no group stands for none.
    pub fn rebind(&mut self, from: &Option<String>, to: &Option<String>, name: &String)
        requires
            opt_view(*from) matches Some(g) ==> old(self)@.dom().contains(g),
        ensures
            final(self)@ == rebound(old(self)@, opt_view(*from), opt_view(*to), name@),
    {
        if !same_opt(from, to) {
            if let Some(group) = from {
                self.remove(group, name.as_str());
            }
            if let Some(group) = to {
                self.insert(group, name);
            }
        }
    }

    /// Puts a name in a group, behind the others.
    pub fn insert(&mut self, group: &String, name: &String)
        ensures
            final(self)@ == bind(old(self)@, group@, name@),
    {
        let ghost start = self.table@;
        let mut names: Vec<String> = match self.table.remove(group) {
            Some(names) => names,
            None => Vec::new(),
        };
        assert(views(names@) =~= ids_of(group_views(start), group@));
        let ghost before = views(names@);
        names.push(name.clone());
        assert(views(names@) =~= before.push(name@));
        self.table.insert(group.clone(), names);
        assert(self@ =~= bind(group_views(start), group@, name@));
    }
}

} // verus!
