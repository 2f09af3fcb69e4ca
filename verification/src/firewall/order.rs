//! The order in which rules are evaluated.

use vstd::prelude::*;

use super::types::FirewallRule;
use crate::text::{lemma_text_order, text_less, text_lt};

verus! {

/// Whether the first rule comes before the second: it has a lower priority value
/// or, with the same, a name that sorts earlier.
pub open spec fn before(a: FirewallRule, b: FirewallRule) -> bool {
    a.priority < b.priority || (a.priority == b.priority && text_lt(a.name@, b.name@))
}

/// A rule put in its place among rules that are in order: behind those that it
/// does not come before.
pub open spec fn place(sorted: Seq<FirewallRule>, rule: FirewallRule) -> Seq<FirewallRule>
    decreases sorted.len(),
{
    if sorted.len() > 0 && before(rule, sorted.last()) {
        place(sorted.drop_last(), rule).push(sorted.last())
    } else {
        sorted.push(rule)
    }
}

/// The rules in order of evaluation.
pub open spec fn ordered(rules: Seq<FirewallRule>) -> Seq<FirewallRule>
    decreases rules.len(),
{
    if rules.len() == 0 {
        Seq::empty()
    } else {
        place(ordered(rules.drop_last()), rules.last())
    }
}

/// The rules that these positions name.
pub open spec fn at(rules: Seq<FirewallRule>, order: Seq<usize>) -> Seq<FirewallRule> {
    order.map_values(|i: usize| rules[i as int])
}

/// Whether the first rule comes before the second.
fn comes_before(a: &FirewallRule, b: &FirewallRule) -> (r: bool)
    ensures
        r == before(*a, *b),
{
    a.priority < b.priority || (a.priority == b.priority && text_less(
        a.name.as_str(),
        b.name.as_str(),
    ))
}

/// The positions of the rules in order of evaluation.
pub fn rule_order(rules: &Vec<FirewallRule>) -> (r: Vec<usize>)
    ensures
        forall|i: int| 0 <= i < r@.len() ==> #[trigger] r@[i] < rules@.len(),
        at(rules@, r@) == ordered(rules@),
{
    let mut order: Vec<usize> = Vec::new();
    let mut n: usize = 0;
    assert(at(rules@, order@) =~= ordered(rules@.take(0)));
    while n < rules.len()
        invariant
            n <= rules@.len(),
            forall|i: int| 0 <= i < order@.len() ==> #[trigger] order@[i] < n,
            at(rules@, order@) == ordered(rules@.take(n as int)),
        decreases rules@.len() - n,
    {
        let mut pos: usize = order.len();
        let ghost sorted = at(rules@, order@);
        let ghost tail = Seq::<FirewallRule>::empty();
        proof {
            assert(sorted.take(pos as int) =~= sorted);
            assert(place(sorted, rules@[n as int]) + tail =~= place(sorted, rules@[n as int]));
        }
        while pos > 0 && comes_before(&rules[n], &rules[order[pos - 1]])
            invariant
                pos <= order@.len(),
                n < rules@.len(),
                forall|i: int| 0 <= i < order@.len() ==> #[trigger] order@[i] < n,
                sorted == at(rules@, order@),
                tail == sorted.skip(pos as int),
                place(sorted, rules@[n as int]) == place(
                    sorted.take(pos as int),
                    rules@[n as int],
                ) + tail,
            decreases pos,
        {
            proof {
                let whole = sorted.take(pos as int);
                assert(whole.last() == rules@[order@[pos - 1] as int]);
                assert(whole.drop_last() =~= sorted.take(pos - 1));
                assert(place(whole.drop_last(), rules@[n as int]).push(whole.last()) + tail
                    =~= place(whole.drop_last(), rules@[n as int]) + (seq![whole.last()] + tail));
                assert(seq![whole.last()] + tail =~= sorted.skip(pos - 1));
                tail = sorted.skip(pos - 1);
            }
            pos = pos - 1;
        }
        proof {
            let whole = sorted.take(pos as int);
            if pos > 0 {
                assert(whole.last() == rules@[order@[pos - 1] as int]);
            }
            assert(place(whole, rules@[n as int]) == whole.push(rules@[n as int]));
            assert(sorted.insert(pos as int, rules@[n as int]) =~= whole.push(rules@[n as int])
                + tail);
            assert(at(rules@, order@.insert(pos as int, n)) =~= sorted.insert(
                pos as int,
                rules@[n as int],
            ));
            assert(rules@.take(n + 1).drop_last() =~= rules@.take(n as int));
        }
        order.insert(pos, n);
        n = n + 1;
    }
    assert(rules@.take(n as int) =~= rules@);
    order
}

/// Whether no rule stands behind one that it comes before.
pub open spec fn is_ordered(rules: Seq<FirewallRule>) -> bool {
    forall|i: int, j: int|
        #![trigger rules[i], rules[j]]
        0 <= i < j < rules.len() ==> !before(rules[j], rules[i])
}

proof fn lemma_before_transitive(a: FirewallRule, b: FirewallRule, c: FirewallRule)
    ensures
        before(a, b) ==> !before(b, a),
        before(a, b) && !before(c, b) ==> before(a, c),
{
    lemma_text_order(a.name@, b.name@, c.name@);
    lemma_text_order(b.name@, c.name@, a.name@);
    lemma_text_order(b.name@, a.name@, c.name@);
}

proof fn lemma_place(sorted: Seq<FirewallRule>, rule: FirewallRule)
    requires
        is_ordered(sorted),
    ensures
        is_ordered(place(sorted, rule)),
        place(sorted, rule).to_multiset() == sorted.to_multiset().insert(rule),
        forall|i: int|
            0 <= i < place(sorted, rule).len() ==> #[trigger] place(sorted, rule)[i] == rule
                || exists|k: int| 0 <= k < sorted.len() && sorted[k] == place(sorted, rule)[i],
    decreases sorted.len(),
{
    broadcast use vstd::seq_lib::group_to_multiset_ensures;

    if sorted.len() > 0 && before(rule, sorted.last()) {
        let short = sorted.drop_last();
        lemma_place(short, rule);
        let placed = place(short, rule);
        assert(sorted =~= short.push(sorted.last()));
        assert forall|i: int| 0 <= i < placed.len() implies !before(
            sorted.last(),
            #[trigger] placed[i],
        ) by {
            if placed[i] == rule {
                lemma_before_transitive(rule, sorted.last(), rule);
            } else {
                let k = choose|k: int| 0 <= k < short.len() && short[k] == placed[i];
                assert(sorted[k] == placed[i]);
                assert(!before(sorted[sorted.len() - 1], sorted[k]));
            }
        }
    } else if sorted.len() > 0 {
        assert forall|i: int| 0 <= i < sorted.len() implies !before(rule, #[trigger] sorted[i]) by {
            if before(rule, sorted[i]) {
                if i < sorted.len() - 1 {
                    assert(!before(sorted[sorted.len() - 1], sorted[i]));
                }
                lemma_before_transitive(rule, sorted[i], sorted.last());
            }
        }
    }
}

/// Ordering loses no rule, adds none and leaves none behind a rule that it comes
/// before.
pub proof fn law_ordered(rules: Seq<FirewallRule>)
    ensures
        is_ordered(ordered(rules)),
        ordered(rules).to_multiset() == rules.to_multiset(),
    decreases rules.len(),
{
    broadcast use vstd::seq_lib::group_to_multiset_ensures;

    if rules.len() > 0 {
        law_ordered(rules.drop_last());
        lemma_place(ordered(rules.drop_last()), rules.last());
        assert(rules =~= rules.drop_last().push(rules.last()));
    } else {
        assert(rules =~= Seq::empty());
    }
}

/// Whether the two rules have the same place in the order.
pub open spec fn tied(a: FirewallRule, b: FirewallRule) -> bool {
    a.priority == b.priority && a.name@ == b.name@
}

proof fn lemma_place_keeps_ties(sorted: Seq<FirewallRule>, rule: FirewallRule, like: FirewallRule)
    ensures
        place(sorted, rule).filter(|r: FirewallRule| tied(r, like)) == sorted.push(rule).filter(
            |r: FirewallRule| tied(r, like),
        ),
    decreases sorted.len(),
{
    let keep = |r: FirewallRule| tied(r, like);
    reveal(Seq::filter);
    if sorted.len() > 0 && before(rule, sorted.last()) {
        let short = sorted.drop_last();
        let last = sorted.last();
        lemma_place_keeps_ties(short, rule, like);
        assert(place(short, rule).push(last).drop_last() =~= place(short, rule));
        assert(sorted.push(rule).drop_last() =~= sorted);
        assert(short.push(rule).drop_last() =~= short);
        lemma_text_order(rule.name@, last.name@, like.name@);
        lemma_text_order(like.name@, like.name@, like.name@);
        assert(!(keep(rule) && keep(last)));
        assert(sorted.filter(keep) == (if keep(last) {
            short.filter(keep).push(last)
        } else {
            short.filter(keep)
        }));
    }
}

/// Ordering keeps rules with the same priority and name in the order in which
/// they were given.
pub proof fn law_ordered_is_stable(rules: Seq<FirewallRule>, like: FirewallRule)
    ensures
        ordered(rules).filter(|r: FirewallRule| tied(r, like)) == rules.filter(
            |r: FirewallRule| tied(r, like),
        ),
    decreases rules.len(),
{
    reveal(Seq::filter);
    if rules.len() > 0 {
        let short = rules.drop_last();
        law_ordered_is_stable(short, like);
        lemma_place_keeps_ties(ordered(short), rules.last(), like);
        assert(ordered(short).push(rules.last()).drop_last() =~= ordered(short));
    }
}

/// In the order of evaluation a lower priority value comes first and, among rules with
/// the same one, an earlier name.
pub proof fn law_lower_priority_comes_first(rules: Seq<FirewallRule>, i: int, j: int)
    requires
        0 <= i < j < ordered(rules).len(),
    ensures
        ordered(rules)[i].priority <= ordered(rules)[j].priority,
        ordered(rules)[i].priority == ordered(rules)[j].priority ==> ordered(rules)[i].name@
            == ordered(rules)[j].name@ || text_lt(
            ordered(rules)[i].name@,
            ordered(rules)[j].name@,
        ),
{
    law_ordered(rules);
    let a = ordered(rules)[i];
    let b = ordered(rules)[j];
    assert(!before(b, a));
    lemma_text_order(a.name@, b.name@, a.name@);
}

} // verus!
