//! Labels in one text, the same for the same labels wherever it is written.

use vstd::prelude::*;
use vstd::relations::{sorted_by, total_ordering};

use crate::text::{join, joined, lemma_text_order, text_less, text_lt, views};

verus! {

/// The text of the bytes in the standard base64 alphabet, padded.
pub uninterp spec fn base64_text(text: Seq<char>) -> Seq<char>;

/// `base64::Engine::encode` of the `STANDARD` engine: what it writes for the
/// text's bytes.
#[verifier::external_body]
pub(crate) fn encode_base64(text: &str) -> (r: String)
    ensures
        r@ == base64_text(text@),
{
    base64::Engine::encode(&base64::engine::general_purpose::STANDARD, text)
}

/// A label's name and value.
pub type LabelView = (Seq<char>, Seq<char>);

/// Each label as characters.
pub open spec fn label_views(labels: Seq<(String, String)>) -> Seq<LabelView> {
    labels.map_values(|l: (String, String)| (l.0@, l.1@))
}

/// A label put in its place among labels in order of their names.
pub open spec fn place(sorted: Seq<LabelView>, label: LabelView) -> Seq<LabelView>
    decreases sorted.len(),
{
    if sorted.len() > 0 && text_lt(label.0, sorted.last().0) {
        place(sorted.drop_last(), label).push(sorted.last())
    } else {
        sorted.push(label)
    }
}

/// The labels in order of their names.
pub open spec fn by_name(labels: Seq<LabelView>) -> Seq<LabelView>
    decreases labels.len(),
{
    if labels.len() == 0 {
        Seq::empty()
    } else {
        place(by_name(labels.drop_last()), labels.last())
    }
}

/// A label as `name=value`.
pub open spec fn label_text(label: LabelView) -> Seq<char> {
    label.0 + "="@ + label.1
}

/// The labels as `name=value`, in order of their names, with commas between them.
pub open spec fn labels_text(labels: Seq<LabelView>) -> Seq<char> {
    joined(by_name(labels).map_values(|l: LabelView| label_text(l)), ","@)
}

spec fn at(labels: Seq<(String, String)>, order: Seq<usize>) -> Seq<LabelView> {
    order.map_values(|i: usize| (labels[i as int].0@, labels[i as int].1@))
}

fn name_order(labels: &Vec<(String, String)>) -> (r: Vec<usize>)
    ensures
        forall|i: int| 0 <= i < r@.len() ==> #[trigger] r@[i] < labels@.len(),
        at(labels@, r@) == by_name(label_views(labels@)),
{
    let ghost all = label_views(labels@);
    let mut order: Vec<usize> = Vec::new();
    let mut n: usize = 0;
    assert(at(labels@, order@) =~= by_name(all.take(0)));
    while n < labels.len()
        invariant
            n <= labels@.len(),
            all == label_views(labels@),
            forall|i: int| 0 <= i < order@.len() ==> #[trigger] order@[i] < n,
            at(labels@, order@) == by_name(all.take(n as int)),
        decreases labels@.len() - n,
    {
        let mut pos: usize = order.len();
        let ghost sorted = at(labels@, order@);
        let ghost new = all[n as int];
        let ghost tail = Seq::<LabelView>::empty();
        proof {
            assert(sorted.take(pos as int) =~= sorted);
            assert(place(sorted, new) + tail =~= place(sorted, new));
        }
        while pos > 0 && text_less(labels[n].0.as_str(), labels[order[pos - 1]].0.as_str())
            invariant
                pos <= order@.len(),
                n < labels@.len(),
                new == (labels@[n as int].0@, labels@[n as int].1@),
                forall|i: int| 0 <= i < order@.len() ==> #[trigger] order@[i] < n,
                sorted == at(labels@, order@),
                tail == sorted.skip(pos as int),
                place(sorted, new) == place(sorted.take(pos as int), new) + tail,
            decreases pos,
        {
            proof {
                let whole = sorted.take(pos as int);
                assert(whole.last().0 == labels@[order@[pos - 1] as int].0@);
                assert(whole.drop_last() =~= sorted.take(pos - 1));
                assert(place(whole.drop_last(), new).push(whole.last()) + tail =~= place(
                    whole.drop_last(),
                    new,
                ) + (seq![whole.last()] + tail));
                assert(seq![whole.last()] + tail =~= sorted.skip(pos - 1));
                tail = sorted.skip(pos - 1);
            }
            pos = pos - 1;
        }
        proof {
            let whole = sorted.take(pos as int);
            if pos > 0 {
                assert(whole.last().0 == labels@[order@[pos - 1] as int].0@);
            }
            assert(place(whole, new) == whole.push(new));
            assert(sorted.insert(pos as int, new) =~= whole.push(new) + tail);
            assert(at(labels@, order@.insert(pos as int, n)) =~= sorted.insert(pos as int, new));
            assert(all.take(n + 1).drop_last() =~= all.take(n as int));
        }
        order.insert(pos, n);
        n = n + 1;
    }
    assert(all.take(n as int) =~= all);
    order
}

/// The labels in one text, in base64.
pub fn encode_labels(labels: &Vec<(String, String)>) -> (r: String)
    ensures
        r@ == base64_text(labels_text(label_views(labels@))),
{
    let order: Vec<usize> = name_order(labels);
    let ghost sorted = by_name(label_views(labels@));
    let ghost texts = sorted.map_values(|l: LabelView| label_text(l));
    let mut parts: Vec<String> = Vec::new();
    let mut i: usize = 0;
    while i < order.len()
        invariant
            i <= order@.len(),
            forall|k: int| 0 <= k < order@.len() ==> #[trigger] order@[k] < labels@.len(),
            sorted == at(labels@, order@),
            texts == sorted.map_values(|l: LabelView| label_text(l)),
            views(parts@) == texts.take(i as int),
        decreases order@.len() - i,
    {
        let label: &(String, String) = &labels[order[i]];
        let mut part: String = label.0.clone();
        part.append("=");
        part.append(label.1.as_str());
        let ghost before = views(parts@);
        assert(part@ =~= texts[i as int]);
        parts.push(part);
        assert(views(parts@) =~= before.push(texts[i as int]));
        i = i + 1;
        assert(views(parts@) =~= texts.take(i as int));
    }
    assert(texts.take(i as int) =~= texts);
    encode_base64(join(parts.as_slice(), ",").as_str())
}

/// No two labels have the same name.
pub open spec fn distinct_names(labels: Seq<LabelView>) -> bool {
    forall|i: int, j: int|
        #![trigger labels[i], labels[j]]
        0 <= i < j < labels.len() ==> labels[i].0 != labels[j].0
}

spec fn not_after(a: LabelView, b: LabelView) -> bool {
    text_lt(a.0, b.0) || (a.0 == b.0 && !text_lt(b.1, a.1))
}

proof fn lemma_not_after_is_total()
    ensures
        total_ordering(|a: LabelView, b: LabelView| not_after(a, b)),
{
    let leq = |a: LabelView, b: LabelView| not_after(a, b);
    assert forall|x: LabelView| #[trigger] leq(x, x) by {
        lemma_text_order(x.1, x.1, x.1);
    }
    assert forall|x: LabelView, y: LabelView| #[trigger] leq(x, y) && #[trigger] leq(y, x) implies x
        == y by {
        lemma_text_order(x.0, y.0, x.0);
        lemma_text_order(x.1, y.1, x.1);
    }
    assert forall|x: LabelView, y: LabelView, z: LabelView| #[trigger]
        leq(x, y) && #[trigger] leq(y, z) implies leq(x, z) by {
        lemma_text_order(x.0, y.0, z.0);
        lemma_text_order(x.1, y.1, z.1);
        lemma_text_order(z.1, y.1, x.1);
        lemma_text_order(z.1, x.1, y.1);
        lemma_text_order(y.1, z.1, x.1);
    }
    assert forall|x: LabelView, y: LabelView| #[trigger] leq(x, y) || #[trigger] leq(y, x) by {
        lemma_text_order(x.0, y.0, x.0);
        lemma_text_order(x.1, y.1, x.1);
    }
}

spec fn increasing(labels: Seq<LabelView>) -> bool {
    forall|i: int, j: int|
        #![trigger labels[i], labels[j]]
        0 <= i < j < labels.len() ==> text_lt(labels[i].0, labels[j].0)
}

proof fn lemma_place(sorted: Seq<LabelView>, label: LabelView)
    requires
        increasing(sorted),
        forall|i: int| 0 <= i < sorted.len() ==> (#[trigger] sorted[i]).0 != label.0,
    ensures
        increasing(place(sorted, label)),
        place(sorted, label).to_multiset() == sorted.to_multiset().insert(label),
        forall|i: int|
            0 <= i < place(sorted, label).len() ==> #[trigger] place(sorted, label)[i] == label
                || exists|k: int| 0 <= k < sorted.len() && sorted[k] == place(sorted, label)[i],
    decreases sorted.len(),
{
    broadcast use vstd::seq_lib::group_to_multiset_ensures;

    if sorted.len() > 0 && text_lt(label.0, sorted.last().0) {
        let short = sorted.drop_last();
        lemma_place(short, label);
        let placed = place(short, label);
        assert(sorted =~= short.push(sorted.last()));
        assert forall|i: int| 0 <= i < placed.len() implies text_lt(
            (#[trigger] placed[i]).0,
            sorted.last().0,
        ) by {
            if placed[i] != label {
                let k = choose|k: int| 0 <= k < short.len() && short[k] == placed[i];
                assert(text_lt(sorted[k].0, sorted[sorted.len() - 1].0));
            }
        }
    } else if sorted.len() > 0 {
        assert forall|i: int| 0 <= i < sorted.len() implies text_lt(
            (#[trigger] sorted[i]).0,
            label.0,
        ) by {
            let last = sorted.last();
            lemma_text_order(label.0, last.0, label.0);
            assert(sorted[sorted.len() - 1].0 != label.0);
            lemma_text_order(sorted[i].0, last.0, label.0);
        }
    }
}

proof fn lemma_by_name(labels: Seq<LabelView>)
    requires
        distinct_names(labels),
    ensures
        increasing(by_name(labels)),
        by_name(labels).to_multiset() == labels.to_multiset(),
    decreases labels.len(),
{
    broadcast use vstd::seq_lib::group_to_multiset_ensures;

    if labels.len() > 0 {
        let short = labels.drop_last();
        assert(distinct_names(short)) by {
            assert forall|i: int, j: int|
                #![trigger short[i], short[j]]
                0 <= i < j < short.len() implies short[i].0 != short[j].0 by {
                assert(labels[i].0 != labels[j].0);
            }
        }
        lemma_by_name(short);
        let sorted = by_name(short);
        assert forall|i: int| 0 <= i < sorted.len() implies (#[trigger] sorted[i]).0
            != labels.last().0 by {
            assert(sorted.to_multiset().contains(sorted[i]));
            assert(short.contains(sorted[i]));
            let k = choose|k: int| 0 <= k < short.len() && short[k] == sorted[i];
            assert(labels[k].0 != labels[labels.len() - 1].0);
        }
        lemma_place(sorted, labels.last());
        assert(labels =~= short.push(labels.last()));
    } else {
        assert(labels =~= Seq::empty());
    }
}

/// The same labels, in whatever order they are given, have the same text.
pub proof fn law_label_order_does_not_matter(a: Seq<LabelView>, b: Seq<LabelView>)
    requires
        distinct_names(a),
        distinct_names(b),
        a.to_multiset() == b.to_multiset(),
    ensures
        labels_text(a) == labels_text(b),
{
    let leq = |x: LabelView, y: LabelView| not_after(x, y);
    lemma_not_after_is_total();
    lemma_by_name(a);
    lemma_by_name(b);
    assert(sorted_by(by_name(a), leq));
    assert(sorted_by(by_name(b), leq));
    vstd::seq_lib::lemma_sorted_unique(by_name(a), by_name(b), leq);
}

/// A label is its name, an equals sign and its value; two labels stand with a comma
/// between them, the one whose name sorts first before the other.
pub proof fn law_labels_as_text(a: LabelView, b: LabelView)
    requires
        text_lt(a.0, b.0),
    ensures
        labels_text(Seq::<LabelView>::empty()) == Seq::<char>::empty(),
        labels_text(seq![a]) == a.0 + seq!['='] + a.1,
        labels_text(seq![a, b]) == a.0 + seq!['='] + a.1 + seq![','] + b.0 + seq!['='] + b.1,
        labels_text(seq![b, a]) == labels_text(seq![a, b]),
{
    reveal_strlit("=");
    reveal_strlit(",");
    assert("="@ =~= seq!['=']);
    assert(","@ =~= seq![',']);
    lemma_text_order(a.0, b.0, a.0);
    let text = |l: LabelView| label_text(l);
    reveal_with_fuel(by_name, 3);
    reveal_with_fuel(place, 3);
    reveal_with_fuel(joined, 3);
    assert(seq![a].drop_last() =~= Seq::empty());
    assert(by_name(seq![a]) =~= seq![a]);
    assert(seq![b].drop_last() =~= Seq::empty());
    assert(by_name(seq![b]) =~= seq![b]);
    assert(seq![a].map_values(text) =~= seq![label_text(a)]);
    assert(seq![a, b].drop_last() =~= seq![a]);
    assert(by_name(seq![a, b]) =~= seq![a, b]);
    assert(seq![b, a].drop_last() =~= seq![b]);
    assert(place(seq![b], a) =~= seq![a, b]);
    assert(by_name(seq![b, a]) =~= seq![a, b]);
    let both = seq![a, b].map_values(text);
    assert(both =~= seq![label_text(a), label_text(b)]);
    assert(both.drop_last() =~= seq![label_text(a)]);
    assert(labels_text(seq![a]) =~= a.0 + seq!['='] + a.1);
    assert(labels_text(seq![a, b]) =~= a.0 + seq!['='] + a.1 + seq![','] + b.0 + seq!['='] + b.1);
    let none = Seq::<LabelView>::empty();
    assert(by_name(none).map_values(text) =~= Seq::<Seq<char>>::empty());
    assert(labels_text(none) =~= Seq::<char>::empty());
}

/// All labels are in the text, each once, in order of their names.
pub proof fn law_labels_are_listed_by_name(labels: Seq<LabelView>)
    requires
        distinct_names(labels),
    ensures
        exists|listed: Seq<LabelView>|
            {
                &&& #[trigger] listed.to_multiset() == labels.to_multiset()
                &&& forall|i: int, j: int|
                    0 <= i < j < listed.len() ==> text_lt(
                        (#[trigger] listed[i]).0,
                        (#[trigger] listed[j]).0,
                    )
                &&& labels_text(labels) == joined(
                    listed.map_values(|l: LabelView| l.0 + seq!['='] + l.1),
                    seq![','],
                )
            },
{
    reveal_strlit("=");
    reveal_strlit(",");
    assert("="@ =~= seq!['=']);
    assert(","@ =~= seq![',']);
    lemma_by_name(labels);
    let listed = by_name(labels);
    assert(listed.map_values(|l: LabelView| l.0 + seq!['='] + l.1) =~= listed.map_values(
        |l: LabelView| label_text(l),
    ));
    assert(listed.to_multiset() == labels.to_multiset());
}

} // verus!
