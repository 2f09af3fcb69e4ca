//! Lines as words: how the netfilter tools take a line apart.

use vstd::prelude::*;

use crate::text::{joined, law_split_of_one, law_split_of_two, split};

verus! {

/// The words of a line.
pub open spec fn words(line: Seq<char>) -> Seq<Seq<char>> {
    split(line, ' ')
}

/// The words of lines, one after the other.
pub open spec fn words_of(parts: Seq<Seq<char>>) -> Seq<Seq<char>>
    decreases parts.len(),
{
    if parts.len() == 0 {
        Seq::empty()
    } else {
        words_of(parts.drop_last()) + words(parts.last())
    }
}

/// Parts with blanks between them have the words of one part after the other.
pub proof fn lemma_words_of_joined(parts: Seq<Seq<char>>)
    requires
        parts.len() > 0,
    ensures
        words(joined(parts, " "@)) == words_of(parts),
    decreases parts.len(),
{
    reveal_strlit(" ");
    assert(" "@ =~= seq![' ']);
    if parts.len() == 1 {
        reveal_with_fuel(words_of, 2);
        assert(words_of(parts) =~= words(parts[0]));
    } else {
        lemma_words_of_joined(parts.drop_last());
        law_split_of_two(joined(parts.drop_last(), " "@), parts.last(), ' ');
    }
}

/// The words of two lists of parts are those of the one and then those of the other.
pub proof fn lemma_words_of_two(a: Seq<Seq<char>>, b: Seq<Seq<char>>)
    ensures
        words_of(a + b) == words_of(a) + words_of(b),
    decreases b.len(),
{
    if b.len() == 0 {
        assert(a + b =~= a);
        assert(words_of(a) + words_of(b) =~= words_of(a));
    } else {
        lemma_words_of_two(a, b.drop_last());
        assert((a + b).drop_last() =~= a + b.drop_last());
        assert(words_of(a + b) =~= words_of(a) + words_of(b));
    }
}

/// A text without a blank is one word.
pub proof fn lemma_one_word(w: Seq<char>)
    requires
        !w.contains(' '),
    ensures
        words(w) == seq![w],
{
    law_split_of_one(w, ' ');
}

/// Two texts with a blank between them have the words of both.
pub proof fn lemma_words_add(a: Seq<char>, b: Seq<char>)
    ensures
        words(a + " "@ + b) == words(a) + words(b),
{
    reveal_strlit(" ");
    assert(" "@ =~= seq![' ']);
    law_split_of_two(a, b, ' ');
}

/// A value in a list or alone: a text without blanks that begins and ends as names,
/// numbers and addresses do.
pub open spec fn is_value(w: Seq<char>) -> bool {
    &&& w.len() > 0
    &&& !w.contains(' ')
    &&& w[0] != '{' && w[0] != '}' && w[0] != '!' && w[0] != '@' && w[0] != '-'
    &&& w[w.len() - 1] != ','
}

/// The values of a list as they stand in it: a comma behind each but the last.
pub open spec fn listed(values: Seq<Seq<char>>) -> Seq<Seq<char>> {
    Seq::new(
        values.len(),
        |i: int|
            if i + 1 < values.len() {
                values[i].push(',')
            } else {
                values[i]
            },
    )
}

/// The words of values with commas and blanks between them.
pub proof fn lemma_words_of_list(values: Seq<Seq<char>>)
    requires
        values.len() > 0,
        forall|i: int| 0 <= i < values.len() ==> is_value(#[trigger] values[i]),
    ensures
        words(joined(values, ", "@)) == listed(values),
    decreases values.len(),
{
    if values.len() == 1 {
        lemma_one_word(values[0]);
        assert(listed(values) =~= seq![values[0]]);
    } else {
        let short = values.drop_last();
        let last = values.last();
        assert forall|i: int| 0 <= i < short.len() implies is_value(#[trigger] short[i]) by {
            assert(short[i] == values[i]);
        }
        lemma_words_of_list(short);
        lemma_list_with_comma(short);
        lemma_one_word(last);
        reveal_strlit(", ");
        reveal_strlit(" ");
        let before = joined(short, ", "@);
        assert(before + ", "@ + last =~= before.push(',') + " "@ + last);
        lemma_words_add(before.push(','), last);
        assert(listed(values) =~= listed(short).drop_last().push(short.last().push(',')).push(
            last,
        ));
        assert(words(joined(values, ", "@)) =~= listed(values));
    }
}

proof fn lemma_list_with_comma(values: Seq<Seq<char>>)
    requires
        values.len() > 0,
        words(joined(values, ", "@)) == listed(values),
    ensures
        words(joined(values, ", "@).push(',')) == listed(values).drop_last().push(
            values.last().push(','),
        ),
{
    let text = joined(values, ", "@);
    assert(text.push(',').drop_last() =~= text);
    assert(listed(values).last() == values.last());
}

} // verus!
