//! Text: sequences of characters, built and compared.

use vstd::prelude::*;

verus! {

/// `String::push`: appends the character.
pub assume_specification[ std::string::String::push ](s: &mut std::string::String, c: char)
    ensures
        final(s)@ == old(s)@.push(c),
;

/// `String::is_empty`: whether the text has no characters.
pub assume_specification[ std::string::String::is_empty ](s: &std::string::String) -> (r: bool)
    ensures
        r == (s@.len() == 0),
;

/// The digit as a character.
pub open spec fn digit(d: nat) -> char {
    (48 + d) as char
}

/// The number in decimal, without leading zeros.
pub open spec fn decimal(n: nat) -> Seq<char>
    decreases n,
{
    if n < 10 {
        seq![digit(n)]
    } else {
        decimal(n / 10).push(digit(n % 10))
    }
}

/// A number in decimal has at least one digit, and only digits.
pub proof fn lemma_decimal_is_digits(n: nat)
    ensures
        decimal(n).len() > 0,
        forall|i: int| 0 <= i < decimal(n).len() ==> 48 <= (#[trigger] decimal(n)[i]) as int <= 57,
    decreases n,
{
    if n >= 10 {
        lemma_decimal_is_digits(n / 10);
    }
}

/// Different numbers differ in decimal.
pub proof fn lemma_decimal_injective(a: nat, b: nat)
    requires
        decimal(a) == decimal(b),
    ensures
        a == b,
    decreases a,
{
    lemma_decimal_is_digits(a / 10);
    lemma_decimal_is_digits(b / 10);
    assert(decimal(a).last() == digit(a % 10) && decimal(b).last() == digit(b % 10));
    assert(digit(a % 10) as int == 48 + a % 10 && digit(b % 10) as int == 48 + b % 10);
    if a >= 10 && b >= 10 {
        assert(decimal(a).drop_last() =~= decimal(a / 10));
        assert(decimal(b).drop_last() =~= decimal(b / 10));
        lemma_decimal_injective(a / 10, b / 10);
    } else if a >= 10 {
        assert(decimal(a).len() == decimal(a / 10).len() + 1);
    } else if b >= 10 {
        assert(decimal(b).len() == decimal(b / 10).len() + 1);
    }
}

/// Appends a number in decimal.
pub fn push_decimal(out: &mut String, n: u64)
    ensures
        final(out)@ == old(out)@ + decimal(n as nat),
    decreases n,
{
    let ghost before = out@;
    if n >= 10 {
        push_decimal(out, n / 10);
    }
    let d: u8 = 48 + (n % 10) as u8;
    out.push(d as char);
    assert(out@ =~= before + decimal(n as nat));
}

/// The number in decimal.
pub fn decimal_text(n: u64) -> (r: String)
    ensures
        r@ == decimal(n as nat),
{
    let mut out: String = String::new();
    push_decimal(&mut out, n);
    assert(out@ =~= decimal(n as nat));
    out
}

/// Both texts are the same, character by character.
pub fn same_text(a: &str, b: &str) -> (r: bool)
    ensures
        r == (a@ == b@),
{
    let x: String = a.to_owned();
    let y: String = b.to_owned();
    x == y
}

/// The characters of a text.
pub fn chars_of(s: &str) -> (r: Vec<char>)
    ensures
        r@ == s@,
{
    let mut out: Vec<char> = Vec::new();
    for c in it: s.chars()
        invariant
            it.seq() == s@,
            out@ == it.seq().take(it.index() as int),
    {
        out.push(c);
        assert(out@ =~= it.seq().take(it.index() + 1));
    }
    assert(out@ =~= s@);
    out
}

/// The text of these characters.
pub fn text_of(chars: &[char]) -> (r: String)
    ensures
        r@ == chars@,
{
    let mut out: String = String::new();
    let mut i: usize = 0;
    while i < chars.len()
        invariant
            i <= chars@.len(),
            out@ == chars@.take(i as int),
        decreases chars@.len() - i,
    {
        out.push(chars[i]);
        i = i + 1;
        assert(out@ =~= chars@.take(i as int));
    }
    assert(out@ =~= chars@);
    out
}

/// The texts one after the other, with a separator between each two.
pub open spec fn joined(parts: Seq<Seq<char>>, separator: Seq<char>) -> Seq<char>
    decreases parts.len(),
{
    if parts.len() == 0 {
        Seq::empty()
    } else if parts.len() == 1 {
        parts[0]
    } else {
        joined(parts.drop_last(), separator) + separator + parts.last()
    }
}

/// Each text as its characters.
pub open spec fn views(parts: Seq<String>) -> Seq<Seq<char>> {
    parts.map_values(|s: String| s@)
}

/// Joins the texts with a separator between each two.
pub fn join(parts: &[String], separator: &str) -> (r: String)
    ensures
        r@ == joined(views(parts@), separator@),
{
    let mut out: String = String::new();
    let mut i: usize = 0;
    while i < parts.len()
        invariant
            i <= parts@.len(),
            out@ == joined(views(parts@).take(i as int), separator@),
        decreases parts@.len() - i,
    {
        let ghost before = views(parts@).take(i as int);
        let ghost after = views(parts@).take(i + 1);
        assert(after.drop_last() =~= before);
        if i > 0 {
            out.append(separator);
        } else {
            assert(before =~= Seq::empty());
        }
        out.append(parts[i].as_str());
        assert(out@ =~= joined(after, separator@));
        i = i + 1;
    }
    assert(views(parts@).take(i as int) =~= views(parts@));
    out
}

/// Whether the first text sorts before the second, character by character.
pub open spec fn text_lt(a: Seq<char>, b: Seq<char>) -> bool
    decreases a.len(),
{
    b.len() > 0 && (a.len() == 0 || (a[0] as int) < (b[0] as int) || (a[0] == b[0] && text_lt(
        a.drop_first(),
        b.drop_first(),
    )))
}

/// Whether the first text sorts before the second.
pub fn text_less(a: &str, b: &str) -> (r: bool)
    ensures
        r == text_lt(a@, b@),
{
    let x: Vec<char> = chars_of(a);
    let y: Vec<char> = chars_of(b);
    let mut i: usize = 0;
    assert(x@.skip(0) =~= a@ && y@.skip(0) =~= b@);
    while i < x.len() && i < y.len() && x[i] == y[i]
        invariant
            i <= x@.len(),
            i <= y@.len(),
            text_lt(a@, b@) == text_lt(x@.skip(i as int), y@.skip(i as int)),
        decreases x@.len() - i,
    {
        assert(x@.skip(i as int).drop_first() =~= x@.skip(i + 1));
        assert(y@.skip(i as int).drop_first() =~= y@.skip(i + 1));
        i = i + 1;
    }
    if i == y.len() {
        false
    } else if i == x.len() {
        true
    } else {
        x[i] < y[i]
    }
}

/// The order of texts has no two texts each before the other, is transitive, and
/// leaves only equal texts without an order.
pub proof fn lemma_text_order(a: Seq<char>, b: Seq<char>, c: Seq<char>)
    ensures
        !text_lt(a, a),
        text_lt(a, b) ==> !text_lt(b, a),
        text_lt(a, b) && text_lt(b, c) ==> text_lt(a, c),
        !text_lt(a, b) && !text_lt(b, a) ==> a == b,
    decreases a.len(),
{
    if a.len() > 0 && b.len() > 0 && c.len() > 0 {
        lemma_text_order(a.drop_first(), b.drop_first(), c.drop_first());
        lemma_text_order(a.drop_first(), a.drop_first(), a.drop_first());
    } else if a.len() > 0 && b.len() > 0 {
        lemma_text_order(a.drop_first(), b.drop_first(), a.drop_first());
    } else if a.len() > 0 {
        lemma_text_order(a.drop_first(), a.drop_first(), a.drop_first());
    }
    if !text_lt(a, b) && !text_lt(b, a) {
        if a.len() > 0 && b.len() > 0 {
            assert(a =~= seq![a[0]] + a.drop_first());
            assert(b =~= seq![b[0]] + b.drop_first());
        } else {
            assert(a =~= b);
        }
    }
}

/// Whether the text has the other one in it at this position.
pub open spec fn found_at(text: Seq<char>, part: Seq<char>, i: int) -> bool {
    0 <= i && i + part.len() <= text.len() && text.subrange(i, i + part.len()) == part
}

/// Whether the text has the other one in it.
pub open spec fn has_part(text: Seq<char>, part: Seq<char>) -> bool {
    exists|i: int| found_at(text, part, i)
}

/// Whether the text has the other one in it.
pub fn contains_text(text: &str, part: &str) -> (r: bool)
    ensures
        r == has_part(text@, part@),
{
    let x: Vec<char> = chars_of(text);
    let y: Vec<char> = chars_of(part);
    let mut i: usize = 0;
    while x.len() - i >= y.len()
        invariant
            x@ == text@,
            y@ == part@,
            i <= x@.len(),
            forall|k: int| 0 <= k < i ==> !found_at(x@, y@, k),
        decreases x@.len() - i,
    {
        let mut j: usize = 0;
        while j < y.len() && x[i + j] == y[j]
            invariant
                i + y@.len() <= x@.len(),
                j <= y@.len(),
                x@.len() <= usize::MAX,
                forall|k: int| 0 <= k < j ==> x@[i + k] == y@[k],
            decreases y@.len() - j,
        {
            j = j + 1;
        }
        if j == y.len() {
            assert(x@.subrange(i as int, i + y@.len()) =~= y@);
            assert(found_at(text@, part@, i as int));
            return true;
        }
        proof {
            if found_at(x@, y@, i as int) {
                assert(x@.subrange(i as int, i + y@.len())[j as int] == x@[i + j]);
            }
        }
        i = i + 1;
    }
    false
}

/// How many line breaks a text has.
pub open spec fn line_breaks(s: Seq<char>) -> nat
    decreases s.len(),
{
    if s.len() == 0 {
        0
    } else {
        line_breaks(s.drop_last()) + if s.last() == '\n' {
            1nat
        } else {
            0
        }
    }
}

/// How many lines a text has: each ends with a line break, which the last one may
/// lack.
pub open spec fn line_count(s: Seq<char>) -> nat {
    line_breaks(s) + if s.len() > 0 && s.last() != '\n' {
        1nat
    } else {
        0
    }
}

/// How many lines a text has.
pub fn count_lines(text: &str) -> (r: usize)
    ensures
        r == line_count(text@),
{
    let chars: Vec<char> = chars_of(text);
    let mut count: usize = 0;
    let mut i: usize = 0;
    while i < chars.len()
        invariant
            i <= chars@.len(),
            count <= i,
            count == line_breaks(chars@.take(i as int)),
            i > 0 && chars@[i - 1] != '\n' ==> count < i,
        decreases chars@.len() - i,
    {
        assert(chars@.take(i + 1).drop_last() =~= chars@.take(i as int));
        if chars[i] == '\n' {
            count = count + 1;
        }
        i = i + 1;
    }
    assert(chars@.take(i as int) =~= chars@);
    if chars.len() > 0 && chars[chars.len() - 1] != '\n' {
        count = count + 1;
    }
    count
}

/// The characters, where there is a text.
pub open spec fn opt_view(s: Option<String>) -> Option<Seq<char>> {
    match s {
        Some(s) => Some(s@),
        None => None,
    }
}

/// A copy of the text, where there is one.
pub fn copy_opt(s: &Option<String>) -> (r: Option<String>)
    ensures
        opt_view(r) == opt_view(*s),
{
    match s {
        Some(s) => Some(s.clone()),
        None => None,
    }
}

/// The parts of a text between the separators.
pub open spec fn split(s: Seq<char>, separator: char) -> Seq<Seq<char>>
    decreases s.len(),
{
    if s.len() == 0 {
        seq![Seq::empty()]
    } else {
        let before = split(s.drop_last(), separator);
        if s.last() == separator {
            before.push(Seq::empty())
        } else {
            before.drop_last().push(before.last().push(s.last()))
        }
    }
}

/// The parts of a text between the separators; there is at least one.
pub fn split_text(text: &str, separator: char) -> (r: Vec<String>)
    ensures
        views(r@) == split(text@, separator),
        r@.len() >= 1,
{
    let chars: Vec<char> = chars_of(text);
    let mut done: Vec<String> = Vec::new();
    let mut current: String = String::new();
    let mut i: usize = 0;
    assert(views(done@).push(current@) =~= split(chars@.take(0), separator));
    while i < chars.len()
        invariant
            i <= chars@.len(),
            views(done@).push(current@) == split(chars@.take(i as int), separator),
        decreases chars@.len() - i,
    {
        let ghost before = split(chars@.take(i as int), separator);
        let ghost done_before = views(done@);
        assert(chars@.take(i + 1).drop_last() =~= chars@.take(i as int));
        assert(before.drop_last() =~= done_before && before.last() == current@);
        if chars[i] == separator {
            done.push(current);
            current = String::new();
            assert(views(done@) =~= before);
            assert(current@ =~= Seq::empty());
        } else {
            current.push(chars[i]);
        }
        i = i + 1;
        assert(views(done@).push(current@) =~= split(chars@.take(i as int), separator));
    }
    assert(chars@.take(i as int) =~= text@);
    done.push(current);
    assert(views(done@) =~= split(text@, separator));
    done
}

/// The separator stands in no part, and the parts with the separator between them
/// are the text.
pub proof fn law_split_parts(s: Seq<char>, separator: char)
    ensures
        split(s, separator).len() >= 1,
        joined(split(s, separator), seq![separator]) == s,
        forall|i: int|
            0 <= i < split(s, separator).len() ==> !(#[trigger] split(s, separator)[i]).contains(
                separator,
            ),
    decreases s.len(),
{
    if s.len() > 0 {
        law_split_parts(s.drop_last(), separator);
        let before = split(s.drop_last(), separator);
        let after = split(s, separator);
        if s.last() == separator {
            assert(after.drop_last() =~= before);
            assert(joined(after, seq![separator]) =~= s);
        } else {
            assert(after.drop_last() =~= before.drop_last());
            assert(joined(after, seq![separator]) =~= joined(before, seq![separator]).push(
                s.last(),
            )) by {
                if before.len() == 1 {
                    assert(after[0] == before[0].push(s.last()));
                }
            }
            assert(joined(after, seq![separator]) =~= s);
            assert forall|i: int| 0 <= i < after.len() implies !(#[trigger] after[i]).contains(
                separator,
            ) by {
                if i == after.len() - 1 {
                    let part = before[i];
                    if after[i].contains(separator) {
                        let k = choose|k: int|
                            0 <= k < after[i].len() && after[i][k] == separator;
                        assert(part[k] == separator);
                        assert(part.contains(separator));
                    }
                } else {
                    assert(after[i] == before[i]);
                }
            }
        }
    }
}

/// Whether the character is one of `0` to `9`.
pub open spec fn is_digit(c: char) -> bool {
    48 <= c as int <= 57
}

/// The number that the digits write.
pub open spec fn digits_value(s: Seq<char>) -> nat
    decreases s.len(),
{
    if s.len() == 0 {
        0
    } else {
        digits_value(s.drop_last()) * 10 + (s.last() as int - 48) as nat
    }
}

/// The digits of a number that may start with a plus sign.
pub open spec fn unsigned_digits(s: Seq<char>) -> Seq<char> {
    if s.len() > 0 && s[0] == '+' {
        s.drop_first()
    } else {
        s
    }
}

/// The number that a text writes in decimal, where it fits in sixteen bits; a plus
/// sign and zeros may stand before it.
pub open spec fn u16_value(s: Seq<char>) -> Option<u16> {
    let digits = unsigned_digits(s);
    if digits.len() > 0 && (forall|i: int| 0 <= i < digits.len() ==> is_digit(#[trigger] digits[i]))
        && digits_value(digits) <= u16::MAX {
        Some(digits_value(digits) as u16)
    } else {
        None
    }
}

proof fn lemma_digits_grow(s: Seq<char>, i: int)
    requires
        0 <= i <= s.len(),
    ensures
        digits_value(s.take(i)) <= digits_value(s),
    decreases s.len() - i,
{
    if i < s.len() {
        lemma_digits_grow(s, i + 1);
        assert(s.take(i + 1).drop_last() =~= s.take(i));
    } else {
        assert(s.take(i) =~= s);
    }
}

/// The number that a text writes in decimal, where it fits in sixteen bits.
pub fn parse_u16(text: &str) -> (r: Option<u16>)
    ensures
        r == u16_value(text@),
{
    let chars: Vec<char> = chars_of(text);
    let start: usize = if chars.len() > 0 && chars[0] == '+' {
        1
    } else {
        0
    };
    let ghost digits = unsigned_digits(text@);
    assert(digits =~= chars@.skip(start as int));
    if chars.len() == start {
        return None;
    }
    let mut value: u32 = 0;
    let mut i: usize = start;
    assert(digits.take(0) =~= Seq::empty());
    while i < chars.len()
        invariant
            start <= i <= chars@.len(),
            start <= 1,
            digits == chars@.skip(start as int),
            digits == unsigned_digits(text@),
            forall|k: int| 0 <= k < i - start ==> is_digit(#[trigger] digits[k]),
            value == digits_value(digits.take(i - start)),
            value <= u16::MAX,
        decreases chars@.len() - i,
    {
        let c: char = chars[i];
        assert(c == digits[i - start]);
        if !('0' <= c && c <= '9') {
            assert(!is_digit(digits[i - start]));
            return None;
        }
        assert(digits.take(i - start + 1).drop_last() =~= digits.take(i - start));
        value = value * 10 + (c as u32 - 48);
        i = i + 1;
        if value > 65535 {
            proof {
                lemma_digits_grow(digits, i - start);
            }
            return None;
        }
    }
    assert(digits.take(i - start) =~= digits);
    Some(value as u16)
}

/// Whether the text stands in the list.
pub fn list_has(list: &[String], text: &str) -> (r: bool)
    ensures
        r == views(list@).contains(text@),
{
    let mut i: usize = 0;
    while i < list.len()
        invariant
            i <= list@.len(),
            forall|k: int| 0 <= k < i ==> (#[trigger] views(list@)[k]) != text@,
        decreases list@.len() - i,
    {
        if same_text(list[i].as_str(), text) {
            assert(views(list@)[i as int] == text@);
            return true;
        }
        assert(views(list@)[i as int] != text@);
        i = i + 1;
    }
    false
}

/// The number in decimal, with a minus sign before a negative one.
pub open spec fn signed_decimal(n: int) -> Seq<char> {
    if n < 0 {
        "-"@ + decimal((-n) as nat)
    } else {
        decimal(n as nat)
    }
}

/// The number in decimal, with a minus sign before a negative one.
pub fn signed_decimal_text(n: i32) -> (r: String)
    ensures
        r@ == signed_decimal(n as int),
{
    if n < 0 {
        let mut out: String = "-".to_owned();
        push_decimal(&mut out, (-(n as i64)) as u64);
        out
    } else {
        decimal_text(n as u64)
    }
}

/// Whether both texts are there and the same, or neither is.
pub fn same_opt(a: &Option<String>, b: &Option<String>) -> (r: bool)
    ensures
        r == (opt_view(*a) == opt_view(*b)),
{
    match (a, b) {
        (Some(a), Some(b)) => same_text(a.as_str(), b.as_str()),
        (None, None) => true,
        _ => false,
    }
}

/// Whether both lists have the same texts in the same order.
pub fn same_list(a: &[String], b: &[String]) -> (r: bool)
    ensures
        r == (views(a@) == views(b@)),
{
    if a.len() != b.len() {
        assert(views(a@).len() != views(b@).len());
        return false;
    }
    let mut i: usize = 0;
    while i < a.len()
        invariant
            i <= a@.len(),
            a@.len() == b@.len(),
            forall|k: int| 0 <= k < i ==> #[trigger] views(a@)[k] == views(b@)[k],
        decreases a@.len() - i,
    {
        assert(views(a@)[i as int] == a@[i as int]@);
        assert(views(b@)[i as int] == b@[i as int]@);
        if !same_text(a[i].as_str(), b[i].as_str()) {
            return false;
        }
        i = i + 1;
    }
    assert(views(a@) =~= views(b@));
    true
}

/// A number in decimal reads back as the number, and as a number of sixteen bits exactly
/// where it is one.
pub proof fn law_decimal_reads_back(n: nat)
    ensures
        digits_value(decimal(n)) == n,
        forall|i: int| 0 <= i < decimal(n).len() ==> is_digit(#[trigger] decimal(n)[i]),
        u16_value(decimal(n)) == (if n <= 65535 {
            Some(n as u16)
        } else {
            None
        }),
    decreases n,
{
    lemma_decimal_is_digits(n);
    if n >= 10 {
        law_decimal_reads_back(n / 10);
        assert(decimal(n).drop_last() =~= decimal(n / 10));
        assert(digit(n % 10) as int == 48 + n % 10);
    } else {
        reveal_with_fuel(digits_value, 2);
        assert(decimal(n).drop_last() =~= Seq::empty());
        assert(digit(n) as int == 48 + n);
    }
    assert(decimal(n)[0] != '+');
    assert(unsigned_digits(decimal(n)) == decimal(n));
}

/// Two texts with a separator between them have the parts of the one and then those of
/// the other.
pub proof fn law_split_of_two(a: Seq<char>, b: Seq<char>, separator: char)
    ensures
        split(a + seq![separator] + b, separator) == split(a, separator) + split(b, separator),
    decreases b.len(),
{
    let s = a + seq![separator] + b;
    law_split_parts(b, separator);
    if b.len() == 0 {
        assert(s.drop_last() =~= a);
        assert(split(b, separator) =~= seq![Seq::empty()]);
        assert(split(s, separator) =~= split(a, separator) + split(b, separator));
    } else {
        let short = b.drop_last();
        law_split_of_two(a, short, separator);
        law_split_parts(short, separator);
        assert(s.drop_last() =~= a + seq![separator] + short);
        let before = split(a, separator) + split(short, separator);
        assert(before.drop_last() =~= split(a, separator) + split(short, separator).drop_last());
        assert(before.last() == split(short, separator).last());
        assert(split(s, separator) =~= split(a, separator) + split(b, separator));
    }
}

/// A text without the separator is its only part.
pub proof fn law_split_of_one(s: Seq<char>, separator: char)
    requires
        !s.contains(separator),
    ensures
        split(s, separator) == seq![s],
    decreases s.len(),
{
    if s.len() > 0 {
        let short = s.drop_last();
        assert(!short.contains(separator)) by {
            if short.contains(separator) {
                let i = choose|i: int| 0 <= i < short.len() && short[i] == separator;
                assert(s[i] == separator);
            }
        }
        law_split_of_one(short, separator);
        assert(s[s.len() - 1] != separator);
        let before = split(short, separator);
        assert(before.drop_last() =~= Seq::empty());
        assert(s =~= short.push(s.last()));
        assert(split(s, separator) =~= seq![s]);
    } else {
        assert(s =~= Seq::empty());
        assert(split(s, separator) =~= seq![s]);
    }
}

/// Texts sort by the first character in which they differ; one that goes on sorts behind
/// one that ends.
pub proof fn law_text_order(start: Seq<char>, x: char, a: Seq<char>, y: char, b: Seq<char>)
    requires
        x != y,
    ensures
        text_lt(start + seq![x] + a, start + seq![y] + b) <==> (x as int) < (y as int),
        text_lt(start, start + seq![y] + b),
        !text_lt(start + seq![y] + b, start),
    decreases start.len(),
{
    let left = start + seq![x] + a;
    let right = start + seq![y] + b;
    if start.len() == 0 {
        assert(left[0] == x && right[0] == y);
    } else {
        let rest = start.drop_first();
        law_text_order(rest, x, a, y, b);
        assert(left.drop_first() =~= rest + seq![x] + a);
        assert(right.drop_first() =~= rest + seq![y] + b);
        assert(left[0] == start[0] && right[0] == start[0]);
    }
}

/// A line break ends a line: a text without one has one line, or none if it is empty,
/// and what stands behind the first line break has a line less.
pub proof fn law_lines(a: Seq<char>, b: Seq<char>)
    requires
        !a.contains('\n'),
    ensures
        line_count(a) == (if a.len() == 0 {
            0nat
        } else {
            1
        }),
        line_count(a + seq!['\n'] + b) == 1 + line_count(b),
    decreases b.len(),
{
    lemma_no_line_breaks(a);
    assert(a.len() > 0 ==> a.contains(a[a.len() - 1]));
    let s = a + seq!['\n'] + b;
    if b.len() == 0 {
        assert(s.drop_last() =~= a);
    } else {
        lemma_line_breaks_add(a + seq!['\n'], b);
        assert((a + seq!['\n']).drop_last() =~= a);
        assert(s.last() == b.last());
    }
}

proof fn lemma_no_line_breaks(a: Seq<char>)
    requires
        !a.contains('\n'),
    ensures
        line_breaks(a) == 0,
    decreases a.len(),
{
    if a.len() > 0 {
        let short = a.drop_last();
        assert(a.contains(a[a.len() - 1]));
        assert(!short.contains('\n')) by {
            if short.contains('\n') {
                let i = choose|i: int| 0 <= i < short.len() && short[i] == '\n';
                assert(a[i] == '\n');
            }
        }
        lemma_no_line_breaks(short);
    }
}

proof fn lemma_line_breaks_add(a: Seq<char>, b: Seq<char>)
    ensures
        line_breaks(a + b) == line_breaks(a) + line_breaks(b),
    decreases b.len(),
{
    if b.len() == 0 {
        assert(a + b =~= a);
    } else {
        lemma_line_breaks_add(a, b.drop_last());
        assert((a + b).drop_last() =~= a + b.drop_last());
    }
}

/// Parts are put together with the separator between each two of them, and nowhere else.
pub proof fn law_joined(parts: Seq<Seq<char>>, part: Seq<char>, separator: Seq<char>)
    ensures
        joined(Seq::<Seq<char>>::empty(), separator) == Seq::<char>::empty(),
        joined(seq![part], separator) == part,
        parts.len() > 0 ==> joined(parts.push(part), separator) == joined(parts, separator)
            + separator + part,
{
    assert(parts.push(part).drop_last() =~= parts);
}

/// A number is written with a minus sign exactly where it is negative, and with the
/// digits of its distance from zero.
pub proof fn law_signed_decimal(n: int)
    ensures
        n >= 0 ==> digits_value(signed_decimal(n)) == n,
        n < 0 ==> signed_decimal(n)[0] == '-' && digits_value(signed_decimal(n).skip(1)) == -n,
{
    reveal_strlit("-");
    if n < 0 {
        law_decimal_reads_back((-n) as nat);
        assert(signed_decimal(n).skip(1) =~= decimal((-n) as nat));
    } else {
        law_decimal_reads_back(n as nat);
    }
}

} // verus!
