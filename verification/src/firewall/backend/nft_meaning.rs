//! What the lines for nftables mean: which packets a line takes, and what it does to
//! them.
//!
//! A line is read word by word. An expression names a field of the packet and what it
//! must be, one value or a list of values in braces; a line takes the packets of which
//! all its expressions hold, and its verdict stands behind them.

use vstd::prelude::*;

use super::nft::{
    address_parts, address_sets, any_passes, chains_of, declared_sets, dests_out, ending, families,
    flat_passes, flats_out, flattened, group_parts, law_families_keep_meaning,
    law_flattening_keeps_meaning, law_set_names_are_unique, line_family, net_texts, of_family,
    pair_out, ports_text, range_text, refine_all, refine_by_clause, rule_out, rules_out, set_name,
    sources_out, verdict_text, NftFlat, SetModel, NAMED_SET_THRESHOLD,
};
use super::super::order::ordered;
use super::super::types::{
    address_passes, clauses_pass, port_passes, separate_dimensions, Direction, FirewallMatch,
    FirewallProtocol, FirewallRule, Packet, PortGroup, PortRange, RuleAction, RuleSet,
};
use super::words::{
    is_value, lemma_one_word, lemma_words_add, lemma_words_of_joined, lemma_words_of_list,
    lemma_words_of_two, listed, words, words_of,
};
use super::Stage;
use crate::net::{lies_in, IpAddr, IpNet};
use crate::rbac::meaning::law_addresses_are_held_by_their_blocks;
use crate::text::{
    decimal, digits_value, is_digit, joined, law_decimal_reads_back, law_split_of_one,
    law_split_of_two, lemma_decimal_is_digits, split,
};

verus! {

/// How a network's text is read: which addresses it holds.
pub type NetReader = spec_fn(Seq<char>, IpAddr) -> bool;

/// The reader reads the text of every network as that network.
pub open spec fn reads_networks(reader: NetReader) -> bool {
    forall|net: IpNet| #[trigger]
        is_value(net.shown()) && forall|ip: IpAddr| #[trigger]
            reader(net.shown(), ip) == lies_in(ip, net)
}

/// Whether the packet is of IPv4.
pub open spec fn is_v4(packet: Packet) -> bool {
    packet.dest is V4
}

/// A packet has two addresses of one family.
pub open spec fn is_packet(packet: Packet) -> bool {
    packet.source is V4 <==> packet.dest is V4
}

/// Whether a word names the packet's protocol. ICMP is another protocol in IPv6.
pub open spec fn names_protocol(word: Seq<char>, packet: Packet) -> bool {
    ||| word == "tcp"@ && packet.protocol is Tcp
    ||| word == "udp"@ && packet.protocol is Udp
    ||| word == "sctp"@ && packet.protocol is Sctp
    ||| word == "icmp"@ && packet.protocol is Icmp && is_v4(packet)
    ||| word == "ipv6-icmp"@ && packet.protocol is Icmp && !is_v4(packet)
}

/// Whether a word names a header with ports that the packet has: that of a protocol, or
/// whichever it is.
pub open spec fn names_header(word: Seq<char>, packet: Packet) -> bool {
    ||| word == "udp"@ && packet.protocol is Udp
    ||| word == "sctp"@ && packet.protocol is Sctp
    ||| word == "tcp"@ && packet.protocol is Tcp
    ||| word == "th"@ && (packet.protocol is Udp || packet.protocol is Sctp
        || packet.protocol is Tcp)
}

/// Whether a word writes the port, or a range with the port in it.
pub open spec fn writes_port(word: Seq<char>, port: u16) -> bool {
    let ends = split(word, '-');
    ||| ends.len() == 1 && digits_value(ends[0]) == port
    ||| ends.len() == 2 && digits_value(ends[0]) <= port <= digits_value(ends[1])
}

/// Whether a word writes a network, or a declared set of networks, with the address in
/// it.
pub open spec fn writes_address(
    word: Seq<char>,
    sets: Seq<SetModel>,
    reader: NetReader,
    ip: IpAddr,
) -> bool {
    if word.len() > 0 && word[0] == '@' {
        exists|i: int|
            0 <= i < sets.len() && #[trigger] set_holds(sets[i], word.skip(1), reader, ip)
    } else {
        reader(word, ip)
    }
}

/// Whether the set has this name, the address's family and the address.
pub open spec fn set_holds(set: SetModel, name: Seq<char>, reader: NetReader, ip: IpAddr) -> bool {
    &&& set.name == name
    &&& set.is_v4 <==> ip is V4
    &&& exists|k: int| 0 <= k < set.elements.len() && reader(#[trigger] set.elements[k], ip)
}

/// A word without the comma behind it.
pub open spec fn bare(word: Seq<char>) -> Seq<char> {
    if word.len() > 0 && word[word.len() - 1] == ',' {
        word.take(word.len() - 1)
    } else {
        word
    }
}

/// The values up to the closing brace.
pub open spec fn values_in(words: Seq<Seq<char>>) -> Seq<Seq<char>>
    decreases words.len(),
{
    if words.len() == 0 || words[0] == "}"@ {
        Seq::empty()
    } else {
        seq![bare(words[0])] + values_in(words.drop_first())
    }
}

/// The words behind the closing brace.
pub open spec fn behind_brace(words: Seq<Seq<char>>) -> Seq<Seq<char>>
    decreases words.len(),
{
    if words.len() == 0 {
        words
    } else if words[0] == "}"@ {
        words.drop_first()
    } else {
        behind_brace(words.drop_first())
    }
}

/// The values that an expression allows: those in braces, or the one that stands there.
pub open spec fn values(words: Seq<Seq<char>>) -> Seq<Seq<char>> {
    if words.len() > 0 && words[0] == "{"@ {
        values_in(words.drop_first())
    } else {
        words.take(1)
    }
}

/// The words behind the values of an expression.
pub open spec fn behind(words: Seq<Seq<char>>) -> Seq<Seq<char>> {
    if words.len() > 0 && words[0] == "{"@ {
        behind_brace(words.drop_first())
    } else if words.len() > 0 {
        words.skip(1)
    } else {
        words
    }
}

/// Whether the field of the packet that two words name has the value.
pub open spec fn field_is(
    first: Seq<char>,
    second: Seq<char>,
    value: Seq<char>,
    sets: Seq<SetModel>,
    reader: NetReader,
    packet: Packet,
) -> bool {
    if first == "meta"@ && second == "l4proto"@ {
        names_protocol(value, packet)
    } else if first == "ip"@ && second == "protocol"@ {
        is_v4(packet) && names_protocol(value, packet)
    } else if second == "dport"@ {
        names_header(first, packet) && writes_port(value, packet.dest_port)
    } else if second == "saddr"@ {
        (first == "ip"@ && packet.source is V4 || first == "ip6"@ && packet.source is V6)
            && writes_address(value, sets, reader, packet.source)
    } else if second == "daddr"@ {
        (first == "ip"@ && packet.dest is V4 || first == "ip6"@ && packet.dest is V6)
            && writes_address(value, sets, reader, packet.dest)
    } else {
        false
    }
}

/// Whether one of the values is that of the field.
pub open spec fn field_is_one(
    first: Seq<char>,
    second: Seq<char>,
    values: Seq<Seq<char>>,
    sets: Seq<SetModel>,
    reader: NetReader,
    packet: Packet,
) -> bool {
    exists|i: int|
        0 <= i < values.len() && field_is(
            first,
            second,
            #[trigger] values[i],
            sets,
            reader,
            packet,
        )
}

/// Whether a word is a verdict.
pub open spec fn is_verdict(word: Seq<char>) -> bool {
    word == "accept"@ || word == "reject"@ || word == "return"@
}

/// Whether the words are at an expression: two that name a field, and its values.
pub open spec fn at_expression(words: Seq<Seq<char>>) -> bool {
    words.len() >= 3 && !is_verdict(words[0])
}

/// Whether all expressions hold of the packet, up to the verdict.
pub open spec fn all_hold(
    words: Seq<Seq<char>>,
    sets: Seq<SetModel>,
    reader: NetReader,
    packet: Packet,
) -> bool
    decreases words.len(),
{
    if !at_expression(words) {
        words.len() > 0 && is_verdict(words[0])
    } else if words[2] == "!="@ {
        words.len() >= 4 && !field_is(words[0], words[1], words[3], sets, reader, packet)
            && all_hold(words.skip(4), sets, reader, packet)
    } else {
        proof {
            lemma_behind_is_shorter(words.skip(2));
        }
        field_is_one(words[0], words[1], values(words.skip(2)), sets, reader, packet)
            && all_hold(behind(words.skip(2)), sets, reader, packet)
    }
}

/// The words from the verdict on.
pub open spec fn at_verdict(words: Seq<Seq<char>>) -> Seq<Seq<char>>
    decreases words.len(),
{
    if !at_expression(words) {
        words
    } else if words[2] == "!="@ {
        if words.len() >= 4 {
            at_verdict(words.skip(4))
        } else {
            Seq::empty()
        }
    } else {
        proof {
            lemma_behind_is_shorter(words.skip(2));
        }
        at_verdict(behind(words.skip(2)))
    }
}

/// Whether a line takes the packet.
pub open spec fn takes(
    line: Seq<char>,
    sets: Seq<SetModel>,
    reader: NetReader,
    packet: Packet,
) -> bool {
    all_hold(words(line), sets, reader, packet)
}

proof fn lemma_behind_brace_is_shorter(words: Seq<Seq<char>>)
    ensures
        behind_brace(words).len() <= words.len(),
    decreases words.len(),
{
    if words.len() > 0 && words[0] != "}"@ {
        lemma_behind_brace_is_shorter(words.drop_first());
    }
}

pub proof fn lemma_behind_is_shorter(words: Seq<Seq<char>>)
    ensures
        behind(words).len() <= words.len(),
{
    if words.len() > 0 {
        lemma_behind_brace_is_shorter(words.drop_first());
    }
}

proof fn lemma_values_of_list(values: Seq<Seq<char>>, rest: Seq<Seq<char>>)
    requires
        forall|i: int| 0 <= i < values.len() ==> is_value(#[trigger] values[i]),
    ensures
        values_in(listed(values) + seq!["}"@] + rest) == values,
        behind_brace(listed(values) + seq!["}"@] + rest) == rest,
    decreases values.len(),
{
    reveal_strlit("}");
    let all = listed(values) + seq!["}"@] + rest;
    if values.len() == 0 {
        assert(all[0] == "}"@);
        assert(all.drop_first() =~= rest);
        assert(values_in(all) =~= values);
    } else {
        let more = values.drop_first();
        assert forall|i: int| 0 <= i < more.len() implies is_value(#[trigger] more[i]) by {
            assert(more[i] == values[i + 1]);
        }
        lemma_values_of_list(more, rest);
        assert(is_value(values[0]));
        let first = all[0];
        assert(first == listed(values)[0]);
        assert(bare(first) =~= values[0]);
        assert(first[0] == values[0][0]);
        assert("}"@[0] == '}');
        assert(first != "}"@);
        assert(listed(values).drop_first() =~= listed(more));
        assert(all.drop_first() =~= listed(more) + seq!["}"@] + rest);
        assert(values_in(all) =~= values);
    }
}

/// One value: the words that write it and what is read in them.
proof fn lemma_alone(value: Seq<char>, rest: Seq<Seq<char>>)
    requires
        value.len() > 0,
        value[0] != '{',
    ensures
        values(seq![value] + rest) == seq![value],
        behind(seq![value] + rest) == rest,
{
    reveal_strlit("{");
    let all = seq![value] + rest;
    assert(all[0] == value);
    assert("{"@[0] == '{');
    assert(all.take(1) =~= seq![value]);
    assert(all.skip(1) =~= rest);
}

/// Values in braces: the words that write them and what is read in them.
proof fn lemma_in_braces(list: Seq<Seq<char>>, rest: Seq<Seq<char>>)
    requires
        list.len() > 0,
        forall|i: int| 0 <= i < list.len() ==> is_value(#[trigger] list[i]),
    ensures
        ({
            let written = words("{ "@ + joined(list, ", "@) + " }"@);
            &&& written == seq!["{"@] + listed(list) + seq!["}"@]
            &&& values(written + rest) == list
            &&& behind(written + rest) == rest
        }),
{
    reveal_strlit("{ ");
    reveal_strlit(" }");
    reveal_strlit("{");
    reveal_strlit("}");
    reveal_strlit(" ");
    let inner = joined(list, ", "@);
    lemma_words_of_list(list);
    lemma_words_add("{"@, inner + " "@ + "}"@);
    lemma_words_add(inner, "}"@);
    assert(!"{"@.contains(' '));
    assert(!"}"@.contains(' '));
    lemma_one_word("{"@);
    lemma_one_word("}"@);
    assert("{ "@ + inner + " }"@ =~= "{"@ + " "@ + (inner + " "@ + "}"@));
    let written = words("{ "@ + inner + " }"@);
    assert(written =~= seq!["{"@] + listed(list) + seq!["}"@]);
    lemma_values_of_list(list, rest);
    let all = written + rest;
    assert(all[0] == "{"@);
    assert(all.drop_first() =~= listed(list) + seq!["}"@] + rest);
}

/// An expression in front of words: whether all hold is whether it holds and the rest do.
proof fn lemma_expression(
    first: Seq<char>,
    second: Seq<char>,
    operand: Seq<Seq<char>>,
    list: Seq<Seq<char>>,
    rest: Seq<Seq<char>>,
    sets: Seq<SetModel>,
    reader: NetReader,
    packet: Packet,
)
    requires
        !is_verdict(first),
        operand.len() > 0,
        operand[0] != "!="@,
        values(operand + rest) == list,
        behind(operand + rest) == rest,
    ensures
        all_hold(seq![first, second] + operand + rest, sets, reader, packet) == (field_is_one(
            first,
            second,
            list,
            sets,
            reader,
            packet,
        ) && all_hold(rest, sets, reader, packet)),
        at_verdict(seq![first, second] + operand + rest) == at_verdict(rest),
{
    let all = seq![first, second] + operand + rest;
    assert(all[0] == first && all[1] == second && all[2] == operand[0]);
    assert(all.skip(2) =~= operand + rest);
}

/// The fixed words are told apart.
proof fn lemma_fixed_words()
    ensures
        !is_verdict("meta"@) && !is_verdict("ip"@) && !is_verdict("ip6"@),
        !is_verdict("udp"@) && !is_verdict("sctp"@) && !is_verdict("th"@),
        "ip"@ != "ip6"@ && "ip"@ != "meta"@ && "ip6"@ != "meta"@,
        "udp"@ != "meta"@ && "sctp"@ != "meta"@ && "th"@ != "meta"@,
        "udp"@ != "ip"@ && "sctp"@ != "ip"@ && "th"@ != "ip"@,
        "saddr"@ != "daddr"@ && "saddr"@ != "dport"@ && "daddr"@ != "dport"@,
        "saddr"@ != "protocol"@ && "daddr"@ != "protocol"@ && "dport"@ != "protocol"@,
        "saddr"@ != "l4proto"@ && "daddr"@ != "l4proto"@ && "dport"@ != "l4proto"@,
        "protocol"@ != "l4proto"@,
        "udp"@ != "sctp"@ && "udp"@ != "tcp"@ && "sctp"@ != "tcp"@,
        "th"@ != "udp"@ && "th"@ != "sctp"@ && "th"@ != "tcp"@,
        "icmp"@ != "tcp"@ && "icmp"@ != "udp"@ && "icmp"@ != "sctp"@,
        "ipv6-icmp"@ != "tcp"@ && "ipv6-icmp"@ != "udp"@ && "ipv6-icmp"@ != "sctp"@,
        "ipv6-icmp"@ != "icmp"@,
{
    reveal_strlit("meta");
    reveal_strlit("ip");
    reveal_strlit("ip6");
    reveal_strlit("udp");
    reveal_strlit("sctp");
    reveal_strlit("tcp");
    reveal_strlit("th");
    reveal_strlit("icmp");
    reveal_strlit("ipv6-icmp");
    reveal_strlit("accept");
    reveal_strlit("reject");
    reveal_strlit("return");
    reveal_strlit("saddr");
    reveal_strlit("daddr");
    reveal_strlit("dport");
    reveal_strlit("protocol");
    reveal_strlit("l4proto");
    assert("accept"@.len() == 6 && "reject"@.len() == 6 && "return"@.len() == 6);
    assert("meta"@.len() == 4 && "ip"@.len() == 2 && "ip6"@.len() == 3);
    assert("udp"@.len() == 3 && "sctp"@.len() == 4 && "th"@.len() == 2);
    assert("th"@[0] == 't' && "ip"@[0] == 'i');
    assert("protocol"@.len() == 8 && "l4proto"@.len() == 7);
    assert("icmp"@.len() == 4 && "ipv6-icmp"@.len() == 9);
    assert("sctp"@[0] == 's' && "icmp"@[0] == 'i' && "meta"@[0] == 'm');
    assert("udp"@[0] == 'u' && "tcp"@[0] == 't');
    assert("saddr"@[0] == 's' && "daddr"@[0] == 'd' && "dport"@[0] == 'd');
    assert("daddr"@[1] == 'a' && "dport"@[1] == 'p');
    assert("accept"@[0] == 'a' && "reject"@[2] == 'j' && "return"@[2] == 't');
}

/// A range is read as the ports from its start to its end.
pub proof fn lemma_range_is_read(range: PortRange, port: u16)
    ensures
        is_value(range_text(range)),
        writes_port(range_text(range), port) <==> range.start <= port <= range.end,
        forall|i: int|
            0 <= i < range_text(range).len() ==> is_digit(#[trigger] range_text(range)[i])
                || range_text(range)[i] == '-',
{
    reveal_strlit("-");
    let a = decimal(range.start as nat);
    let b = decimal(range.end as nat);
    lemma_decimal_is_digits(range.start as nat);
    lemma_decimal_is_digits(range.end as nat);
    law_decimal_reads_back(range.start as nat);
    law_decimal_reads_back(range.end as nat);
    assert(!a.contains('-')) by {
        if a.contains('-') {
            let i = choose|i: int| 0 <= i < a.len() && a[i] == '-';
            assert(is_digit(a[i]));
        }
    }
    assert(!b.contains('-')) by {
        if b.contains('-') {
            let i = choose|i: int| 0 <= i < b.len() && b[i] == '-';
            assert(is_digit(b[i]));
        }
    }
    law_split_of_one(a, '-');
    law_split_of_one(b, '-');
    let text = range_text(range);
    if range.start != range.end {
        assert("-"@ =~= seq!['-']);
        law_split_of_two(a, b, '-');
        assert(split(text, '-') =~= seq![a, b]);
        assert forall|i: int| 0 <= i < text.len() implies is_digit(#[trigger] text[i]) || text[i]
            == '-' by {
            if i < a.len() {
                assert(text[i] == a[i]);
            } else if i > a.len() {
                assert(text[i] == b[i - a.len() - 1]);
            }
        }
        assert(text[0] == a[0]);
        assert(text[text.len() - 1] == b[b.len() - 1]);
        assert(is_digit(a[0]) && is_digit(b[b.len() - 1]));
    } else {
        assert(is_digit(text[0]) && is_digit(text[text.len() - 1]));
    }
    if text.contains(' ') {
        let i = choose|i: int| 0 <= i < text.len() && text[i] == ' ';
        assert(is_digit(text[i]) || text[i] == '-');
    }
}

/// The texts of port ranges.
pub open spec fn range_texts(ports: Seq<PortRange>) -> Seq<Seq<char>> {
    ports.map_values(|r: PortRange| range_text(r))
}

/// The match on ports in front of words.
proof fn lemma_ports(
    header: Seq<char>,
    ports: Seq<PortRange>,
    rest: Seq<Seq<char>>,
    sets: Seq<SetModel>,
    reader: NetReader,
    packet: Packet,
)
    requires
        ports.len() > 0,
        header == "udp"@ || header == "sctp"@ || header == "th"@,
    ensures
        all_hold(words(ports_text(header, ports)) + rest, sets, reader, packet) == (names_header(
            header,
            packet,
        ) && port_passes(ports, packet.dest_port) && all_hold(rest, sets, reader, packet)),
        at_verdict(words(ports_text(header, ports)) + rest) == at_verdict(rest),
{
    lemma_fixed_words();
    reveal_strlit("udp");
    reveal_strlit("sctp");
    reveal_strlit("th");
    reveal_strlit(" dport ");
    reveal_strlit(" dport { ");
    reveal_strlit("dport");
    reveal_strlit(" ");
    reveal_strlit("{ ");
    reveal_strlit("!=");
    reveal_strlit("{");
    let texts = range_texts(ports);
    let port = packet.dest_port;
    assert forall|i: int| 0 <= i < texts.len() implies is_value(#[trigger] texts[i]) && (
    writes_port(texts[i], port) <==> ports[i].has(port)) by {
        lemma_range_is_read(ports[i], port);
    }
    assert(!header.contains(' '));
    assert(!"dport"@.contains(' '));
    lemma_one_word(header);
    lemma_one_word("dport"@);
    let (operand, list, tail) = if ports.len() == 1 {
        (seq![texts[0]], seq![texts[0]], texts[0])
    } else {
        let inner = "{ "@ + joined(texts, ", "@) + " }"@;
        (words(inner), texts, inner)
    };
    if ports.len() == 1 {
        assert(is_value(texts[0]));
        lemma_one_word(texts[0]);
        lemma_alone(texts[0], rest);
        assert(ports_text(header, ports) =~= header + " "@ + ("dport"@ + " "@ + tail));
        assert("!="@[0] == '!');
    } else {
        lemma_in_braces(texts, rest);
        assert(ports_text(header, ports) =~= header + " "@ + ("dport"@ + " "@ + tail));
        assert(operand[0] == "{"@);
        assert("!="@.len() == 2 && "{"@.len() == 1);
    }
    lemma_words_add(header, "dport"@ + " "@ + tail);
    lemma_words_add("dport"@, tail);
    assert(words(ports_text(header, ports)) + rest =~= seq![header, "dport"@] + operand + rest);
    lemma_expression(header, "dport"@, operand, list, rest, sets, reader, packet);
    if field_is_one(header, "dport"@, list, sets, reader, packet) {
        let i = choose|i: int|
            0 <= i < list.len() && field_is(
                header,
                "dport"@,
                #[trigger] list[i],
                sets,
                reader,
                packet,
            );
        assert(list[i] == texts[i]);
        assert(ports[i].has(port));
    }
    if names_header(header, packet) && port_passes(ports, port) {
        let i = choose|i: int| 0 <= i < ports.len() && #[trigger] ports[i].has(port);
        assert(writes_port(texts[i], port));
        assert(field_is(header, "dport"@, list[i], sets, reader, packet));
    }
}

/// A fixed expression of three words in front of words.
proof fn lemma_three_words(
    text: Seq<char>,
    first: Seq<char>,
    second: Seq<char>,
    value: Seq<char>,
    rest: Seq<Seq<char>>,
    sets: Seq<SetModel>,
    reader: NetReader,
    packet: Packet,
)
    requires
        text == first + " "@ + (second + " "@ + value),
        !first.contains(' '),
        !second.contains(' '),
        value.len() > 0,
        !value.contains(' '),
        value[0] != '{',
        value[0] != '!',
        !is_verdict(first),
    ensures
        all_hold(words(text) + rest, sets, reader, packet) == (field_is(
            first,
            second,
            value,
            sets,
            reader,
            packet,
        ) && all_hold(rest, sets, reader, packet)),
        at_verdict(words(text) + rest) == at_verdict(rest),
{
    reveal_strlit("!=");
    lemma_words_add(first, second + " "@ + value);
    lemma_words_add(second, value);
    lemma_one_word(first);
    lemma_one_word(second);
    lemma_one_word(value);
    lemma_alone(value, rest);
    assert("!="@[0] == '!');
    assert(words(text) + rest =~= seq![first, second] + seq![value] + rest);
    lemma_expression(first, second, seq![value], seq![value], rest, sets, reader, packet);
    if field_is(first, second, value, sets, reader, packet) {
        assert(field_is(first, second, seq![value][0], sets, reader, packet));
    }
}

proof fn lemma_two_protocols(
    text: Seq<char>,
    one: Seq<char>,
    other: Seq<char>,
    rest: Seq<Seq<char>>,
    sets: Seq<SetModel>,
    reader: NetReader,
    packet: Packet,
)
    requires
        is_value(one),
        is_value(other),
        text == "meta"@ + " "@ + ("l4proto"@ + " "@ + ("{ "@ + (one + ", "@ + other) + " }"@)),
    ensures
        all_hold(words(text) + rest, sets, reader, packet) == ((names_protocol(one, packet)
            || names_protocol(other, packet)) && all_hold(rest, sets, reader, packet)),
        at_verdict(words(text) + rest) == at_verdict(rest),
{
    lemma_fixed_words();
    reveal_strlit("meta");
    reveal_strlit("l4proto");
    reveal_strlit("!=");
    reveal_strlit("{");
    let list = seq![one, other];
    assert(list.drop_last() =~= seq![one]);
    reveal_with_fuel(joined, 2);
    assert(joined(list, ", "@) =~= one + ", "@ + other);
    let inner = "{ "@ + joined(list, ", "@) + " }"@;
    lemma_in_braces(list, rest);
    assert(!"meta"@.contains(' '));
    assert(!"l4proto"@.contains(' '));
    lemma_one_word("meta"@);
    lemma_one_word("l4proto"@);
    lemma_words_add("meta"@, "l4proto"@ + " "@ + inner);
    lemma_words_add("l4proto"@, inner);
    let operand = words(inner);
    assert(operand[0] == "{"@);
    assert("!="@.len() == 2 && "{"@.len() == 1);
    assert(words(text) + rest =~= seq!["meta"@, "l4proto"@] + operand + rest);
    lemma_expression("meta"@, "l4proto"@, operand, list, rest, sets, reader, packet);
    if names_protocol(one, packet) {
        assert(field_is("meta"@, "l4proto"@, list[0], sets, reader, packet));
    }
    if names_protocol(other, packet) {
        assert(field_is("meta"@, "l4proto"@, list[1], sets, reader, packet));
    }
}

proof fn lemma_not_tcp(
    rest: Seq<Seq<char>>,
    sets: Seq<SetModel>,
    reader: NetReader,
    packet: Packet,
)
    ensures
        all_hold(words("meta l4proto != tcp"@) + rest, sets, reader, packet) == (
        packet.protocol !is Tcp && all_hold(rest, sets, reader, packet)),
        at_verdict(words("meta l4proto != tcp"@) + rest) == at_verdict(rest),
{
    lemma_fixed_words();
    reveal_strlit("meta l4proto != tcp");
    reveal_strlit("meta");
    reveal_strlit("l4proto");
    reveal_strlit("!=");
    reveal_strlit("tcp");
    reveal_strlit(" ");
    assert(!"meta"@.contains(' ') && !"l4proto"@.contains(' ') && !"!="@.contains(' ')
        && !"tcp"@.contains(' '));
    lemma_one_word("meta"@);
    lemma_one_word("l4proto"@);
    lemma_one_word("!="@);
    lemma_one_word("tcp"@);
    assert("meta l4proto != tcp"@ =~= "meta"@ + " "@ + ("l4proto"@ + " "@ + ("!="@ + " "@
        + "tcp"@)));
    lemma_words_add("meta"@, "l4proto"@ + " "@ + ("!="@ + " "@ + "tcp"@));
    lemma_words_add("l4proto"@, "!="@ + " "@ + "tcp"@);
    lemma_words_add("!="@, "tcp"@);
    let all = words("meta l4proto != tcp"@) + rest;
    assert(all =~= seq!["meta"@, "l4proto"@, "!="@, "tcp"@] + rest);
    assert(all[0] == "meta"@ && all[1] == "l4proto"@ && all[2] == "!="@ && all[3] == "tcp"@);
    assert(all.skip(4) =~= rest);
}

proof fn lemma_words_of_one_part(part: Seq<char>)
    ensures
        words_of(seq![part]) == words(part),
{
    reveal_with_fuel(words_of, 2);
    assert(seq![part].drop_last() =~= Seq::empty());
    assert(words_of(seq![part]) =~= words(part));
}

/// A group of ports in front of words.
proof fn lemma_group(
    protocol: FirewallProtocol,
    ports: Seq<PortRange>,
    v4: Option<bool>,
    rest: Seq<Seq<char>>,
    sets: Seq<SetModel>,
    reader: NetReader,
    packet: Packet,
)
    requires
        v4 matches Some(v4) ==> is_v4(packet) == v4,
    ensures
        all_hold(words_of(group_parts(protocol, ports, v4)) + rest, sets, reader, packet) == (
        protocol.passes(ports, packet) && all_hold(rest, sets, reader, packet)),
        at_verdict(words_of(group_parts(protocol, ports, v4)) + rest) == at_verdict(rest),
{
    lemma_fixed_words();
    reveal_strlit("meta");
    reveal_strlit("ip");
    reveal_strlit("l4proto");
    reveal_strlit("protocol");
    reveal_strlit("udp");
    reveal_strlit("sctp");
    reveal_strlit("icmp");
    reveal_strlit("ipv6-icmp");
    reveal_strlit(" ");
    reveal_strlit("{ ");
    reveal_strlit(" }");
    reveal_strlit(", ");
    assert(is_value("udp"@)) by {
        assert("udp"@[0] == 'u' && "udp"@[2] == 'p');
    }
    assert(is_value("sctp"@)) by {
        assert("sctp"@[0] == 's' && "sctp"@[3] == 'p');
    }
    assert(is_value("icmp"@)) by {
        assert("icmp"@[0] == 'i' && "icmp"@[3] == 'p');
    }
    assert(is_value("ipv6-icmp"@)) by {
        assert("ipv6-icmp"@[0] == 'i' && "ipv6-icmp"@[8] == 'p');
    }
    assert(!"meta"@.contains(' ') && !"ip"@.contains(' ') && !"l4proto"@.contains(' ')
        && !"protocol"@.contains(' '));
    let parts = group_parts(protocol, ports, v4);
    match protocol {
        FirewallProtocol::NonTcp => {
            if ports.len() == 0 {
                lemma_words_of_one_part(parts[0]);
                lemma_not_tcp(rest, sets, reader, packet);
                assert(parts =~= seq!["meta l4proto != tcp"@]);
            } else {
                reveal_strlit("meta l4proto { udp, sctp }");
                let a = "meta l4proto { udp, sctp }"@;
                let b = ports_text("th"@, ports);
                assert(parts =~= seq![a] + seq![b]);
                lemma_words_of_two(seq![a], seq![b]);
                lemma_words_of_one_part(a);
                lemma_words_of_one_part(b);
                assert(words_of(parts) + rest =~= words(a) + (words(b) + rest));
                assert(a =~= "meta"@ + " "@ + ("l4proto"@ + " "@ + ("{ "@ + ("udp"@ + ", "@
                    + "sctp"@) + " }"@)));
                lemma_two_protocols(a, "udp"@, "sctp"@, words(b) + rest, sets, reader, packet);
                lemma_ports("th"@, ports, rest, sets, reader, packet);
            }
        },
        FirewallProtocol::Udp => {
            lemma_words_of_one_part(parts[0]);
            assert(parts =~= seq![parts[0]]);
            if ports.len() == 0 {
                reveal_strlit("meta l4proto udp");
                let text = "meta l4proto udp"@;
                assert(text =~= "meta"@ + " "@ + ("l4proto"@ + " "@ + "udp"@));
                lemma_three_words(
                    text,
                    "meta"@,
                    "l4proto"@,
                    "udp"@,
                    rest,
                    sets,
                    reader,
                    packet,
                );
            } else {
                lemma_ports("udp"@, ports, rest, sets, reader, packet);
            }
        },
        FirewallProtocol::Sctp => {
            lemma_words_of_one_part(parts[0]);
            assert(parts =~= seq![parts[0]]);
            if ports.len() == 0 {
                reveal_strlit("meta l4proto sctp");
                let text = "meta l4proto sctp"@;
                assert(text =~= "meta"@ + " "@ + ("l4proto"@ + " "@ + "sctp"@));
                lemma_three_words(
                    text,
                    "meta"@,
                    "l4proto"@,
                    "sctp"@,
                    rest,
                    sets,
                    reader,
                    packet,
                );
            } else {
                lemma_ports("sctp"@, ports, rest, sets, reader, packet);
            }
        },
        FirewallProtocol::Icmp => {
            lemma_words_of_one_part(parts[0]);
            assert(parts =~= seq![parts[0]]);
            match v4 {
                Some(true) => {
                    reveal_strlit("ip protocol icmp");
                    let text = "ip protocol icmp"@;
                    assert(text =~= "ip"@ + " "@ + ("protocol"@ + " "@ + "icmp"@));
                    lemma_three_words(
                        text,
                        "ip"@,
                        "protocol"@,
                        "icmp"@,
                        rest,
                        sets,
                        reader,
                        packet,
                    );
                },
                Some(false) => {
                    reveal_strlit("meta l4proto ipv6-icmp");
                    let text = "meta l4proto ipv6-icmp"@;
                    assert(text =~= "meta"@ + " "@ + ("l4proto"@ + " "@ + "ipv6-icmp"@));
                    lemma_three_words(
                        text,
                        "meta"@,
                        "l4proto"@,
                        "ipv6-icmp"@,
                        rest,
                        sets,
                        reader,
                        packet,
                    );
                },
                None => {
                    reveal_strlit("meta l4proto { icmp, ipv6-icmp }");
                    let text = "meta l4proto { icmp, ipv6-icmp }"@;
                    assert(text =~= "meta"@ + " "@ + ("l4proto"@ + " "@ + ("{ "@ + ("icmp"@ + ", "@
                        + "ipv6-icmp"@) + " }"@)));
                    lemma_two_protocols(
                        text,
                        "icmp"@,
                        "ipv6-icmp"@,
                        rest,
                        sets,
                        reader,
                        packet,
                    );
                },
            }
        },
    }
}

/// The parts that are rendered for a group of ports, with a verdict behind them, take a
/// packet exactly where it is of the group's protocol and has one of its ports. Where
/// the line is for one family, that is said of the packets of that family.
pub proof fn law_port_group_takes_its_packets(
    protocol: FirewallProtocol,
    ports: Seq<PortRange>,
    v4: Option<bool>,
    sets: Seq<SetModel>,
    reader: NetReader,
    packet: Packet,
)
    requires
        v4 matches Some(v4) ==> is_v4(packet) == v4,
    ensures
        takes(
            joined(group_parts(protocol, ports, v4) + seq!["accept"@], " "@),
            sets,
            reader,
            packet,
        ) <==> match protocol {
            FirewallProtocol::NonTcp => packet.protocol !is Tcp && (ports.len() == 0 || ((
            packet.protocol is Udp || packet.protocol is Sctp) && in_one(
                ports,
                packet.dest_port,
            ))),
            FirewallProtocol::Udp => packet.protocol is Udp && (ports.len() == 0 || in_one(
                ports,
                packet.dest_port,
            )),
            FirewallProtocol::Sctp => packet.protocol is Sctp && (ports.len() == 0 || in_one(
                ports,
                packet.dest_port,
            )),
            FirewallProtocol::Icmp => packet.protocol is Icmp,
        },
{
    reveal_strlit("accept");
    let parts = group_parts(protocol, ports, v4);
    let tail = seq!["accept"@];
    assert(!"accept"@.contains(' '));
    lemma_one_word("accept"@);
    lemma_words_of_one_part("accept"@);
    lemma_words_of_joined(parts + tail);
    lemma_words_of_two(parts, tail);
    lemma_group(protocol, ports, v4, tail, sets, reader, packet);
    assert(all_hold(tail, sets, reader, packet));
    if port_passes(ports, packet.dest_port) && ports.len() > 0 {
        let i = choose|i: int| 0 <= i < ports.len() && #[trigger] ports[i].has(packet.dest_port);
        assert(ports[i].start <= packet.dest_port <= ports[i].end);
    }
    if in_one(ports, packet.dest_port) {
        let i = choose|i: int|
            0 <= i < ports.len() && (#[trigger] ports[i]).start <= packet.dest_port
                <= ports[i].end;
        assert(ports[i].has(packet.dest_port));
    }
}

/// Whether the port lies between the ends of one of the ranges.
pub open spec fn in_one(ports: Seq<PortRange>, port: u16) -> bool {
    exists|i: int|
        0 <= i < ports.len() && (#[trigger] ports[i]).start <= port <= ports[i].end
}

/// The sets that lines use are declared, and no other set has the name of one of them.
pub open spec fn declares(sets: Seq<SetModel>, used: Seq<SetModel>) -> bool {
    forall|i: int| 0 <= i < used.len() ==> declares_one(sets, #[trigger] used[i])
}

/// The set is declared, and no other set has its name.
pub open spec fn declares_one(sets: Seq<SetModel>, used: SetModel) -> bool {
    &&& sets.contains(used)
    &&& forall|j: int|
        0 <= j < sets.len() && (#[trigger] sets[j]).name == used.name ==> sets[j] == used
}

proof fn lemma_declares_parts(sets: Seq<SetModel>, a: Seq<SetModel>, b: Seq<SetModel>)
    requires
        declares(sets, a + b),
    ensures
        declares(sets, a),
        declares(sets, b),
{
    assert forall|i: int| 0 <= i < a.len() implies declares_one(sets, #[trigger] a[i]) by {
        assert((a + b)[i] == a[i]);
    }
    assert forall|i: int| 0 <= i < b.len() implies declares_one(sets, #[trigger] b[i]) by {
        assert((a + b)[a.len() + i] == b[i]);
    }
}

/// All networks are of one family.
pub open spec fn all_of_family(nets: Seq<IpNet>, v4: bool) -> bool {
    forall|i: int| 0 <= i < nets.len() ==> ((#[trigger] nets[i]).spec_addr() is V4) == v4
}

proof fn lemma_set_name(n: nat, v4: bool)
    ensures
        !set_name(n, v4).contains(' '),
{
    reveal_strlit("zt_");
    reveal_strlit("_v4");
    reveal_strlit("_v6");
    lemma_decimal_is_digits(n);
    let name = set_name(n, v4);
    if name.contains(' ') {
        let i = choose|i: int| 0 <= i < name.len() && name[i] == ' ';
        if 3 <= i < 3 + decimal(n).len() {
            assert(name[i] == decimal(n)[i - 3]);
        }
    }
}

/// The address that a word names.
pub open spec fn address_named(field: Seq<char>, packet: Packet) -> IpAddr {
    if field == "saddr"@ {
        packet.source
    } else {
        packet.dest
    }
}

/// What is known of networks of one family and an address.
proof fn lemma_networks(nets: Seq<IpNet>, v4: bool, reader: NetReader, ip: IpAddr)
    requires
        reads_networks(reader),
        all_of_family(nets, v4),
    ensures
        forall|i: int| 0 <= i < nets.len() ==> is_value((#[trigger] nets[i]).shown()),
        forall|i: int|
            0 <= i < nets.len() ==> reader((#[trigger] nets[i]).shown(), ip) == lies_in(
                ip,
                nets[i],
            ),
        nets.len() > 0 && address_passes(nets, ip) ==> (ip is V4) == v4,
        nets.len() > 0 ==> (address_passes(nets, ip) <==> exists|i: int|
            0 <= i < nets.len() && lies_in(ip, #[trigger] nets[i])),
{
    law_addresses_are_held_by_their_blocks(nets, ip);
    assert forall|i: int| 0 <= i < nets.len() implies is_value((#[trigger] nets[i]).shown()) by {
        let net = nets[i];
        assert(is_value(net.shown()));
    }
    assert forall|i: int| 0 <= i < nets.len() implies reader((#[trigger] nets[i]).shown(), ip)
        == lies_in(ip, nets[i]) by {
        let net = nets[i];
        assert(is_value(net.shown()));
        assert(reader(net.shown(), ip) == lies_in(ip, net));
    }
    if nets.len() > 0 && address_passes(nets, ip) {
        let i = choose|i: int| 0 <= i < nets.len() && lies_in(ip, #[trigger] nets[i]);
        assert((nets[i].spec_addr() is V4) == v4);
    }
}

/// Whether two words name an address of the packet's family.
proof fn lemma_address_field(
    family: Seq<char>,
    field: Seq<char>,
    v4: bool,
    value: Seq<char>,
    sets: Seq<SetModel>,
    reader: NetReader,
    packet: Packet,
)
    requires
        field == "saddr"@ || field == "daddr"@,
        family == (if v4 {
            "ip"@
        } else {
            "ip6"@
        }),
    ensures
        field_is(family, field, value, sets, reader, packet) == ((address_named(
            field,
            packet,
        ) is V4) == v4 && writes_address(value, sets, reader, address_named(field, packet))),
        !is_verdict(family),
        !family.contains(' '),
        !field.contains(' '),
{
    lemma_fixed_words();
    reveal_strlit("ip");
    reveal_strlit("ip6");
    reveal_strlit("saddr");
    reveal_strlit("daddr");
}

proof fn lemma_address_alone(
    text: Seq<char>,
    family: Seq<char>,
    field: Seq<char>,
    v4: bool,
    value: Seq<char>,
    rest: Seq<Seq<char>>,
    sets: Seq<SetModel>,
    reader: NetReader,
    packet: Packet,
)
    requires
        field == "saddr"@ || field == "daddr"@,
        family == (if v4 {
            "ip"@
        } else {
            "ip6"@
        }),
        text == family + " "@ + field + " "@ + value,
        value.len() > 0,
        !value.contains(' '),
        value[0] != '{',
        value[0] != '!',
    ensures
        all_hold(words(text) + rest, sets, reader, packet) == ((address_named(field, packet) is V4)
            == v4 && writes_address(value, sets, reader, address_named(field, packet)) && all_hold(
            rest,
            sets,
            reader,
            packet,
        )),
        at_verdict(words(text) + rest) == at_verdict(rest),
{
    lemma_address_field(family, field, v4, value, sets, reader, packet);
    assert(text =~= family + " "@ + (field + " "@ + value));
    lemma_three_words(text, family, field, value, rest, sets, reader, packet);
}

proof fn lemma_address_list(
    text: Seq<char>,
    family: Seq<char>,
    field: Seq<char>,
    v4: bool,
    texts: Seq<Seq<char>>,
    rest: Seq<Seq<char>>,
    sets: Seq<SetModel>,
    reader: NetReader,
    packet: Packet,
)
    requires
        field == "saddr"@ || field == "daddr"@,
        family == (if v4 {
            "ip"@
        } else {
            "ip6"@
        }),
        texts.len() > 0,
        forall|i: int| 0 <= i < texts.len() ==> is_value(#[trigger] texts[i]),
        text == family + " "@ + field + " "@ + "{ "@ + joined(texts, ", "@) + " }"@,
    ensures
        all_hold(words(text) + rest, sets, reader, packet) == ((address_named(field, packet) is V4)
            == v4 && (exists|i: int|
            0 <= i < texts.len() && reader(#[trigger] texts[i], address_named(field, packet)))
            && all_hold(rest, sets, reader, packet)),
        at_verdict(words(text) + rest) == at_verdict(rest),
{
    reveal_strlit("{");
    reveal_strlit("!=");
    let ip = address_named(field, packet);
    let inner = "{ "@ + joined(texts, ", "@) + " }"@;
    lemma_in_braces(texts, rest);
    let operand = words(inner);
    assert(operand[0] == "{"@);
    assert("!="@.len() == 2 && "{"@.len() == 1);
    assert(text =~= family + " "@ + (field + " "@ + inner));
    lemma_address_field(family, field, v4, texts[0], sets, reader, packet);
    lemma_one_word(family);
    lemma_one_word(field);
    lemma_words_add(family, field + " "@ + inner);
    lemma_words_add(field, inner);
    assert(words(text) + rest =~= seq![family, field] + operand + rest);
    lemma_expression(family, field, operand, texts, rest, sets, reader, packet);
    assert forall|i: int| 0 <= i < texts.len() implies field_is(
        family,
        field,
        #[trigger] texts[i],
        sets,
        reader,
        packet,
    ) == ((ip is V4) == v4 && reader(texts[i], ip)) by {
        assert(is_value(texts[i]));
        lemma_address_field(family, field, v4, texts[i], sets, reader, packet);
    }
    if field_is_one(family, field, texts, sets, reader, packet) {
        let i = choose|i: int|
            0 <= i < texts.len() && field_is(
                family,
                field,
                #[trigger] texts[i],
                sets,
                reader,
                packet,
            );
        assert(reader(texts[i], ip));
    }
    if (ip is V4) == v4 && exists|i: int|
        0 <= i < texts.len() && reader(#[trigger] texts[i], ip) {
        let i = choose|i: int| 0 <= i < texts.len() && reader(#[trigger] texts[i], ip);
        assert(field_is(family, field, texts[i], sets, reader, packet));
    }
}

proof fn lemma_set_is_read(
    nets: Seq<IpNet>,
    v4: bool,
    n: nat,
    sets: Seq<SetModel>,
    reader: NetReader,
    ip: IpAddr,
)
    requires
        reads_networks(reader),
        all_of_family(nets, v4),
        nets.len() > NAMED_SET_THRESHOLD,
        declares(sets, address_sets(nets, v4, n)),
    ensures
        ((ip is V4) == v4 && writes_address("@"@ + set_name(n, v4), sets, reader, ip))
            == address_passes(nets, ip),
{
    reveal_strlit("@");
    let name = set_name(n, v4);
    let value = "@"@ + name;
    assert(value[0] == '@');
    assert(value.skip(1) =~= name);
    let used = address_sets(nets, v4, n)[0];
    assert(declares_one(sets, used));
    lemma_networks(nets, v4, reader, ip);
    if address_passes(nets, ip) {
        let k = choose|k: int| 0 <= k < nets.len() && lies_in(ip, #[trigger] nets[k]);
        assert(used.elements[k] == nets[k].shown());
        assert(reader(used.elements[k], ip));
        let j = choose|j: int| 0 <= j < sets.len() && sets[j] == used;
        assert(set_holds(sets[j], name, reader, ip));
    }
    if (ip is V4) == v4 && writes_address(value, sets, reader, ip) {
        let j = choose|j: int|
            0 <= j < sets.len() && #[trigger] set_holds(sets[j], name, reader, ip);
        assert(sets[j] == used);
        let k = choose|k: int|
            0 <= k < used.elements.len() && reader(#[trigger] used.elements[k], ip);
        assert(used.elements[k] == nets[k].shown());
        assert(lies_in(ip, nets[k]));
    }
}

/// The match on addresses in front of words.
proof fn lemma_addresses(
    nets: Seq<IpNet>,
    field: Seq<char>,
    v4: bool,
    n: nat,
    rest: Seq<Seq<char>>,
    sets: Seq<SetModel>,
    reader: NetReader,
    packet: Packet,
)
    requires
        reads_networks(reader),
        field == "saddr"@ || field == "daddr"@,
        all_of_family(nets, v4),
        declares(sets, address_sets(nets, v4, n)),
    ensures
        all_hold(words_of(address_parts(nets, field, v4, n)) + rest, sets, reader, packet) == (
        address_passes(nets, address_named(field, packet)) && all_hold(
            rest,
            sets,
            reader,
            packet,
        )),
        at_verdict(words_of(address_parts(nets, field, v4, n)) + rest) == at_verdict(rest),
{
    let parts = address_parts(nets, field, v4, n);
    let ip = address_named(field, packet);
    if nets.len() == 0 {
        assert(words_of(parts) + rest =~= rest);
    } else {
        let family = if v4 {
            "ip"@
        } else {
            "ip6"@
        };
        lemma_words_of_one_part(parts[0]);
        assert(parts =~= seq![parts[0]]);
        lemma_networks(nets, v4, reader, ip);
        if nets.len() == 1 {
            let value = nets[0].shown();
            assert(is_value(value));
            lemma_address_alone(
                parts[0],
                family,
                field,
                v4,
                value,
                rest,
                sets,
                reader,
                packet,
            );
            assert(address_passes(nets, ip) <==> lies_in(ip, nets[0]));
        } else if nets.len() > NAMED_SET_THRESHOLD {
            reveal_strlit("@");
            let name = set_name(n, v4);
            let value = "@"@ + name;
            lemma_set_name(n, v4);
            assert(!value.contains(' ')) by {
                if value.contains(' ') {
                    let i = choose|i: int| 0 <= i < value.len() && value[i] == ' ';
                    if i > 0 {
                        assert(name[i - 1] == ' ');
                    }
                }
            }
            assert(value[0] == '@');
            assert(parts[0] =~= family + " "@ + field + " "@ + value);
            lemma_set_is_read(nets, v4, n, sets, reader, ip);
            lemma_address_alone(
                parts[0],
                family,
                field,
                v4,
                value,
                rest,
                sets,
                reader,
                packet,
            );
        } else {
            let texts = net_texts(nets);
            assert forall|i: int| 0 <= i < texts.len() implies is_value(#[trigger] texts[i]) by {
                assert(texts[i] == nets[i].shown());
            }
            lemma_address_list(
                parts[0],
                family,
                field,
                v4,
                texts,
                rest,
                sets,
                reader,
                packet,
            );
            if exists|i: int| 0 <= i < texts.len() && reader(#[trigger] texts[i], ip) {
                let i = choose|i: int| 0 <= i < texts.len() && reader(#[trigger] texts[i], ip);
                assert(texts[i] == nets[i].shown());
                assert(lies_in(ip, nets[i]));
            }
            if address_passes(nets, ip) {
                let i = choose|i: int| 0 <= i < nets.len() && lies_in(ip, #[trigger] nets[i]);
                assert(texts[i] == nets[i].shown());
                assert(reader(texts[i], ip));
            }
        }
    }
}

/// The words of the end of a line begin with the verdict.
proof fn lemma_ending(name: Seq<char>, stage: Stage, action: RuleAction)
    ensures
        ({
            let tail = words_of(ending(name, stage, action));
            &&& tail.len() > 0
            &&& tail[0] == verdict_text(stage, action)
            &&& is_verdict(tail[0])
            &&& at_verdict(tail) == tail
        }),
        forall|sets: Seq<SetModel>, reader: NetReader, packet: Packet| #[trigger]
            all_hold(words_of(ending(name, stage, action)), sets, reader, packet),
{
    reveal_strlit("accept");
    reveal_strlit("reject");
    reveal_strlit("return");
    let end = ending(name, stage, action);
    let verdict = end[0];
    assert(end =~= seq![verdict] + seq![end[1]]);
    lemma_words_of_two(seq![verdict], seq![end[1]]);
    lemma_words_of_one_part(verdict);
    assert(!verdict.contains(' '));
    lemma_one_word(verdict);
    assert(words_of(end)[0] == verdict);
}

/// Whether one of the lines takes the packet.
pub open spec fn one_takes(
    lines: Seq<Seq<char>>,
    sets: Seq<SetModel>,
    reader: NetReader,
    packet: Packet,
) -> bool {
    exists|i: int| 0 <= i < lines.len() && takes(#[trigger] lines[i], sets, reader, packet)
}

/// All lines have the verdict.
pub open spec fn all_have_verdict(lines: Seq<Seq<char>>, verdict: Seq<char>) -> bool {
    forall|i: int| 0 <= i < lines.len() ==> verdict_of(#[trigger] lines[i]) == verdict
}

/// The verdict of a line.
pub open spec fn verdict_of(line: Seq<char>) -> Seq<char> {
    at_verdict(words(line))[0]
}

proof fn lemma_one_takes_add(
    a: Seq<Seq<char>>,
    b: Seq<Seq<char>>,
    sets: Seq<SetModel>,
    reader: NetReader,
    packet: Packet,
)
    ensures
        one_takes(a + b, sets, reader, packet) == (one_takes(a, sets, reader, packet) || one_takes(
            b,
            sets,
            reader,
            packet,
        )),
        forall|v: Seq<char>|
            all_have_verdict(a, v) && all_have_verdict(b, v) ==> #[trigger] all_have_verdict(
                a + b,
                v,
            ),
{
    let all = a + b;
    if one_takes(all, sets, reader, packet) {
        let i = choose|i: int|
            0 <= i < all.len() && takes(#[trigger] all[i], sets, reader, packet);
        if i < a.len() {
            assert(takes(a[i], sets, reader, packet));
        } else {
            assert(takes(b[i - a.len()], sets, reader, packet));
        }
    }
    if one_takes(a, sets, reader, packet) {
        let i = choose|i: int| 0 <= i < a.len() && takes(#[trigger] a[i], sets, reader, packet);
        assert(all[i] == a[i]);
    }
    if one_takes(b, sets, reader, packet) {
        let i = choose|i: int| 0 <= i < b.len() && takes(#[trigger] b[i], sets, reader, packet);
        assert(all[a.len() + i] == b[i]);
    }
    assert forall|v: Seq<char>|
        all_have_verdict(a, v) && all_have_verdict(b, v) implies #[trigger] all_have_verdict(
        a + b,
        v,
    ) by {
        assert forall|i: int| 0 <= i < all.len() implies verdict_of(#[trigger] all[i]) == v by {
            if i < a.len() {
                assert(all[i] == a[i]);
            } else {
                assert(all[i] == b[i - a.len()]);
            }
        }
    }
}

/// Whether the packet is one of the groups', where there are any, and not TCP.
pub open spec fn of_groups(groups: Option<Seq<PortGroup>>, packet: Packet) -> bool {
    match groups {
        None => packet.protocol !is Tcp,
        Some(groups) => exists|i: int|
            0 <= i < groups.len() && (#[trigger] groups[i]).protocol.passes(
                groups[i].ports@,
                packet,
            ),
    }
}

/// One line: it takes the packets that pass its addresses and its ports.
proof fn lemma_line(
    source: (bool, Seq<IpNet>),
    dest: (bool, Seq<IpNet>),
    protocol: FirewallProtocol,
    ports: Seq<PortRange>,
    end: Seq<Seq<char>>,
    n: nat,
    m: nat,
    sets: Seq<SetModel>,
    reader: NetReader,
    packet: Packet,
)
    requires
        reads_networks(reader),
        is_packet(packet),
        all_of_family(source.1, source.0),
        all_of_family(dest.1, dest.0),
        declares(sets, address_sets(source.1, source.0, n)),
        declares(sets, address_sets(dest.1, dest.0, m)),
        end.len() > 0,
        all_hold(words_of(end), sets, reader, packet),
    ensures
        ({
            let line = joined(
                address_parts(source.1, "saddr"@, source.0, n) + address_parts(
                    dest.1,
                    "daddr"@,
                    dest.0,
                    m,
                ) + group_parts(protocol, ports, line_family(source, dest)) + end,
                " "@,
            );
            &&& takes(line, sets, reader, packet) == (address_passes(source.1, packet.source)
                && address_passes(dest.1, packet.dest) && protocol.passes(ports, packet))
            &&& at_verdict(words(line)) == at_verdict(words_of(end))
        }),
{
    lemma_fixed_words();
    let a = address_parts(source.1, "saddr"@, source.0, n);
    let b = address_parts(dest.1, "daddr"@, dest.0, m);
    let v4 = line_family(source, dest);
    let c = group_parts(protocol, ports, v4);
    lemma_words_of_joined(a + b + c + end);
    lemma_words_of_two(a + b + c, end);
    lemma_words_of_two(a + b, c);
    lemma_words_of_two(a, b);
    let tail = words_of(end);
    let ports_and_tail = words_of(c) + tail;
    let dest_and_tail = words_of(b) + ports_and_tail;
    assert(words_of(a + b + c + end) =~= words_of(a) + dest_and_tail);
    lemma_addresses(
        source.1,
        "saddr"@,
        source.0,
        n,
        dest_and_tail,
        sets,
        reader,
        packet,
    );
    lemma_addresses(dest.1, "daddr"@, dest.0, m, ports_and_tail, sets, reader, packet);
    assert(address_named("saddr"@, packet) == packet.source);
    assert(address_named("daddr"@, packet) == packet.dest);
    if address_passes(source.1, packet.source) && address_passes(dest.1, packet.dest) {
        if source.1.len() > 0 {
            let i = choose|i: int|
                0 <= i < source.1.len() && #[trigger] source.1[i].has(packet.source);
            assert((source.1[i].spec_addr() is V4) == source.0);
        }
        if dest.1.len() > 0 {
            let i = choose|i: int|
                0 <= i < dest.1.len() && #[trigger] dest.1[i].has(packet.dest);
            assert((dest.1[i].spec_addr() is V4) == dest.0);
        }
        lemma_group(protocol, ports, v4, tail, sets, reader, packet);
    }
    let there = match v4 {
        Some(v4) => Packet {
            source: if v4 {
                IpAddr::V4(0)
            } else {
                IpAddr::V6(0)
            },
            dest: if v4 {
                IpAddr::V4(0)
            } else {
                IpAddr::V6(0)
            },
            ..packet
        },
        None => packet,
    };
    lemma_group(protocol, ports, v4, tail, sets, reader, there);
}

proof fn lemma_pair(
    source: (bool, Seq<IpNet>),
    dest: (bool, Seq<IpNet>),
    groups: Option<Seq<PortGroup>>,
    end: Seq<Seq<char>>,
    n: nat,
    sets: Seq<SetModel>,
    reader: NetReader,
    packet: Packet,
)
    requires
        reads_networks(reader),
        is_packet(packet),
        all_of_family(source.1, source.0),
        all_of_family(dest.1, dest.0),
        declares(sets, pair_out(source, dest, groups, end, n).sets),
        end.len() > 0,
        all_hold(words_of(end), sets, reader, packet),
    ensures
        one_takes(pair_out(source, dest, groups, end, n).lines, sets, reader, packet) == (
        address_passes(source.1, packet.source) && address_passes(dest.1, packet.dest)
            && of_groups(groups, packet)),
        all_have_verdict(
            pair_out(source, dest, groups, end, n).lines,
            at_verdict(words_of(end))[0],
        ),
{
    let out = pair_out(source, dest, groups, end, n);
    if source.1.len() > 0 && dest.1.len() > 0 && source.0 != dest.0 {
        if address_passes(source.1, packet.source) && address_passes(dest.1, packet.dest) {
            let i = choose|i: int|
                0 <= i < source.1.len() && #[trigger] source.1[i].has(packet.source);
            assert((source.1[i].spec_addr() is V4) == source.0);
            let j = choose|j: int| 0 <= j < dest.1.len() && #[trigger] dest.1[j].has(packet.dest);
            assert((dest.1[j].spec_addr() is V4) == dest.0);
        }
    } else {
        let source_sets = address_sets(source.1, source.0, n);
        let m = n + source_sets.len();
        lemma_declares_parts(sets, source_sets, address_sets(dest.1, dest.0, m));
        match groups {
            None => {
                lemma_line(
                    source,
                    dest,
                    FirewallProtocol::NonTcp,
                    Seq::empty(),
                    end,
                    n,
                    m,
                    sets,
                    reader,
                    packet,
                );
                if takes(out.lines[0], sets, reader, packet) {
                    assert(one_takes(out.lines, sets, reader, packet));
                }
            },
            Some(groups) => {
                assert forall|i: int| 0 <= i < groups.len() implies takes(
                    #[trigger] out.lines[i],
                    sets,
                    reader,
                    packet,
                ) == (address_passes(source.1, packet.source) && address_passes(
                    dest.1,
                    packet.dest,
                ) && groups[i].protocol.passes(groups[i].ports@, packet)) && verdict_of(
                    out.lines[i],
                ) == at_verdict(words_of(end))[0] by {
                    lemma_line(
                        source,
                        dest,
                        groups[i].protocol,
                        groups[i].ports@,
                        end,
                        n,
                        m,
                        sets,
                        reader,
                        packet,
                    );
                }
                if one_takes(out.lines, sets, reader, packet) {
                    let i = choose|i: int|
                        0 <= i < out.lines.len() && takes(
                            #[trigger] out.lines[i],
                            sets,
                            reader,
                            packet,
                        );
                    assert(groups[i].protocol.passes(groups[i].ports@, packet));
                }
                if of_groups(Some(groups), packet) {
                    let i = choose|i: int|
                        0 <= i < groups.len() && (#[trigger] groups[i]).protocol.passes(
                            groups[i].ports@,
                            packet,
                        );
                    assert(takes(out.lines[i], sets, reader, packet) == (address_passes(
                        source.1,
                        packet.source,
                    ) && address_passes(dest.1, packet.dest)));
                }
            },
        }
    }
}

proof fn lemma_families_are_pure(nets: Seq<IpNet>, i: int)
    requires
        0 <= i < families(nets).len(),
    ensures
        all_of_family(families(nets)[i].1, families(nets)[i].0),
{
    lemma_of_family_is_pure(nets, true);
    lemma_of_family_is_pure(nets, false);
}

proof fn lemma_of_family_is_pure(nets: Seq<IpNet>, v4: bool)
    ensures
        all_of_family(of_family(nets, v4), v4),
    decreases nets.len(),
{
    if nets.len() > 0 {
        lemma_of_family_is_pure(nets.drop_last(), v4);
    }
}

/// Whether the address passes one of the groups of networks.
pub open spec fn passes_one(groups: Seq<(bool, Seq<IpNet>)>, ip: IpAddr) -> bool {
    exists|i: int| 0 <= i < groups.len() && address_passes((#[trigger] groups[i]).1, ip)
}

/// All groups are of the family that they say.
pub open spec fn all_pure(groups: Seq<(bool, Seq<IpNet>)>) -> bool {
    forall|i: int|
        0 <= i < groups.len() ==> all_of_family((#[trigger] groups[i]).1, groups[i].0)
}

proof fn lemma_passes_one_push(groups: Seq<(bool, Seq<IpNet>)>, ip: IpAddr)
    requires
        groups.len() > 0,
    ensures
        passes_one(groups, ip) == (passes_one(groups.drop_last(), ip) || address_passes(
            groups.last().1,
            ip,
        )),
        all_pure(groups) ==> all_pure(groups.drop_last()),
{
    let short = groups.drop_last();
    if passes_one(groups, ip) {
        let i = choose|i: int|
            0 <= i < groups.len() && address_passes((#[trigger] groups[i]).1, ip);
        if i < short.len() {
            assert(short[i] == groups[i]);
        }
    }
    if passes_one(short, ip) {
        let i = choose|i: int| 0 <= i < short.len() && address_passes((#[trigger] short[i]).1, ip);
        assert(short[i] == groups[i]);
    }
    if address_passes(groups.last().1, ip) {
        assert(address_passes(groups[groups.len() - 1].1, ip));
    }
    if all_pure(groups) {
        assert forall|i: int| 0 <= i < short.len() implies all_of_family(
            (#[trigger] short[i]).1,
            short[i].0,
        ) by {
            assert(short[i] == groups[i]);
        }
    }
}

proof fn lemma_dests(
    source: (bool, Seq<IpNet>),
    dests: Seq<(bool, Seq<IpNet>)>,
    groups: Option<Seq<PortGroup>>,
    end: Seq<Seq<char>>,
    n: nat,
    sets: Seq<SetModel>,
    reader: NetReader,
    packet: Packet,
)
    requires
        reads_networks(reader),
        is_packet(packet),
        all_of_family(source.1, source.0),
        all_pure(dests),
        declares(sets, dests_out(source, dests, groups, end, n).sets),
        end.len() > 0,
        all_hold(words_of(end), sets, reader, packet),
    ensures
        one_takes(dests_out(source, dests, groups, end, n).lines, sets, reader, packet) == (
        address_passes(source.1, packet.source) && passes_one(dests, packet.dest) && of_groups(
            groups,
            packet,
        )),
        all_have_verdict(
            dests_out(source, dests, groups, end, n).lines,
            at_verdict(words_of(end))[0],
        ),
    decreases dests.len(),
{
    if dests.len() > 0 {
        let short = dests.drop_last();
        let before = dests_out(source, short, groups, end, n);
        let last = pair_out(source, dests.last(), groups, end, n + before.sets.len());
        lemma_declares_parts(sets, before.sets, last.sets);
        lemma_passes_one_push(dests, packet.dest);
        lemma_dests(source, short, groups, end, n, sets, reader, packet);
        assert(all_of_family(dests[dests.len() - 1].1, dests[dests.len() - 1].0));
        lemma_pair(
            source,
            dests.last(),
            groups,
            end,
            n + before.sets.len(),
            sets,
            reader,
            packet,
        );
        lemma_one_takes_add(before.lines, last.lines, sets, reader, packet);
    }
}

proof fn lemma_sources(
    sources: Seq<(bool, Seq<IpNet>)>,
    dests: Seq<(bool, Seq<IpNet>)>,
    groups: Option<Seq<PortGroup>>,
    end: Seq<Seq<char>>,
    n: nat,
    sets: Seq<SetModel>,
    reader: NetReader,
    packet: Packet,
)
    requires
        reads_networks(reader),
        is_packet(packet),
        all_pure(sources),
        all_pure(dests),
        declares(sets, sources_out(sources, dests, groups, end, n).sets),
        end.len() > 0,
        all_hold(words_of(end), sets, reader, packet),
    ensures
        one_takes(sources_out(sources, dests, groups, end, n).lines, sets, reader, packet) == (
        passes_one(sources, packet.source) && passes_one(dests, packet.dest) && of_groups(
            groups,
            packet,
        )),
        all_have_verdict(
            sources_out(sources, dests, groups, end, n).lines,
            at_verdict(words_of(end))[0],
        ),
    decreases sources.len(),
{
    if sources.len() > 0 {
        let short = sources.drop_last();
        let before = sources_out(short, dests, groups, end, n);
        let last = dests_out(sources.last(), dests, groups, end, n + before.sets.len());
        lemma_declares_parts(sets, before.sets, last.sets);
        lemma_passes_one_push(sources, packet.source);
        lemma_sources(short, dests, groups, end, n, sets, reader, packet);
        assert(all_of_family(sources[sources.len() - 1].1, sources[sources.len() - 1].0));
        lemma_dests(
            sources.last(),
            dests,
            groups,
            end,
            n + before.sets.len(),
            sets,
            reader,
            packet,
        );
        lemma_one_takes_add(before.lines, last.lines, sets, reader, packet);
    }
}

/// The groups of a combination are not an empty list.
spec fn has_groups(flat: NftFlat) -> bool {
    flat.groups matches Some(groups) ==> groups.len() > 0
}

proof fn lemma_refined_has_groups(existing: Seq<NftFlat>, clause: Seq<FirewallMatch>)
    requires
        forall|i: int| 0 <= i < existing.len() ==> has_groups(#[trigger] existing[i]),
    ensures
        forall|i: int|
            0 <= i < refine_all(existing, clause).len() ==> has_groups(
                #[trigger] refine_all(existing, clause)[i],
            ),
    decreases existing.len(),
{
    if existing.len() > 0 {
        let short = existing.drop_last();
        assert forall|i: int| 0 <= i < short.len() implies has_groups(#[trigger] short[i]) by {
            assert(short[i] == existing[i]);
        }
        lemma_refined_has_groups(short, clause);
        assert(has_groups(existing[existing.len() - 1]));
        let a = refine_all(short, clause);
        let b = refine_by_clause(existing.last(), clause);
        let all = refine_all(existing, clause);
        assert forall|i: int| 0 <= i < all.len() implies has_groups(#[trigger] all[i]) by {
            if i < a.len() {
                assert(all[i] == a[i]);
            } else {
                assert(all[i] == b[i - a.len()]);
            }
        }
    }
}

proof fn lemma_flattened_has_groups(clauses: Seq<Vec<FirewallMatch>>)
    ensures
        forall|i: int|
            0 <= i < flattened(clauses).len() ==> has_groups(#[trigger] flattened(clauses)[i]),
    decreases clauses.len(),
{
    if clauses.len() > 0 {
        lemma_flattened_has_groups(clauses.drop_last());
        lemma_refined_has_groups(flattened(clauses.drop_last()), clauses.last()@);
    }
}

proof fn lemma_flat(
    flat: NftFlat,
    end: Seq<Seq<char>>,
    n: nat,
    sets: Seq<SetModel>,
    reader: NetReader,
    packet: Packet,
)
    requires
        reads_networks(reader),
        is_packet(packet),
        has_groups(flat),
        declares(
            sets,
            sources_out(families(flat.sources), families(flat.dests), flat.groups, end, n).sets,
        ),
        end.len() > 0,
        all_hold(words_of(end), sets, reader, packet),
    ensures
        ({
            let out = sources_out(
                families(flat.sources),
                families(flat.dests),
                flat.groups,
                end,
                n,
            );
            &&& one_takes(out.lines, sets, reader, packet) == flat_passes(flat, packet)
            &&& all_have_verdict(out.lines, at_verdict(words_of(end))[0])
        }),
{
    let sources = families(flat.sources);
    let dests = families(flat.dests);
    assert forall|i: int| 0 <= i < sources.len() implies all_of_family(
        (#[trigger] sources[i]).1,
        sources[i].0,
    ) by {
        lemma_families_are_pure(flat.sources, i);
    }
    assert forall|i: int| 0 <= i < dests.len() implies all_of_family(
        (#[trigger] dests[i]).1,
        dests[i].0,
    ) by {
        lemma_families_are_pure(flat.dests, i);
    }
    lemma_sources(sources, dests, flat.groups, end, n, sets, reader, packet);
    law_families_keep_meaning(flat.sources, packet.source);
    law_families_keep_meaning(flat.dests, packet.dest);
    assert(passes_one(sources, packet.source) == address_passes(flat.sources, packet.source));
    assert(passes_one(dests, packet.dest) == address_passes(flat.dests, packet.dest));
    if let Some(groups) = flat.groups {
        if of_groups(flat.groups, packet) {
            let i = choose|i: int|
                0 <= i < groups.len() && (#[trigger] groups[i]).protocol.passes(
                    groups[i].ports@,
                    packet,
                );
            assert(groups[i].protocol.passes(groups[i].ports@, packet));
        }
    }
}

proof fn lemma_flats(
    flats: Seq<NftFlat>,
    end: Seq<Seq<char>>,
    n: nat,
    sets: Seq<SetModel>,
    reader: NetReader,
    packet: Packet,
)
    requires
        reads_networks(reader),
        is_packet(packet),
        forall|i: int| 0 <= i < flats.len() ==> has_groups(#[trigger] flats[i]),
        declares(sets, flats_out(flats, end, n).sets),
        end.len() > 0,
        all_hold(words_of(end), sets, reader, packet),
    ensures
        one_takes(flats_out(flats, end, n).lines, sets, reader, packet) == any_passes(
            flats,
            packet,
        ),
        all_have_verdict(flats_out(flats, end, n).lines, at_verdict(words_of(end))[0]),
    decreases flats.len(),
{
    if flats.len() > 0 {
        let short = flats.drop_last();
        let flat = flats.last();
        let before = flats_out(short, end, n);
        let last = sources_out(
            families(flat.sources),
            families(flat.dests),
            flat.groups,
            end,
            n + before.sets.len(),
        );
        lemma_declares_parts(sets, before.sets, last.sets);
        assert forall|i: int| 0 <= i < short.len() implies has_groups(#[trigger] short[i]) by {
            assert(short[i] == flats[i]);
        }
        assert(has_groups(flats[flats.len() - 1]));
        lemma_flats(short, end, n, sets, reader, packet);
        lemma_flat(flat, end, n + before.sets.len(), sets, reader, packet);
        lemma_one_takes_add(before.lines, last.lines, sets, reader, packet);
        if any_passes(flats, packet) {
            let i = choose|i: int| 0 <= i < flats.len() && flat_passes(#[trigger] flats[i], packet);
            if i < short.len() {
                assert(flat_passes(short[i], packet));
            }
        }
        if any_passes(short, packet) {
            let i = choose|i: int| 0 <= i < short.len() && flat_passes(#[trigger] short[i], packet);
            assert(flat_passes(flats[i], packet));
        }
        if flat_passes(flat, packet) {
            assert(flat_passes(flats[flats.len() - 1], packet));
        }
    }
}

/// The verdict that a rule asks for: a refusal, or that the packet passes, which in the
/// stage before the workload's own policies means that it goes on to them.
pub open spec fn asks_for(stage: Stage, action: RuleAction) -> Seq<char> {
    if action is Deny {
        "reject"@
    } else if stage is Inline {
        "return"@
    } else {
        "accept"@
    }
}

/// The lines for a rule take exactly the packets of which all its clauses hold, and all
/// of them do to a packet what the rule says. So a rule that is rendered for nftables
/// decides over the packets that it is for, and over no others.
pub proof fn law_lines_take_the_packets_of_the_rule(
    rule: FirewallRule,
    stage: Stage,
    n: nat,
    sets: Seq<SetModel>,
    reader: NetReader,
    packet: Packet,
)
    requires
        reads_networks(reader),
        is_packet(packet),
        separate_dimensions(rule.clauses@),
        declares(sets, rule_out(rule, stage, n).sets),
    ensures
        one_takes(rule_out(rule, stage, n).lines, sets, reader, packet) <==> clauses_pass(
            rule.clauses@,
            packet,
        ),
        all_have_verdict(rule_out(rule, stage, n).lines, asks_for(stage, rule.action)),
{
    let end = ending(rule.name@, stage, rule.action);
    lemma_ending(rule.name@, stage, rule.action);
    lemma_flattened_has_groups(rule.clauses@);
    assert(all_hold(words_of(end), sets, reader, packet));
    lemma_flats(flattened(rule.clauses@), end, n, sets, reader, packet);
    law_flattening_keeps_meaning(rule.clauses@, packet);
}

/// What the first line that takes the packet does to it.
pub open spec fn lines_say(
    lines: Seq<Seq<char>>,
    sets: Seq<SetModel>,
    reader: NetReader,
    packet: Packet,
) -> Option<Seq<char>>
    decreases lines.len(),
{
    if lines.len() == 0 {
        None
    } else if lines_say(lines.drop_last(), sets, reader, packet) is Some {
        lines_say(lines.drop_last(), sets, reader, packet)
    } else if takes(lines.last(), sets, reader, packet) {
        Some(verdict_of(lines.last()))
    } else {
        None
    }
}

/// What the first rule of the direction whose clauses all hold of the packet asks for.
pub open spec fn rules_ask(
    rules: Seq<FirewallRule>,
    direction: Direction,
    stage: Stage,
    packet: Packet,
) -> Option<Seq<char>>
    decreases rules.len(),
{
    if rules.len() == 0 {
        None
    } else if rules_ask(rules.drop_last(), direction, stage, packet) is Some {
        rules_ask(rules.drop_last(), direction, stage, packet)
    } else if rules.last().direction == direction && clauses_pass(rules.last().clauses@, packet) {
        Some(asks_for(stage, rules.last().action))
    } else {
        None
    }
}

proof fn lemma_lines_say_add(
    a: Seq<Seq<char>>,
    b: Seq<Seq<char>>,
    verdict: Seq<char>,
    sets: Seq<SetModel>,
    reader: NetReader,
    packet: Packet,
)
    requires
        all_have_verdict(b, verdict),
    ensures
        lines_say(a + b, sets, reader, packet) == (if lines_say(a, sets, reader, packet) is Some {
            lines_say(a, sets, reader, packet)
        } else if one_takes(b, sets, reader, packet) {
            Some(verdict)
        } else {
            None
        }),
    decreases b.len(),
{
    let all = a + b;
    if b.len() == 0 {
        assert(all =~= a);
    } else {
        let short = b.drop_last();
        assert(all.drop_last() =~= a + short);
        assert forall|i: int| 0 <= i < short.len() implies verdict_of(#[trigger] short[i])
            == verdict by {
            assert(short[i] == b[i]);
        }
        lemma_lines_say_add(a, short, verdict, sets, reader, packet);
        assert(verdict_of(b[b.len() - 1]) == verdict);
        if one_takes(b, sets, reader, packet) {
            let i = choose|i: int| 0 <= i < b.len() && takes(#[trigger] b[i], sets, reader, packet);
            if i < short.len() {
                assert(takes(short[i], sets, reader, packet));
            }
        }
        if one_takes(short, sets, reader, packet) {
            let i = choose|i: int|
                0 <= i < short.len() && takes(#[trigger] short[i], sets, reader, packet);
            assert(takes(b[i], sets, reader, packet));
        }
        if takes(b.last(), sets, reader, packet) {
            assert(takes(b[b.len() - 1], sets, reader, packet));
        }
    }
}

/// The lines of a chain do to every packet what the first rule of the direction asks for
/// that is for the packet, in the order of the rules, and leave alone the packets that no
/// rule is for.
pub proof fn law_lines_decide_as_the_rules(
    rules: Seq<FirewallRule>,
    direction: Direction,
    stage: Stage,
    n: nat,
    sets: Seq<SetModel>,
    reader: NetReader,
    packet: Packet,
)
    requires
        reads_networks(reader),
        is_packet(packet),
        forall|i: int|
            0 <= i < rules.len() ==> separate_dimensions((#[trigger] rules[i]).clauses@),
        declares(sets, rules_out(rules, direction, stage, n).sets),
    ensures
        lines_say(rules_out(rules, direction, stage, n).lines, sets, reader, packet) == rules_ask(
            rules,
            direction,
            stage,
            packet,
        ),
    decreases rules.len(),
{
    if rules.len() > 0 {
        let short = rules.drop_last();
        let before = rules_out(short, direction, stage, n);
        assert forall|i: int| 0 <= i < short.len() implies separate_dimensions(
            (#[trigger] short[i]).clauses@,
        ) by {
            assert(short[i] == rules[i]);
        }
        if rules.last().direction == direction {
            let m = n + before.sets.len();
            let last = rule_out(rules.last(), stage, m);
            lemma_declares_parts(sets, before.sets, last.sets);
            law_lines_decide_as_the_rules(short, direction, stage, n, sets, reader, packet);
            assert(separate_dimensions(rules[rules.len() - 1].clauses@));
            law_lines_take_the_packets_of_the_rule(rules.last(), stage, m, sets, reader, packet);
            lemma_lines_say_add(
                before.lines,
                last.lines,
                asks_for(stage, rules.last().action),
                sets,
                reader,
                packet,
            );
        } else {
            law_lines_decide_as_the_rules(short, direction, stage, n, sets, reader, packet);
        }
    }
}

/// The four chains of a rule set do to every packet what its rules ask for, each for one
/// direction and one stage, in the order of the rules' evaluation.
pub proof fn law_chains_decide_as_the_rule_set(
    ruleset: RuleSet,
    reader: NetReader,
    packet: Packet,
)
    requires
        reads_networks(reader),
        is_packet(packet),
        forall|i: int|
            0 <= i < ordered(ruleset.rules@).len() ==> separate_dimensions(
                (#[trigger] ordered(ruleset.rules@)[i]).clauses@,
            ),
        forall|i: int|
            0 <= i < ordered(ruleset.inline_rules@).len() ==> separate_dimensions(
                (#[trigger] ordered(ruleset.inline_rules@)[i]).clauses@,
            ),
    ensures
        ({
            let sets = declared_sets(ruleset);
            let chains = chains_of(ruleset);
            let own = ordered(ruleset.rules@);
            let inline = ordered(ruleset.inline_rules@);
            &&& lines_say(chains.input.lines, sets, reader, packet) == rules_ask(
                own,
                Direction::Inbound,
                Stage::Workload,
                packet,
            )
            &&& lines_say(chains.output.lines, sets, reader, packet) == rules_ask(
                own,
                Direction::Outbound,
                Stage::Workload,
                packet,
            )
            &&& lines_say(chains.inline_input.lines, sets, reader, packet) == rules_ask(
                inline,
                Direction::Inbound,
                Stage::Inline,
                packet,
            )
            &&& lines_say(chains.inline_output.lines, sets, reader, packet) == rules_ask(
                inline,
                Direction::Outbound,
                Stage::Inline,
                packet,
            )
        }),
{
    let sets = declared_sets(ruleset);
    let chains = chains_of(ruleset);
    let own = ordered(ruleset.rules@);
    let inline = ordered(ruleset.inline_rules@);
    assert forall|i: int| 0 <= i < sets.len() implies declares_one(sets, #[trigger] sets[i]) by {
        assert forall|j: int|
            0 <= j < sets.len() && (#[trigger] sets[j]).name == sets[i].name implies sets[j]
            == sets[i] by {
            if i < j {
                law_set_names_are_unique(ruleset, i, j);
            } else if j < i {
                law_set_names_are_unique(ruleset, j, i);
            }
        }
    }
    let a = chains.inline_input.sets;
    let b = chains.inline_output.sets;
    let c = chains.input.sets;
    let d = chains.output.sets;
    lemma_declares_parts(sets, a + b + c, d);
    lemma_declares_parts(sets, a + b, c);
    lemma_declares_parts(sets, a, b);
    let n = a.len();
    let m = n + b.len();
    let k = m + c.len();
    law_lines_decide_as_the_rules(
        inline,
        Direction::Inbound,
        Stage::Inline,
        0,
        sets,
        reader,
        packet,
    );
    law_lines_decide_as_the_rules(
        inline,
        Direction::Outbound,
        Stage::Inline,
        n,
        sets,
        reader,
        packet,
    );
    law_lines_decide_as_the_rules(
        own,
        Direction::Inbound,
        Stage::Workload,
        m,
        sets,
        reader,
        packet,
    );
    law_lines_decide_as_the_rules(
        own,
        Direction::Outbound,
        Stage::Workload,
        k,
        sets,
        reader,
        packet,
    );
}

} // verus!
