//! What a whole script for iptables does to a packet that opens something new: one that
//! belongs to no known connection, comes from no loopback and is not the proxy's own.
//!
//! The options that speak of those are not read here, so that the lines with them take
//! none of these packets.

use vstd::prelude::*;

use super::ipt::{
    bypass_lines, default_deny, inline_chains, inline_jumps, preamble, rule_lines, rules_lines,
    ruleset_lines, IptConfig,
};
use super::ipt_meaning::{
    all_hold, all_in, asks_for, chain_for, is_v4_packet, law_lines_take_the_packets_of_the_rule,
    lemma_options_differ, one_takes, rules_ask, takes, target_in, target_of,
};
use super::nft_meaning::{reads_networks, NetReader};
use super::super::order::ordered;
use super::super::types::{separate_dimensions, Direction, FirewallRule, Packet, RuleSet};
use super::words::{lemma_one_word, lemma_words_add, words};
use super::Stage;
use crate::text::decimal;

verus! {

/// What the first line of the chain that takes the packet does to it, lines that lead to
/// another chain not counted.
pub open spec fn lines_do(
    lines: Seq<Seq<char>>,
    chain: Seq<char>,
    reader: NetReader,
    packet: Packet,
) -> Option<Seq<char>>
    decreases lines.len(),
{
    if lines.len() == 0 {
        None
    } else if lines_do(lines.drop_last(), chain, reader, packet) is Some {
        lines_do(lines.drop_last(), chain, reader, packet)
    } else if takes(lines.last(), chain, reader, packet) && ends_here(target_of(lines.last())) {
        Some(target_of(lines.last()))
    } else {
        None
    }
}

/// Whether a target is no other chain.
pub open spec fn ends_here(target: Seq<char>) -> bool {
    target == "ACCEPT"@ || target == "REJECT"@ || target == "RETURN"@
}

/// Whether a line of the chain leads the packet to the other chain before any line does
/// anything else to it.
pub open spec fn leads_to(
    lines: Seq<Seq<char>>,
    chain: Seq<char>,
    other: Seq<char>,
    reader: NetReader,
    packet: Packet,
) -> bool {
    exists|i: int|
        {
            &&& 0 <= i < lines.len()
            &&& takes(#[trigger] lines[i], chain, reader, packet)
            &&& target_of(lines[i]) == other
            &&& forall|k: int| 0 <= k < i ==> !takes(#[trigger] lines[k], chain, reader, packet)
        }
}

proof fn lemma_append(
    a: Seq<Seq<char>>,
    b: Seq<Seq<char>>,
    chain: Seq<char>,
    reader: NetReader,
    packet: Packet,
)
    ensures
        lines_do(a + b, chain, reader, packet) == (if lines_do(a, chain, reader, packet) is Some {
            lines_do(a, chain, reader, packet)
        } else {
            lines_do(b, chain, reader, packet)
        }),
    decreases b.len(),
{
    if b.len() == 0 {
        assert(a + b =~= a);
    } else {
        lemma_append(a, b.drop_last(), chain, reader, packet);
        assert((a + b).drop_last() =~= a + b.drop_last());
    }
}

proof fn lemma_none_taken(
    lines: Seq<Seq<char>>,
    chain: Seq<char>,
    reader: NetReader,
    packet: Packet,
)
    requires
        forall|i: int| 0 <= i < lines.len() ==> !takes(#[trigger] lines[i], chain, reader, packet),
    ensures
        lines_do(lines, chain, reader, packet) is None,
    decreases lines.len(),
{
    if lines.len() > 0 {
        let short = lines.drop_last();
        assert forall|i: int| 0 <= i < short.len() implies !takes(
            #[trigger] short[i],
            chain,
            reader,
            packet,
        ) by {
            assert(short[i] == lines[i]);
        }
        lemma_none_taken(short, chain, reader, packet);
        assert(!takes(lines[lines.len() - 1], chain, reader, packet));
    }
}

proof fn lemma_block(
    lines: Seq<Seq<char>>,
    home: Seq<char>,
    target: Seq<char>,
    chain: Seq<char>,
    reader: NetReader,
    packet: Packet,
)
    requires
        all_in(lines, home, target),
        ends_here(target),
    ensures
        lines_do(lines, chain, reader, packet) == (if chain == home && one_takes(
            lines,
            chain,
            reader,
            packet,
        ) {
            Some(target)
        } else {
            None
        }),
    decreases lines.len(),
{
    if lines.len() > 0 {
        let short = lines.drop_last();
        let last = lines[lines.len() - 1];
        assert forall|i: int| 0 <= i < short.len() implies {
            &&& words(#[trigger] short[i]).len() >= 2
            &&& words(short[i])[0] == "-A"@
            &&& words(short[i])[1] == home
            &&& target_of(short[i]) == target
        } by {
            assert(short[i] == lines[i]);
        }
        lemma_block(short, home, target, chain, reader, packet);
        assert(words(last)[1] == home && target_of(last) == target);
        if one_takes(lines, chain, reader, packet) {
            let i = choose|i: int|
                0 <= i < lines.len() && takes(#[trigger] lines[i], chain, reader, packet);
            if i < short.len() {
                assert(takes(short[i], chain, reader, packet));
            }
        }
        if one_takes(short, chain, reader, packet) {
            let i = choose|i: int|
                0 <= i < short.len() && takes(#[trigger] short[i], chain, reader, packet);
            assert(takes(lines[i], chain, reader, packet));
        }
        if takes(last, chain, reader, packet) {
            assert(one_takes(lines, chain, reader, packet));
        }
    }
}

proof fn lemma_chains()
    ensures
        forall|s: Stage, d: Direction, t: Stage, e: Direction| #[trigger]
            chain_for(s, d) == #[trigger] chain_for(t, e) ==> s == t && d == e,
{
    reveal_strlit("ISTIO_FW_FILTER_IN");
    reveal_strlit("ISTIO_FW_FILTER_OUT");
    reveal_strlit("ISTIO_FW_INLINE_IN");
    reveal_strlit("ISTIO_FW_INLINE_OUT");
    assert("ISTIO_FW_FILTER_IN"@.len() == 18 && "ISTIO_FW_FILTER_OUT"@.len() == 19);
    assert("ISTIO_FW_INLINE_IN"@.len() == 18 && "ISTIO_FW_INLINE_OUT"@.len() == 19);
    assert("ISTIO_FW_FILTER_IN"@[9] == 'F' && "ISTIO_FW_INLINE_IN"@[9] == 'I');
    assert("ISTIO_FW_FILTER_OUT"@[9] == 'F' && "ISTIO_FW_INLINE_OUT"@[9] == 'I');
}

proof fn lemma_rules(
    rules: Seq<FirewallRule>,
    stage: Stage,
    at: Stage,
    direction: Direction,
    reader: NetReader,
    packet: Packet,
)
    requires
        reads_networks(reader),
        is_v4_packet(packet),
        forall|i: int|
            0 <= i < rules.len() ==> separate_dimensions((#[trigger] rules[i]).clauses@),
    ensures
        lines_do(rules_lines(rules, stage), chain_for(at, direction), reader, packet) == (if at
            == stage {
            rules_ask(rules, direction, stage, packet)
        } else {
            None
        }),
    decreases rules.len(),
{
    if rules.len() > 0 {
        let short = rules.drop_last();
        let last = rules.last();
        assert forall|i: int| 0 <= i < short.len() implies separate_dimensions(
            (#[trigger] short[i]).clauses@,
        ) by {
            assert(short[i] == rules[i]);
        }
        lemma_rules(short, stage, at, direction, reader, packet);
        assert(separate_dimensions(rules[rules.len() - 1].clauses@));
        law_lines_take_the_packets_of_the_rule(last, stage, reader, packet);
        lemma_chains();
        let chain = chain_for(at, direction);
        let home = chain_for(stage, last.direction);
        lemma_block(
            rule_lines(last, stage),
            home,
            asks_for(stage, last.action),
            chain,
            reader,
            packet,
        );
        lemma_append(rules_lines(short, stage), rule_lines(last, stage), chain, reader, packet);
    }
}

/// A line that starts with another word than `-A` takes nothing.
proof fn lemma_other_command(line: Seq<char>, first: Seq<char>, rest: Seq<char>)
    requires
        line == first + " "@ + rest,
        !first.contains(' '),
        first != "-A"@,
    ensures
        forall|chain: Seq<char>, reader: NetReader, packet: Packet| !#[trigger]
            takes(line, chain, reader, packet),
{
    lemma_words_add(first, rest);
    lemma_one_word(first);
    assert(words(line)[0] == first);
}

proof fn lemma_table_lines(chain: Seq<char>, reader: NetReader, packet: Packet)
    ensures
        !takes("*filter"@, chain, reader, packet),
        !takes("COMMIT"@, chain, reader, packet),
        !takes(":ISTIO_FW_INLINE_IN - [0:0]"@, chain, reader, packet),
        !takes(":ISTIO_FW_INLINE_OUT - [0:0]"@, chain, reader, packet),
        !takes("-F ISTIO_FW_FILTER_IN"@, chain, reader, packet),
        !takes("-F ISTIO_FW_FILTER_OUT"@, chain, reader, packet),
{
    reveal_strlit("*filter");
    reveal_strlit("COMMIT");
    reveal_strlit(":ISTIO_FW_INLINE_IN - [0:0]");
    reveal_strlit(":ISTIO_FW_INLINE_OUT - [0:0]");
    reveal_strlit("-F ISTIO_FW_FILTER_IN");
    reveal_strlit("-F ISTIO_FW_FILTER_OUT");
    reveal_strlit(":ISTIO_FW_INLINE_IN");
    reveal_strlit(":ISTIO_FW_INLINE_OUT");
    reveal_strlit("- [0:0]");
    reveal_strlit("-F");
    reveal_strlit("-A");
    reveal_strlit(" ");
    reveal_strlit("ISTIO_FW_FILTER_IN");
    reveal_strlit("ISTIO_FW_FILTER_OUT");
    lemma_one_word("*filter"@);
    lemma_one_word("COMMIT"@);
    assert(":ISTIO_FW_INLINE_IN - [0:0]"@ =~= ":ISTIO_FW_INLINE_IN"@ + " "@ + "- [0:0]"@);
    assert(":ISTIO_FW_INLINE_IN"@.len() == 19 && "-A"@.len() == 2);
    lemma_other_command(":ISTIO_FW_INLINE_IN - [0:0]"@, ":ISTIO_FW_INLINE_IN"@, "- [0:0]"@);
    assert(":ISTIO_FW_INLINE_OUT - [0:0]"@ =~= ":ISTIO_FW_INLINE_OUT"@ + " "@ + "- [0:0]"@);
    assert(":ISTIO_FW_INLINE_OUT"@.len() == 20);
    lemma_other_command(":ISTIO_FW_INLINE_OUT - [0:0]"@, ":ISTIO_FW_INLINE_OUT"@, "- [0:0]"@);
    assert("-F"@[1] == 'F' && "-A"@[1] == 'A');
    assert("-F ISTIO_FW_FILTER_IN"@ =~= "-F"@ + " "@ + "ISTIO_FW_FILTER_IN"@);
    lemma_other_command("-F ISTIO_FW_FILTER_IN"@, "-F"@, "ISTIO_FW_FILTER_IN"@);
    assert("-F ISTIO_FW_FILTER_OUT"@ =~= "-F"@ + " "@ + "ISTIO_FW_FILTER_OUT"@);
    lemma_other_command("-F ISTIO_FW_FILTER_OUT"@, "-F"@, "ISTIO_FW_FILTER_OUT"@);
}

/// Whether the option is one of those that are read.
spec fn is_read(option: Seq<char>) -> bool {
    option == "-j"@ || option == "-A"@ || option == "-m"@ || option == "!"@ || option == "-p"@
        || option == "-s"@ || option == "-d"@ || option == "--dport"@ || option == "--dports"@
}

/// A line with an option that is not read takes nothing: right behind the chain, or
/// behind the name of a match, and behind the name of a protocol too.
proof fn lemma_unread(line: Seq<char>, start: Seq<char>, option: Seq<char>, rest: Seq<char>)
    requires
        line == start + " "@ + option + " "@ + rest,
        !option.contains(' '),
        !is_read(option),
        ({
            let w = words(start);
            ||| w.len() == 2 && w[0] == "-A"@
            ||| w.len() == 4 && w[0] == "-A"@ && w[2] == "-m"@
            ||| w.len() == 6 && w[0] == "-A"@ && w[2] == "-p"@ && w[4] == "-m"@
        }),
    ensures
        forall|chain: Seq<char>, reader: NetReader, packet: Packet| !#[trigger]
            takes(line, chain, reader, packet),
{
    lemma_options_differ();
    lemma_words_add(start + " "@ + option, rest);
    lemma_words_add(start, option);
    lemma_one_word(option);
    let w = words(start);
    let all = words(line);
    assert(all =~= w + seq![option] + words(rest));
    assert forall|chain: Seq<char>, reader: NetReader, packet: Packet| !#[trigger]
        takes(line, chain, reader, packet) by {
        reveal_with_fuel(all_hold, 5);
        assert(all.skip(2)[0] == all[2]);
        if w.len() == 4 {
            assert(all.skip(2).skip(2)[0] == option);
        }
        if w.len() == 6 {
            assert(all.skip(2).skip(2)[0] == all[4]);
            assert(all.skip(2).skip(2).skip(2)[0] == option);
        }
    }
}

proof fn lemma_start(chain: Seq<char>, name: Seq<char>)
    requires
        !chain.contains(' '),
        !name.contains(' '),
    ensures
        words("-A"@ + " "@ + chain) == seq!["-A"@, chain],
        words("-A"@ + " "@ + chain + " "@ + "-m"@ + " "@ + name) == seq![
            "-A"@,
            chain,
            "-m"@,
            name,
        ],
{
    reveal_strlit("-A");
    reveal_strlit("-m");
    assert(!"-A"@.contains(' ') && !"-m"@.contains(' '));
    lemma_one_word("-A"@);
    lemma_one_word("-m"@);
    lemma_one_word(chain);
    lemma_one_word(name);
    let a = "-A"@ + " "@ + chain;
    let b = a + " "@ + "-m"@;
    lemma_words_add("-A"@, chain);
    lemma_words_add(a, "-m"@);
    lemma_words_add(b, name);
    assert(words(a) =~= seq!["-A"@, chain]);
    assert(words(b + " "@ + name) =~= seq!["-A"@, chain, "-m"@, name]);
}

proof fn lemma_preamble_lines(chain: Seq<char>, reader: NetReader, packet: Packet)
    ensures
        !takes(
            "-A ISTIO_FW_FILTER_IN -m conntrack --ctstate ESTABLISHED,RELATED -j ACCEPT"@,
            chain,
            reader,
            packet,
        ),
        !takes(
            "-A ISTIO_FW_FILTER_OUT -m conntrack --ctstate ESTABLISHED,RELATED -j ACCEPT"@,
            chain,
            reader,
            packet,
        ),
        !takes("-A ISTIO_FW_FILTER_IN -i lo -j ACCEPT"@, chain, reader, packet),
        !takes("-A ISTIO_FW_FILTER_OUT -o lo -j ACCEPT"@, chain, reader, packet),
{
    reveal_strlit("-A ISTIO_FW_FILTER_IN -m conntrack --ctstate ESTABLISHED,RELATED -j ACCEPT");
    reveal_strlit("-A ISTIO_FW_FILTER_OUT -m conntrack --ctstate ESTABLISHED,RELATED -j ACCEPT");
    reveal_strlit("-A ISTIO_FW_FILTER_IN -i lo -j ACCEPT");
    reveal_strlit("-A ISTIO_FW_FILTER_OUT -o lo -j ACCEPT");
    reveal_strlit("ISTIO_FW_FILTER_IN");
    reveal_strlit("ISTIO_FW_FILTER_OUT");
    reveal_strlit("conntrack");
    reveal_strlit("--ctstate");
    reveal_strlit("ESTABLISHED,RELATED -j ACCEPT");
    reveal_strlit("-i");
    reveal_strlit("-o");
    reveal_strlit("lo -j ACCEPT");
    reveal_strlit(" ");
    lemma_unread_names();
    let i = "ISTIO_FW_FILTER_IN"@;
    let o = "ISTIO_FW_FILTER_OUT"@;
    lemma_start(i, "conntrack"@);
    lemma_start(o, "conntrack"@);
    reveal_strlit("-A");
    reveal_strlit("-m");
    let head = "-A"@ + " "@ + i + " "@ + "-m"@ + " "@ + "conntrack"@;
    assert("-A ISTIO_FW_FILTER_IN -m conntrack --ctstate ESTABLISHED,RELATED -j ACCEPT"@ =~= head
        + " "@ + "--ctstate"@ + " "@ + "ESTABLISHED,RELATED -j ACCEPT"@);
    lemma_unread(
        "-A ISTIO_FW_FILTER_IN -m conntrack --ctstate ESTABLISHED,RELATED -j ACCEPT"@,
        head,
        "--ctstate"@,
        "ESTABLISHED,RELATED -j ACCEPT"@,
    );
    let head = "-A"@ + " "@ + o + " "@ + "-m"@ + " "@ + "conntrack"@;
    assert("-A ISTIO_FW_FILTER_OUT -m conntrack --ctstate ESTABLISHED,RELATED -j ACCEPT"@ =~= head
        + " "@ + "--ctstate"@ + " "@ + "ESTABLISHED,RELATED -j ACCEPT"@);
    lemma_unread(
        "-A ISTIO_FW_FILTER_OUT -m conntrack --ctstate ESTABLISHED,RELATED -j ACCEPT"@,
        head,
        "--ctstate"@,
        "ESTABLISHED,RELATED -j ACCEPT"@,
    );
    let head = "-A"@ + " "@ + i;
    assert("-A ISTIO_FW_FILTER_IN -i lo -j ACCEPT"@ =~= head + " "@ + "-i"@ + " "@
        + "lo -j ACCEPT"@);
    lemma_unread("-A ISTIO_FW_FILTER_IN -i lo -j ACCEPT"@, head, "-i"@, "lo -j ACCEPT"@);
    let head = "-A"@ + " "@ + o;
    assert("-A ISTIO_FW_FILTER_OUT -o lo -j ACCEPT"@ =~= head + " "@ + "-o"@ + " "@
        + "lo -j ACCEPT"@);
    lemma_unread("-A ISTIO_FW_FILTER_OUT -o lo -j ACCEPT"@, head, "-o"@, "lo -j ACCEPT"@);
}

proof fn lemma_unread_names()
    ensures
        !is_read("--ctstate"@) && !is_read("-i"@) && !is_read("-o"@) && !is_read("--mark"@),
        !is_read("--uid-owner"@) && !is_read("--gid-owner"@) && !is_read("--ctorigdstport"@),
{
    reveal_strlit("-j");
    reveal_strlit("-A");
    reveal_strlit("-m");
    reveal_strlit("!");
    reveal_strlit("-p");
    reveal_strlit("-s");
    reveal_strlit("-d");
    reveal_strlit("--dport");
    reveal_strlit("--dports");
    reveal_strlit("--ctstate");
    reveal_strlit("-i");
    reveal_strlit("-o");
    reveal_strlit("--mark");
    reveal_strlit("--uid-owner");
    reveal_strlit("--gid-owner");
    reveal_strlit("--ctorigdstport");
    assert("-i"@[1] == 'i' && "-o"@[1] == 'o');
    assert("-j"@[1] == 'j' && "-A"@[1] == 'A' && "-m"@[1] == 'm' && "-p"@[1] == 'p' && "-s"@[1]
        == 's' && "-d"@[1] == 'd');
    assert("--ctstate"@.len() == 9 && "--mark"@.len() == 6 && "--uid-owner"@.len() == 11
        && "--gid-owner"@.len() == 11 && "--ctorigdstport"@.len() == 15);
    assert("!"@.len() == 1 && "--dport"@.len() == 7 && "--dports"@.len() == 8);
    assert("-j"@.len() == 2 && "-A"@.len() == 2 && "-m"@.len() == 2 && "-p"@.len() == 2
        && "-s"@.len() == 2 && "-d"@.len() == 2 && "-i"@.len() == 2 && "-o"@.len() == 2);
}

proof fn lemma_mark_line(mark: u32, chain: Seq<char>, reader: NetReader, packet: Packet)
    ensures
        !takes(
            "-A ISTIO_FW_FILTER_OUT -m mark --mark "@ + decimal(mark as nat) + " -j RETURN"@,
            chain,
            reader,
            packet,
        ),
{
    reveal_strlit("-A ISTIO_FW_FILTER_OUT -m mark --mark ");
    reveal_strlit("ISTIO_FW_FILTER_OUT");
    reveal_strlit("mark");
    reveal_strlit("--mark");
    reveal_strlit("-A");
    reveal_strlit("-m");
    reveal_strlit(" ");
    lemma_unread_names();
    let o = "ISTIO_FW_FILTER_OUT"@;
    lemma_start(o, "mark"@);
    let head = "-A"@ + " "@ + o + " "@ + "-m"@ + " "@ + "mark"@;
    let line = "-A ISTIO_FW_FILTER_OUT -m mark --mark "@ + decimal(mark as nat) + " -j RETURN"@;
    let rest = decimal(mark as nat) + " -j RETURN"@;
    assert(line =~= head + " "@ + "--mark"@ + " "@ + rest);
    lemma_unread(line, head, "--mark"@, rest);
}

proof fn lemma_owner_lines(chain: Seq<char>, reader: NetReader, packet: Packet)
    ensures
        !takes("-A ISTIO_FW_FILTER_OUT -m owner --uid-owner 1337 -j RETURN"@, chain, reader, packet),
        !takes("-A ISTIO_FW_FILTER_OUT -m owner --gid-owner 1337 -j RETURN"@, chain, reader, packet),
{
    reveal_strlit("-A ISTIO_FW_FILTER_OUT -m owner --uid-owner 1337 -j RETURN");
    reveal_strlit("-A ISTIO_FW_FILTER_OUT -m owner --gid-owner 1337 -j RETURN");
    reveal_strlit("ISTIO_FW_FILTER_OUT");
    reveal_strlit("owner");
    reveal_strlit("--uid-owner");
    reveal_strlit("--gid-owner");
    reveal_strlit("1337 -j RETURN");
    reveal_strlit("-A");
    reveal_strlit("-m");
    reveal_strlit(" ");
    lemma_unread_names();
    let o = "ISTIO_FW_FILTER_OUT"@;
    lemma_start(o, "owner"@);
    let head = "-A"@ + " "@ + o + " "@ + "-m"@ + " "@ + "owner"@;
    assert("-A ISTIO_FW_FILTER_OUT -m owner --uid-owner 1337 -j RETURN"@ =~= head + " "@
        + "--uid-owner"@ + " "@ + "1337 -j RETURN"@);
    lemma_unread(
        "-A ISTIO_FW_FILTER_OUT -m owner --uid-owner 1337 -j RETURN"@,
        head,
        "--uid-owner"@,
        "1337 -j RETURN"@,
    );
    assert("-A ISTIO_FW_FILTER_OUT -m owner --gid-owner 1337 -j RETURN"@ =~= head + " "@
        + "--gid-owner"@ + " "@ + "1337 -j RETURN"@);
    lemma_unread(
        "-A ISTIO_FW_FILTER_OUT -m owner --gid-owner 1337 -j RETURN"@,
        head,
        "--gid-owner"@,
        "1337 -j RETURN"@,
    );
}

proof fn lemma_query_line(chain: Seq<char>, reader: NetReader, packet: Packet)
    ensures
        !takes(
            "-A ISTIO_FW_FILTER_OUT -p udp -m conntrack --ctorigdstport 53 --ctdir ORIGINAL -j ACCEPT"@,
            chain,
            reader,
            packet,
        ),
{
    reveal_strlit(
        "-A ISTIO_FW_FILTER_OUT -p udp -m conntrack --ctorigdstport 53 --ctdir ORIGINAL -j ACCEPT",
    );
    reveal_strlit("ISTIO_FW_FILTER_OUT");
    reveal_strlit("conntrack");
    reveal_strlit("--ctorigdstport");
    reveal_strlit("53 --ctdir ORIGINAL -j ACCEPT");
    reveal_strlit("-A");
    reveal_strlit("-p");
    reveal_strlit("udp");
    reveal_strlit("-m");
    reveal_strlit(" ");
    lemma_unread_names();
    let o = "ISTIO_FW_FILTER_OUT"@;
    assert(!"-A"@.contains(' ') && !"-m"@.contains(' ') && !"-p"@.contains(' ')
        && !"udp"@.contains(' ') && !"conntrack"@.contains(' ') && !o.contains(' '));
    lemma_one_word("-A"@);
    lemma_one_word(o);
    lemma_one_word("-p"@);
    lemma_one_word("udp"@);
    lemma_one_word("-m"@);
    lemma_one_word("conntrack"@);
    let a = "-A"@ + " "@ + o;
    let b = a + " "@ + "-p"@;
    let c = b + " "@ + "udp"@;
    let d = c + " "@ + "-m"@;
    let e = d + " "@ + "conntrack"@;
    lemma_words_add("-A"@, o);
    lemma_words_add(a, "-p"@);
    lemma_words_add(b, "udp"@);
    lemma_words_add(c, "-m"@);
    lemma_words_add(d, "conntrack"@);
    assert(words(e) =~= seq!["-A"@, o, "-p"@, "udp"@, "-m"@, "conntrack"@]);
    let line =
        "-A ISTIO_FW_FILTER_OUT -p udp -m conntrack --ctorigdstport 53 --ctdir ORIGINAL -j ACCEPT"@;
    assert(line =~= e + " "@ + "--ctorigdstport"@ + " "@ + "53 --ctdir ORIGINAL -j ACCEPT"@);
    lemma_unread(line, e, "--ctorigdstport"@, "53 --ctdir ORIGINAL -j ACCEPT"@);
}

/// A line that asks only that the packet is not TCP.
proof fn lemma_all_but_tcp(
    line: Seq<char>,
    home: Seq<char>,
    target: Seq<char>,
    chain: Seq<char>,
    reader: NetReader,
    packet: Packet,
)
    requires
        line == "-A"@ + " "@ + home + " "@ + "! -p tcp -j"@ + " "@ + target,
        !home.contains(' '),
        !target.contains(' '),
    ensures
        takes(line, chain, reader, packet) <==> chain == home && packet.protocol !is Tcp,
        target_of(line) == target,
{
    reveal_strlit("-A");
    reveal_strlit("!");
    reveal_strlit("-p");
    reveal_strlit("tcp");
    reveal_strlit("-j");
    reveal_strlit(" ");
    reveal_strlit("! -p tcp -j");
    lemma_options_differ();
    assert(!"-A"@.contains(' ') && !"!"@.contains(' ') && !"-p"@.contains(' ')
        && !"tcp"@.contains(' ') && !"-j"@.contains(' '));
    lemma_one_word("-A"@);
    lemma_one_word(home);
    lemma_one_word("!"@);
    lemma_one_word("-p"@);
    lemma_one_word("tcp"@);
    lemma_one_word("-j"@);
    lemma_one_word(target);
    assert("! -p tcp -j"@ =~= "!"@ + " "@ + "-p"@ + " "@ + "tcp"@ + " "@ + "-j"@);
    lemma_words_add("!"@, "-p"@);
    lemma_words_add("!"@ + " "@ + "-p"@, "tcp"@);
    lemma_words_add("!"@ + " "@ + "-p"@ + " "@ + "tcp"@, "-j"@);
    assert(words("! -p tcp -j"@) =~= seq!["!"@, "-p"@, "tcp"@, "-j"@]);
    let a = "-A"@ + " "@ + home;
    let b = a + " "@ + "! -p tcp -j"@;
    lemma_words_add("-A"@, home);
    lemma_words_add(a, "! -p tcp -j"@);
    lemma_words_add(b, target);
    let all = words(line);
    assert(all =~= seq!["-A"@, home, "!"@, "-p"@, "tcp"@, "-j"@, target]);
    let two = all.skip(2);
    assert(two =~= seq!["!"@, "-p"@, "tcp"@, "-j"@, target]);
    let five = two.skip(3);
    assert(five =~= seq!["-j"@, target]);
    assert(all_hold(five, reader, packet));
    assert(all_hold(two, reader, packet) == (packet.protocol !is Tcp));
    assert(all_hold(all, reader, packet) == all_hold(two, reader, packet));
    assert(target_in(five) == target);
    assert(target_in(two) == target);
    assert(target_in(all) == target);
}

/// The lines before the detours and the rules.
spec fn opening(config: IptConfig, inline: bool) -> Seq<Seq<char>> {
    seq!["*filter"@] + inline_chains(inline) + preamble() + bypass_lines(config)
}

proof fn lemma_opening(
    config: IptConfig,
    inline: bool,
    chain: Seq<char>,
    reader: NetReader,
    packet: Packet,
)
    ensures
        forall|i: int|
            0 <= i < opening(config, inline).len() ==> !takes(
                #[trigger] opening(config, inline)[i],
                chain,
                reader,
                packet,
            ),
{
    lemma_table_lines(chain, reader, packet);
    lemma_preamble_lines(chain, reader, packet);
    lemma_owner_lines(chain, reader, packet);
    lemma_query_line(chain, reader, packet);
    if let Some(mark) = config.proxy_mark {
        lemma_mark_line(mark, chain, reader, packet);
    }
    let a = seq!["*filter"@];
    let b = inline_chains(inline);
    let c = preamble();
    let d = bypass_lines(config);
    let all = opening(config, inline);
    assert forall|i: int| 0 <= i < all.len() implies !takes(
        #[trigger] all[i],
        chain,
        reader,
        packet,
    ) by {
        if i < 1 {
            assert(all[i] == a[i]);
        } else if i < 1 + b.len() {
            assert(all[i] == b[i - 1]);
        } else if i < 1 + b.len() + c.len() {
            assert(all[i] == c[i - 1 - b.len()]);
        } else {
            assert(all[i] == d[i - 1 - b.len() - c.len()]);
        }
    }
}

proof fn lemma_detour_and_refusal_lines(chain: Seq<char>, reader: NetReader, packet: Packet)
    ensures
        takes("-A ISTIO_FW_FILTER_IN ! -p tcp -j ISTIO_FW_INLINE_IN"@, chain, reader, packet)
            <==> chain == "ISTIO_FW_FILTER_IN"@ && packet.protocol !is Tcp,
        target_of("-A ISTIO_FW_FILTER_IN ! -p tcp -j ISTIO_FW_INLINE_IN"@)
            == "ISTIO_FW_INLINE_IN"@,
        takes("-A ISTIO_FW_FILTER_OUT ! -p tcp -j ISTIO_FW_INLINE_OUT"@, chain, reader, packet)
            <==> chain == "ISTIO_FW_FILTER_OUT"@ && packet.protocol !is Tcp,
        target_of("-A ISTIO_FW_FILTER_OUT ! -p tcp -j ISTIO_FW_INLINE_OUT"@)
            == "ISTIO_FW_INLINE_OUT"@,
        takes("-A ISTIO_FW_FILTER_IN ! -p tcp -j REJECT"@, chain, reader, packet) <==> chain
            == "ISTIO_FW_FILTER_IN"@ && packet.protocol !is Tcp,
        target_of("-A ISTIO_FW_FILTER_IN ! -p tcp -j REJECT"@) == "REJECT"@,
        takes("-A ISTIO_FW_FILTER_OUT ! -p tcp -j REJECT"@, chain, reader, packet) <==> chain
            == "ISTIO_FW_FILTER_OUT"@ && packet.protocol !is Tcp,
        target_of("-A ISTIO_FW_FILTER_OUT ! -p tcp -j REJECT"@) == "REJECT"@,
{
    reveal_strlit("-A ISTIO_FW_FILTER_IN ! -p tcp -j ISTIO_FW_INLINE_IN");
    reveal_strlit("-A ISTIO_FW_FILTER_OUT ! -p tcp -j ISTIO_FW_INLINE_OUT");
    reveal_strlit("-A ISTIO_FW_FILTER_IN ! -p tcp -j REJECT");
    reveal_strlit("-A ISTIO_FW_FILTER_OUT ! -p tcp -j REJECT");
    reveal_strlit("ISTIO_FW_FILTER_IN");
    reveal_strlit("ISTIO_FW_FILTER_OUT");
    reveal_strlit("ISTIO_FW_INLINE_IN");
    reveal_strlit("ISTIO_FW_INLINE_OUT");
    reveal_strlit("REJECT");
    reveal_strlit("-A");
    reveal_strlit("! -p tcp -j");
    reveal_strlit(" ");
    let i = "ISTIO_FW_FILTER_IN"@;
    let o = "ISTIO_FW_FILTER_OUT"@;
    let x = "ISTIO_FW_INLINE_IN"@;
    let y = "ISTIO_FW_INLINE_OUT"@;
    let r = "REJECT"@;
    assert(!i.contains(' ') && !o.contains(' ') && !x.contains(' ') && !y.contains(' ')
        && !r.contains(' '));
    let line = "-A ISTIO_FW_FILTER_IN ! -p tcp -j ISTIO_FW_INLINE_IN"@;
    assert(line =~= "-A"@ + " "@ + i + " "@ + "! -p tcp -j"@ + " "@ + x);
    lemma_all_but_tcp(line, i, x, chain, reader, packet);
    let line = "-A ISTIO_FW_FILTER_OUT ! -p tcp -j ISTIO_FW_INLINE_OUT"@;
    assert(line =~= "-A"@ + " "@ + o + " "@ + "! -p tcp -j"@ + " "@ + y);
    lemma_all_but_tcp(line, o, y, chain, reader, packet);
    let line = "-A ISTIO_FW_FILTER_IN ! -p tcp -j REJECT"@;
    assert(line =~= "-A"@ + " "@ + i + " "@ + "! -p tcp -j"@ + " "@ + r);
    lemma_all_but_tcp(line, i, r, chain, reader, packet);
    let line = "-A ISTIO_FW_FILTER_OUT ! -p tcp -j REJECT"@;
    assert(line =~= "-A"@ + " "@ + o + " "@ + "! -p tcp -j"@ + " "@ + r);
    lemma_all_but_tcp(line, o, r, chain, reader, packet);
}

proof fn lemma_targets_differ()
    ensures
        !ends_here("ISTIO_FW_INLINE_IN"@),
        !ends_here("ISTIO_FW_INLINE_OUT"@),
{
    reveal_strlit("ISTIO_FW_INLINE_IN");
    reveal_strlit("ISTIO_FW_INLINE_OUT");
    reveal_strlit("ACCEPT");
    reveal_strlit("REJECT");
    reveal_strlit("RETURN");
    assert("ISTIO_FW_INLINE_IN"@.len() == 18 && "ISTIO_FW_INLINE_OUT"@.len() == 19);
    assert("ACCEPT"@.len() == 6 && "REJECT"@.len() == 6 && "RETURN"@.len() == 6);
}

/// A packet that opens something new and is not TCP goes to the stage before first, where
/// there is one. There the rules of that stage decide in their order; what they let pass
/// goes on to the workload's rules, which decide in theirs; and what no rule is for is
/// refused where policies are attached, and left alone otherwise. TCP is left alone. Each
/// direction has chains of its own.
#[verifier::rlimit(60)]
#[verifier::spinoff_prover]
pub proof fn law_script_decides_as_the_rule_set(
    config: IptConfig,
    ruleset: RuleSet,
    direction: Direction,
    reader: NetReader,
    packet: Packet,
)
    requires
        reads_networks(reader),
        is_v4_packet(packet),
        forall|i: int|
            0 <= i < ordered(ruleset.rules@).len() ==> separate_dimensions(
                (#[trigger] ordered(ruleset.rules@)[i]).clauses@,
            ),
        forall|i: int|
            0 <= i < ordered(ruleset.inline_rules@).len() ==> separate_dimensions(
                (#[trigger] ordered(ruleset.inline_rules@)[i]).clauses@,
            ),
    ensures
        ({
            let lines = ruleset_lines(config, ruleset);
            let own = if direction is Inbound {
                "ISTIO_FW_FILTER_IN"@
            } else {
                "ISTIO_FW_FILTER_OUT"@
            };
            let before = if direction is Inbound {
                "ISTIO_FW_INLINE_IN"@
            } else {
                "ISTIO_FW_INLINE_OUT"@
            };
            let asked = rules_ask(ordered(ruleset.rules@), direction, Stage::Workload, packet);
            &&& leads_to(lines, own, before, reader, packet) <==> ruleset.inline_rules@.len() > 0
                && packet.protocol !is Tcp
            &&& lines_do(lines, before, reader, packet) == rules_ask(
                ordered(ruleset.inline_rules@),
                direction,
                Stage::Inline,
                packet,
            )
            &&& lines_do(lines, own, reader, packet) == (if asked is Some {
                asked
            } else if ruleset.policy_attached && packet.protocol !is Tcp {
                Some("REJECT"@)
            } else {
                None
            })
        }),
{
    let inline = ruleset.inline_rules@.len() > 0;
    let own = chain_for(Stage::Workload, direction);
    let before = chain_for(Stage::Inline, direction);
    let first = opening(config, inline);
    let jumps = inline_jumps(inline);
    let stage = rules_lines(ordered(ruleset.inline_rules@), Stage::Inline);
    let rules = rules_lines(ordered(ruleset.rules@), Stage::Workload);
    let last = default_deny(ruleset.policy_attached);
    assert(ruleset_lines(config, ruleset) =~= pieces(first, jumps, stage, rules, last));
    lemma_chain(config, ruleset, Stage::Workload, direction, reader, packet);
    lemma_chain(config, ruleset, Stage::Inline, direction, reader, packet);
    assert(own == "ISTIO_FW_FILTER_IN"@ || own == "ISTIO_FW_FILTER_OUT"@);
    assert(before != "ISTIO_FW_FILTER_IN"@ && before != "ISTIO_FW_FILTER_OUT"@) by {
        lemma_chains();
        assert("ISTIO_FW_FILTER_IN"@ == chain_for(Stage::Workload, Direction::Inbound));
        assert("ISTIO_FW_FILTER_OUT"@ == chain_for(Stage::Workload, Direction::Outbound));
    }
    if inline && packet.protocol !is Tcp {
        lemma_opening(config, inline, own, reader, packet);
        let rest = stage + rules + last + seq!["COMMIT"@];
        lemma_leads(first, jumps, rest, inline, direction, reader, packet);
        assert(pieces(first, jumps, stage, rules, last) =~= first + (jumps + rest));
    } else {
        lemma_nothing_leads(config, ruleset, direction, reader, packet);
    }
}

/// The parts of a script in their order.
spec fn pieces(
    first: Seq<Seq<char>>,
    jumps: Seq<Seq<char>>,
    stage: Seq<Seq<char>>,
    rules: Seq<Seq<char>>,
    last: Seq<Seq<char>>,
) -> Seq<Seq<char>> {
    first + jumps + stage + rules + last + seq!["COMMIT"@]
}

#[verifier::rlimit(60)]
#[verifier::spinoff_prover]
proof fn lemma_chain(
    config: IptConfig,
    ruleset: RuleSet,
    at: Stage,
    direction: Direction,
    reader: NetReader,
    packet: Packet,
)
    requires
        reads_networks(reader),
        is_v4_packet(packet),
        forall|i: int|
            0 <= i < ordered(ruleset.rules@).len() ==> separate_dimensions(
                (#[trigger] ordered(ruleset.rules@)[i]).clauses@,
            ),
        forall|i: int|
            0 <= i < ordered(ruleset.inline_rules@).len() ==> separate_dimensions(
                (#[trigger] ordered(ruleset.inline_rules@)[i]).clauses@,
            ),
    ensures
        ({
            let inline = ruleset.inline_rules@.len() > 0;
            let chain = chain_for(at, direction);
            let asked = rules_ask(
                if at is Inline {
                    ordered(ruleset.inline_rules@)
                } else {
                    ordered(ruleset.rules@)
                },
                direction,
                at,
                packet,
            );
            lines_do(
                pieces(
                    opening(config, inline),
                    inline_jumps(inline),
                    rules_lines(ordered(ruleset.inline_rules@), Stage::Inline),
                    rules_lines(ordered(ruleset.rules@), Stage::Workload),
                    default_deny(ruleset.policy_attached),
                ),
                chain,
                reader,
                packet,
            ) == (if asked is Some {
                asked
            } else if ruleset.policy_attached && (chain == "ISTIO_FW_FILTER_IN"@ || chain
                == "ISTIO_FW_FILTER_OUT"@) && packet.protocol !is Tcp {
                Some("REJECT"@)
            } else {
                None
            })
        }),
{
    let inline = ruleset.inline_rules@.len() > 0;
    let chain = chain_for(at, direction);
    let first = opening(config, inline);
    let jumps = inline_jumps(inline);
    let stage = rules_lines(ordered(ruleset.inline_rules@), Stage::Inline);
    let rules = rules_lines(ordered(ruleset.rules@), Stage::Workload);
    let last = default_deny(ruleset.policy_attached);
    let commit = seq!["COMMIT"@];
    lemma_opening(config, inline, chain, reader, packet);
    lemma_none_taken(first, chain, reader, packet);
    lemma_table_lines(chain, reader, packet);
    lemma_none_taken(commit, chain, reader, packet);
    lemma_rules(ordered(ruleset.inline_rules@), Stage::Inline, at, direction, reader, packet);
    lemma_rules(ordered(ruleset.rules@), Stage::Workload, at, direction, reader, packet);
    lemma_pair(jumps, inline, chain, reader, packet);
    lemma_pair(last, ruleset.policy_attached, chain, reader, packet);
    lemma_append(first, jumps, chain, reader, packet);
    lemma_append(first + jumps, stage, chain, reader, packet);
    lemma_append(first + jumps + stage, rules, chain, reader, packet);
    lemma_append(first + jumps + stage + rules, last, chain, reader, packet);
    lemma_append(first + jumps + stage + rules + last, commit, chain, reader, packet);
}

#[verifier::rlimit(60)]
#[verifier::spinoff_prover]
proof fn lemma_nothing_leads(
    config: IptConfig,
    ruleset: RuleSet,
    direction: Direction,
    reader: NetReader,
    packet: Packet,
)
    requires
        reads_networks(reader),
        is_v4_packet(packet),
        forall|i: int|
            0 <= i < ordered(ruleset.rules@).len() ==> separate_dimensions(
                (#[trigger] ordered(ruleset.rules@)[i]).clauses@,
            ),
        forall|i: int|
            0 <= i < ordered(ruleset.inline_rules@).len() ==> separate_dimensions(
                (#[trigger] ordered(ruleset.inline_rules@)[i]).clauses@,
            ),
        ruleset.inline_rules@.len() == 0 || packet.protocol is Tcp,
    ensures
        !leads_to(
            pieces(
                opening(config, ruleset.inline_rules@.len() > 0),
                inline_jumps(ruleset.inline_rules@.len() > 0),
                rules_lines(ordered(ruleset.inline_rules@), Stage::Inline),
                rules_lines(ordered(ruleset.rules@), Stage::Workload),
                default_deny(ruleset.policy_attached),
            ),
            chain_for(Stage::Workload, direction),
            chain_for(Stage::Inline, direction),
            reader,
            packet,
        ),
{
    let inline = ruleset.inline_rules@.len() > 0;
    let own = chain_for(Stage::Workload, direction);
    let before = chain_for(Stage::Inline, direction);
    let first = opening(config, inline);
    let jumps = inline_jumps(inline);
    let stage = rules_lines(ordered(ruleset.inline_rules@), Stage::Inline);
    let rules = rules_lines(ordered(ruleset.rules@), Stage::Workload);
    let last = default_deny(ruleset.policy_attached);
    let lines = pieces(first, jumps, stage, rules, last);
    lemma_opening(config, inline, own, reader, packet);
    lemma_table_lines(own, reader, packet);
    lemma_detour_and_refusal_lines(own, reader, packet);
    lemma_targets_differ();
    lemma_rules_end(ordered(ruleset.inline_rules@), Stage::Inline, own, reader, packet);
    lemma_rules_end(ordered(ruleset.rules@), Stage::Workload, own, reader, packet);
    assert forall|i: int|
        0 <= i < lines.len() && takes(#[trigger] lines[i], own, reader, packet) implies target_of(
        lines[i],
    ) != before by {
        let n = first.len() as int;
        if i < n {
            assert(lines[i] == first[i]);
        } else if i < n + jumps.len() {
            assert(lines[i] == jumps[i - n]);
        } else if i < n + jumps.len() + stage.len() {
            assert(lines[i] == stage[i - n - jumps.len()]);
        } else if i < n + jumps.len() + stage.len() + rules.len() {
            assert(lines[i] == rules[i - n - jumps.len() - stage.len()]);
        } else if i < n + jumps.len() + stage.len() + rules.len() + last.len() {
            assert(lines[i] == last[i - n - jumps.len() - stage.len() - rules.len()]);
        } else {
            assert(lines[i] == "COMMIT"@);
        }
    }
}

/// Two lines, or none, of which each is for one direction.
proof fn lemma_pair(
    lines: Seq<Seq<char>>,
    some: bool,
    chain: Seq<char>,
    reader: NetReader,
    packet: Packet,
)
    requires
        lines == inline_jumps(some) || lines == default_deny(some),
    ensures
        lines == inline_jumps(some) ==> lines_do(lines, chain, reader, packet) is None,
        lines == default_deny(some) ==> lines_do(lines, chain, reader, packet) == (if some && (
        chain == "ISTIO_FW_FILTER_IN"@ || chain == "ISTIO_FW_FILTER_OUT"@) && packet.protocol
            !is Tcp {
            Some("REJECT"@)
        } else {
            None
        }),
{
    lemma_detour_and_refusal_lines(chain, reader, packet);
    lemma_targets_differ();
    reveal_with_fuel(lines_do, 3);
    if some {
        assert(lines.len() == 2);
        assert(lines.drop_last() =~= seq![lines[0]]);
        assert(seq![lines[0]].drop_last() =~= Seq::empty());
        assert(lines.last() == lines[1]);
    }
}

proof fn lemma_leads(
    first: Seq<Seq<char>>,
    jumps: Seq<Seq<char>>,
    rest: Seq<Seq<char>>,
    inline: bool,
    direction: Direction,
    reader: NetReader,
    packet: Packet,
)
    requires
        jumps == inline_jumps(inline),
        inline,
        packet.protocol !is Tcp,
        forall|i: int|
            0 <= i < first.len() ==> !takes(
                #[trigger] first[i],
                chain_for(Stage::Workload, direction),
                reader,
                packet,
            ),
    ensures
        leads_to(
            first + (jumps + rest),
            chain_for(Stage::Workload, direction),
            chain_for(Stage::Inline, direction),
            reader,
            packet,
        ),
{
    let own = chain_for(Stage::Workload, direction);
    lemma_chains();
    lemma_detour_and_refusal_lines(own, reader, packet);
    let all = first + (jumps + rest);
    let n = first.len() as int;
    let at = if direction is Inbound {
        n
    } else {
        n + 1
    };
    assert(all[n] == jumps[0] && all[n + 1] == jumps[1]);
    assert("ISTIO_FW_FILTER_IN"@ == chain_for(Stage::Workload, Direction::Inbound));
    assert("ISTIO_FW_FILTER_OUT"@ == chain_for(Stage::Workload, Direction::Outbound));
    assert forall|k: int| 0 <= k < at implies !takes(#[trigger] all[k], own, reader, packet) by {
        if k < n {
            assert(all[k] == first[k]);
        }
    }
    assert(takes(all[at], own, reader, packet));
}

/// What a rule's lines take, they do something to at once.
proof fn lemma_rules_end(
    rules: Seq<FirewallRule>,
    stage: Stage,
    chain: Seq<char>,
    reader: NetReader,
    packet: Packet,
)
    requires
        reads_networks(reader),
        is_v4_packet(packet),
        forall|i: int|
            0 <= i < rules.len() ==> separate_dimensions((#[trigger] rules[i]).clauses@),
    ensures
        forall|i: int|
            0 <= i < rules_lines(rules, stage).len() ==> ends_here(
                target_of(#[trigger] rules_lines(rules, stage)[i]),
            ),
    decreases rules.len(),
{
    if rules.len() > 0 {
        let short = rules.drop_last();
        let last = rules.last();
        assert forall|i: int| 0 <= i < short.len() implies separate_dimensions(
            (#[trigger] short[i]).clauses@,
        ) by {
            assert(short[i] == rules[i]);
        }
        lemma_rules_end(short, stage, chain, reader, packet);
        assert(separate_dimensions(rules[rules.len() - 1].clauses@));
        law_lines_take_the_packets_of_the_rule(last, stage, reader, packet);
        let a = rules_lines(short, stage);
        let b = rule_lines(last, stage);
        assert(rules_lines(rules, stage) == a + b);
        assert forall|i: int| 0 <= i < (a + b).len() implies ends_here(
            target_of(#[trigger] (a + b)[i]),
        ) by {
            if i < a.len() {
                assert((a + b)[i] == a[i]);
            } else {
                assert((a + b)[i] == b[i - a.len()]);
            }
        }
    }
}

/// Before anything else a script declares the chains of the stage before, where there is
/// one, empties its own two chains, and lets established connections and loopback pass in
/// both. The proxy's own traffic passes next: by its mark or, without one, by its user and
/// its group. With a mark and a DNS proxy, queries that were redirected pass too.
#[verifier::rlimit(60)]
#[verifier::spinoff_prover]
pub proof fn law_known_traffic_passes_first(config: IptConfig, ruleset: RuleSet)
    ensures
        ({
            let lines = ruleset_lines(config, ruleset);
            let start = seq!["*filter"@] + (if ruleset.inline_rules@.len() > 0 {
                seq![":ISTIO_FW_INLINE_IN - [0:0]"@, ":ISTIO_FW_INLINE_OUT - [0:0]"@]
            } else {
                Seq::empty()
            }) + seq![
                "-F ISTIO_FW_FILTER_IN"@,
                "-F ISTIO_FW_FILTER_OUT"@,
                "-A ISTIO_FW_FILTER_IN -m conntrack --ctstate ESTABLISHED,RELATED -j ACCEPT"@,
                "-A ISTIO_FW_FILTER_OUT -m conntrack --ctstate ESTABLISHED,RELATED -j ACCEPT"@,
                "-A ISTIO_FW_FILTER_IN -i lo -j ACCEPT"@,
                "-A ISTIO_FW_FILTER_OUT -o lo -j ACCEPT"@,
            ] + (match config.proxy_mark {
                Some(mark) => seq![
                    "-A ISTIO_FW_FILTER_OUT -m mark --mark "@ + decimal(mark as nat)
                        + " -j RETURN"@,
                ],
                None => seq![
                    "-A ISTIO_FW_FILTER_OUT -m owner --uid-owner 1337 -j RETURN"@,
                    "-A ISTIO_FW_FILTER_OUT -m owner --gid-owner 1337 -j RETURN"@,
                ],
            }) + (if config.proxy_mark is Some && config.dns_proxy {
                seq![
                    "-A ISTIO_FW_FILTER_OUT -p udp -m conntrack --ctorigdstport 53 --ctdir ORIGINAL -j ACCEPT"@,
                ]
            } else {
                Seq::empty()
            });
            &&& lines.len() > start.len()
            &&& lines.take(start.len() as int) == start
            &&& lines.last() == "COMMIT"@
        }),
{
    let inline = ruleset.inline_rules@.len() > 0;
    let lines = ruleset_lines(config, ruleset);
    let first = opening(config, inline);
    assert(lines.take(first.len() as int) =~= first);
    assert(first =~= seq!["*filter"@] + inline_chains(inline) + preamble() + bypass_lines(config));
}

} // verus!
