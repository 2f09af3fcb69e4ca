//! What the lines for iptables mean: which packets a line takes, in which chain, and
//! what it does to them.
//!
//! A line is a list of options, most with one argument; it takes the packets of which
//! all its matches hold, and ends with its target. iptables sees IPv4 packets only.

use vstd::prelude::*;

use super::ipt::{
    any_passes, chain_text, flat_lines, flat_passes, flattened, group_pairs,
    law_flattening_keeps_meaning, line_parts, needs_ipv6, net_choices, net_passes, pairs,
    port_choices, protocol_text, range_text, refine, refine_all, refine_by_clause, rule_lines,
    rules_lines, shown_net, suffix_text, target_text, with_dests, with_ports, with_sources, Flat,
};
use super::nft_meaning::{reads_networks, NetReader};
use super::super::types::{
    clauses_pass, port_passes, separate_dimensions, Direction, FirewallMatch, FirewallProtocol,
    FirewallRule, Packet, PortGroup, PortRange, RuleAction,
};
use super::words::{
    is_value, lemma_one_word, lemma_words_add, lemma_words_of_joined, lemma_words_of_two, words,
    words_of,
};
use super::Stage;
use crate::net::{law_network_is_a_block_of_addresses, IpNet};
use crate::text::{
    decimal, digits_value, is_digit, joined, law_decimal_reads_back, law_split_of_one,
    law_split_of_two, lemma_decimal_is_digits, split,
};

verus! {

/// A packet of IPv4.
pub open spec fn is_v4_packet(packet: Packet) -> bool {
    packet.source is V4 && packet.dest is V4
}

/// Whether a word names the packet's protocol.
pub open spec fn names_protocol(word: Seq<char>, packet: Packet) -> bool {
    ||| word == "tcp"@ && packet.protocol is Tcp
    ||| word == "udp"@ && packet.protocol is Udp
    ||| word == "sctp"@ && packet.protocol is Sctp
    ||| word == "icmp"@ && packet.protocol is Icmp
}

/// Whether a word writes the port, or a range with the port in it.
pub open spec fn writes_port(word: Seq<char>, port: u16) -> bool {
    let ends = split(word, ':');
    ||| ends.len() == 1 && digits_value(ends[0]) == port
    ||| ends.len() == 2 && digits_value(ends[0]) <= port <= digits_value(ends[1])
}

/// Whether a word writes ports with commas between them, one of which is the port.
pub open spec fn writes_one_port(word: Seq<char>, port: u16) -> bool {
    exists|i: int|
        0 <= i < split(word, ',').len() && writes_port(#[trigger] split(word, ',')[i], port)
}

/// Whether all matches hold of the packet, up to the target.
pub open spec fn all_hold(words: Seq<Seq<char>>, reader: NetReader, packet: Packet) -> bool
    decreases words.len(),
{
    if words.len() < 2 {
        false
    } else if words[0] == "-j"@ {
        true
    } else if words[0] == "-A"@ || words[0] == "-m"@ {
        all_hold(words.skip(2), reader, packet)
    } else if words[0] == "!"@ {
        words.len() >= 3 && words[1] == "-p"@ && !names_protocol(words[2], packet) && all_hold(
            words.skip(3),
            reader,
            packet,
        )
    } else if words[0] == "-p"@ {
        names_protocol(words[1], packet) && all_hold(words.skip(2), reader, packet)
    } else if words[0] == "-s"@ {
        reader(words[1], packet.source) && all_hold(words.skip(2), reader, packet)
    } else if words[0] == "-d"@ {
        reader(words[1], packet.dest) && all_hold(words.skip(2), reader, packet)
    } else if words[0] == "--dport"@ {
        writes_port(words[1], packet.dest_port) && all_hold(words.skip(2), reader, packet)
    } else if words[0] == "--dports"@ {
        writes_one_port(words[1], packet.dest_port) && all_hold(words.skip(2), reader, packet)
    } else {
        false
    }
}

/// The target that the words lead to.
pub open spec fn target_in(words: Seq<Seq<char>>) -> Seq<char>
    decreases words.len(),
{
    if words.len() < 2 {
        Seq::empty()
    } else if words[0] == "-j"@ {
        words[1]
    } else if words[0] == "!"@ && words.len() >= 3 {
        target_in(words.skip(3))
    } else {
        target_in(words.skip(2))
    }
}

/// Whether a line of the chain takes the packet.
pub open spec fn takes(
    line: Seq<char>,
    chain: Seq<char>,
    reader: NetReader,
    packet: Packet,
) -> bool {
    &&& words(line).len() >= 2
    &&& words(line)[0] == "-A"@
    &&& words(line)[1] == chain
    &&& all_hold(words(line), reader, packet)
}

/// What a line does to the packets that it takes.
pub open spec fn target_of(line: Seq<char>) -> Seq<char> {
    target_in(words(line))
}

pub proof fn lemma_options_differ()
    ensures
        "-A"@ != "-j"@ && "-m"@ != "-j"@ && "!"@ != "-j"@ && "-p"@ != "-j"@ && "-s"@ != "-j"@,
        "-d"@ != "-j"@ && "--dport"@ != "-j"@ && "--dports"@ != "-j"@,
        "!"@ != "-A"@ && "-p"@ != "-A"@ && "-s"@ != "-A"@ && "-d"@ != "-A"@,
        "--dport"@ != "-A"@ && "--dports"@ != "-A"@,
        "!"@ != "-m"@ && "-p"@ != "-m"@ && "-s"@ != "-m"@ && "-d"@ != "-m"@,
        "--dport"@ != "-m"@ && "--dports"@ != "-m"@,
        "-p"@ != "!"@ && "-s"@ != "!"@ && "-d"@ != "!"@ && "--dport"@ != "!"@ && "--dports"@
            != "!"@ && "-A"@ != "!"@ && "-m"@ != "!"@,
        "-s"@ != "-p"@ && "-d"@ != "-p"@ && "--dport"@ != "-p"@ && "--dports"@ != "-p"@,
        "-d"@ != "-s"@ && "--dport"@ != "-s"@ && "--dports"@ != "-s"@,
        "--dport"@ != "-d"@ && "--dports"@ != "-d"@,
        "--dports"@ != "--dport"@,
        "tcp"@ != "udp"@ && "tcp"@ != "sctp"@ && "tcp"@ != "icmp"@ && "udp"@ != "sctp"@ && "udp"@
            != "icmp"@ && "sctp"@ != "icmp"@,
{
    reveal_strlit("-A");
    reveal_strlit("-m");
    reveal_strlit("-j");
    reveal_strlit("!");
    reveal_strlit("-p");
    reveal_strlit("-s");
    reveal_strlit("-d");
    reveal_strlit("--dport");
    reveal_strlit("--dports");
    reveal_strlit("tcp");
    reveal_strlit("udp");
    reveal_strlit("sctp");
    reveal_strlit("icmp");
    assert("-A"@[1] == 'A' && "-m"@[1] == 'm' && "-j"@[1] == 'j' && "-p"@[1] == 'p' && "-s"@[1]
        == 's' && "-d"@[1] == 'd');
    assert("!"@.len() == 1 && "--dport"@.len() == 7 && "--dports"@.len() == 8);
    assert("-A"@.len() == 2 && "-m"@.len() == 2 && "-j"@.len() == 2 && "-p"@.len() == 2
        && "-s"@.len() == 2 && "-d"@.len() == 2);
    assert("tcp"@[0] == 't' && "udp"@[0] == 'u' && "sctp"@[0] == 's' && "icmp"@[0] == 'i');
}

/// An option with its argument is two words.
pub proof fn lemma_option(text: Seq<char>, flag: Seq<char>, argument: Seq<char>)
    requires
        text == flag + " "@ + argument,
        !flag.contains(' '),
        !argument.contains(' '),
    ensures
        words(text) == seq![flag, argument],
        words_of(seq![text]) == seq![flag, argument],
{
    lemma_words_add(flag, argument);
    lemma_one_word(flag);
    lemma_one_word(argument);
    reveal_with_fuel(words_of, 2);
    assert(seq![text].drop_last() =~= Seq::empty());
    assert(words(text) =~= seq![flag, argument]);
    assert(words_of(seq![text]) =~= words(text));
}

proof fn lemma_range_is_read(range: PortRange, port: u16)
    ensures
        range_text(range).len() > 0,
        !range_text(range).contains(' '),
        !range_text(range).contains(','),
        writes_port(range_text(range), port) <==> range.start <= port <= range.end,
{
    reveal_strlit(":");
    let a = decimal(range.start as nat);
    let b = decimal(range.end as nat);
    lemma_decimal_is_digits(range.start as nat);
    lemma_decimal_is_digits(range.end as nat);
    law_decimal_reads_back(range.start as nat);
    law_decimal_reads_back(range.end as nat);
    assert(!a.contains(':')) by {
        if a.contains(':') {
            let i = choose|i: int| 0 <= i < a.len() && a[i] == ':';
            assert(is_digit(a[i]));
        }
    }
    assert(!b.contains(':')) by {
        if b.contains(':') {
            let i = choose|i: int| 0 <= i < b.len() && b[i] == ':';
            assert(is_digit(b[i]));
        }
    }
    law_split_of_one(a, ':');
    law_split_of_one(b, ':');
    let text = range_text(range);
    if range.start != range.end {
        assert(":"@ =~= seq![':']);
        law_split_of_two(a, b, ':');
        assert(split(text, ':') =~= seq![a, b]);
    }
    assert forall|i: int| 0 <= i < text.len() implies is_digit(#[trigger] text[i]) || text[i]
        == ':' by {
        if i < a.len() {
            assert(text[i] == a[i]);
            assert(is_digit(a[i]));
        } else if i > a.len() {
            assert(text[i] == b[i - a.len() - 1]);
            assert(is_digit(b[i - a.len() - 1]));
        }
    }
}

proof fn lemma_split_of_joined(parts: Seq<Seq<char>>)
    requires
        parts.len() > 0,
        forall|i: int| 0 <= i < parts.len() ==> !(#[trigger] parts[i]).contains(','),
        forall|i: int| 0 <= i < parts.len() ==> !(#[trigger] parts[i]).contains(' '),
    ensures
        split(joined(parts, ","@), ',') == parts,
        !joined(parts, ","@).contains(' '),
    decreases parts.len(),
{
    reveal_strlit(",");
    assert(","@ =~= seq![',']);
    if parts.len() == 1 {
        assert(!parts[0].contains(','));
        law_split_of_one(parts[0], ',');
        assert(parts =~= seq![parts[0]]);
        assert(!parts[0].contains(' '));
    } else {
        let short = parts.drop_last();
        assert forall|i: int| 0 <= i < short.len() implies !(#[trigger] short[i]).contains(',') by {
            assert(short[i] == parts[i]);
        }
        assert forall|i: int| 0 <= i < short.len() implies !(#[trigger] short[i]).contains(' ') by {
            assert(short[i] == parts[i]);
        }
        lemma_split_of_joined(short);
        assert(!parts[parts.len() - 1].contains(','));
        assert(!parts[parts.len() - 1].contains(' '));
        law_split_of_one(parts.last(), ',');
        let before = joined(short, ","@);
        law_split_of_two(before, parts.last(), ',');
        assert(split(joined(parts, ","@), ',') =~= parts);
        let all = joined(parts, ","@);
        if all.contains(' ') {
            let i = choose|i: int| 0 <= i < all.len() && all[i] == ' ';
            if i < before.len() {
                assert(before[i] == ' ');
            } else if i > before.len() {
                assert(parts.last()[i - before.len() - 1] == ' ');
            }
        }
    }
}

/// The ports of a combination in front of words.
proof fn lemma_ports(ports: Seq<PortRange>, rest: Seq<Seq<char>>, reader: NetReader, packet: Packet)
    requires
        ports.len() > 0,
    ensures
        all_hold(words_of(seq![suffix_text(ports)]) + rest, reader, packet) == (port_passes(
            ports,
            packet.dest_port,
        ) && all_hold(rest, reader, packet)),
        target_in(words_of(seq![suffix_text(ports)]) + rest) == target_in(rest),
{
    lemma_options_differ();
    reveal_strlit("--dport");
    reveal_strlit("--dport ");
    reveal_strlit("--dports");
    reveal_strlit("-m multiport --dports ");
    reveal_strlit("-m");
    reveal_strlit("multiport");
    reveal_strlit(" ");
    let port = packet.dest_port;
    let text = suffix_text(ports);
    assert(!"--dport"@.contains(' ') && !"--dports"@.contains(' ') && !"-m"@.contains(' ')
        && !"multiport"@.contains(' '));
    if ports.len() == 1 {
        let value = range_text(ports[0]);
        lemma_range_is_read(ports[0], port);
        assert(text =~= "--dport"@ + " "@ + value);
        lemma_option(text, "--dport"@, value);
        let all = words_of(seq![text]) + rest;
        assert(all[0] == "--dport"@ && all[1] == value);
        assert(all.skip(2) =~= rest);
        if port_passes(ports, port) {
            let i = choose|i: int| 0 <= i < ports.len() && #[trigger] ports[i].has(port);
            assert(i == 0);
        }
        if writes_port(value, port) {
            assert(ports[0].has(port));
        }
    } else {
        let texts = ports.map_values(|r: PortRange| range_text(r));
        assert forall|i: int| 0 <= i < texts.len() implies !(#[trigger] texts[i]).contains(',')
            && !texts[i].contains(' ') && (writes_port(texts[i], port) <==> ports[i].has(port)) by {
            lemma_range_is_read(ports[i], port);
        }
        lemma_split_of_joined(texts);
        let value = joined(texts, ","@);
        let head = "-m"@ + " "@ + "multiport"@;
        let tail = "--dports"@ + " "@ + value;
        assert(text =~= head + " "@ + tail);
        lemma_words_add(head, tail);
        lemma_option(head, "-m"@, "multiport"@);
        lemma_option(tail, "--dports"@, value);
        reveal_with_fuel(words_of, 2);
        assert(seq![text].drop_last() =~= Seq::empty());
        assert(words_of(seq![text]) =~= words(text));
        let all = words_of(seq![text]) + rest;
        assert(all =~= seq!["-m"@, "multiport"@, "--dports"@, value] + rest);
        assert(all[0] == "-m"@);
        let behind = all.skip(2);
        assert(behind[0] == "--dports"@ && behind[1] == value);
        assert(behind.skip(2) =~= rest);
        assert(all_hold(behind, reader, packet) == (writes_one_port(value, port) && all_hold(
            rest,
            reader,
            packet,
        )));
        assert(target_in(behind) == target_in(rest));
        if writes_one_port(value, port) {
            let i = choose|i: int|
                0 <= i < split(value, ',').len() && writes_port(
                    #[trigger] split(value, ',')[i],
                    port,
                );
            assert(writes_port(texts[i], port));
            assert(ports[i].has(port));
        }
        if port_passes(ports, port) {
            let i = choose|i: int| 0 <= i < ports.len() && #[trigger] ports[i].has(port);
            assert(writes_port(split(value, ',')[i], port));
        }
    }
}

/// The protocol of a combination in front of words.
proof fn lemma_protocol(
    protocol: FirewallProtocol,
    rest: Seq<Seq<char>>,
    reader: NetReader,
    packet: Packet,
)
    ensures
        all_hold(words_of(seq![protocol_text(protocol)]) + rest, reader, packet) == (match protocol {
            FirewallProtocol::NonTcp => packet.protocol !is Tcp,
            FirewallProtocol::Udp => packet.protocol is Udp,
            FirewallProtocol::Sctp => packet.protocol is Sctp,
            FirewallProtocol::Icmp => packet.protocol is Icmp,
        } && all_hold(rest, reader, packet)),
        target_in(words_of(seq![protocol_text(protocol)]) + rest) == target_in(rest),
{
    lemma_options_differ();
    reveal_strlit("-p");
    reveal_strlit("!");
    reveal_strlit(" ");
    reveal_strlit("tcp");
    reveal_strlit("udp");
    reveal_strlit("sctp");
    reveal_strlit("icmp");
    reveal_strlit("! -p tcp");
    reveal_strlit("-p udp");
    reveal_strlit("-p sctp");
    reveal_strlit("-p icmp");
    let text = protocol_text(protocol);
    assert(!"-p"@.contains(' ') && !"!"@.contains(' ') && !"tcp"@.contains(' ')
        && !"udp"@.contains(' ') && !"sctp"@.contains(' ') && !"icmp"@.contains(' '));
    let all = words_of(seq![text]) + rest;
    match protocol {
        FirewallProtocol::NonTcp => {
            let tail = "-p"@ + " "@ + "tcp"@;
            assert(text =~= "!"@ + " "@ + tail);
            lemma_words_add("!"@, tail);
            lemma_one_word("!"@);
            lemma_option(tail, "-p"@, "tcp"@);
            reveal_with_fuel(words_of, 2);
            assert(seq![text].drop_last() =~= Seq::empty());
            assert(words_of(seq![text]) =~= words(text));
            assert(all =~= seq!["!"@, "-p"@, "tcp"@] + rest);
            assert(all[0] == "!"@ && all[1] == "-p"@ && all[2] == "tcp"@);
            assert(all.skip(3) =~= rest);
        },
        FirewallProtocol::Udp => {
            assert(text =~= "-p"@ + " "@ + "udp"@);
            lemma_option(text, "-p"@, "udp"@);
            assert(all[0] == "-p"@ && all[1] == "udp"@);
            assert(all.skip(2) =~= rest);
        },
        FirewallProtocol::Sctp => {
            assert(text =~= "-p"@ + " "@ + "sctp"@);
            lemma_option(text, "-p"@, "sctp"@);
            assert(all[0] == "-p"@ && all[1] == "sctp"@);
            assert(all.skip(2) =~= rest);
        },
        FirewallProtocol::Icmp => {
            assert(text =~= "-p"@ + " "@ + "icmp"@);
            lemma_option(text, "-p"@, "icmp"@);
            assert(all[0] == "-p"@ && all[1] == "icmp"@);
            assert(all.skip(2) =~= rest);
        },
    }
}

/// An address of a combination in front of words.
proof fn lemma_address(
    source: bool,
    net: Option<IpNet>,
    rest: Seq<Seq<char>>,
    reader: NetReader,
    packet: Packet,
)
    requires
        reads_networks(reader),
    ensures
        ({
            let flag = if source {
                "-s "@
            } else {
                "-d "@
            };
            let ip = if source {
                packet.source
            } else {
                packet.dest
            };
            &&& all_hold(words_of(shown_net(flag, net)) + rest, reader, packet) == (net_passes(
                net,
                ip,
            ) && all_hold(rest, reader, packet))
            &&& target_in(words_of(shown_net(flag, net)) + rest) == target_in(rest)
        }),
{
    lemma_options_differ();
    reveal_strlit("-s");
    reveal_strlit("-d");
    reveal_strlit("-s ");
    reveal_strlit("-d ");
    reveal_strlit(" ");
    let flag = if source {
        "-s "@
    } else {
        "-d "@
    };
    let bare = if source {
        "-s"@
    } else {
        "-d"@
    };
    let ip = if source {
        packet.source
    } else {
        packet.dest
    };
    match net {
        None => {
            assert(words_of(shown_net(flag, net)) + rest =~= rest);
        },
        Some(net) => {
            let value = net.shown();
            assert(is_value(net.shown()));
            assert(reader(net.shown(), ip) == crate::net::lies_in(ip, net));
            law_network_is_a_block_of_addresses(net, ip);
            let text = flag + value;
            assert(text =~= bare + " "@ + value);
            assert(!bare.contains(' '));
            lemma_option(text, bare, value);
            assert(shown_net(flag, Some(net)) =~= seq![text]);
            let all = words_of(seq![text]) + rest;
            assert(all[0] == bare && all[1] == value);
            assert(all.skip(2) =~= rest);
        },
    }
}

/// Ports stand only with protocols that have ports of their own.
pub open spec fn ports_fit(flat: Flat) -> bool {
    flat.ports.len() > 0 ==> flat.protocol is Udp || flat.protocol is Sctp
}

/// The line for a combination takes its packets and no others.
proof fn lemma_line(
    flat: Flat,
    stage: Stage,
    direction: Direction,
    action: RuleAction,
    reader: NetReader,
    packet: Packet,
)
    requires
        reads_networks(reader),
        ports_fit(flat),
    ensures
        ({
            let line = joined(line_parts(flat, stage, direction, action), " "@);
            &&& takes(line, chain_text(stage, direction), reader, packet) == flat_passes(
                flat,
                packet,
            )
            &&& target_of(line) == target_text(stage, action)
            &&& words(line).len() >= 2
            &&& words(line)[0] == "-A"@
            &&& words(line)[1] == chain_text(stage, direction)
        }),
{
    lemma_options_differ();
    reveal_strlit("-A");
    reveal_strlit("-A ");
    reveal_strlit("-j");
    reveal_strlit("-j ");
    reveal_strlit(" ");
    reveal_strlit("ISTIO_FW_FILTER_IN");
    reveal_strlit("ISTIO_FW_FILTER_OUT");
    reveal_strlit("ISTIO_FW_INLINE_IN");
    reveal_strlit("ISTIO_FW_INLINE_OUT");
    reveal_strlit("REJECT");
    reveal_strlit("ACCEPT");
    reveal_strlit("RETURN");
    let chain = chain_text(stage, direction);
    let target = target_text(stage, action);
    let a = seq!["-A "@ + chain];
    let b = shown_net("-s "@, flat.source);
    let c = shown_net("-d "@, flat.dest);
    let d = seq![protocol_text(flat.protocol)];
    let e = if flat.ports.len() == 0 {
        Seq::empty()
    } else {
        seq![suffix_text(flat.ports)]
    };
    let f = seq!["-j "@ + target];
    let parts = line_parts(flat, stage, direction, action);
    assert(parts =~= a + b + c + d + e + f);
    lemma_words_of_joined(parts);
    lemma_words_of_two(a + b + c + d + e, f);
    lemma_words_of_two(a + b + c + d, e);
    lemma_words_of_two(a + b + c, d);
    lemma_words_of_two(a + b, c);
    lemma_words_of_two(a, b);
    assert(!chain.contains(' ') && !target.contains(' '));
    assert(!"-A"@.contains(' ') && !"-j"@.contains(' '));
    assert("-A "@ + chain =~= "-A"@ + " "@ + chain);
    assert("-j "@ + target =~= "-j"@ + " "@ + target);
    lemma_option("-A "@ + chain, "-A"@, chain);
    lemma_option("-j "@ + target, "-j"@, target);
    let w5 = words_of(f);
    let w4 = words_of(e) + w5;
    let w3 = words_of(d) + w4;
    let w2 = words_of(c) + w3;
    let w1 = words_of(b) + w2;
    let all = words_of(parts);
    assert(all =~= words_of(a) + w1);
    assert(all[0] == "-A"@ && all[1] == chain);
    assert(all.skip(2) =~= w1);
    assert(w5[0] == "-j"@ && w5[1] == target);
    lemma_address(true, flat.source, w2, reader, packet);
    lemma_address(false, flat.dest, w3, reader, packet);
    lemma_protocol(flat.protocol, w4, reader, packet);
    if flat.ports.len() > 0 {
        lemma_ports(flat.ports, w5, reader, packet);
    } else {
        assert(w4 =~= w5);
    }
}

proof fn lemma_with_ports_fit(
    source: Option<IpNet>,
    dests: Seq<Option<IpNet>>,
    ports: Seq<(FirewallProtocol, Seq<PortRange>)>,
)
    requires
        forall|i: int|
            0 <= i < ports.len() ==> ((#[trigger] ports[i]).1.len() > 0 ==> ports[i].0 is Udp
                || ports[i].0 is Sctp),
    ensures
        forall|i: int|
            0 <= i < with_dests(source, dests, ports).len() ==> ports_fit(
                #[trigger] with_dests(source, dests, ports)[i],
            ),
    decreases dests.len(),
{
    if dests.len() > 0 {
        lemma_with_ports_fit(source, dests.drop_last(), ports);
        let a = with_dests(source, dests.drop_last(), ports);
        let b = with_ports(source, dests.last(), ports);
        let all = with_dests(source, dests, ports);
        assert forall|i: int| 0 <= i < all.len() implies ports_fit(#[trigger] all[i]) by {
            if i < a.len() {
                assert(all[i] == a[i]);
            } else {
                assert(all[i] == b[i - a.len()]);
                assert(ports[i - a.len()].1.len() > 0 ==> ports[i - a.len()].0 is Udp || ports[i
                    - a.len()].0 is Sctp);
            }
        }
    }
}

proof fn lemma_with_sources_fit(
    sources: Seq<Option<IpNet>>,
    dests: Seq<Option<IpNet>>,
    ports: Seq<(FirewallProtocol, Seq<PortRange>)>,
)
    requires
        forall|i: int|
            0 <= i < ports.len() ==> ((#[trigger] ports[i]).1.len() > 0 ==> ports[i].0 is Udp
                || ports[i].0 is Sctp),
    ensures
        forall|i: int|
            0 <= i < with_sources(sources, dests, ports).len() ==> ports_fit(
                #[trigger] with_sources(sources, dests, ports)[i],
            ),
    decreases sources.len(),
{
    if sources.len() > 0 {
        lemma_with_sources_fit(sources.drop_last(), dests, ports);
        lemma_with_ports_fit(sources.last(), dests, ports);
        let a = with_sources(sources.drop_last(), dests, ports);
        let b = with_dests(sources.last(), dests, ports);
        let all = with_sources(sources, dests, ports);
        assert forall|i: int| 0 <= i < all.len() implies ports_fit(#[trigger] all[i]) by {
            if i < a.len() {
                assert(all[i] == a[i]);
            } else {
                assert(all[i] == b[i - a.len()]);
            }
        }
    }
}

proof fn lemma_pairs_fit(groups: Seq<PortGroup>)
    ensures
        forall|i: int|
            0 <= i < pairs(groups).len() ==> ((#[trigger] pairs(groups)[i]).1.len() > 0
                ==> pairs(groups)[i].0 is Udp || pairs(groups)[i].0 is Sctp),
    decreases groups.len(),
{
    if groups.len() > 0 {
        lemma_pairs_fit(groups.drop_last());
        let a = pairs(groups.drop_last());
        let b = group_pairs(groups.last());
        let all = pairs(groups);
        assert forall|i: int| 0 <= i < all.len() implies ((#[trigger] all[i]).1.len() > 0
            ==> all[i].0 is Udp || all[i].0 is Sctp) by {
            if i < a.len() {
                assert(all[i] == a[i]);
            } else {
                assert(all[i] == b[i - a.len()]);
            }
        }
    }
}

proof fn lemma_refine_fits(existing: Flat, clause: Seq<FirewallMatch>)
    requires
        ports_fit(existing),
    ensures
        forall|i: int|
            0 <= i < refine_by_clause(existing, clause).len() ==> ports_fit(
                #[trigger] refine_by_clause(existing, clause)[i],
            ),
    decreases clause.len(),
{
    if clause.len() > 0 {
        let m = clause.last();
        lemma_refine_fits(existing, clause.drop_last());
        lemma_pairs_fit(m.port_groups@);
        lemma_with_sources_fit(
            net_choices(m.source_ips@, existing.source),
            net_choices(m.dest_ips@, existing.dest),
            port_choices(m, existing),
        );
        let a = refine_by_clause(existing, clause.drop_last());
        let b = refine(existing, m);
        let all = refine_by_clause(existing, clause);
        assert forall|i: int| 0 <= i < all.len() implies ports_fit(#[trigger] all[i]) by {
            if i < a.len() {
                assert(all[i] == a[i]);
            } else {
                assert(all[i] == b[i - a.len()]);
            }
        }
    }
}

proof fn lemma_refine_all_fits(existing: Seq<Flat>, clause: Seq<FirewallMatch>)
    requires
        forall|i: int| 0 <= i < existing.len() ==> ports_fit(#[trigger] existing[i]),
    ensures
        forall|i: int|
            0 <= i < refine_all(existing, clause).len() ==> ports_fit(
                #[trigger] refine_all(existing, clause)[i],
            ),
    decreases existing.len(),
{
    if existing.len() > 0 {
        let short = existing.drop_last();
        assert forall|i: int| 0 <= i < short.len() implies ports_fit(#[trigger] short[i]) by {
            assert(short[i] == existing[i]);
        }
        lemma_refine_all_fits(short, clause);
        assert(ports_fit(existing[existing.len() - 1]));
        lemma_refine_fits(existing.last(), clause);
        let a = refine_all(short, clause);
        let b = refine_by_clause(existing.last(), clause);
        let all = refine_all(existing, clause);
        assert forall|i: int| 0 <= i < all.len() implies ports_fit(#[trigger] all[i]) by {
            if i < a.len() {
                assert(all[i] == a[i]);
            } else {
                assert(all[i] == b[i - a.len()]);
            }
        }
    }
}

proof fn lemma_flattened_fits(clauses: Seq<Vec<FirewallMatch>>)
    ensures
        forall|i: int|
            0 <= i < flattened(clauses).len() ==> ports_fit(#[trigger] flattened(clauses)[i]),
    decreases clauses.len(),
{
    if clauses.len() > 0 {
        lemma_flattened_fits(clauses.drop_last());
        lemma_refine_all_fits(flattened(clauses.drop_last()), clauses.last()@);
    }
}

/// Whether a line of the chain takes the packet.
pub open spec fn one_takes(
    lines: Seq<Seq<char>>,
    chain: Seq<char>,
    reader: NetReader,
    packet: Packet,
) -> bool {
    exists|i: int| 0 <= i < lines.len() && takes(#[trigger] lines[i], chain, reader, packet)
}

/// All lines stand in the chain and have the target.
pub open spec fn all_in(lines: Seq<Seq<char>>, chain: Seq<char>, target: Seq<char>) -> bool {
    forall|i: int|
        0 <= i < lines.len() ==> {
            &&& words(#[trigger] lines[i]).len() >= 2
            &&& words(lines[i])[0] == "-A"@
            &&& words(lines[i])[1] == chain
            &&& target_of(lines[i]) == target
        }
}

proof fn lemma_flats(
    flats: Seq<Flat>,
    stage: Stage,
    direction: Direction,
    action: RuleAction,
    reader: NetReader,
    packet: Packet,
)
    requires
        reads_networks(reader),
        is_v4_packet(packet),
        forall|i: int| 0 <= i < flats.len() ==> ports_fit(#[trigger] flats[i]),
    ensures
        one_takes(
            flat_lines(flats, stage, direction, action),
            chain_text(stage, direction),
            reader,
            packet,
        ) == any_passes(flats, packet),
        all_in(
            flat_lines(flats, stage, direction, action),
            chain_text(stage, direction),
            target_text(stage, action),
        ),
    decreases flats.len(),
{
    let chain = chain_text(stage, direction);
    if flats.len() > 0 {
        let short = flats.drop_last();
        let flat = flats.last();
        let before = flat_lines(short, stage, direction, action);
        let all = flat_lines(flats, stage, direction, action);
        assert forall|i: int| 0 <= i < short.len() implies ports_fit(#[trigger] short[i]) by {
            assert(short[i] == flats[i]);
        }
        assert(ports_fit(flats[flats.len() - 1]));
        lemma_flats(short, stage, direction, action, reader, packet);
        lemma_line(flat, stage, direction, action, reader, packet);
        if any_passes(flats, packet) {
            let i = choose|i: int| 0 <= i < flats.len() && flat_passes(#[trigger] flats[i], packet);
            if i < short.len() {
                assert(flat_passes(short[i], packet));
            }
        }
        if any_passes(short, packet) {
            let i = choose|i: int| 0 <= i < short.len() && flat_passes(#[trigger] short[i], packet);
            assert(flat_passes(flats[i], packet));
        }
        if flat_passes(flat, packet) {
            assert(flat_passes(flats[flats.len() - 1], packet));
            assert(!needs_ipv6(flat));
            assert(takes(all[before.len() as int], chain, reader, packet));
        }
        if one_takes(all, chain, reader, packet) {
            let i = choose|i: int|
                0 <= i < all.len() && takes(#[trigger] all[i], chain, reader, packet);
            if i < before.len() {
                assert(takes(before[i], chain, reader, packet));
            }
        }
        if one_takes(before, chain, reader, packet) {
            let i = choose|i: int|
                0 <= i < before.len() && takes(#[trigger] before[i], chain, reader, packet);
            assert(takes(all[i], chain, reader, packet));
        }
        assert forall|i: int| 0 <= i < all.len() implies {
            &&& words(#[trigger] all[i]).len() >= 2
            &&& words(all[i])[0] == "-A"@
            &&& words(all[i])[1] == chain
            &&& target_of(all[i]) == target_text(stage, action)
        } by {
            if i < before.len() {
                assert(all[i] == before[i]);
            }
        }
    }
}

/// The target that a rule asks for: a refusal, or that the packet passes, which in the
/// stage before the workload's own policies means that it goes on to them.
pub open spec fn asks_for(stage: Stage, action: RuleAction) -> Seq<char> {
    if action is Deny {
        "REJECT"@
    } else if stage is Inline {
        "RETURN"@
    } else {
        "ACCEPT"@
    }
}

/// The chain that a stage and a direction have.
pub open spec fn chain_for(stage: Stage, direction: Direction) -> Seq<char> {
    if stage is Workload {
        if direction is Inbound {
            "ISTIO_FW_FILTER_IN"@
        } else {
            "ISTIO_FW_FILTER_OUT"@
        }
    } else {
        if direction is Inbound {
            "ISTIO_FW_INLINE_IN"@
        } else {
            "ISTIO_FW_INLINE_OUT"@
        }
    }
}

/// The lines for a rule take exactly the IPv4 packets of which all its clauses hold, in
/// the chain of the rule's stage and direction, and all of them do to a packet what the
/// rule says.
pub proof fn law_lines_take_the_packets_of_the_rule(
    rule: FirewallRule,
    stage: Stage,
    reader: NetReader,
    packet: Packet,
)
    requires
        reads_networks(reader),
        is_v4_packet(packet),
        separate_dimensions(rule.clauses@),
    ensures
        one_takes(rule_lines(rule, stage), chain_for(stage, rule.direction), reader, packet)
            <==> clauses_pass(rule.clauses@, packet),
        all_in(
            rule_lines(rule, stage),
            chain_for(stage, rule.direction),
            asks_for(stage, rule.action),
        ),
{
    lemma_flattened_fits(rule.clauses@);
    lemma_flats(
        flattened(rule.clauses@),
        stage,
        rule.direction,
        rule.action,
        reader,
        packet,
    );
    law_flattening_keeps_meaning(rule.clauses@, packet);
}

/// What the first line of the chain that takes the packet does to it.
pub open spec fn lines_say(
    lines: Seq<Seq<char>>,
    chain: Seq<char>,
    reader: NetReader,
    packet: Packet,
) -> Option<Seq<char>>
    decreases lines.len(),
{
    if lines.len() == 0 {
        None
    } else if lines_say(lines.drop_last(), chain, reader, packet) is Some {
        lines_say(lines.drop_last(), chain, reader, packet)
    } else if takes(lines.last(), chain, reader, packet) {
        Some(target_of(lines.last()))
    } else {
        None
    }
}

/// What the first rule of the direction whose clauses all hold of the packet asks for.
pub open spec fn rules_ask(
    rules: Seq<FirewallRule>,
    direction: Direction,
    stage: Stage,
    packet: Packet,
) -> Option<Seq<char>>
    decreases rules.len(),
{
    if rules.len() == 0 {
        None
    } else if rules_ask(rules.drop_last(), direction, stage, packet) is Some {
        rules_ask(rules.drop_last(), direction, stage, packet)
    } else if rules.last().direction == direction && clauses_pass(rules.last().clauses@, packet) {
        Some(asks_for(stage, rules.last().action))
    } else {
        None
    }
}

proof fn lemma_lines_say_add(
    a: Seq<Seq<char>>,
    b: Seq<Seq<char>>,
    chain: Seq<char>,
    home: Seq<char>,
    target: Seq<char>,
    reader: NetReader,
    packet: Packet,
)
    requires
        all_in(b, home, target),
    ensures
        lines_say(a + b, chain, reader, packet) == (if lines_say(a, chain, reader, packet)
            is Some {
            lines_say(a, chain, reader, packet)
        } else if chain == home && one_takes(b, chain, reader, packet) {
            Some(target)
        } else {
            None
        }),
    decreases b.len(),
{
    let all = a + b;
    if b.len() == 0 {
        assert(all =~= a);
    } else {
        let short = b.drop_last();
        assert(all.drop_last() =~= a + short);
        assert forall|i: int| 0 <= i < short.len() implies {
            &&& words(#[trigger] short[i]).len() >= 2
            &&& words(short[i])[0] == "-A"@
            &&& words(short[i])[1] == home
            &&& target_of(short[i]) == target
        } by {
            assert(short[i] == b[i]);
        }
        lemma_lines_say_add(a, short, chain, home, target, reader, packet);
        let last = b[b.len() - 1];
        assert(words(last)[1] == home && target_of(last) == target);
        if one_takes(b, chain, reader, packet) {
            let i = choose|i: int| 0 <= i < b.len() && takes(#[trigger] b[i], chain, reader, packet);
            if i < short.len() {
                assert(takes(short[i], chain, reader, packet));
            }
        }
        if one_takes(short, chain, reader, packet) {
            let i = choose|i: int|
                0 <= i < short.len() && takes(#[trigger] short[i], chain, reader, packet);
            assert(takes(b[i], chain, reader, packet));
        }
        if takes(last, chain, reader, packet) {
            assert(one_takes(b, chain, reader, packet));
        }
    }
}

proof fn lemma_chains_differ(stage: Stage)
    ensures
        chain_for(stage, Direction::Inbound) != chain_for(stage, Direction::Outbound),
{
    reveal_strlit("ISTIO_FW_FILTER_IN");
    reveal_strlit("ISTIO_FW_FILTER_OUT");
    reveal_strlit("ISTIO_FW_INLINE_IN");
    reveal_strlit("ISTIO_FW_INLINE_OUT");
    assert("ISTIO_FW_FILTER_IN"@.len() == 18 && "ISTIO_FW_FILTER_OUT"@.len() == 19);
    assert("ISTIO_FW_INLINE_IN"@.len() == 18 && "ISTIO_FW_INLINE_OUT"@.len() == 19);
}

/// The lines of a stage do to every IPv4 packet, in the chain of each direction, what the
/// first rule of that direction asks for that is for the packet, in the order of the
/// rules, and leave alone the packets that no rule is for.
pub proof fn law_lines_decide_as_the_rules(
    rules: Seq<FirewallRule>,
    direction: Direction,
    stage: Stage,
    reader: NetReader,
    packet: Packet,
)
    requires
        reads_networks(reader),
        is_v4_packet(packet),
        forall|i: int|
            0 <= i < rules.len() ==> separate_dimensions((#[trigger] rules[i]).clauses@),
    ensures
        lines_say(rules_lines(rules, stage), chain_for(stage, direction), reader, packet)
            == rules_ask(rules, direction, stage, packet),
    decreases rules.len(),
{
    if rules.len() > 0 {
        let short = rules.drop_last();
        let last = rules.last();
        assert forall|i: int| 0 <= i < short.len() implies separate_dimensions(
            (#[trigger] short[i]).clauses@,
        ) by {
            assert(short[i] == rules[i]);
        }
        law_lines_decide_as_the_rules(short, direction, stage, reader, packet);
        assert(separate_dimensions(rules[rules.len() - 1].clauses@));
        law_lines_take_the_packets_of_the_rule(last, stage, reader, packet);
        lemma_chains_differ(stage);
        lemma_lines_say_add(
            rules_lines(short, stage),
            rule_lines(last, stage),
            chain_for(stage, direction),
            chain_for(stage, last.direction),
            asks_for(stage, last.action),
            reader,
            packet,
        );
    }
}

} // verus!
