//! The iptables backend.
//!
//! The rules stand in chains of the filter table of their own,
//! `ISTIO_FW_FILTER_IN` and `ISTIO_FW_FILTER_OUT`, and are loaded by
//! `iptables-restore --noflush`, which leaves all other chains alone. Established
//! connections, loopback and the proxy's own traffic pass before any rule. TCP is
//! left to the proxy.

use vstd::prelude::*;

use super::super::order::{ordered, rule_order};
use super::super::types::{
    address_passes, clause_passes, clauses_pass, constrains_dest, constrains_ports,
    constrains_source, groups_pass, port_passes, separate_dimensions, Direction, FirewallMatch,
    FirewallProtocol, FirewallRule, Packet, PortGroup, PortRange, RuleAction, RuleSet,
};
use super::Stage;
use crate::net::IpNet;
use super::{format_workload_label, make_nsenter_cmd, nsenter_words, workload_text};
use crate::text::{decimal, decimal_text, join, joined, opt_view, push_decimal, views};

verus! {

/// The most entries that a multiport match takes; a range counts twice.
pub const MAX_MULTIPORT: usize = 15;

/// One combination of alternatives: at most one source, one destination and one
/// group of ports of one protocol.
pub struct FlatMatch {
    pub source: Option<IpNet>,
    pub dest: Option<IpNet>,
    pub protocol: FirewallProtocol,
    pub ports: Vec<PortRange>,
}

/// A combination, as a plain value.
pub struct Flat {
    pub source: Option<IpNet>,
    pub dest: Option<IpNet>,
    pub protocol: FirewallProtocol,
    pub ports: Seq<PortRange>,
}

impl View for FlatMatch {
    type V = Flat;

    open spec fn view(&self) -> Flat {
        Flat {
            source: self.source,
            dest: self.dest,
            protocol: self.protocol,
            ports: self.ports@,
        }
    }
}

/// The combinations, each as a plain value.
pub open spec fn flats(v: Seq<FlatMatch>) -> Seq<Flat> {
    v.map_values(|f: FlatMatch| f@)
}

/// What a range counts for in a multiport match.
pub open spec fn weight(range: PortRange) -> nat {
    if range.start == range.end {
        1
    } else {
        2
    }
}

/// What the ranges count for together.
pub open spec fn weights(ranges: Seq<PortRange>) -> nat
    decreases ranges.len(),
{
    if ranges.len() == 0 {
        0
    } else {
        weights(ranges.drop_last()) + weight(ranges.last())
    }
}

/// The ranges cut into the groups that are full and the one that is being filled:
/// each range joins the group before it as long as that is not too heavy.
pub open spec fn chunking(ranges: Seq<PortRange>) -> (Seq<Seq<PortRange>>, Seq<PortRange>)
    decreases ranges.len(),
{
    if ranges.len() == 0 {
        (Seq::empty(), Seq::empty())
    } else {
        let (full, filling) = chunking(ranges.drop_last());
        if filling.len() > 0 && weights(filling) + weight(ranges.last()) > MAX_MULTIPORT {
            (full.push(filling), seq![ranges.last()])
        } else {
            (full, filling.push(ranges.last()))
        }
    }
}

/// The ranges in groups, each of which fits one multiport match. No range at all,
/// which means any port, is one group.
pub open spec fn port_chunks(ranges: Seq<PortRange>) -> Seq<Seq<PortRange>> {
    let (full, filling) = chunking(ranges);
    full.push(filling)
}

/// A port range as iptables writes it.
pub open spec fn range_text(range: PortRange) -> Seq<char> {
    if range.start == range.end {
        decimal(range.start as nat)
    } else {
        decimal(range.start as nat) + ":"@ + decimal(range.end as nat)
    }
}

/// The match on one group of ports.
pub open spec fn suffix_text(ports: Seq<PortRange>) -> Seq<char> {
    if ports.len() == 0 {
        Seq::empty()
    } else if ports.len() == 1 {
        "--dport "@ + range_text(ports[0])
    } else {
        "-m multiport --dports "@ + joined(
            ports.map_values(|r: PortRange| range_text(r)),
            ","@,
        )
    }
}

/// The match on a protocol.
pub open spec fn protocol_text(protocol: FirewallProtocol) -> Seq<char> {
    match protocol {
        FirewallProtocol::NonTcp => "! -p tcp"@,
        FirewallProtocol::Udp => "-p udp"@,
        FirewallProtocol::Sctp => "-p sctp"@,
        FirewallProtocol::Icmp => "-p icmp"@,
    }
}

/// The groups of ports, each with the protocol.
pub open spec fn with_protocol(
    protocol: FirewallProtocol,
    chunks: Seq<Seq<PortRange>>,
) -> Seq<(FirewallProtocol, Seq<PortRange>)> {
    Seq::new(chunks.len(), |i: int| (protocol, chunks[i]))
}

/// What a group of ports of one protocol expands into.
pub open spec fn group_pairs(group: PortGroup) -> Seq<(FirewallProtocol, Seq<PortRange>)> {
    match group.protocol {
        FirewallProtocol::NonTcp => if group.ports@.len() == 0 {
            seq![(FirewallProtocol::NonTcp, Seq::empty())]
        } else {
            with_protocol(FirewallProtocol::Udp, port_chunks(group.ports@)) + with_protocol(
                FirewallProtocol::Sctp,
                port_chunks(group.ports@),
            )
        },
        FirewallProtocol::Udp => with_protocol(
            FirewallProtocol::Udp,
            port_chunks(group.ports@),
        ),
        FirewallProtocol::Sctp => with_protocol(
            FirewallProtocol::Sctp,
            port_chunks(group.ports@),
        ),
        FirewallProtocol::Icmp => seq![(FirewallProtocol::Icmp, Seq::empty())],
    }
}

/// What the groups expand into, one after the other.
pub open spec fn pairs(groups: Seq<PortGroup>) -> Seq<(FirewallProtocol, Seq<PortRange>)>
    decreases groups.len(),
{
    if groups.len() == 0 {
        Seq::empty()
    } else {
        pairs(groups.drop_last()) + group_pairs(groups.last())
    }
}

/// The pairs, each as a plain value.
pub open spec fn pair_views(v: Seq<(FirewallProtocol, Vec<PortRange>)>) -> Seq<
    (FirewallProtocol, Seq<PortRange>),
> {
    v.map_values(|p: (FirewallProtocol, Vec<PortRange>)| (p.0, p.1@))
}

/// The alternatives for an address: those of the match or, where it names none,
/// what was there before.
pub open spec fn net_choices(nets: Seq<IpNet>, existing: Option<IpNet>) -> Seq<Option<IpNet>> {
    if nets.len() == 0 {
        seq![existing]
    } else {
        Seq::new(nets.len(), |i: int| Some(nets[i]))
    }
}

/// The alternatives for protocol and ports: those of the match or, where it says
/// nothing of them, what was there before.
pub open spec fn port_choices(m: FirewallMatch, existing: Flat) -> Seq<
    (FirewallProtocol, Seq<PortRange>),
> {
    if m.any_port() {
        seq![(existing.protocol, existing.ports)]
    } else {
        pairs(m.port_groups@)
    }
}

/// One source and one destination with each choice of ports.
pub open spec fn with_ports(
    source: Option<IpNet>,
    dest: Option<IpNet>,
    ports: Seq<(FirewallProtocol, Seq<PortRange>)>,
) -> Seq<Flat> {
    Seq::new(ports.len(), |i: int| Flat { source, dest, protocol: ports[i].0, ports: ports[i].1 })
}

/// One source with each destination and each choice of ports.
pub open spec fn with_dests(
    source: Option<IpNet>,
    dests: Seq<Option<IpNet>>,
    ports: Seq<(FirewallProtocol, Seq<PortRange>)>,
) -> Seq<Flat>
    decreases dests.len(),
{
    if dests.len() == 0 {
        Seq::empty()
    } else {
        with_dests(source, dests.drop_last(), ports) + with_ports(source, dests.last(), ports)
    }
}

/// Each source with each destination and each choice of ports.
pub open spec fn with_sources(
    sources: Seq<Option<IpNet>>,
    dests: Seq<Option<IpNet>>,
    ports: Seq<(FirewallProtocol, Seq<PortRange>)>,
) -> Seq<Flat>
    decreases sources.len(),
{
    if sources.len() == 0 {
        Seq::empty()
    } else {
        with_sources(sources.drop_last(), dests, ports) + with_dests(sources.last(), dests, ports)
    }
}

/// What a combination becomes when a match must hold too.
pub open spec fn refine(existing: Flat, m: FirewallMatch) -> Seq<Flat> {
    with_sources(
        net_choices(m.source_ips@, existing.source),
        net_choices(m.dest_ips@, existing.dest),
        port_choices(m, existing),
    )
}

/// What a combination becomes when a clause must hold too.
pub open spec fn refine_by_clause(existing: Flat, clause: Seq<FirewallMatch>) -> Seq<Flat>
    decreases clause.len(),
{
    if clause.len() == 0 {
        Seq::empty()
    } else {
        refine_by_clause(existing, clause.drop_last()) + refine(existing, clause.last())
    }
}

/// What the combinations become when a clause must hold too.
pub open spec fn refine_all(existing: Seq<Flat>, clause: Seq<FirewallMatch>) -> Seq<Flat>
    decreases existing.len(),
{
    if existing.len() == 0 {
        Seq::empty()
    } else {
        refine_all(existing.drop_last(), clause) + refine_by_clause(existing.last(), clause)
    }
}

/// The combination that says nothing but "not TCP".
pub open spec fn unrestricted() -> Flat {
    Flat { source: None, dest: None, protocol: FirewallProtocol::NonTcp, ports: Seq::empty() }
}

/// The combinations that the clauses stand for.
pub open spec fn flattened(clauses: Seq<Vec<FirewallMatch>>) -> Seq<Flat>
    decreases clauses.len(),
{
    if clauses.len() == 0 {
        seq![unrestricted()]
    } else {
        refine_all(flattened(clauses.drop_last()), clauses.last()@)
    }
}

/// The chain that the rules of a stage and a direction stand in.
pub open spec fn chain_text(stage: Stage, direction: Direction) -> Seq<char> {
    match (stage, direction) {
        (Stage::Workload, Direction::Inbound) => "ISTIO_FW_FILTER_IN"@,
        (Stage::Workload, Direction::Outbound) => "ISTIO_FW_FILTER_OUT"@,
        (Stage::Inline, Direction::Inbound) => "ISTIO_FW_INLINE_IN"@,
        (Stage::Inline, Direction::Outbound) => "ISTIO_FW_INLINE_OUT"@,
    }
}

/// The target of a rule: what the inline stage allows returns to the workload's
/// chain.
pub open spec fn target_text(stage: Stage, action: RuleAction) -> Seq<char> {
    match (stage, action) {
        (_, RuleAction::Deny) => "REJECT"@,
        (Stage::Workload, RuleAction::Allow) => "ACCEPT"@,
        (Stage::Inline, RuleAction::Allow) => "RETURN"@,
    }
}

/// Whether iptables, which is IPv4 only, cannot express the combination.
pub open spec fn needs_ipv6(flat: Flat) -> bool {
    (flat.source matches Some(net) && net.spec_addr() is V6) || (flat.dest matches Some(net)
        && net.spec_addr() is V6)
}

/// One text, where there is a value to show.
pub open spec fn shown_net(flag: Seq<char>, net: Option<IpNet>) -> Seq<Seq<char>> {
    match net {
        Some(net) => seq![flag + net.shown()],
        None => Seq::empty(),
    }
}

/// The parts of the line for one combination.
pub open spec fn line_parts(flat: Flat, stage: Stage, direction: Direction, action: RuleAction) -> Seq<
    Seq<char>,
> {
    seq!["-A "@ + chain_text(stage, direction)] + shown_net("-s "@, flat.source) + shown_net(
        "-d "@,
        flat.dest,
    ) + seq![protocol_text(flat.protocol)] + (if flat.ports.len() == 0 {
        Seq::empty()
    } else {
        seq![suffix_text(flat.ports)]
    }) + seq!["-j "@ + target_text(stage, action)]
}

/// The lines for the combinations, without those that need IPv6.
pub open spec fn flat_lines(
    flats: Seq<Flat>,
    stage: Stage,
    direction: Direction,
    action: RuleAction,
) -> Seq<Seq<char>>
    decreases flats.len(),
{
    if flats.len() == 0 {
        Seq::empty()
    } else {
        let earlier = flat_lines(flats.drop_last(), stage, direction, action);
        if needs_ipv6(flats.last()) {
            earlier
        } else {
            earlier.push(joined(line_parts(flats.last(), stage, direction, action), " "@))
        }
    }
}

/// The lines for a rule.
pub open spec fn rule_lines(rule: FirewallRule, stage: Stage) -> Seq<Seq<char>> {
    flat_lines(flattened(rule.clauses@), stage, rule.direction, rule.action)
}

/// The lines for the rules, one after the other.
pub open spec fn rules_lines(rules: Seq<FirewallRule>, stage: Stage) -> Seq<Seq<char>>
    decreases rules.len(),
{
    if rules.len() == 0 {
        Seq::empty()
    } else {
        rules_lines(rules.drop_last(), stage) + rule_lines(rules.last(), stage)
    }
}

proof fn lemma_views_push(v: Seq<String>, s: String)
    ensures
        views(v.push(s)) == views(v).push(s@),
{
    assert(views(v.push(s)) =~= views(v).push(s@));
}

/// A port range as iptables writes it.
fn range_string(range: &PortRange) -> (r: String)
    ensures
        r@ == range_text(*range),
{
    let mut out: String = decimal_text(range.start as u64);
    if range.start != range.end {
        out.append(":");
        push_decimal(&mut out, range.end as u64);
    }
    out
}

/// The match on one group of ports.
pub fn format_port_suffix(ports: &Vec<PortRange>) -> (r: String)
    ensures
        r@ == suffix_text(ports@),
{
    if ports.len() == 0 {
        let none: String = String::new();
        assert(none@ =~= Seq::<char>::empty());
        return none;
    }
    if ports.len() == 1 {
        let mut out: String = "--dport ".to_owned();
        out.append(range_string(&ports[0]).as_str());
        return out;
    }
    let mut texts: Vec<String> = Vec::new();
    let mut i: usize = 0;
    while i < ports.len()
        invariant
            i <= ports@.len(),
            texts@.len() == i,
            forall|k: int| 0 <= k < i ==> (#[trigger] texts@[k])@ == range_text(ports@[k]),
        decreases ports@.len() - i,
    {
        texts.push(range_string(&ports[i]));
        i = i + 1;
    }
    let mut out: String = "-m multiport --dports ".to_owned();
    let list: String = join(&texts, ",");
    out.append(list.as_str());
    assert(views(texts@) =~= ports@.map_values(|r: PortRange| range_text(r)));
    out
}

/// The groups, each as a plain value.
pub open spec fn chunk_views(v: Seq<Vec<PortRange>>) -> Seq<Seq<PortRange>> {
    v.map_values(|c: Vec<PortRange>| c@)
}

/// Cuts port ranges into groups that fit one multiport match.
pub fn chunk_ports(ports: &Vec<PortRange>) -> (r: Vec<Vec<PortRange>>)
    ensures
        chunk_views(r@) == port_chunks(ports@),
{
    let mut full: Vec<Vec<PortRange>> = Vec::new();
    let mut filling: Vec<PortRange> = Vec::new();
    let mut heavy: usize = 0;
    let mut i: usize = 0;
    assert(chunk_views(full@) =~= Seq::empty());
    while i < ports.len()
        invariant
            i <= ports@.len(),
            chunking(ports@.take(i as int)) == (chunk_views(full@), filling@),
            heavy == weights(filling@),
            heavy <= MAX_MULTIPORT,
        decreases ports@.len() - i,
    {
        let range: PortRange = ports[i];
        let w: usize = if range.start == range.end {
            1
        } else {
            2
        };
        proof {
            assert(ports@.take(i + 1).drop_last() =~= ports@.take(i as int));
            assert(ports@.take(i + 1).last() == range);
            assert(filling@.push(range).drop_last() =~= filling@);
            reveal_with_fuel(weights, 2);
            assert(seq![range].drop_last() =~= Seq::empty());
            if filling@.len() == 0 {
                assert(filling@ =~= Seq::empty());
            }
        }
        if filling.len() > 0 && heavy + w > MAX_MULTIPORT {
            let ghost before = full@;
            full.push(filling);
            assert(chunk_views(full@) =~= chunk_views(before).push(filling@));
            filling = Vec::new();
            filling.push(range);
            assert(filling@ =~= seq![range]);
            heavy = w;
        } else {
            filling.push(range);
            heavy = heavy + w;
        }
        i = i + 1;
    }
    assert(ports@.take(i as int) =~= ports@);
    let ghost before = full@;
    full.push(filling);
    assert(chunk_views(full@) =~= chunk_views(before).push(filling@));
    full
}

/// A copy of the ranges.
fn copy_ranges(ranges: &Vec<PortRange>) -> (r: Vec<PortRange>)
    ensures
        r@ == ranges@,
{
    let out: Vec<PortRange> = ranges.clone();
    assert(out@ =~= ranges@);
    out
}

/// Appends each group of ports with the protocol.
fn push_with_protocol(
    out: &mut Vec<(FirewallProtocol, Vec<PortRange>)>,
    protocol: FirewallProtocol,
    ports: &Vec<PortRange>,
)
    ensures
        pair_views(final(out)@) == pair_views(old(out)@) + with_protocol(
            protocol,
            port_chunks(ports@),
        ),
{
    let chunks: Vec<Vec<PortRange>> = chunk_ports(ports);
    let ghost before = pair_views(out@);
    let mut i: usize = 0;
    let ghost all = with_protocol(protocol, port_chunks(ports@));
    assert(pair_views(out@) =~= before + all.take(0));
    while i < chunks.len()
        invariant
            i <= chunks@.len(),
            chunk_views(chunks@) == port_chunks(ports@),
            all == with_protocol(protocol, port_chunks(ports@)),
            pair_views(out@) == before + all.take(i as int),
        decreases chunks@.len() - i,
    {
        let ghost earlier = out@;
        let chunk: Vec<PortRange> = copy_ranges(&chunks[i]);
        proof {
            assert(chunk@ == chunk_views(chunks@)[i as int]);
        }
        out.push((protocol, chunk));
        assert(pair_views(out@) =~= pair_views(earlier).push((protocol, chunk@)));
        assert(all.take(i + 1) =~= all.take(i as int).push(all[i as int]));
        assert(pair_views(out@) =~= before + all.take(i + 1));
        i = i + 1;
    }
    assert(all.take(i as int) =~= all);
}

/// Appends what a group of ports expands into.
fn push_group(out: &mut Vec<(FirewallProtocol, Vec<PortRange>)>, group: &PortGroup)
    ensures
        pair_views(final(out)@) == pair_views(old(out)@) + group_pairs(*group),
{
    let ghost earlier = pair_views(out@);
    match group.protocol {
        FirewallProtocol::NonTcp => {
            if group.ports.len() == 0 {
                let none: Vec<PortRange> = Vec::new();
                out.push((FirewallProtocol::NonTcp, none));
            } else {
                push_with_protocol(out, FirewallProtocol::Udp, &group.ports);
                push_with_protocol(out, FirewallProtocol::Sctp, &group.ports);
            }
        },
        FirewallProtocol::Udp => {
            push_with_protocol(out, FirewallProtocol::Udp, &group.ports);
        },
        FirewallProtocol::Sctp => {
            push_with_protocol(out, FirewallProtocol::Sctp, &group.ports);
        },
        FirewallProtocol::Icmp => {
            let none: Vec<PortRange> = Vec::new();
            out.push((FirewallProtocol::Icmp, none));
        },
    }
    assert(pair_views(out@) =~= earlier + group_pairs(*group));
}

/// The combinations of source, destination and ports, appended.
fn push_combinations(
    out: &mut Vec<FlatMatch>,
    source: Option<IpNet>,
    dest: Option<IpNet>,
    ports: &Vec<(FirewallProtocol, Vec<PortRange>)>,
)
    ensures
        flats(final(out)@) == flats(old(out)@) + with_ports(source, dest, pair_views(ports@)),
{
    let ghost before = flats(out@);
    let ghost all = with_ports(source, dest, pair_views(ports@));
    let mut i: usize = 0;
    assert(flats(out@) =~= before + all.take(0));
    while i < ports.len()
        invariant
            i <= ports@.len(),
            all == with_ports(source, dest, pair_views(ports@)),
            flats(out@) == before + all.take(i as int),
        decreases ports@.len() - i,
    {
        let ghost earlier = out@;
        let flat: FlatMatch = FlatMatch {
            source,
            dest,
            protocol: ports[i].0,
            ports: copy_ranges(&ports[i].1),
        };
        out.push(flat);
        assert(flat@ == all[i as int]);
        assert(flats(out@) =~= flats(earlier).push(flat@));
        assert(all.take(i + 1) =~= all.take(i as int).push(all[i as int]));
        assert(flats(out@) =~= before + all.take(i + 1));
        i = i + 1;
    }
    assert(all.take(i as int) =~= all);
}

/// The alternatives for an address.
fn choose_nets(nets: &Vec<IpNet>, existing: Option<IpNet>) -> (r: Vec<Option<IpNet>>)
    ensures
        r@ == net_choices(nets@, existing),
{
    let mut out: Vec<Option<IpNet>> = Vec::new();
    if nets.len() == 0 {
        out.push(existing);
        assert(out@ =~= net_choices(nets@, existing));
        return out;
    }
    let mut i: usize = 0;
    while i < nets.len()
        invariant
            i <= nets@.len(),
            out@.len() == i,
            forall|k: int| 0 <= k < i ==> #[trigger] out@[k] == Some(nets@[k]),
        decreases nets@.len() - i,
    {
        out.push(Some(nets[i]));
        i = i + 1;
    }
    assert(out@ =~= net_choices(nets@, existing));
    out
}

/// How rule sets are rendered and loaded with the iptables tools.
pub struct IptBackend {
    iptables_bin: String,
    restore_bin: String,
    netns_path: Option<String>,
    proxy_mark: Option<u32>,
    dns_proxy: bool,
    workload_name: Option<String>,
    workload_namespace: Option<String>,
}

impl IptBackend {
    /// Expands groups of ports into the protocols and port lists that one
    /// iptables rule can hold.
    pub fn expand_port_groups(port_groups: &Vec<PortGroup>) -> (r: Vec<
        (FirewallProtocol, Vec<PortRange>),
    >)
        ensures
            pair_views(r@) == pairs(port_groups@),
    {
        let mut out: Vec<(FirewallProtocol, Vec<PortRange>)> = Vec::new();
        let mut i: usize = 0;
        assert(pair_views(out@) =~= pairs(port_groups@.take(0)));
        while i < port_groups.len()
            invariant
                i <= port_groups@.len(),
                pair_views(out@) == pairs(port_groups@.take(i as int)),
            decreases port_groups@.len() - i,
        {
            proof {
                assert(port_groups@.take(i + 1).drop_last() =~= port_groups@.take(i as int));
            }
            push_group(&mut out, &port_groups[i]);
            i = i + 1;
        }
        assert(port_groups@.take(i as int) =~= port_groups@);
        out
    }

    /// Appends what a combination becomes when a match must hold too.
    fn push_refined(out: &mut Vec<FlatMatch>, existing: &FlatMatch, m: &FirewallMatch)
        ensures
            flats(final(out)@) == flats(old(out)@) + refine(existing@, *m),
    {
        let sources: Vec<Option<IpNet>> = choose_nets(&m.source_ips, existing.source);
        let dests: Vec<Option<IpNet>> = choose_nets(&m.dest_ips, existing.dest);
        let ports: Vec<(FirewallProtocol, Vec<PortRange>)> = if m.is_any_port() {
            let mut one: Vec<(FirewallProtocol, Vec<PortRange>)> = Vec::new();
            one.push((existing.protocol, copy_ranges(&existing.ports)));
            assert(pair_views(one@) =~= port_choices(*m, existing@));
            one
        } else {
            Self::expand_port_groups(&m.port_groups)
        };
        let ghost pp = pair_views(ports@);
        let ghost before = flats(out@);
        let mut i: usize = 0;
        assert(flats(out@) =~= before + with_sources(sources@.take(0), dests@, pp));
        while i < sources.len()
            invariant
                i <= sources@.len(),
                pp == pair_views(ports@),
                flats(out@) == before + with_sources(sources@.take(i as int), dests@, pp),
            decreases sources@.len() - i,
        {
            let ghost mid = flats(out@);
            let mut j: usize = 0;
            assert(flats(out@) =~= mid + with_dests(sources@[i as int], dests@.take(0), pp));
            while j < dests.len()
                invariant
                    i < sources@.len(),
                    j <= dests@.len(),
                    pp == pair_views(ports@),
                    flats(out@) == mid + with_dests(
                        sources@[i as int],
                        dests@.take(j as int),
                        pp,
                    ),
                decreases dests@.len() - j,
            {
                push_combinations(out, sources[i], dests[j], &ports);
                proof {
                    assert(dests@.take(j + 1).drop_last() =~= dests@.take(j as int));
                    assert(flats(out@) =~= mid + with_dests(
                        sources@[i as int],
                        dests@.take(j + 1),
                        pp,
                    ));
                }
                j = j + 1;
            }
            proof {
                assert(dests@.take(j as int) =~= dests@);
                assert(sources@.take(i + 1).drop_last() =~= sources@.take(i as int));
                assert(flats(out@) =~= before + with_sources(sources@.take(i + 1), dests@, pp));
            }
            i = i + 1;
        }
        assert(sources@.take(i as int) =~= sources@);
    }

    /// What the combinations become when a clause must hold too.
    fn refine_by(existing: &Vec<FlatMatch>, clause: &Vec<FirewallMatch>) -> (r: Vec<FlatMatch>)
        ensures
            flats(r@) == refine_all(flats(existing@), clause@),
    {
        let mut out: Vec<FlatMatch> = Vec::new();
        let mut i: usize = 0;
        let ghost fl = flats(existing@);
        assert(flats(out@) =~= refine_all(fl.take(0), clause@));
        while i < existing.len()
            invariant
                i <= existing@.len(),
                fl == flats(existing@),
                flats(out@) == refine_all(fl.take(i as int), clause@),
            decreases existing@.len() - i,
        {
            let ghost before = flats(out@);
            let mut j: usize = 0;
            assert(flats(out@) =~= before + refine_by_clause(fl[i as int], clause@.take(0)));
            while j < clause.len()
                invariant
                    i < existing@.len(),
                    j <= clause@.len(),
                    fl == flats(existing@),
                    flats(out@) == before + refine_by_clause(fl[i as int], clause@.take(j as int)),
                decreases clause@.len() - j,
            {
                Self::push_refined(&mut out, &existing[i], &clause[j]);
                proof {
                    assert(clause@.take(j + 1).drop_last() =~= clause@.take(j as int));
                    assert(flats(out@) =~= before + refine_by_clause(
                        fl[i as int],
                        clause@.take(j + 1),
                    ));
                }
                j = j + 1;
            }
            proof {
                assert(clause@.take(j as int) =~= clause@);
                assert(fl.take(i + 1).drop_last() =~= fl.take(i as int));
            }
            i = i + 1;
        }
        assert(fl.take(i as int) =~= fl);
        out
    }

    /// Expands clauses, all of which must hold, and their alternatives into
    /// single combinations. Where two clauses speak of the same dimension, the
    /// later one replaces what the earlier one says.
    pub fn flatten_clauses(clauses: &Vec<Vec<FirewallMatch>>) -> (r: Vec<FlatMatch>)
        ensures
            flats(r@) == flattened(clauses@),
    {
        let mut combinations: Vec<FlatMatch> = Vec::new();
        let none: Vec<PortRange> = Vec::new();
        combinations.push(
            FlatMatch { source: None, dest: None, protocol: FirewallProtocol::NonTcp, ports: none },
        );
        let mut i: usize = 0;
        assert(flats(combinations@) =~= flattened(clauses@.take(0)));
        while i < clauses.len()
            invariant
                i <= clauses@.len(),
                flats(combinations@) == flattened(clauses@.take(i as int)),
            decreases clauses@.len() - i,
        {
            assert(clauses@.take(i + 1).drop_last() =~= clauses@.take(i as int));
            combinations = Self::refine_by(&combinations, &clauses[i]);
            i = i + 1;
        }
        assert(clauses@.take(i as int) =~= clauses@);
        combinations
    }
}

/// What an iptables backend is set up with.
pub struct IptConfig {
    pub iptables_bin: Seq<char>,
    pub restore_bin: Seq<char>,
    pub netns_path: Option<Seq<char>>,
    pub proxy_mark: Option<u32>,
    pub dns_proxy: bool,
    pub workload_name: Option<Seq<char>>,
    pub workload_namespace: Option<Seq<char>>,
}

impl View for IptBackend {
    type V = IptConfig;

    closed spec fn view(&self) -> IptConfig {
        IptConfig {
            iptables_bin: self.iptables_bin@,
            restore_bin: self.restore_bin@,
            netns_path: opt_view(self.netns_path),
            proxy_mark: self.proxy_mark,
            dns_proxy: self.dns_proxy,
            workload_name: opt_view(self.workload_name),
            workload_namespace: opt_view(self.workload_namespace),
        }
    }
}

/// A backend for the tools found on the path, in this network namespace.
pub open spec fn default_config() -> IptConfig {
    IptConfig {
        iptables_bin: "iptables"@,
        restore_bin: "iptables-restore"@,
        netns_path: None,
        proxy_mark: None,
        dns_proxy: false,
        workload_name: None,
        workload_namespace: None,
    }
}

impl Default for IptBackend {
    fn default() -> (r: Self)
        ensures
            r@ == default_config(),
    {
        IptBackend {
            iptables_bin: "iptables".to_owned(),
            restore_bin: "iptables-restore".to_owned(),
            netns_path: None,
            proxy_mark: None,
            dns_proxy: false,
            workload_name: None,
            workload_namespace: None,
        }
    }
}

impl IptBackend {
    /// A backend for the tools found on the path, in this network namespace.
    pub fn new() -> (r: Self)
        ensures
            r@ == default_config(),
    {
        Self::default()
    }

    /// The backend with these tools.
    pub fn with_binaries(self, iptables_bin: String, restore_bin: String) -> (r: Self)
        ensures
            r@ == (IptConfig { iptables_bin: iptables_bin@, restore_bin: restore_bin@, ..self@ }),
    {
        let mut out: Self = self;
        out.iptables_bin = iptables_bin;
        out.restore_bin = restore_bin;
        out
    }

    /// The backend in a network namespace.
    pub fn in_netns(self, netns_path: String) -> (r: Self)
        ensures
            r@ == (IptConfig { netns_path: Some(netns_path@), ..self@ }),
    {
        let mut out: Self = self;
        out.netns_path = Some(netns_path);
        out
    }

    /// The backend that lets packets with the proxy's mark pass.
    pub fn skip_mark(self, proxy_mark: u32) -> (r: Self)
        ensures
            r@ == (IptConfig { proxy_mark: Some(proxy_mark), ..self@ }),
    {
        let mut out: Self = self;
        out.proxy_mark = Some(proxy_mark);
        out
    }

    /// The backend with or without a DNS proxy behind it.
    pub fn dns_proxy(self, enabled: bool) -> (r: Self)
        ensures
            r@ == (IptConfig { dns_proxy: enabled, ..self@ }),
    {
        let mut out: Self = self;
        out.dns_proxy = enabled;
        out
    }

    /// The backend of a workload.
    pub fn with_workload_info(self, name: String, namespace: String) -> (r: Self)
        ensures
            r@ == (IptConfig {
                workload_name: Some(name@),
                workload_namespace: Some(namespace@),
                ..self@
            }),
    {
        let mut out: Self = self;
        out.workload_name = Some(name);
        out.workload_namespace = Some(namespace);
        out
    }

    /// The words of the command that runs a program in the backend's network
    /// namespace.
    pub fn make_cmd(&self, program: &str) -> (r: Vec<String>)
        ensures
            views(r@) == nsenter_words(self@.netns_path, program@),
    {
        make_nsenter_cmd(&self.netns_path, program)
    }

    /// The tool that changes single rules.
    pub fn iptables_program(&self) -> (r: &str)
        ensures
            r@ == self@.iptables_bin,
    {
        self.iptables_bin.as_str()
    }

    /// The tool that loads rules.
    pub fn restore_program(&self) -> (r: &str)
        ensures
            r@ == self@.restore_bin,
    {
        self.restore_bin.as_str()
    }

    /// The workload as `namespace/name`.
    pub fn workload_label(&self) -> (r: String)
        ensures
            r@ == workload_text(self@.workload_name, self@.workload_namespace),
    {
        format_workload_label(&self.workload_name, &self.workload_namespace)
    }
}

/// The chain that the rules of a stage and a direction stand in.
fn chain_name(stage: Stage, direction: Direction) -> (r: String)
    ensures
        r@ == chain_text(stage, direction),
{
    match (stage, direction) {
        (Stage::Workload, Direction::Inbound) => "ISTIO_FW_FILTER_IN".to_owned(),
        (Stage::Workload, Direction::Outbound) => "ISTIO_FW_FILTER_OUT".to_owned(),
        (Stage::Inline, Direction::Inbound) => "ISTIO_FW_INLINE_IN".to_owned(),
        (Stage::Inline, Direction::Outbound) => "ISTIO_FW_INLINE_OUT".to_owned(),
    }
}

/// The target of a rule.
fn target_name(stage: Stage, action: RuleAction) -> (r: String)
    ensures
        r@ == target_text(stage, action),
{
    match (stage, action) {
        (_, RuleAction::Deny) => "REJECT".to_owned(),
        (Stage::Workload, RuleAction::Allow) => "ACCEPT".to_owned(),
        (Stage::Inline, RuleAction::Allow) => "RETURN".to_owned(),
    }
}

/// The match on a protocol.
fn protocol_flag(protocol: FirewallProtocol) -> (r: String)
    ensures
        r@ == protocol_text(protocol),
{
    match protocol {
        FirewallProtocol::NonTcp => "! -p tcp".to_owned(),
        FirewallProtocol::Udp => "-p udp".to_owned(),
        FirewallProtocol::Sctp => "-p sctp".to_owned(),
        FirewallProtocol::Icmp => "-p icmp".to_owned(),
    }
}

/// Appends the match on an address, where there is one.
fn push_net(parts: &mut Vec<String>, flag: &str, net: &Option<IpNet>)
    ensures
        views(final(parts)@) == views(old(parts)@) + shown_net(flag@, *net),
{
    let ghost before = views(parts@);
    match net {
        Some(net) => {
            let mut part: String = flag.to_owned();
            part.append(net.text().as_str());
            parts.push(part);
        },
        None => {},
    }
    assert(views(parts@) =~= before + shown_net(flag@, *net));
}

/// The line for one combination.
fn flat_line(flat: &FlatMatch, stage: Stage, direction: Direction, action: RuleAction) -> (r: String)
    ensures
        r@ == joined(line_parts(flat@, stage, direction, action), " "@),
{
    let mut parts: Vec<String> = Vec::new();
    let mut head: String = "-A ".to_owned();
    head.append(chain_name(stage, direction).as_str());
    parts.push(head);
    assert(views(parts@) =~= seq!["-A "@ + chain_text(stage, direction)]);
    push_net(&mut parts, "-s ", &flat.source);
    push_net(&mut parts, "-d ", &flat.dest);
    let ghost before = views(parts@);
    parts.push(protocol_flag(flat.protocol));
    assert(views(parts@) =~= before + seq![protocol_text(flat.protocol)]);
    let ghost before = views(parts@);
    if flat.ports.len() > 0 {
        parts.push(format_port_suffix(&flat.ports));
        assert(views(parts@) =~= before + seq![suffix_text(flat.ports@)]);
    } else {
        assert(views(parts@) =~= before + Seq::<Seq<char>>::empty());
    }
    let mut tail: String = "-j ".to_owned();
    tail.append(target_name(stage, action).as_str());
    let ghost before = views(parts@);
    parts.push(tail);
    assert(views(parts@) =~= before + seq!["-j "@ + target_text(stage, action)]);
    join(&parts, " ")
}

impl IptBackend {
    /// The lines for a rule of a stage.
    pub fn render_stage_rule(rule: &FirewallRule, stage: Stage) -> (r: Vec<String>)
        ensures
            views(r@) == rule_lines(*rule, stage),
    {
        let combinations: Vec<FlatMatch> = Self::flatten_clauses(&rule.clauses);
        let ghost fl = flats(combinations@);
        let mut lines: Vec<String> = Vec::new();
        let mut i: usize = 0;
        assert(views(lines@) =~= flat_lines(fl.take(0), stage, rule.direction, rule.action));
        while i < combinations.len()
            invariant
                i <= combinations@.len(),
                fl == flats(combinations@),
                views(lines@) == flat_lines(
                    fl.take(i as int),
                    stage,
                    rule.direction,
                    rule.action,
                ),
            decreases combinations@.len() - i,
        {
            let flat: &FlatMatch = &combinations[i];
            proof {
                assert(fl.take(i + 1).drop_last() =~= fl.take(i as int));
                assert(fl.take(i + 1).last() == flat@);
            }
            let source_v6: bool = match &flat.source {
                Some(net) => net.is_ipv6(),
                None => false,
            };
            let dest_v6: bool = match &flat.dest {
                Some(net) => net.is_ipv6(),
                None => false,
            };
            if !source_v6 && !dest_v6 {
                let line: String = flat_line(flat, stage, rule.direction, rule.action);
                proof {
                    lemma_views_push(lines@, line);
                }
                lines.push(line);
            }
            i = i + 1;
        }
        assert(fl.take(i as int) =~= fl);
        lines
    }

    /// The lines for a rule of the workload's policies.
    pub fn render_rule(rule: &FirewallRule) -> (r: Vec<String>)
        ensures
            views(r@) == rule_lines(*rule, Stage::Workload),
    {
        Self::render_stage_rule(rule, Stage::Workload)
    }

    /// Appends the lines for the rules, in order of evaluation.
    fn push_rules(lines: &mut Vec<String>, rules: &Vec<FirewallRule>, stage: Stage)
        ensures
            views(final(lines)@) == views(old(lines)@) + rules_lines(ordered(rules@), stage),
    {
        let order: Vec<usize> = rule_order(rules);
        let ghost sorted = ordered(rules@);
        let ghost before = views(lines@);
        let mut i: usize = 0;
        assert(views(lines@) =~= before + rules_lines(sorted.take(0), stage));
        while i < order.len()
            invariant
                i <= order@.len(),
                sorted == super::super::order::at(rules@, order@),
                forall|k: int| 0 <= k < order@.len() ==> #[trigger] order@[k] < rules@.len(),
                views(lines@) == before + rules_lines(sorted.take(i as int), stage),
            decreases order@.len() - i,
        {
            let ghost mid = lines@;
            let mut more: Vec<String> = Self::render_stage_rule(&rules[order[i]], stage);
            let ghost fresh = more@;
            lines.append(&mut more);
            proof {
                assert(sorted.take(i + 1).drop_last() =~= sorted.take(i as int));
                assert(sorted.take(i + 1).last() == rules@[order@[i as int] as int]);
                assert(views(lines@) =~= views(mid) + views(fresh));
                assert(views(lines@) =~= before + rules_lines(sorted.take(i + 1), stage));
            }
            i = i + 1;
        }
        assert(sorted.take(i as int) =~= sorted);
    }
}

/// The chains of the inline stage, created or emptied.
pub open spec fn inline_chains(inline: bool) -> Seq<Seq<char>> {
    if inline {
        seq![":ISTIO_FW_INLINE_IN - [0:0]"@, ":ISTIO_FW_INLINE_OUT - [0:0]"@]
    } else {
        Seq::empty()
    }
}

/// What passes before any rule: established connections and loopback.
pub open spec fn preamble() -> Seq<Seq<char>> {
    seq![
        "-F ISTIO_FW_FILTER_IN"@,
        "-F ISTIO_FW_FILTER_OUT"@,
        "-A ISTIO_FW_FILTER_IN -m conntrack --ctstate ESTABLISHED,RELATED -j ACCEPT"@,
        "-A ISTIO_FW_FILTER_OUT -m conntrack --ctstate ESTABLISHED,RELATED -j ACCEPT"@,
        "-A ISTIO_FW_FILTER_IN -i lo -j ACCEPT"@,
        "-A ISTIO_FW_FILTER_OUT -o lo -j ACCEPT"@,
    ]
}

/// The proxy's own traffic passes: it bears the mark or, without one, belongs to
/// the proxy's user and group. Behind a DNS proxy, queries that were redirected to
/// it pass too: their destination is rewritten, so that no rule would match it.
pub open spec fn bypass_lines(config: IptConfig) -> Seq<Seq<char>> {
    match config.proxy_mark {
        Some(mark) => seq![
            "-A ISTIO_FW_FILTER_OUT -m mark --mark "@ + decimal(mark as nat) + " -j RETURN"@,
        ] + (if config.dns_proxy {
            seq![
                "-A ISTIO_FW_FILTER_OUT -p udp -m conntrack --ctorigdstport 53 --ctdir ORIGINAL -j ACCEPT"@,
            ]
        } else {
            Seq::empty()
        }),
        None => seq![
            "-A ISTIO_FW_FILTER_OUT -m owner --uid-owner 1337 -j RETURN"@,
            "-A ISTIO_FW_FILTER_OUT -m owner --gid-owner 1337 -j RETURN"@,
        ],
    }
}

/// The detours to the inline stage.
pub open spec fn inline_jumps(inline: bool) -> Seq<Seq<char>> {
    if inline {
        seq![
            "-A ISTIO_FW_FILTER_IN ! -p tcp -j ISTIO_FW_INLINE_IN"@,
            "-A ISTIO_FW_FILTER_OUT ! -p tcp -j ISTIO_FW_INLINE_OUT"@,
        ]
    } else {
        Seq::empty()
    }
}

/// The refusal of all that no rule matches.
pub open spec fn default_deny(attached: bool) -> Seq<Seq<char>> {
    if attached {
        seq![
            "-A ISTIO_FW_FILTER_IN ! -p tcp -j REJECT"@,
            "-A ISTIO_FW_FILTER_OUT ! -p tcp -j REJECT"@,
        ]
    } else {
        Seq::empty()
    }
}

/// The lines for a rule set.
pub open spec fn ruleset_lines(config: IptConfig, ruleset: RuleSet) -> Seq<Seq<char>> {
    let inline = ruleset.inline_rules@.len() > 0;
    seq!["*filter"@] + inline_chains(inline) + preamble() + bypass_lines(config) + inline_jumps(
        inline,
    ) + rules_lines(ordered(ruleset.inline_rules@), Stage::Inline) + rules_lines(
        ordered(ruleset.rules@),
        Stage::Workload,
    ) + default_deny(ruleset.policy_attached) + seq!["COMMIT"@]
}

/// Appends a line.
fn push_line(lines: &mut Vec<String>, line: &str)
    ensures
        views(final(lines)@) == views(old(lines)@).push(line@),
{
    let owned: String = line.to_owned();
    proof {
        lemma_views_push(lines@, owned);
    }
    lines.push(owned);
}

impl IptBackend {
    /// Appends what lets the proxy's own traffic pass.
    fn push_bypass(&self, lines: &mut Vec<String>)
        ensures
            views(final(lines)@) == views(old(lines)@) + bypass_lines(self@),
    {
        let ghost before = views(lines@);
        match self.proxy_mark {
            Some(mark) => {
                let mut line: String = "-A ISTIO_FW_FILTER_OUT -m mark --mark ".to_owned();
                push_decimal(&mut line, mark as u64);
                line.append(" -j RETURN");
                push_line(lines, line.as_str());
                if self.dns_proxy {
                    push_line(
                        lines,
                        "-A ISTIO_FW_FILTER_OUT -p udp -m conntrack --ctorigdstport 53 --ctdir ORIGINAL -j ACCEPT",
                    );
                }
            },
            None => {
                push_line(lines, "-A ISTIO_FW_FILTER_OUT -m owner --uid-owner 1337 -j RETURN");
                push_line(lines, "-A ISTIO_FW_FILTER_OUT -m owner --gid-owner 1337 -j RETURN");
            },
        }
        assert(views(lines@) =~= before + bypass_lines(self@));
    }

    /// Renders a rule set as input for `iptables-restore`.
    pub fn render_ruleset(&self, ruleset: &RuleSet) -> (r: String)
        ensures
            r@ == joined(ruleset_lines(self@, *ruleset), "\n"@),
    {
        let inline: bool = ruleset.inline_rules.len() > 0;
        let mut lines: Vec<String> = Vec::new();
        push_line(&mut lines, "*filter");
        if inline {
            push_line(&mut lines, ":ISTIO_FW_INLINE_IN - [0:0]");
            push_line(&mut lines, ":ISTIO_FW_INLINE_OUT - [0:0]");
        }
        assert(views(lines@) =~= seq!["*filter"@] + inline_chains(inline));
        let ghost before = views(lines@);
        push_line(&mut lines, "-F ISTIO_FW_FILTER_IN");
        push_line(&mut lines, "-F ISTIO_FW_FILTER_OUT");
        push_line(
            &mut lines,
            "-A ISTIO_FW_FILTER_IN -m conntrack --ctstate ESTABLISHED,RELATED -j ACCEPT",
        );
        push_line(
            &mut lines,
            "-A ISTIO_FW_FILTER_OUT -m conntrack --ctstate ESTABLISHED,RELATED -j ACCEPT",
        );
        push_line(&mut lines, "-A ISTIO_FW_FILTER_IN -i lo -j ACCEPT");
        push_line(&mut lines, "-A ISTIO_FW_FILTER_OUT -o lo -j ACCEPT");
        assert(views(lines@) =~= before + preamble());
        self.push_bypass(&mut lines);
        let ghost before = views(lines@);
        if inline {
            push_line(&mut lines, "-A ISTIO_FW_FILTER_IN ! -p tcp -j ISTIO_FW_INLINE_IN");
            push_line(&mut lines, "-A ISTIO_FW_FILTER_OUT ! -p tcp -j ISTIO_FW_INLINE_OUT");
        }
        assert(views(lines@) =~= before + inline_jumps(inline));
        Self::push_rules(&mut lines, &ruleset.inline_rules, Stage::Inline);
        Self::push_rules(&mut lines, &ruleset.rules, Stage::Workload);
        let ghost before = views(lines@);
        if ruleset.policy_attached {
            push_line(&mut lines, "-A ISTIO_FW_FILTER_IN ! -p tcp -j REJECT");
            push_line(&mut lines, "-A ISTIO_FW_FILTER_OUT ! -p tcp -j REJECT");
        }
        assert(views(lines@) =~= before + default_deny(ruleset.policy_attached));
        let ghost before = views(lines@);
        push_line(&mut lines, "COMMIT");
        assert(views(lines@) =~= before + seq!["COMMIT"@]);
        join(&lines, "\n")
    }
}

/// Whether a packet, which is not TCP, is one that the combination stands for.
pub open spec fn flat_passes(flat: Flat, packet: Packet) -> bool {
    &&& net_passes(flat.source, packet.source)
    &&& net_passes(flat.dest, packet.dest)
    &&& packet.protocol !is Tcp
    &&& flat.protocol.passes(flat.ports, packet)
}

/// Whether the network has the address, or there is none.
pub open spec fn net_passes(net: Option<IpNet>, ip: crate::net::IpAddr) -> bool {
    match net {
        Some(net) => net.has(ip),
        None => true,
    }
}

/// Whether one of the combinations stands for the packet.
pub open spec fn any_passes(flats: Seq<Flat>, packet: Packet) -> bool {
    exists|i: int| 0 <= i < flats.len() && flat_passes(#[trigger] flats[i], packet)
}

spec fn any_net_passes(nets: Seq<Option<IpNet>>, ip: crate::net::IpAddr) -> bool {
    exists|i: int| 0 <= i < nets.len() && net_passes(#[trigger] nets[i], ip)
}

spec fn any_pair_passes(pairs: Seq<(FirewallProtocol, Seq<PortRange>)>, packet: Packet) -> bool {
    exists|i: int|
        0 <= i < pairs.len() && (#[trigger] pairs[i]).0.passes(pairs[i].1, packet)
}

proof fn lemma_any_add(a: Seq<Flat>, b: Seq<Flat>, packet: Packet)
    ensures
        any_passes(a + b, packet) == (any_passes(a, packet) || any_passes(b, packet)),
{
    let ab = a + b;
    if any_passes(a, packet) {
        let i = choose|i: int| 0 <= i < a.len() && flat_passes(#[trigger] a[i], packet);
        assert(ab[i] == a[i]);
    }
    if any_passes(b, packet) {
        let i = choose|i: int| 0 <= i < b.len() && flat_passes(#[trigger] b[i], packet);
        assert(ab[a.len() + i] == b[i]);
    }
    if any_passes(ab, packet) {
        let i = choose|i: int| 0 <= i < ab.len() && flat_passes(#[trigger] ab[i], packet);
        if i < a.len() {
            assert(a[i] == ab[i]);
        } else {
            assert(b[i - a.len()] == ab[i]);
        }
    }
}

proof fn lemma_any_pair_add(
    a: Seq<(FirewallProtocol, Seq<PortRange>)>,
    b: Seq<(FirewallProtocol, Seq<PortRange>)>,
    packet: Packet,
)
    ensures
        any_pair_passes(a + b, packet) == (any_pair_passes(a, packet) || any_pair_passes(
            b,
            packet,
        )),
{
    let ab = a + b;
    if any_pair_passes(a, packet) {
        let i = choose|i: int| 0 <= i < a.len() && (#[trigger] a[i]).0.passes(a[i].1, packet);
        assert(ab[i] == a[i]);
    }
    if any_pair_passes(b, packet) {
        let i = choose|i: int| 0 <= i < b.len() && (#[trigger] b[i]).0.passes(b[i].1, packet);
        assert(ab[a.len() + i] == b[i]);
    }
    if any_pair_passes(ab, packet) {
        let i = choose|i: int| 0 <= i < ab.len() && (#[trigger] ab[i]).0.passes(ab[i].1, packet);
        if i < a.len() {
            assert(a[i] == ab[i]);
        } else {
            assert(b[i - a.len()] == ab[i]);
        }
    }
}

proof fn lemma_with_ports(
    source: Option<IpNet>,
    dest: Option<IpNet>,
    ports: Seq<(FirewallProtocol, Seq<PortRange>)>,
    packet: Packet,
)
    requires
        packet.protocol !is Tcp,
    ensures
        any_passes(with_ports(source, dest, ports), packet) == (net_passes(source, packet.source)
            && net_passes(dest, packet.dest) && any_pair_passes(ports, packet)),
{
    let all = with_ports(source, dest, ports);
    if any_passes(all, packet) {
        let i = choose|i: int| 0 <= i < all.len() && flat_passes(#[trigger] all[i], packet);
        assert(ports[i].0.passes(ports[i].1, packet));
    }
    if any_pair_passes(ports, packet) && net_passes(source, packet.source) && net_passes(
        dest,
        packet.dest,
    ) {
        let i = choose|i: int|
            0 <= i < ports.len() && (#[trigger] ports[i]).0.passes(ports[i].1, packet);
        assert(flat_passes(all[i], packet));
    }
}

proof fn lemma_any_net_last(nets: Seq<Option<IpNet>>, ip: crate::net::IpAddr)
    requires
        nets.len() > 0,
    ensures
        any_net_passes(nets, ip) == (any_net_passes(nets.drop_last(), ip) || net_passes(
            nets.last(),
            ip,
        )),
{
    let short = nets.drop_last();
    if any_net_passes(short, ip) {
        let i = choose|i: int| 0 <= i < short.len() && net_passes(#[trigger] short[i], ip);
        assert(nets[i] == short[i]);
    }
    if any_net_passes(nets, ip) {
        let i = choose|i: int| 0 <= i < nets.len() && net_passes(#[trigger] nets[i], ip);
        if i < short.len() {
            assert(short[i] == nets[i]);
        }
    }
    assert(nets.last() == nets[nets.len() - 1]);
}

proof fn lemma_with_dests(
    source: Option<IpNet>,
    dests: Seq<Option<IpNet>>,
    ports: Seq<(FirewallProtocol, Seq<PortRange>)>,
    packet: Packet,
)
    requires
        packet.protocol !is Tcp,
    ensures
        any_passes(with_dests(source, dests, ports), packet) == (net_passes(source, packet.source)
            && any_net_passes(dests, packet.dest) && any_pair_passes(ports, packet)),
    decreases dests.len(),
{
    if dests.len() > 0 {
        lemma_with_dests(source, dests.drop_last(), ports, packet);
        lemma_with_ports(source, dests.last(), ports, packet);
        lemma_any_add(
            with_dests(source, dests.drop_last(), ports),
            with_ports(source, dests.last(), ports),
            packet,
        );
        lemma_any_net_last(dests, packet.dest);
    }
}

proof fn lemma_with_sources(
    sources: Seq<Option<IpNet>>,
    dests: Seq<Option<IpNet>>,
    ports: Seq<(FirewallProtocol, Seq<PortRange>)>,
    packet: Packet,
)
    requires
        packet.protocol !is Tcp,
    ensures
        any_passes(with_sources(sources, dests, ports), packet) == (any_net_passes(
            sources,
            packet.source,
        ) && any_net_passes(dests, packet.dest) && any_pair_passes(ports, packet)),
    decreases sources.len(),
{
    if sources.len() > 0 {
        lemma_with_sources(sources.drop_last(), dests, ports, packet);
        lemma_with_dests(sources.last(), dests, ports, packet);
        lemma_any_add(
            with_sources(sources.drop_last(), dests, ports),
            with_dests(sources.last(), dests, ports),
            packet,
        );
        lemma_any_net_last(sources, packet.source);
    }
}

/// The alternatives for an address stand for the match and for what was there
/// before, where the match replaces nothing.
proof fn lemma_net_choices(nets: Seq<IpNet>, existing: Option<IpNet>, ip: crate::net::IpAddr)
    requires
        nets.len() > 0 ==> existing.is_none(),
    ensures
        any_net_passes(net_choices(nets, existing), ip) == (net_passes(existing, ip)
            && address_passes(nets, ip)),
{
    let choices = net_choices(nets, existing);
    if nets.len() == 0 {
        assert(choices[0] == existing);
    } else {
        if any_net_passes(choices, ip) {
            let i = choose|i: int| 0 <= i < choices.len() && net_passes(#[trigger] choices[i], ip);
            assert(nets[i].has(ip));
        }
        if address_passes(nets, ip) {
            let i = choose|i: int| 0 <= i < nets.len() && #[trigger] nets[i].has(ip);
            assert(net_passes(choices[i], ip));
        }
    }
}

spec fn any_chunk_has(chunks: Seq<Seq<PortRange>>, port: u16) -> bool {
    exists|i: int, k: int|
        0 <= i < chunks.len() && 0 <= k < chunks[i].len() && #[trigger] chunks[i][k].has(port)
}

spec fn any_range_has(ranges: Seq<PortRange>, port: u16) -> bool {
    exists|k: int| 0 <= k < ranges.len() && #[trigger] ranges[k].has(port)
}

proof fn lemma_any_range_push(ranges: Seq<PortRange>, last: PortRange, port: u16)
    ensures
        any_range_has(ranges.push(last), port) == (any_range_has(ranges, port) || last.has(port)),
{
    let all = ranges.push(last);
    if any_range_has(ranges, port) {
        let k = choose|k: int| 0 <= k < ranges.len() && #[trigger] ranges[k].has(port);
        assert(all[k] == ranges[k]);
    }
    if last.has(port) {
        assert(all[ranges.len() as int] == last);
    }
    if any_range_has(all, port) {
        let k = choose|k: int| 0 <= k < all.len() && #[trigger] all[k].has(port);
        if k < ranges.len() {
            assert(ranges[k] == all[k]);
        }
    }
}

proof fn lemma_any_chunk_push(chunks: Seq<Seq<PortRange>>, last: Seq<PortRange>, port: u16)
    ensures
        any_chunk_has(chunks.push(last), port) == (any_chunk_has(chunks, port) || any_range_has(
            last,
            port,
        )),
{
    let all = chunks.push(last);
    if any_chunk_has(chunks, port) {
        let (i, k) = choose|i: int, k: int|
            0 <= i < chunks.len() && 0 <= k < chunks[i].len() && #[trigger] chunks[i][k].has(port);
        assert(all[i][k] == chunks[i][k]);
    }
    if any_range_has(last, port) {
        let k = choose|k: int| 0 <= k < last.len() && #[trigger] last[k].has(port);
        assert(all[chunks.len() as int][k] == last[k]);
    }
    if any_chunk_has(all, port) {
        let (i, k) = choose|i: int, k: int|
            0 <= i < all.len() && 0 <= k < all[i].len() && #[trigger] all[i][k].has(port);
        if i < chunks.len() {
            assert(chunks[i][k] == all[i][k]);
        } else {
            assert(last[k] == all[i][k]);
        }
    }
}

proof fn lemma_chunking_ports(ranges: Seq<PortRange>, port: u16)
    ensures
        any_range_has(ranges, port) == (any_chunk_has(chunking(ranges).0, port) || any_range_has(
            chunking(ranges).1,
            port,
        )),
    decreases ranges.len(),
{
    if ranges.len() > 0 {
        let short = ranges.drop_last();
        let (full, filling) = chunking(short);
        lemma_chunking_ports(short, port);
        assert(ranges =~= short.push(ranges.last()));
        lemma_any_range_push(short, ranges.last(), port);
        lemma_any_range_push(filling, ranges.last(), port);
        lemma_any_chunk_push(full, filling, port);
        assert(seq![ranges.last()] =~= Seq::<PortRange>::empty().push(ranges.last()));
        lemma_any_range_push(Seq::empty(), ranges.last(), port);
    }
}

/// Cutting port ranges into groups loses none, adds none and changes no order;
/// no group is too heavy for one multiport match, and none is empty unless there
/// is no range at all.
pub proof fn law_port_chunks(ranges: Seq<PortRange>)
    ensures
        port_chunks(ranges).flatten() == ranges,
        forall|i: int|
            0 <= i < port_chunks(ranges).len() ==> weights(#[trigger] port_chunks(ranges)[i])
                <= MAX_MULTIPORT,
        ranges.len() > 0 ==> forall|i: int|
            0 <= i < port_chunks(ranges).len() ==> (#[trigger] port_chunks(ranges)[i]).len() > 0,
{
    lemma_chunking(ranges);
    let (full, filling) = chunking(ranges);
    lemma_flatten_push(full, filling);
}

proof fn lemma_fewest_chunks(ranges: Seq<PortRange>, groups: Seq<Seq<PortRange>>)
    requires
        ranges.len() > 0,
        groups.flatten() == ranges,
        forall|i: int| 0 <= i < groups.len() ==> weights(#[trigger] groups[i]) <= MAX_MULTIPORT,
    ensures
        groups.len() > 0,
        chunking(ranges).0.len() + 1 <= groups.len(),
        chunking(ranges).0.len() + 1 == groups.len() ==> weights(chunking(ranges).1) <= weights(
            groups.last(),
        ),
    decreases ranges.len(), groups.len(),
{
    groups.lemma_flatten_and_flatten_alt_are_equivalent();
    assert(groups.len() > 0);
    let front = groups.drop_last();
    let last = groups.last();
    assert(front.push(last) =~= groups);
    lemma_flatten_push(front, last);
    assert forall|i: int| 0 <= i < front.len() implies weights(#[trigger] front[i])
        <= MAX_MULTIPORT by {
        assert(front[i] == groups[i]);
    }
    if last.len() == 0 {
        assert(front.flatten() =~= ranges);
        lemma_fewest_chunks(ranges, front);
    } else {
        let x = ranges.last();
        let short = ranges.drop_last();
        let rest = last.drop_last();
        assert(last.last() == x);
        assert(weights(last) == weights(rest) + weight(x));
        let cut = front.push(rest);
        lemma_flatten_push(front, rest);
        assert(cut.flatten() =~= short);
        assert forall|i: int| 0 <= i < cut.len() implies weights(#[trigger] cut[i])
            <= MAX_MULTIPORT by {
            if i < front.len() {
                assert(cut[i] == front[i]);
            }
        }
        let (full, filling) = chunking(short);
        reveal_with_fuel(weights, 2);
        assert(seq![x].drop_last() =~= Seq::empty());
        assert(filling.push(x).drop_last() =~= filling);
        lemma_chunking(short);
        if short.len() == 0 {
            assert(filling =~= Seq::empty());
        } else {
            lemma_fewest_chunks(short, cut);
            assert(cut.last() == rest);
        }
    }
}

/// The groups are as few as can be: no way to cut the ranges into groups that fit one
/// multiport match each, in their order, takes fewer.
pub proof fn law_fewest_port_chunks(ranges: Seq<PortRange>, groups: Seq<Seq<PortRange>>)
    requires
        ranges.len() > 0,
        groups.flatten() == ranges,
        forall|i: int| 0 <= i < groups.len() ==> weights(#[trigger] groups[i]) <= MAX_MULTIPORT,
    ensures
        port_chunks(ranges).len() <= groups.len(),
{
    lemma_fewest_chunks(ranges, groups);
}

proof fn lemma_flatten_push(chunks: Seq<Seq<PortRange>>, last: Seq<PortRange>)
    ensures
        chunks.push(last).flatten() == chunks.flatten() + last,
{
    chunks.push(last).lemma_flatten_and_flatten_alt_are_equivalent();
    chunks.lemma_flatten_and_flatten_alt_are_equivalent();
    assert(chunks.push(last).drop_last() =~= chunks);
}

proof fn lemma_chunking(ranges: Seq<PortRange>)
    ensures
        chunking(ranges).0.flatten() + chunking(ranges).1 == ranges,
        forall|i: int|
            0 <= i < chunking(ranges).0.len() ==> weights(#[trigger] chunking(ranges).0[i])
                <= MAX_MULTIPORT && chunking(ranges).0[i].len() > 0,
        weights(chunking(ranges).1) <= MAX_MULTIPORT,
        ranges.len() > 0 ==> chunking(ranges).1.len() > 0,
    decreases ranges.len(),
{
    if ranges.len() > 0 {
        let short = ranges.drop_last();
        let last = ranges.last();
        let (full, filling) = chunking(short);
        lemma_chunking(short);
        lemma_flatten_push(full, filling);
        reveal_with_fuel(weights, 3);
        assert(filling.push(last).drop_last() =~= filling);
        assert(seq![last].drop_last() =~= Seq::empty());
        assert(full.flatten() + filling + seq![last] =~= ranges);
        assert(full.flatten() + filling.push(last) =~= ranges);
        if filling.len() == 0 {
            assert(filling =~= Seq::empty());
        }
    } else {
        assert(Seq::<Seq<PortRange>>::empty().flatten() =~= Seq::<PortRange>::empty());
    }
}

spec fn any_chunk_passes(chunks: Seq<Seq<PortRange>>, port: u16) -> bool {
    exists|i: int| 0 <= i < chunks.len() && port_passes(#[trigger] chunks[i], port)
}

/// One of the groups has the port where the ranges have it.
proof fn lemma_chunks_pass(ranges: Seq<PortRange>, port: u16)
    ensures
        any_chunk_passes(port_chunks(ranges), port) == port_passes(ranges, port),
{
    let chunks = port_chunks(ranges);
    let (full, filling) = chunking(ranges);
    if ranges.len() == 0 {
        assert(chunks[0] =~= Seq::empty());
        assert(port_passes(chunks[0], port));
    } else {
        law_port_chunks(ranges);
        lemma_chunking_ports(ranges, port);
        lemma_any_chunk_push(full, filling, port);
        if any_chunk_passes(chunks, port) {
            let i = choose|i: int| 0 <= i < chunks.len() && port_passes(#[trigger] chunks[i], port);
            let k = choose|k: int| 0 <= k < chunks[i].len() && #[trigger] chunks[i][k].has(port);
            assert(chunks[i][k].has(port));
            assert(any_chunk_has(chunks, port));
        }
        if port_passes(ranges, port) {
            assert(any_range_has(ranges, port));
            let (i, k) = choose|i: int, k: int|
                0 <= i < chunks.len() && 0 <= k < chunks[i].len() && #[trigger] chunks[i][k].has(
                    port,
                );
            assert(port_passes(chunks[i], port));
        }
    }
}

proof fn lemma_with_protocol(protocol: FirewallProtocol, ranges: Seq<PortRange>, packet: Packet)
    requires
        protocol is Udp || protocol is Sctp,
    ensures
        any_pair_passes(with_protocol(protocol, port_chunks(ranges)), packet) == protocol.passes(
            ranges,
            packet,
        ),
{
    let chunks = port_chunks(ranges);
    let all = with_protocol(protocol, chunks);
    lemma_chunks_pass(ranges, packet.dest_port);
    if any_pair_passes(all, packet) {
        let i = choose|i: int| 0 <= i < all.len() && (#[trigger] all[i]).0.passes(all[i].1, packet);
        assert(port_passes(chunks[i], packet.dest_port));
    }
    if protocol.passes(ranges, packet) {
        let i = choose|i: int|
            0 <= i < chunks.len() && port_passes(#[trigger] chunks[i], packet.dest_port);
        assert(all[i].0.passes(all[i].1, packet));
    }
}

proof fn lemma_group_pairs(group: PortGroup, packet: Packet)
    ensures
        any_pair_passes(group_pairs(group), packet) == group.protocol.passes(group.ports@, packet),
{
    let all = group_pairs(group);
    match group.protocol {
        FirewallProtocol::NonTcp => {
            if group.ports@.len() == 0 {
                assert(all[0].0.passes(all[0].1, packet) == group.protocol.passes(
                    group.ports@,
                    packet,
                ));
            } else {
                lemma_with_protocol(FirewallProtocol::Udp, group.ports@, packet);
                lemma_with_protocol(FirewallProtocol::Sctp, group.ports@, packet);
                lemma_any_pair_add(
                    with_protocol(FirewallProtocol::Udp, port_chunks(group.ports@)),
                    with_protocol(FirewallProtocol::Sctp, port_chunks(group.ports@)),
                    packet,
                );
            }
        },
        FirewallProtocol::Udp => {
            lemma_with_protocol(FirewallProtocol::Udp, group.ports@, packet);
        },
        FirewallProtocol::Sctp => {
            lemma_with_protocol(FirewallProtocol::Sctp, group.ports@, packet);
        },
        FirewallProtocol::Icmp => {
            assert(all[0].0.passes(all[0].1, packet) == group.protocol.passes(
                group.ports@,
                packet,
            ));
        },
    }
}

spec fn any_group_passes(groups: Seq<PortGroup>, packet: Packet) -> bool {
    exists|i: int|
        0 <= i < groups.len() && (#[trigger] groups[i]).protocol.passes(groups[i].ports@, packet)
}

proof fn lemma_pairs(groups: Seq<PortGroup>, packet: Packet)
    ensures
        any_pair_passes(pairs(groups), packet) == any_group_passes(groups, packet),
    decreases groups.len(),
{
    if groups.len() > 0 {
        let short = groups.drop_last();
        let last = groups.last();
        lemma_pairs(short, packet);
        lemma_group_pairs(last, packet);
        lemma_any_pair_add(pairs(short), group_pairs(last), packet);
        if any_group_passes(short, packet) {
            let i = choose|i: int|
                0 <= i < short.len() && (#[trigger] short[i]).protocol.passes(
                    short[i].ports@,
                    packet,
                );
            assert(groups[i] == short[i]);
        }
        if last.protocol.passes(last.ports@, packet) {
            assert(groups[groups.len() - 1] == last);
        }
        if any_group_passes(groups, packet) {
            let i = choose|i: int|
                0 <= i < groups.len() && (#[trigger] groups[i]).protocol.passes(
                    groups[i].ports@,
                    packet,
                );
            if i < short.len() {
                assert(short[i] == groups[i]);
            }
        }
    }
}

/// The match speaks of no dimension that the combination already fixes.
spec fn adds_to(m: FirewallMatch, existing: Flat) -> bool {
    &&& m.source_ips@.len() > 0 ==> existing.source.is_none()
    &&& m.dest_ips@.len() > 0 ==> existing.dest.is_none()
    &&& !m.any_port() ==> existing.protocol is NonTcp && existing.ports.len() == 0
}

proof fn lemma_refine(existing: Flat, m: FirewallMatch, packet: Packet)
    requires
        packet.protocol !is Tcp,
        adds_to(m, existing),
    ensures
        any_passes(refine(existing, m), packet) == (flat_passes(existing, packet) && m.passes(
            packet,
        )),
{
    let ports = port_choices(m, existing);
    lemma_with_sources(
        net_choices(m.source_ips@, existing.source),
        net_choices(m.dest_ips@, existing.dest),
        ports,
        packet,
    );
    lemma_net_choices(m.source_ips@, existing.source, packet.source);
    lemma_net_choices(m.dest_ips@, existing.dest, packet.dest);
    if m.any_port() {
        assert(ports[0].0.passes(ports[0].1, packet) == existing.protocol.passes(
            existing.ports,
            packet,
        ));
        if m.port_groups@.len() == 1 {
            assert(m.port_groups@[0].protocol.passes(m.port_groups@[0].ports@, packet));
        }
        assert(groups_pass(m.port_groups@, packet));
    } else {
        lemma_pairs(m.port_groups@, packet);
    }
}

proof fn lemma_refine_by_clause(existing: Flat, clause: Seq<FirewallMatch>, packet: Packet)
    requires
        packet.protocol !is Tcp,
        forall|i: int| 0 <= i < clause.len() ==> adds_to(#[trigger] clause[i], existing),
    ensures
        any_passes(refine_by_clause(existing, clause), packet) == (flat_passes(existing, packet)
            && clause_passes(clause, packet)),
    decreases clause.len(),
{
    if clause.len() > 0 {
        let short = clause.drop_last();
        let last = clause.last();
        assert(clause[clause.len() - 1] == last);
        assert forall|i: int| 0 <= i < short.len() implies adds_to(#[trigger] short[i], existing) by {
            assert(clause[i] == short[i]);
        }
        lemma_refine_by_clause(existing, short, packet);
        lemma_refine(existing, last, packet);
        lemma_any_add(refine_by_clause(existing, short), refine(existing, last), packet);
        if clause_passes(short, packet) {
            let i = choose|i: int| 0 <= i < short.len() && #[trigger] short[i].passes(packet);
            assert(clause[i] == short[i]);
        }
        if clause_passes(clause, packet) {
            let i = choose|i: int| 0 <= i < clause.len() && #[trigger] clause[i].passes(packet);
            if i < short.len() {
                assert(short[i] == clause[i]);
            }
        }
    }
}

proof fn lemma_refine_all(existing: Seq<Flat>, clause: Seq<FirewallMatch>, packet: Packet)
    requires
        packet.protocol !is Tcp,
        forall|i: int, k: int|
            0 <= i < clause.len() && 0 <= k < existing.len() ==> adds_to(
                #[trigger] clause[i],
                #[trigger] existing[k],
            ),
    ensures
        any_passes(refine_all(existing, clause), packet) == (any_passes(existing, packet)
            && clause_passes(clause, packet)),
    decreases existing.len(),
{
    if existing.len() > 0 {
        let short = existing.drop_last();
        let last = existing.last();
        assert(existing[existing.len() - 1] == last);
        assert forall|i: int, k: int|
            0 <= i < clause.len() && 0 <= k < short.len() implies adds_to(
            #[trigger] clause[i],
            #[trigger] short[k],
        ) by {
            assert(existing[k] == short[k]);
        }
        lemma_refine_all(short, clause, packet);
        lemma_refine_by_clause(last, clause, packet);
        lemma_any_add(refine_all(short, clause), refine_by_clause(last, clause), packet);
        lemma_any_add(short, seq![last], packet);
        assert(existing =~= short + seq![last]);
        assert(any_passes(seq![last], packet) == flat_passes(last, packet)) by {
            assert(seq![last][0] == last);
        }
    }
}

/// The combination fixes only dimensions that one of the clauses speaks of.
spec fn fixes_only(flat: Flat, clauses: Seq<Vec<FirewallMatch>>) -> bool {
    &&& flat.source.is_some() ==> exists|i: int|
        0 <= i < clauses.len() && constrains_source(#[trigger] clauses[i]@)
    &&& flat.dest.is_some() ==> exists|i: int|
        0 <= i < clauses.len() && constrains_dest(#[trigger] clauses[i]@)
    &&& !(flat.protocol is NonTcp && flat.ports.len() == 0) ==> exists|i: int|
        0 <= i < clauses.len() && constrains_ports(#[trigger] clauses[i]@)
}

/// Where each dimension of a refined combination comes from.
spec fn comes_from(flat: Flat, existing: Flat, m: FirewallMatch) -> bool {
    &&& flat.source == existing.source || m.source_ips@.len() > 0
    &&& flat.dest == existing.dest || m.dest_ips@.len() > 0
    &&& (flat.protocol == existing.protocol && flat.ports == existing.ports) || !m.any_port()
}

proof fn lemma_dests_come_from(
    source: Option<IpNet>,
    dests: Seq<Option<IpNet>>,
    ports: Seq<(FirewallProtocol, Seq<PortRange>)>,
    existing: Flat,
    m: FirewallMatch,
)
    requires
        source == existing.source || m.source_ips@.len() > 0,
        forall|i: int|
            0 <= i < dests.len() ==> #[trigger] dests[i] == existing.dest || m.dest_ips@.len() > 0,
        forall|i: int|
            0 <= i < ports.len() ==> #[trigger] ports[i] == (existing.protocol, existing.ports)
                || !m.any_port(),
    ensures
        forall|i: int|
            0 <= i < with_dests(source, dests, ports).len() ==> comes_from(
                #[trigger] with_dests(source, dests, ports)[i],
                existing,
                m,
            ),
    decreases dests.len(),
{
    if dests.len() > 0 {
        lemma_dests_come_from(source, dests.drop_last(), ports, existing, m);
        assert(dests[dests.len() - 1] == dests.last());
        let first = with_dests(source, dests.drop_last(), ports);
        let second = with_ports(source, dests.last(), ports);
        assert forall|i: int| 0 <= i < (first + second).len() implies comes_from(
            #[trigger] (first + second)[i],
            existing,
            m,
        ) by {
            if i < first.len() {
                assert((first + second)[i] == first[i]);
            } else {
                assert((first + second)[i] == second[i - first.len()]);
                assert(ports[i - first.len()] == ports[i - first.len()]);
            }
        }
    }
}

proof fn lemma_sources_come_from(
    sources: Seq<Option<IpNet>>,
    dests: Seq<Option<IpNet>>,
    ports: Seq<(FirewallProtocol, Seq<PortRange>)>,
    existing: Flat,
    m: FirewallMatch,
)
    requires
        forall|i: int|
            0 <= i < sources.len() ==> #[trigger] sources[i] == existing.source
                || m.source_ips@.len() > 0,
        forall|i: int|
            0 <= i < dests.len() ==> #[trigger] dests[i] == existing.dest || m.dest_ips@.len() > 0,
        forall|i: int|
            0 <= i < ports.len() ==> #[trigger] ports[i] == (existing.protocol, existing.ports)
                || !m.any_port(),
    ensures
        forall|i: int|
            0 <= i < with_sources(sources, dests, ports).len() ==> comes_from(
                #[trigger] with_sources(sources, dests, ports)[i],
                existing,
                m,
            ),
    decreases sources.len(),
{
    if sources.len() > 0 {
        lemma_sources_come_from(sources.drop_last(), dests, ports, existing, m);
        assert(sources[sources.len() - 1] == sources.last());
        lemma_dests_come_from(sources.last(), dests, ports, existing, m);
        let first = with_sources(sources.drop_last(), dests, ports);
        let second = with_dests(sources.last(), dests, ports);
        assert forall|i: int| 0 <= i < (first + second).len() implies comes_from(
            #[trigger] (first + second)[i],
            existing,
            m,
        ) by {
            if i < first.len() {
                assert((first + second)[i] == first[i]);
            } else {
                assert((first + second)[i] == second[i - first.len()]);
            }
        }
    }
}

/// Every combination of the clauses fixes only what they speak of.
spec fn all_fix_only(flats: Seq<Flat>, clauses: Seq<Vec<FirewallMatch>>) -> bool {
    forall|i: int| 0 <= i < flats.len() ==> fixes_only(#[trigger] flats[i], clauses)
}

proof fn lemma_all_fix_add(a: Seq<Flat>, b: Seq<Flat>, clauses: Seq<Vec<FirewallMatch>>)
    requires
        all_fix_only(a, clauses),
        all_fix_only(b, clauses),
    ensures
        all_fix_only(a + b, clauses),
{
    assert forall|i: int| 0 <= i < (a + b).len() implies fixes_only(
        #[trigger] (a + b)[i],
        clauses,
    ) by {
        if i < a.len() {
            assert((a + b)[i] == a[i]);
        } else {
            assert((a + b)[i] == b[i - a.len()]);
        }
    }
}

proof fn lemma_clause_fixes(
    existing: Flat,
    clause: Seq<FirewallMatch>,
    upto: Seq<FirewallMatch>,
    clauses: Seq<Vec<FirewallMatch>>,
)
    requires
        clauses.len() > 0,
        clauses.last()@ == clause,
        fixes_only(existing, clauses.drop_last()),
        upto.len() <= clause.len(),
        forall|i: int| 0 <= i < upto.len() ==> #[trigger] upto[i] == clause[i],
    ensures
        all_fix_only(refine_by_clause(existing, upto), clauses),
    decreases upto.len(),
{
    if upto.len() > 0 {
        let last = upto.last();
        assert(upto[upto.len() - 1] == last);
        assert(clause[upto.len() - 1] == last);
        assert forall|i: int| 0 <= i < upto.drop_last().len() implies #[trigger] upto.drop_last()[i]
            == clause[i] by {
            assert(upto[i] == clause[i]);
        }
        lemma_clause_fixes(existing, clause, upto.drop_last(), clauses);
        lemma_sources_come_from(
            net_choices(last.source_ips@, existing.source),
            net_choices(last.dest_ips@, existing.dest),
            port_choices(last, existing),
            existing,
            last,
        );
        let fresh = refine(existing, last);
        let here = clauses.len() - 1;
        assert(clauses[here]@ == clause);
        assert forall|i: int| 0 <= i < fresh.len() implies fixes_only(
            #[trigger] fresh[i],
            clauses,
        ) by {
            let flat = fresh[i];
            assert(comes_from(flat, existing, last));
            if flat.source.is_some() {
                if last.source_ips@.len() > 0 {
                    assert(constrains_source(clauses[here]@));
                } else {
                    let k = choose|k: int|
                        0 <= k < clauses.drop_last().len() && constrains_source(
                            #[trigger] clauses.drop_last()[k]@,
                        );
                    assert(constrains_source(clauses[k]@));
                }
            }
            if flat.dest.is_some() {
                if last.dest_ips@.len() > 0 {
                    assert(constrains_dest(clauses[here]@));
                } else {
                    let k = choose|k: int|
                        0 <= k < clauses.drop_last().len() && constrains_dest(
                            #[trigger] clauses.drop_last()[k]@,
                        );
                    assert(constrains_dest(clauses[k]@));
                }
            }
            if !(flat.protocol is NonTcp && flat.ports.len() == 0) {
                if !last.any_port() {
                    assert(constrains_ports(clauses[here]@));
                } else {
                    let k = choose|k: int|
                        0 <= k < clauses.drop_last().len() && constrains_ports(
                            #[trigger] clauses.drop_last()[k]@,
                        );
                    assert(constrains_ports(clauses[k]@));
                }
            }
        }
        lemma_all_fix_add(refine_by_clause(existing, upto.drop_last()), fresh, clauses);
    }
}

proof fn lemma_refine_all_fixes(existing: Seq<Flat>, clauses: Seq<Vec<FirewallMatch>>)
    requires
        clauses.len() > 0,
        all_fix_only(existing, clauses.drop_last()),
    ensures
        all_fix_only(refine_all(existing, clauses.last()@), clauses),
    decreases existing.len(),
{
    if existing.len() > 0 {
        let clause = clauses.last()@;
        assert(existing[existing.len() - 1] == existing.last());
        assert forall|i: int| 0 <= i < existing.drop_last().len() implies fixes_only(
            #[trigger] existing.drop_last()[i],
            clauses.drop_last(),
        ) by {
            assert(existing[i] == existing.drop_last()[i]);
        }
        lemma_refine_all_fixes(existing.drop_last(), clauses);
        lemma_clause_fixes(existing.last(), clause, clause, clauses);
        lemma_all_fix_add(
            refine_all(existing.drop_last(), clause),
            refine_by_clause(existing.last(), clause),
            clauses,
        );
    }
}

proof fn lemma_flattened_fixes(clauses: Seq<Vec<FirewallMatch>>)
    ensures
        all_fix_only(flattened(clauses), clauses),
    decreases clauses.len(),
{
    if clauses.len() > 0 {
        lemma_flattened_fixes(clauses.drop_last());
        lemma_refine_all_fixes(flattened(clauses.drop_last()), clauses);
    }
}

/// Expanding a rule keeps its meaning: a packet that is not TCP meets all clauses
/// exactly where one of the combinations stands for it.
pub proof fn law_flattening_keeps_meaning(clauses: Seq<Vec<FirewallMatch>>, packet: Packet)
    requires
        separate_dimensions(clauses),
    ensures
        any_passes(flattened(clauses), packet) == clauses_pass(clauses, packet),
    decreases clauses.len(),
{
    if packet.protocol is Tcp {
        assert(!any_passes(flattened(clauses), packet));
    } else if clauses.len() == 0 {
        assert(flat_passes(flattened(clauses)[0], packet));
    } else {
        let short = clauses.drop_last();
        let clause = clauses.last()@;
        let existing = flattened(short);
        assert forall|i: int, j: int|
            #![trigger short[i], short[j]]
            0 <= i < j < short.len() implies {
            &&& !(constrains_source(short[i]@) && constrains_source(short[j]@))
            &&& !(constrains_dest(short[i]@) && constrains_dest(short[j]@))
            &&& !(constrains_ports(short[i]@) && constrains_ports(short[j]@))
        } by {
            assert(clauses[i] == short[i] && clauses[j] == short[j]);
        }
        law_flattening_keeps_meaning(short, packet);
        lemma_flattened_fixes(short);
        let here = clauses.len() - 1;
        assert(clauses[here]@ == clause);
        assert forall|i: int, k: int| 0 <= i < clause.len() && 0 <= k < existing.len() implies adds_to(
            #[trigger] clause[i],
            #[trigger] existing[k],
        ) by {
            let m = clause[i];
            let flat = existing[k];
            assert(fixes_only(flat, short));
            if m.source_ips@.len() > 0 && flat.source.is_some() {
                assert(constrains_source(clauses[here]@));
                let n = choose|n: int|
                    0 <= n < short.len() && constrains_source(#[trigger] short[n]@);
                assert(constrains_source(clauses[n]@));
            }
            if m.dest_ips@.len() > 0 && flat.dest.is_some() {
                assert(constrains_dest(clauses[here]@));
                let n = choose|n: int| 0 <= n < short.len() && constrains_dest(#[trigger] short[n]@);
                assert(constrains_dest(clauses[n]@));
            }
            if !m.any_port() && !(flat.protocol is NonTcp && flat.ports.len() == 0) {
                assert(constrains_ports(clauses[here]@));
                let n = choose|n: int|
                    0 <= n < short.len() && constrains_ports(#[trigger] short[n]@);
                assert(constrains_ports(clauses[n]@));
            }
        }
        lemma_refine_all(existing, clause, packet);
        if clauses_pass(clauses, packet) {
            assert forall|i: int| 0 <= i < short.len() implies clause_passes(
                #[trigger] short[i]@,
                packet,
            ) by {
                assert(clauses[i] == short[i]);
            }
        }
        if clauses_pass(short, packet) && clause_passes(clause, packet) {
            assert forall|i: int| 0 <= i < clauses.len() implies clause_passes(
                #[trigger] clauses[i]@,
                packet,
            ) by {
                if i < short.len() {
                    assert(short[i] == clauses[i]);
                }
            }
        }
    }
}

/// The separated texts begin with the first of them.
proof fn lemma_joined_begins(parts: Seq<Seq<char>>, separator: Seq<char>)
    requires
        parts.len() > 0,
    ensures
        parts[0].is_prefix_of(joined(parts, separator)),
    decreases parts.len(),
{
    if parts.len() > 1 {
        lemma_joined_begins(parts.drop_last(), separator);
        let short = joined(parts.drop_last(), separator);
        assert(joined(parts, separator).subrange(0, parts[0].len() as int) =~= short.subrange(
            0,
            parts[0].len() as int,
        ));
    }
}

/// Every line for a rule appends to the chain of its stage and direction.
pub proof fn law_rule_in_its_chain(rule: FirewallRule, stage: Stage)
    ensures
        forall|i: int|
            0 <= i < rule_lines(rule, stage).len() ==> ("-A "@ + chain_text(
                stage,
                rule.direction,
            )).is_prefix_of(#[trigger] rule_lines(rule, stage)[i]),
{
    lemma_lines_in_chain(flattened(rule.clauses@), stage, rule.direction, rule.action);
}

proof fn lemma_lines_in_chain(
    flats: Seq<Flat>,
    stage: Stage,
    direction: Direction,
    action: RuleAction,
)
    ensures
        forall|i: int|
            0 <= i < flat_lines(flats, stage, direction, action).len() ==> ("-A "@ + chain_text(
                stage,
                direction,
            )).is_prefix_of(#[trigger] flat_lines(flats, stage, direction, action)[i]),
    decreases flats.len(),
{
    if flats.len() > 0 {
        lemma_lines_in_chain(flats.drop_last(), stage, direction, action);
        let parts = line_parts(flats.last(), stage, direction, action);
        assert(parts[0] == "-A "@ + chain_text(stage, direction));
        lemma_joined_begins(parts, " "@);
        let earlier = flat_lines(flats.drop_last(), stage, direction, action);
        let all = flat_lines(flats, stage, direction, action);
        assert forall|i: int| 0 <= i < all.len() implies ("-A "@ + chain_text(
            stage,
            direction,
        )).is_prefix_of(#[trigger] all[i]) by {
            if i < earlier.len() {
                assert(all[i] == earlier[i]);
            }
        }
    }
}

/// The rendered rules begin with the table and end with the commit; both chains are
/// emptied first, what bears the proxy's mark passes, and where policies are
/// attached, what no rule matches is refused at the end of both.
pub proof fn law_ruleset_structure(config: IptConfig, ruleset: RuleSet)
    ensures
        ruleset_lines(config, ruleset)[0] == "*filter"@,
        ruleset_lines(config, ruleset).last() == "COMMIT"@,
        "*filter"@.is_prefix_of(joined(ruleset_lines(config, ruleset), "\n"@)),
        "COMMIT"@.is_suffix_of(joined(ruleset_lines(config, ruleset), "\n"@)),
        ruleset.policy_attached ==> {
            let lines = ruleset_lines(config, ruleset);
            &&& lines[lines.len() - 2] == "-A ISTIO_FW_FILTER_OUT ! -p tcp -j REJECT"@
            &&& lines[lines.len() - 3] == "-A ISTIO_FW_FILTER_IN ! -p tcp -j REJECT"@
        },
        ruleset_lines(config, ruleset).contains("-F ISTIO_FW_FILTER_IN"@),
        ruleset_lines(config, ruleset).contains("-F ISTIO_FW_FILTER_OUT"@),
        config.proxy_mark matches Some(mark) ==> ruleset_lines(config, ruleset).contains(
            "-A ISTIO_FW_FILTER_OUT -m mark --mark "@ + decimal(mark as nat) + " -j RETURN"@,
        ),
{
    let lines = ruleset_lines(config, ruleset);
    assert(lines.len() > 6);
    let start = 1 + inline_chains(ruleset.inline_rules@.len() > 0).len();
    assert(lines[start as int] == "-F ISTIO_FW_FILTER_IN"@);
    assert(lines[start as int + 1] == "-F ISTIO_FW_FILTER_OUT"@);
    assert(lines[start as int + 6] == bypass_lines(config)[0]);
    lemma_joined_begins(lines, "\n"@);
    let text = joined(lines, "\n"@);
    assert(text.subrange(text.len() - "COMMIT"@.len(), text.len() as int) =~= "COMMIT"@);
}

} // verus!
