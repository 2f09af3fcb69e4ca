//! The nftables backend.
//!
//! The rules stand in a table of their own, `inet ztunnel`, which is replaced as a
//! whole. Established connections, loopback and the proxy's own traffic pass
//! before any rule. TCP is left to the proxy. A set holds addresses of one family
//! only, so that a rule with addresses of both is rendered once for each; pairs of
//! different families match no packet and are left out.

use vstd::prelude::*;

use super::super::order::{ordered, rule_order};
use super::super::types::{
    address_passes, clause_passes, clauses_pass, constrains_dest, constrains_ports,
    constrains_source, groups_pass, separate_dimensions, Direction, FirewallMatch, FirewallProtocol,
    FirewallRule, Packet, PortGroup, PortRange, RuleAction, RuleSet,
};
use super::{format_workload_label, make_nsenter_cmd, nsenter_words, workload_text, Stage};
use crate::net::IpNet;
use crate::text::{
    chars_of, decimal, decimal_text, join, joined, lemma_decimal_injective, lemma_decimal_is_digits,
    opt_view, push_decimal, views,
};

verus! {

/// More networks than this go into a named set, which is searched as a tree
/// rather than from end to end.
pub const NAMED_SET_THRESHOLD: usize = 128;

/// Whether the character is a control character: the C0 and C1 controls and
/// delete.
pub open spec fn is_control(c: char) -> bool {
    (c as int) < 0x20 || 0x7f <= (c as int) <= 0x9f
}

/// A text that can stand between quotes: control characters are dropped, quotes
/// and backslashes escaped.
pub open spec fn escaped(s: Seq<char>) -> Seq<char>
    decreases s.len(),
{
    if s.len() == 0 {
        Seq::empty()
    } else {
        let c = s.last();
        let before = escaped(s.drop_last());
        if is_control(c) {
            before
        } else if c == '\\' || c == '"' {
            before.push('\\').push(c)
        } else {
            before.push(c)
        }
    }
}

/// Makes a text fit to stand between quotes.
pub fn escape_comment(s: &str) -> (r: String)
    ensures
        r@ == escaped(s@),
{
    let chars: Vec<char> = chars_of(s);
    let mut out: String = String::new();
    let mut i: usize = 0;
    assert(out@ =~= escaped(chars@.take(0)));
    while i < chars.len()
        invariant
            i <= chars@.len(),
            out@ == escaped(chars@.take(i as int)),
        decreases chars@.len() - i,
    {
        let c: char = chars[i];
        assert(chars@.take(i + 1).drop_last() =~= chars@.take(i as int));
        let control: bool = c < ' ' || (c >= '\u{7f}' && c <= '\u{9f}');
        if !control {
            if c == '\\' || c == '"' {
                out.push('\\');
            }
            out.push(c);
        }
        i = i + 1;
    }
    assert(chars@.take(i as int) =~= s@);
    out
}

/// A combination of alternatives. Networks and ports stay together, as nftables
/// has sets; what is absent is unrestricted.
pub struct NftFlatMatch<'a> {
    pub source_ips: Option<&'a Vec<IpNet>>,
    pub dest_ips: Option<&'a Vec<IpNet>>,
    pub port_groups: Option<&'a Vec<PortGroup>>,
}

/// A combination, as a plain value.
#[verifier::ext_equal]
pub struct NftFlat {
    pub sources: Seq<IpNet>,
    pub dests: Seq<IpNet>,
    /// Absent means everything but TCP.
    pub groups: Option<Seq<PortGroup>>,
}

/// The networks, of which there may be none.
pub open spec fn nets_of(nets: Option<&Vec<IpNet>>) -> Seq<IpNet> {
    match nets {
        Some(nets) => nets@,
        None => Seq::empty(),
    }
}

impl View for NftFlatMatch<'_> {
    type V = NftFlat;

    open spec fn view(&self) -> NftFlat {
        NftFlat {
            sources: nets_of(self.source_ips),
            dests: nets_of(self.dest_ips),
            groups: match self.port_groups {
                Some(groups) => Some(groups@),
                None => None,
            },
        }
    }
}

/// The combinations, each as a plain value.
pub open spec fn flats(v: Seq<NftFlatMatch>) -> Seq<NftFlat> {
    v.map_values(|f: NftFlatMatch| f@)
}

/// What a combination becomes when a match must hold too.
pub open spec fn refine(existing: NftFlat, m: FirewallMatch) -> NftFlat {
    NftFlat {
        sources: if m.source_ips@.len() == 0 {
            existing.sources
        } else {
            m.source_ips@
        },
        dests: if m.dest_ips@.len() == 0 {
            existing.dests
        } else {
            m.dest_ips@
        },
        groups: if m.any_port() {
            existing.groups
        } else {
            Some(m.port_groups@)
        },
    }
}

/// What a combination becomes when a clause must hold too.
pub open spec fn refine_by_clause(existing: NftFlat, clause: Seq<FirewallMatch>) -> Seq<NftFlat> {
    Seq::new(clause.len(), |i: int| refine(existing, clause[i]))
}

/// What the combinations become when a clause must hold too.
pub open spec fn refine_all(existing: Seq<NftFlat>, clause: Seq<FirewallMatch>) -> Seq<NftFlat>
    decreases existing.len(),
{
    if existing.len() == 0 {
        Seq::empty()
    } else {
        refine_all(existing.drop_last(), clause) + refine_by_clause(existing.last(), clause)
    }
}

/// The combination that says nothing but "not TCP".
pub open spec fn unrestricted() -> NftFlat {
    NftFlat { sources: Seq::empty(), dests: Seq::empty(), groups: None }
}

/// The combinations that the clauses stand for.
pub open spec fn flattened(clauses: Seq<Vec<FirewallMatch>>) -> Seq<NftFlat>
    decreases clauses.len(),
{
    if clauses.len() == 0 {
        seq![unrestricted()]
    } else {
        refine_all(flattened(clauses.drop_last()), clauses.last()@)
    }
}

/// A set that is declared beside the chains.
pub struct NamedSet {
    pub name: String,
    pub is_v4: bool,
    pub elements: Vec<String>,
}

/// A declared set, as a plain value.
pub struct SetModel {
    pub name: Seq<char>,
    pub is_v4: bool,
    pub elements: Seq<Seq<char>>,
}

impl View for NamedSet {
    type V = SetModel;

    open spec fn view(&self) -> SetModel {
        SetModel { name: self.name@, is_v4: self.is_v4, elements: views(self.elements@) }
    }
}

/// The sets, each as a plain value.
pub open spec fn set_views(v: Seq<NamedSet>) -> Seq<SetModel> {
    v.map_values(|s: NamedSet| s@)
}

/// The networks of one family.
pub open spec fn of_family(nets: Seq<IpNet>, v4: bool) -> Seq<IpNet>
    decreases nets.len(),
{
    if nets.len() == 0 {
        Seq::empty()
    } else {
        let before = of_family(nets.drop_last(), v4);
        if (nets.last().spec_addr() is V4) == v4 {
            before.push(nets.last())
        } else {
            before
        }
    }
}

/// The networks by family, IPv4 first, without a family that has none. No network
/// at all, which means any address, is one group of its own.
pub open spec fn families(nets: Seq<IpNet>) -> Seq<(bool, Seq<IpNet>)> {
    if nets.len() == 0 {
        seq![(true, Seq::empty())]
    } else {
        let v4 = of_family(nets, true);
        let v6 = of_family(nets, false);
        (if v4.len() == 0 {
            Seq::empty()
        } else {
            seq![(true, v4)]
        }) + (if v6.len() == 0 {
            Seq::empty()
        } else {
            seq![(false, v6)]
        })
    }
}

/// Each network in text.
pub open spec fn net_texts(nets: Seq<IpNet>) -> Seq<Seq<char>> {
    nets.map_values(|n: IpNet| n.shown())
}

/// The word for the family.
pub open spec fn family_text(v4: bool) -> Seq<char> {
    if v4 {
        "ip"@
    } else {
        "ip6"@
    }
}

/// The name of the set with this number.
pub open spec fn set_name(n: nat, v4: bool) -> Seq<char> {
    "zt_"@ + decimal(n) + (if v4 {
        "_v4"@
    } else {
        "_v6"@
    })
}

/// Rule lines and the sets that they use.
#[verifier::ext_equal]
pub struct Rendered {
    pub lines: Seq<Seq<char>>,
    pub sets: Seq<SetModel>,
}

impl Rendered {
    /// Both, one after the other.
    pub open spec fn then_comes(self, next: Rendered) -> Rendered {
        Rendered { lines: self.lines + next.lines, sets: self.sets + next.sets }
    }
}

/// Nothing.
pub open spec fn nothing() -> Rendered {
    Rendered { lines: Seq::empty(), sets: Seq::empty() }
}

/// The match on addresses, if any; `n` sets were declared before.
pub open spec fn address_parts(nets: Seq<IpNet>, field: Seq<char>, v4: bool, n: nat) -> Seq<
    Seq<char>,
> {
    let head = family_text(v4) + " "@ + field + " "@;
    if nets.len() == 0 {
        Seq::empty()
    } else if nets.len() == 1 {
        seq![head + nets[0].shown()]
    } else if nets.len() > NAMED_SET_THRESHOLD {
        seq![head + "@"@ + set_name(n, v4)]
    } else {
        seq![head + "{ "@ + joined(net_texts(nets), ", "@) + " }"@]
    }
}

/// The set that the match on addresses declares, if any; `n` sets were declared
/// before.
pub open spec fn address_sets(nets: Seq<IpNet>, v4: bool, n: nat) -> Seq<SetModel> {
    if nets.len() > NAMED_SET_THRESHOLD {
        seq![SetModel { name: set_name(n, v4), is_v4: v4, elements: net_texts(nets) }]
    } else {
        Seq::empty()
    }
}

/// A port range as nftables writes it.
pub open spec fn range_text(range: PortRange) -> Seq<char> {
    if range.start == range.end {
        decimal(range.start as nat)
    } else {
        decimal(range.start as nat) + "-"@ + decimal(range.end as nat)
    }
}

/// The match on ports.
pub open spec fn ports_text(protocol: Seq<char>, ports: Seq<PortRange>) -> Seq<char> {
    if ports.len() == 1 {
        protocol + " dport "@ + range_text(ports[0])
    } else {
        protocol + " dport { "@ + joined(ports.map_values(|r: PortRange| range_text(r)), ", "@)
            + " }"@
    }
}

/// The match on one group of ports. ICMP has a protocol of its own in each
/// family, which is known where the rule has addresses.
pub open spec fn group_parts(protocol: FirewallProtocol, ports: Seq<PortRange>, v4: Option<bool>) -> Seq<
    Seq<char>,
> {
    match protocol {
        FirewallProtocol::NonTcp => if ports.len() == 0 {
            seq!["meta l4proto != tcp"@]
        } else {
            seq!["meta l4proto { udp, sctp }"@, ports_text("th"@, ports)]
        },
        FirewallProtocol::Udp => if ports.len() == 0 {
            seq!["meta l4proto udp"@]
        } else {
            seq![ports_text("udp"@, ports)]
        },
        FirewallProtocol::Sctp => if ports.len() == 0 {
            seq!["meta l4proto sctp"@]
        } else {
            seq![ports_text("sctp"@, ports)]
        },
        FirewallProtocol::Icmp => match v4 {
            Some(true) => seq!["ip protocol icmp"@],
            Some(false) => seq!["meta l4proto ipv6-icmp"@],
            None => seq!["meta l4proto { icmp, ipv6-icmp }"@],
        },
    }
}

/// The verdict of a rule: what the inline stage allows returns to the workload's
/// chain.
pub open spec fn verdict_text(stage: Stage, action: RuleAction) -> Seq<char> {
    match (stage, action) {
        (_, RuleAction::Deny) => "reject"@,
        (Stage::Workload, RuleAction::Allow) => "accept"@,
        (Stage::Inline, RuleAction::Allow) => "return"@,
    }
}

/// What ends a rule's line: the verdict and the rule's name.
pub open spec fn ending(name: Seq<char>, stage: Stage, action: RuleAction) -> Seq<Seq<char>> {
    seq![verdict_text(stage, action), "comment \""@ + escaped(name) + "\""@]
}

/// The lines with these addresses, one for each group of ports.
pub open spec fn group_lines(
    addresses: Seq<Seq<char>>,
    groups: Seq<PortGroup>,
    v4: Option<bool>,
    ending: Seq<Seq<char>>,
) -> Seq<Seq<char>> {
    Seq::new(
        groups.len(),
        |i: int|
            joined(
                addresses + group_parts(groups[i].protocol, groups[i].ports@, v4) + ending,
                " "@,
            ),
    )
}

/// The lines with these addresses for what ports there are.
pub open spec fn port_lines(
    addresses: Seq<Seq<char>>,
    groups: Option<Seq<PortGroup>>,
    v4: Option<bool>,
    ending: Seq<Seq<char>>,
) -> Seq<Seq<char>> {
    match groups {
        Some(groups) => group_lines(addresses, groups, v4, ending),
        None => seq![
            joined(
                addresses + group_parts(FirewallProtocol::NonTcp, Seq::empty(), v4) + ending,
                " "@,
            ),
        ],
    }
}

/// The family that the addresses of a line have, where it has any.
pub open spec fn line_family(source: (bool, Seq<IpNet>), dest: (bool, Seq<IpNet>)) -> Option<bool> {
    if source.1.len() > 0 {
        Some(source.0)
    } else if dest.1.len() > 0 {
        Some(dest.0)
    } else {
        None
    }
}

/// The lines for sources of one family and destinations of one family; `n` sets
/// were declared before.
pub open spec fn pair_out(
    source: (bool, Seq<IpNet>),
    dest: (bool, Seq<IpNet>),
    groups: Option<Seq<PortGroup>>,
    ending: Seq<Seq<char>>,
    n: nat,
) -> Rendered {
    if source.1.len() > 0 && dest.1.len() > 0 && source.0 != dest.0 {
        nothing()
    } else {
        let source_sets = address_sets(source.1, source.0, n);
        let m = n + source_sets.len();
        Rendered {
            lines: port_lines(
                address_parts(source.1, "saddr"@, source.0, n) + address_parts(
                    dest.1,
                    "daddr"@,
                    dest.0,
                    m,
                ),
                groups,
                line_family(source, dest),
                ending,
            ),
            sets: source_sets + address_sets(dest.1, dest.0, m),
        }
    }
}

/// The lines for sources of one family and all destinations.
pub open spec fn dests_out(
    source: (bool, Seq<IpNet>),
    dests: Seq<(bool, Seq<IpNet>)>,
    groups: Option<Seq<PortGroup>>,
    ending: Seq<Seq<char>>,
    n: nat,
) -> Rendered
    decreases dests.len(),
{
    if dests.len() == 0 {
        nothing()
    } else {
        let before = dests_out(source, dests.drop_last(), groups, ending, n);
        before.then_comes(pair_out(source, dests.last(), groups, ending, n + before.sets.len()))
    }
}

/// The lines for all sources and all destinations.
pub open spec fn sources_out(
    sources: Seq<(bool, Seq<IpNet>)>,
    dests: Seq<(bool, Seq<IpNet>)>,
    groups: Option<Seq<PortGroup>>,
    ending: Seq<Seq<char>>,
    n: nat,
) -> Rendered
    decreases sources.len(),
{
    if sources.len() == 0 {
        nothing()
    } else {
        let before = sources_out(sources.drop_last(), dests, groups, ending, n);
        before.then_comes(dests_out(sources.last(), dests, groups, ending, n + before.sets.len()))
    }
}

/// The lines for the combinations, one after the other.
pub open spec fn flats_out(flats: Seq<NftFlat>, ending: Seq<Seq<char>>, n: nat) -> Rendered
    decreases flats.len(),
{
    if flats.len() == 0 {
        nothing()
    } else {
        let before = flats_out(flats.drop_last(), ending, n);
        let flat = flats.last();
        before.then_comes(
            sources_out(
                families(flat.sources),
                families(flat.dests),
                flat.groups,
                ending,
                n + before.sets.len(),
            ),
        )
    }
}

/// The lines for a rule; `n` sets were declared before.
pub open spec fn rule_out(rule: FirewallRule, stage: Stage, n: nat) -> Rendered {
    flats_out(flattened(rule.clauses@), ending(rule.name@, stage, rule.action), n)
}

/// The lines for the rules of one direction; `n` sets were declared before.
pub open spec fn rules_out(
    rules: Seq<FirewallRule>,
    direction: Direction,
    stage: Stage,
    n: nat,
) -> Rendered
    decreases rules.len(),
{
    if rules.len() == 0 {
        nothing()
    } else {
        let before = rules_out(rules.drop_last(), direction, stage, n);
        if rules.last().direction == direction {
            before.then_comes(rule_out(rules.last(), stage, n + before.sets.len()))
        } else {
            before
        }
    }
}

/// The networks of each family.
pub fn group_by_family(cidrs: &Vec<IpNet>) -> (r: (Vec<IpNet>, Vec<IpNet>))
    ensures
        r.0@ == of_family(cidrs@, true),
        r.1@ == of_family(cidrs@, false),
{
    let mut v4: Vec<IpNet> = Vec::new();
    let mut v6: Vec<IpNet> = Vec::new();
    let mut i: usize = 0;
    while i < cidrs.len()
        invariant
            i <= cidrs@.len(),
            v4@ == of_family(cidrs@.take(i as int), true),
            v6@ == of_family(cidrs@.take(i as int), false),
        decreases cidrs@.len() - i,
    {
        assert(cidrs@.take(i + 1).drop_last() =~= cidrs@.take(i as int));
        if cidrs[i].is_ipv6() {
            v6.push(cidrs[i]);
        } else {
            v4.push(cidrs[i]);
        }
        i = i + 1;
    }
    assert(cidrs@.take(i as int) =~= cidrs@);
    (v4, v6)
}

/// The groups, each as a plain value.
pub open spec fn family_views(v: Seq<(bool, Vec<IpNet>)>) -> Seq<(bool, Seq<IpNet>)> {
    v.map_values(|p: (bool, Vec<IpNet>)| (p.0, p.1@))
}

/// The networks by family.
fn family_groups(nets: Option<&Vec<IpNet>>) -> (r: Vec<(bool, Vec<IpNet>)>)
    ensures
        family_views(r@) == families(nets_of(nets)),
{
    let mut out: Vec<(bool, Vec<IpNet>)> = Vec::new();
    match nets {
        Some(nets) => {
            if nets.len() == 0 {
                let none: Vec<IpNet> = Vec::new();
                out.push((true, none));
            } else {
                let (v4, v6): (Vec<IpNet>, Vec<IpNet>) = group_by_family(nets);
                if v4.len() > 0 {
                    out.push((true, v4));
                }
                if v6.len() > 0 {
                    out.push((false, v6));
                }
            }
        },
        None => {
            let none: Vec<IpNet> = Vec::new();
            out.push((true, none));
        },
    }
    assert(family_views(out@) =~= families(nets_of(nets)));
    out
}

/// Each network in text.
fn net_strings(nets: &Vec<IpNet>) -> (r: Vec<String>)
    ensures
        views(r@) == net_texts(nets@),
{
    let mut out: Vec<String> = Vec::new();
    let mut i: usize = 0;
    while i < nets.len()
        invariant
            i <= nets@.len(),
            out@.len() == i,
            forall|k: int| 0 <= k < i ==> (#[trigger] out@[k])@ == nets@[k].shown(),
        decreases nets@.len() - i,
    {
        out.push(nets[i].text());
        i = i + 1;
    }
    assert(views(out@) =~= net_texts(nets@));
    out
}

/// Appends the match on addresses, if any, and declares its set where they are
/// many.
fn render_ip_match(
    parts: &mut Vec<String>,
    cidrs: &Vec<IpNet>,
    direction: &str,
    is_v4: bool,
    sets: &mut Vec<NamedSet>,
)
    ensures
        views(final(parts)@) == views(old(parts)@) + address_parts(
            cidrs@,
            direction@,
            is_v4,
            old(sets)@.len(),
        ),
        set_views(final(sets)@) == set_views(old(sets)@) + address_sets(
            cidrs@,
            is_v4,
            old(sets)@.len(),
        ),
{
    let ghost parts_before = views(parts@);
    let ghost sets_before = set_views(sets@);
    let ghost n = sets@.len();
    if cidrs.len() == 0 {
        assert(views(parts@) =~= parts_before + address_parts(cidrs@, direction@, is_v4, n));
        assert(set_views(sets@) =~= sets_before + address_sets(cidrs@, is_v4, n));
        return;
    }
    let mut part: String = if is_v4 {
        "ip".to_owned()
    } else {
        "ip6".to_owned()
    };
    part.append(" ");
    part.append(direction);
    part.append(" ");
    if cidrs.len() == 1 {
        part.append(cidrs[0].text().as_str());
    } else if cidrs.len() > NAMED_SET_THRESHOLD {
        let mut name: String = "zt_".to_owned();
        push_decimal(&mut name, sets.len() as u64);
        if is_v4 {
            name.append("_v4");
        } else {
            name.append("_v6");
        }
        part.append("@");
        part.append(name.as_str());
        let elements: Vec<String> = net_strings(cidrs);
        assert(name@ == set_name(n, is_v4));
        sets.push(NamedSet { name, is_v4, elements });
    } else {
        let texts: Vec<String> = net_strings(cidrs);
        part.append("{ ");
        part.append(join(&texts, ", ").as_str());
        part.append(" }");
    }
    parts.push(part);
    assert(views(parts@) =~= parts_before + address_parts(cidrs@, direction@, is_v4, n));
    assert(set_views(sets@) =~= sets_before + address_sets(cidrs@, is_v4, n));
}

/// A port range as nftables writes it.
fn range_string(range: &PortRange) -> (r: String)
    ensures
        r@ == range_text(*range),
{
    let mut out: String = decimal_text(range.start as u64);
    if range.start != range.end {
        out.append("-");
        push_decimal(&mut out, range.end as u64);
    }
    out
}

/// The match on ports.
pub fn format_nft_ports(proto_or_th: &str, ports: &Vec<PortRange>) -> (r: String)
    ensures
        r@ == ports_text(proto_or_th@, ports@),
{
    let mut out: String = proto_or_th.to_owned();
    if ports.len() == 1 {
        out.append(" dport ");
        out.append(range_string(&ports[0]).as_str());
        return out;
    }
    let mut texts: Vec<String> = Vec::new();
    let mut i: usize = 0;
    while i < ports.len()
        invariant
            i <= ports@.len(),
            texts@.len() == i,
            forall|k: int| 0 <= k < i ==> (#[trigger] texts@[k])@ == range_text(ports@[k]),
        decreases ports@.len() - i,
    {
        texts.push(range_string(&ports[i]));
        i = i + 1;
    }
    assert(views(texts@) =~= ports@.map_values(|r: PortRange| range_text(r)));
    out.append(" dport { ");
    out.append(join(&texts, ", ").as_str());
    out.append(" }");
    out
}

/// Appends the match on one group of ports.
pub fn render_port_group(
    parts: &mut Vec<String>,
    protocol: FirewallProtocol,
    ports: &Vec<PortRange>,
    effective_is_v4: Option<bool>,
)
    ensures
        views(final(parts)@) == views(old(parts)@) + group_parts(
            protocol,
            ports@,
            effective_is_v4,
        ),
{
    let ghost before = views(parts@);
    match protocol {
        FirewallProtocol::NonTcp => {
            if ports.len() == 0 {
                parts.push("meta l4proto != tcp".to_owned());
            } else {
                parts.push("meta l4proto { udp, sctp }".to_owned());
                parts.push(format_nft_ports("th", ports));
            }
        },
        FirewallProtocol::Udp => {
            if ports.len() == 0 {
                parts.push("meta l4proto udp".to_owned());
            } else {
                parts.push(format_nft_ports("udp", ports));
            }
        },
        FirewallProtocol::Sctp => {
            if ports.len() == 0 {
                parts.push("meta l4proto sctp".to_owned());
            } else {
                parts.push(format_nft_ports("sctp", ports));
            }
        },
        FirewallProtocol::Icmp => {
            parts.push(
                match effective_is_v4 {
                    Some(true) => "ip protocol icmp".to_owned(),
                    Some(false) => "meta l4proto ipv6-icmp".to_owned(),
                    None => "meta l4proto { icmp, ipv6-icmp }".to_owned(),
                },
            );
        },
    }
    assert(views(parts@) =~= before + group_parts(protocol, ports@, effective_is_v4));
}

/// A copy of the texts.
fn copy_texts(texts: &Vec<String>) -> (r: Vec<String>)
    ensures
        views(r@) == views(texts@),
{
    let mut out: Vec<String> = Vec::new();
    let mut i: usize = 0;
    while i < texts.len()
        invariant
            i <= texts@.len(),
            out@.len() == i,
            forall|k: int| 0 <= k < i ==> (#[trigger] out@[k])@ == texts@[k]@,
        decreases texts@.len() - i,
    {
        out.push(texts[i].clone());
        i = i + 1;
    }
    assert(views(out@) =~= views(texts@));
    out
}

/// The line with these addresses and one group of ports.
fn port_line(
    addresses: &Vec<String>,
    protocol: FirewallProtocol,
    ports: &Vec<PortRange>,
    v4: Option<bool>,
    verdict: &str,
    comment: &str,
) -> (r: String)
    ensures
        r@ == joined(
            views(addresses@) + group_parts(protocol, ports@, v4) + seq![verdict@, comment@],
            " "@,
        ),
{
    let mut parts: Vec<String> = copy_texts(addresses);
    render_port_group(&mut parts, protocol, ports, v4);
    let ghost before = views(parts@);
    parts.push(verdict.to_owned());
    parts.push(comment.to_owned());
    assert(views(parts@) =~= before + seq![verdict@, comment@]);
    join(&parts, " ")
}

/// The verdict of a rule.
fn verdict_word(stage: Stage, action: RuleAction) -> (r: String)
    ensures
        r@ == verdict_text(stage, action),
{
    match (stage, action) {
        (_, RuleAction::Deny) => "reject".to_owned(),
        (Stage::Workload, RuleAction::Allow) => "accept".to_owned(),
        (Stage::Inline, RuleAction::Allow) => "return".to_owned(),
    }
}

/// Appends the lines for sources of one family and destinations of one family.
fn push_pair(
    lines: &mut Vec<String>,
    sets: &mut Vec<NamedSet>,
    source: &(bool, Vec<IpNet>),
    dest: &(bool, Vec<IpNet>),
    groups: Option<&Vec<PortGroup>>,
    verdict: &str,
    comment: &str,
)
    ensures
        ({
            let out = pair_out(
                (source.0, source.1@),
                (dest.0, dest.1@),
                match groups {
                    Some(groups) => Some(groups@),
                    None => None,
                },
                seq![verdict@, comment@],
                old(sets)@.len(),
            );
            &&& views(final(lines)@) == views(old(lines)@) + out.lines
            &&& set_views(final(sets)@) == set_views(old(sets)@) + out.sets
        }),
{
    let ghost lines_before = views(lines@);
    let ghost sets_before = set_views(sets@);
    let ghost n = sets@.len();
    if source.1.len() > 0 && dest.1.len() > 0 && source.0 != dest.0 {
        assert(views(lines@) =~= lines_before + nothing().lines);
        assert(set_views(sets@) =~= sets_before + nothing().sets);
        return;
    }
    let v4: Option<bool> = if source.1.len() > 0 {
        Some(source.0)
    } else if dest.1.len() > 0 {
        Some(dest.0)
    } else {
        None
    };
    let mut addresses: Vec<String> = Vec::new();
    assert(views(addresses@) =~= Seq::<Seq<char>>::empty());
    render_ip_match(&mut addresses, &source.1, "saddr", source.0, sets);
    let ghost m = sets@.len();
    proof {
        assert(set_views(sets@).len() == m);
        assert(m == n + address_sets(source.1@, source.0, n).len());
    }
    render_ip_match(&mut addresses, &dest.1, "daddr", dest.0, sets);
    let ghost tail = seq![verdict@, comment@];
    let ghost all = views(addresses@);
    proof {
        assert(all =~= address_parts(source.1@, "saddr"@, source.0, n) + address_parts(
            dest.1@,
            "daddr"@,
            dest.0,
            m,
        ));
        assert(set_views(sets@) =~= sets_before + (address_sets(source.1@, source.0, n)
            + address_sets(dest.1@, dest.0, m)));
    }
    match groups {
        Some(groups) => {
            let ghost wanted = group_lines(all, groups@, v4, tail);
            let mut i: usize = 0;
            assert(views(lines@) =~= lines_before + wanted.take(0));
            while i < groups.len()
                invariant
                    i <= groups@.len(),
                    all == views(addresses@),
                    tail == seq![verdict@, comment@],
                    wanted == group_lines(all, groups@, v4, tail),
                    views(lines@) == lines_before + wanted.take(i as int),
                decreases groups@.len() - i,
            {
                let ghost earlier = lines@;
                let line: String = port_line(
                    &addresses,
                    groups[i].protocol,
                    &groups[i].ports,
                    v4,
                    verdict,
                    comment,
                );
                lines.push(line);
                proof {
                    assert(line@ == wanted[i as int]);
                    assert(wanted.take(i + 1) =~= wanted.take(i as int).push(wanted[i as int]));
                    assert(views(lines@) =~= views(earlier).push(line@));
                    assert(views(lines@) =~= lines_before + wanted.take(i + 1));
                }
                i = i + 1;
            }
            assert(wanted.take(i as int) =~= wanted);
        },
        None => {
            let none: Vec<PortRange> = Vec::new();
            assert(none@ =~= Seq::<PortRange>::empty());
            let line: String = port_line(
                &addresses,
                FirewallProtocol::NonTcp,
                &none,
                v4,
                verdict,
                comment,
            );
            lines.push(line);
            assert(views(lines@) =~= lines_before + port_lines(all, None, v4, tail));
        },
    }
}

/// How rule sets are rendered and loaded with the nftables tool.
pub struct NftBackend {
    netns_path: Option<String>,
    proxy_mark: Option<u32>,
    workload_name: Option<String>,
    workload_namespace: Option<String>,
}

/// What an nftables backend is set up with.
pub struct NftConfig {
    pub netns_path: Option<Seq<char>>,
    pub proxy_mark: Option<u32>,
    pub workload_name: Option<Seq<char>>,
    pub workload_namespace: Option<Seq<char>>,
}

impl View for NftBackend {
    type V = NftConfig;

    closed spec fn view(&self) -> NftConfig {
        NftConfig {
            netns_path: opt_view(self.netns_path),
            proxy_mark: self.proxy_mark,
            workload_name: opt_view(self.workload_name),
            workload_namespace: opt_view(self.workload_namespace),
        }
    }
}

/// A backend in this network namespace.
pub open spec fn default_config() -> NftConfig {
    NftConfig { netns_path: None, proxy_mark: None, workload_name: None, workload_namespace: None }
}

impl Default for NftBackend {
    fn default() -> (r: Self)
        ensures
            r@ == default_config(),
    {
        NftBackend {
            netns_path: None,
            proxy_mark: None,
            workload_name: None,
            workload_namespace: None,
        }
    }
}

impl NftBackend {
    /// A backend in this network namespace.
    pub fn new() -> (r: Self)
        ensures
            r@ == default_config(),
    {
        Self::default()
    }

    /// The backend in a network namespace.
    pub fn in_netns(self, netns_path: String) -> (r: Self)
        ensures
            r@ == (NftConfig { netns_path: Some(netns_path@), ..self@ }),
    {
        let mut out: Self = self;
        out.netns_path = Some(netns_path);
        out
    }

    /// The backend that lets packets with the proxy's mark pass.
    pub fn skip_mark(self, proxy_mark: u32) -> (r: Self)
        ensures
            r@ == (NftConfig { proxy_mark: Some(proxy_mark), ..self@ }),
    {
        let mut out: Self = self;
        out.proxy_mark = Some(proxy_mark);
        out
    }

    /// The backend of a workload.
    pub fn with_workload_info(self, name: String, namespace: String) -> (r: Self)
        ensures
            r@ == (NftConfig {
                workload_name: Some(name@),
                workload_namespace: Some(namespace@),
                ..self@
            }),
    {
        let mut out: Self = self;
        out.workload_name = Some(name);
        out.workload_namespace = Some(namespace);
        out
    }

    /// The words of the command that runs a program in the backend's network
    /// namespace.
    pub fn make_cmd(&self, program: &str) -> (r: Vec<String>)
        ensures
            views(r@) == nsenter_words(self@.netns_path, program@),
    {
        make_nsenter_cmd(&self.netns_path, program)
    }

    /// The workload as `namespace/name`.
    pub fn workload_label(&self) -> (r: String)
        ensures
            r@ == workload_text(self@.workload_name, self@.workload_namespace),
    {
        format_workload_label(&self.workload_name, &self.workload_namespace)
    }

    /// What a combination becomes when a match must hold too.
    fn refined<'a>(existing: &NftFlatMatch<'a>, m: &'a FirewallMatch) -> (r: NftFlatMatch<'a>)
        ensures
            r@ == refine(existing@, *m),
    {
        NftFlatMatch {
            source_ips: if m.source_ips.len() == 0 {
                existing.source_ips
            } else {
                Some(&m.source_ips)
            },
            dest_ips: if m.dest_ips.len() == 0 {
                existing.dest_ips
            } else {
                Some(&m.dest_ips)
            },
            port_groups: if m.is_any_port() {
                existing.port_groups
            } else {
                Some(&m.port_groups)
            },
        }
    }

    /// What the combinations become when a clause must hold too.
    fn refine_by<'a>(existing: &Vec<NftFlatMatch<'a>>, clause: &'a Vec<FirewallMatch>) -> (r: Vec<
        NftFlatMatch<'a>,
    >)
        ensures
            flats(r@) == refine_all(flats(existing@), clause@),
    {
        let mut out: Vec<NftFlatMatch<'a>> = Vec::new();
        let ghost fl = flats(existing@);
        let mut i: usize = 0;
        assert(flats(out@) =~= refine_all(fl.take(0), clause@));
        while i < existing.len()
            invariant
                i <= existing@.len(),
                fl == flats(existing@),
                flats(out@) == refine_all(fl.take(i as int), clause@),
            decreases existing@.len() - i,
        {
            let ghost before = flats(out@);
            let ghost wanted = refine_by_clause(fl[i as int], clause@);
            let mut j: usize = 0;
            assert(flats(out@) =~= before + wanted.take(0));
            while j < clause.len()
                invariant
                    i < existing@.len(),
                    j <= clause@.len(),
                    fl == flats(existing@),
                    wanted == refine_by_clause(fl[i as int], clause@),
                    flats(out@) == before + wanted.take(j as int),
                decreases clause@.len() - j,
            {
                let ghost earlier = out@;
                let flat: NftFlatMatch<'a> = Self::refined(&existing[i], &clause[j]);
                out.push(flat);
                proof {
                    assert(flat@ == wanted[j as int]);
                    assert(wanted.take(j + 1) =~= wanted.take(j as int).push(wanted[j as int]));
                    assert(flats(out@) =~= flats(earlier).push(flat@));
                    assert(flats(out@) =~= before + wanted.take(j + 1));
                }
                j = j + 1;
            }
            proof {
                assert(wanted.take(j as int) =~= wanted);
                assert(fl.take(i + 1).drop_last() =~= fl.take(i as int));
            }
            i = i + 1;
        }
        assert(fl.take(i as int) =~= fl);
        out
    }

    /// Expands clauses, all of which must hold, and their alternatives into
    /// combinations; networks stay together, to become sets. Where two clauses
    /// speak of the same dimension, the later one replaces what the earlier one
    /// says.
    pub fn flatten_clauses<'a>(clauses: &'a Vec<Vec<FirewallMatch>>) -> (r: Vec<NftFlatMatch<'a>>)
        ensures
            flats(r@) == flattened(clauses@),
    {
        let mut combinations: Vec<NftFlatMatch<'a>> = Vec::new();
        combinations.push(NftFlatMatch { source_ips: None, dest_ips: None, port_groups: None });
        let mut i: usize = 0;
        assert(flats(combinations@) =~= flattened(clauses@.take(0)));
        while i < clauses.len()
            invariant
                i <= clauses@.len(),
                flats(combinations@) == flattened(clauses@.take(i as int)),
            decreases clauses@.len() - i,
        {
            assert(clauses@.take(i + 1).drop_last() =~= clauses@.take(i as int));
            combinations = Self::refine_by(&combinations, &clauses[i]);
            i = i + 1;
        }
        assert(clauses@.take(i as int) =~= clauses@);
        combinations
    }

    /// Appends the lines for one combination.
    fn push_flat(
        lines: &mut Vec<String>,
        sets: &mut Vec<NamedSet>,
        flat: &NftFlatMatch,
        verdict: &str,
        comment: &str,
    )
        ensures
            ({
                let out = sources_out(
                    families(flat@.sources),
                    families(flat@.dests),
                    flat@.groups,
                    seq![verdict@, comment@],
                    old(sets)@.len(),
                );
                &&& views(final(lines)@) == views(old(lines)@) + out.lines
                &&& set_views(final(sets)@) == set_views(old(sets)@) + out.sets
            }),
    {
        let ghost lines_before = views(lines@);
        let ghost sets_before = set_views(sets@);
        let ghost n = sets@.len();
        let ghost end = seq![verdict@, comment@];
        let sources: Vec<(bool, Vec<IpNet>)> = family_groups(flat.source_ips);
        let dests: Vec<(bool, Vec<IpNet>)> = family_groups(flat.dest_ips);
        let ghost ss = family_views(sources@);
        let ghost ds = family_views(dests@);
        let mut i: usize = 0;
        proof {
            let start = sources_out(ss.take(0), ds, flat@.groups, end, n);
            assert(views(lines@) =~= lines_before + start.lines);
            assert(set_views(sets@) =~= sets_before + start.sets);
        }
        while i < sources.len()
            invariant
                i <= sources@.len(),
                ss == family_views(sources@),
                ds == family_views(dests@),
                end == seq![verdict@, comment@],
                n == sets_before.len(),
                views(lines@) == lines_before + sources_out(
                    ss.take(i as int),
                    ds,
                    flat@.groups,
                    end,
                    n,
                ).lines,
                set_views(sets@) == sets_before + sources_out(
                    ss.take(i as int),
                    ds,
                    flat@.groups,
                    end,
                    n,
                ).sets,
            decreases sources@.len() - i,
        {
            let ghost so_far = sources_out(ss.take(i as int), ds, flat@.groups, end, n);
            let ghost lines_mid = views(lines@);
            let ghost sets_mid = set_views(sets@);
            let ghost m = n + so_far.sets.len();
            let mut j: usize = 0;
            proof {
                let start = dests_out(ss[i as int], ds.take(0), flat@.groups, end, m);
                assert(views(lines@) =~= lines_mid + start.lines);
                assert(set_views(sets@) =~= sets_mid + start.sets);
            }
            while j < dests.len()
                invariant
                    i < sources@.len(),
                    j <= dests@.len(),
                    ss == family_views(sources@),
                    ds == family_views(dests@),
                    end == seq![verdict@, comment@],
                    m == sets_mid.len(),
                    views(lines@) == lines_mid + dests_out(
                        ss[i as int],
                        ds.take(j as int),
                        flat@.groups,
                        end,
                        m,
                    ).lines,
                    set_views(sets@) == sets_mid + dests_out(
                        ss[i as int],
                        ds.take(j as int),
                        flat@.groups,
                        end,
                        m,
                    ).sets,
                decreases dests@.len() - j,
            {
                proof {
                    assert(set_views(sets@).len() == sets@.len());
                    assert(ds.take(j + 1).drop_last() =~= ds.take(j as int));
                    assert(ds.take(j + 1).last() == ds[j as int]);
                }
                push_pair(lines, sets, &sources[i], &dests[j], flat.port_groups, verdict, comment);
                proof {
                    let next = dests_out(ss[i as int], ds.take(j + 1), flat@.groups, end, m);
                    assert(views(lines@) =~= lines_mid + next.lines);
                    assert(set_views(sets@) =~= sets_mid + next.sets);
                }
                j = j + 1;
            }
            proof {
                assert(ds.take(j as int) =~= ds);
                assert(ss.take(i + 1).drop_last() =~= ss.take(i as int));
                assert(ss.take(i + 1).last() == ss[i as int]);
                let next = sources_out(ss.take(i + 1), ds, flat@.groups, end, n);
                assert(views(lines@) =~= lines_before + next.lines);
                assert(set_views(sets@) =~= sets_before + next.sets);
            }
            i = i + 1;
        }
        assert(ss.take(i as int) =~= ss);
    }

    /// The lines for a rule of a stage; sets that they use are declared.
    pub fn render_stage_rule(rule: &FirewallRule, stage: Stage, sets: &mut Vec<NamedSet>) -> (r: Vec<
        String,
    >)
        ensures
            views(r@) == rule_out(*rule, stage, old(sets)@.len()).lines,
            set_views(final(sets)@) == set_views(old(sets)@) + rule_out(
                *rule,
                stage,
                old(sets)@.len(),
            ).sets,
    {
        let verdict: String = verdict_word(stage, rule.action);
        let mut comment: String = "comment \"".to_owned();
        comment.append(escape_comment(rule.name.as_str()).as_str());
        comment.append("\"");
        let ghost end = ending(rule.name@, stage, rule.action);
        assert(end =~= seq![verdict@, comment@]);
        let combinations: Vec<NftFlatMatch> = Self::flatten_clauses(&rule.clauses);
        let ghost fl = flats(combinations@);
        let ghost sets_before = set_views(sets@);
        let ghost n = sets@.len();
        let mut lines: Vec<String> = Vec::new();
        let mut i: usize = 0;
        proof {
            assert(views(lines@) =~= flats_out(fl.take(0), end, n).lines);
            assert(set_views(sets@) =~= sets_before + flats_out(fl.take(0), end, n).sets);
        }
        while i < combinations.len()
            invariant
                i <= combinations@.len(),
                fl == flats(combinations@),
                end == seq![verdict@, comment@],
                n == sets_before.len(),
                views(lines@) == flats_out(fl.take(i as int), end, n).lines,
                set_views(sets@) == sets_before + flats_out(fl.take(i as int), end, n).sets,
            decreases combinations@.len() - i,
        {
            proof {
                assert(set_views(sets@).len() == sets@.len());
                assert(fl.take(i + 1).drop_last() =~= fl.take(i as int));
                assert(fl.take(i + 1).last() == combinations@[i as int]@);
            }
            Self::push_flat(
                &mut lines,
                sets,
                &combinations[i],
                verdict.as_str(),
                comment.as_str(),
            );
            proof {
                let next = flats_out(fl.take(i + 1), end, n);
                assert(views(lines@) =~= next.lines);
                assert(set_views(sets@) =~= sets_before + next.sets);
            }
            i = i + 1;
        }
        assert(fl.take(i as int) =~= fl);
        lines
    }

    /// The lines for a rule of the workload's policies; sets that they use are
    /// declared.
    pub fn render_rule(rule: &FirewallRule, sets: &mut Vec<NamedSet>) -> (r: Vec<String>)
        ensures
            views(r@) == rule_out(*rule, Stage::Workload, old(sets)@.len()).lines,
            set_views(final(sets)@) == set_views(old(sets)@) + rule_out(
                *rule,
                Stage::Workload,
                old(sets)@.len(),
            ).sets,
    {
        Self::render_stage_rule(rule, Stage::Workload, sets)
    }

    /// The lines for the rules of one direction, in order of evaluation; sets that
    /// they use are declared.
    fn direction_lines(
        rules: &Vec<FirewallRule>,
        direction: Direction,
        stage: Stage,
        sets: &mut Vec<NamedSet>,
    ) -> (r: Vec<String>)
        ensures
            views(r@) == rules_out(ordered(rules@), direction, stage, old(sets)@.len()).lines,
            set_views(final(sets)@) == set_views(old(sets)@) + rules_out(
                ordered(rules@),
                direction,
                stage,
                old(sets)@.len(),
            ).sets,
    {
        let order: Vec<usize> = rule_order(rules);
        let ghost sorted = ordered(rules@);
        let ghost sets_before = set_views(sets@);
        let ghost n = sets@.len();
        let mut lines: Vec<String> = Vec::new();
        let mut i: usize = 0;
        proof {
            assert(views(lines@) =~= rules_out(sorted.take(0), direction, stage, n).lines);
            assert(set_views(sets@) =~= sets_before + rules_out(
                sorted.take(0),
                direction,
                stage,
                n,
            ).sets);
        }
        while i < order.len()
            invariant
                i <= order@.len(),
                sorted == super::super::order::at(rules@, order@),
                forall|k: int| 0 <= k < order@.len() ==> #[trigger] order@[k] < rules@.len(),
                n == sets_before.len(),
                views(lines@) == rules_out(sorted.take(i as int), direction, stage, n).lines,
                set_views(sets@) == sets_before + rules_out(
                    sorted.take(i as int),
                    direction,
                    stage,
                    n,
                ).sets,
            decreases order@.len() - i,
        {
            let rule: &FirewallRule = &rules[order[i]];
            proof {
                assert(set_views(sets@).len() == sets@.len());
                assert(sorted.take(i + 1).drop_last() =~= sorted.take(i as int));
                assert(sorted.take(i + 1).last() == *rule);
            }
            if rule.direction == direction {
                let ghost mid = lines@;
                let mut more: Vec<String> = Self::render_stage_rule(rule, stage, sets);
                let ghost fresh = more@;
                lines.append(&mut more);
                proof {
                    assert(views(lines@) =~= views(mid) + views(fresh));
                    let next = rules_out(sorted.take(i + 1), direction, stage, n);
                    assert(views(lines@) =~= next.lines);
                    assert(set_views(sets@) =~= sets_before + next.sets);
                }
            }
            i = i + 1;
        }
        assert(sorted.take(i as int) =~= sorted);
        lines
    }
}

/// The lines, each with its end.
pub open spec fn script(lines: Seq<Seq<char>>) -> Seq<char>
    decreases lines.len(),
{
    if lines.len() == 0 {
        Seq::empty()
    } else {
        script(lines.drop_last()) + lines.last() + "\n"@
    }
}

/// The declaration of a set.
pub open spec fn set_lines(set: SetModel) -> Seq<Seq<char>> {
    seq![
        "  set "@ + set.name + " {"@,
        if set.is_v4 {
            "    type ipv4_addr"@
        } else {
            "    type ipv6_addr"@
        },
        "    flags interval"@,
        "    elements = { "@ + joined(set.elements, ", "@) + " }"@,
        "  }"@,
    ]
}

/// The declarations of the sets.
pub open spec fn sets_lines(sets: Seq<SetModel>) -> Seq<Seq<char>>
    decreases sets.len(),
{
    if sets.len() == 0 {
        Seq::empty()
    } else {
        sets_lines(sets.drop_last()) + set_lines(sets.last())
    }
}

/// The lines, each indented as the content of a chain.
pub open spec fn indented(lines: Seq<Seq<char>>) -> Seq<Seq<char>> {
    lines.map_values(|l: Seq<char>| "    "@ + l)
}

/// The chains of the inline stage, where there is one.
pub open spec fn inline_chains(inline: bool, input: Seq<Seq<char>>, output: Seq<Seq<char>>) -> Seq<
    Seq<char>,
> {
    if inline {
        seq!["  chain zt_inline_input {"@] + indented(input) + seq![
            "  }"@,
            "  chain zt_inline_output {"@,
        ] + indented(output) + seq!["  }"@]
    } else {
        Seq::empty()
    }
}

/// A detour, where there is an inline stage.
pub open spec fn detour(inline: bool, line: Seq<char>) -> Seq<Seq<char>> {
    if inline {
        seq![line]
    } else {
        Seq::empty()
    }
}

/// The refusal of all that no rule matches.
pub open spec fn default_deny(attached: bool) -> Seq<Seq<char>> {
    if attached {
        seq!["    meta l4proto != tcp reject"@]
    } else {
        Seq::empty()
    }
}

/// The proxy's own traffic passes: it bears the mark or, without one, belongs to
/// the proxy's user and group.
pub open spec fn bypass_lines(proxy_mark: Option<u32>) -> Seq<Seq<char>> {
    match proxy_mark {
        Some(mark) => seq!["    meta mark "@ + decimal(mark as nat) + " return"@],
        None => seq!["    meta skuid 1337 return"@, "    meta skgid 1337 return"@],
    }
}

/// The rules of both stages and directions, in the order in which their sets are
/// numbered.
pub struct Chains {
    pub inline_input: Rendered,
    pub inline_output: Rendered,
    pub input: Rendered,
    pub output: Rendered,
}

/// The rules of both stages and directions.
pub open spec fn chains_of(ruleset: RuleSet) -> Chains {
    let inline = ordered(ruleset.inline_rules@);
    let rules = ordered(ruleset.rules@);
    let inline_input = rules_out(inline, Direction::Inbound, Stage::Inline, 0);
    let n = inline_input.sets.len();
    let inline_output = rules_out(inline, Direction::Outbound, Stage::Inline, n);
    let m = n + inline_output.sets.len();
    let input = rules_out(rules, Direction::Inbound, Stage::Workload, m);
    let k = m + input.sets.len();
    let output = rules_out(rules, Direction::Outbound, Stage::Workload, k);
    Chains { inline_input, inline_output, input, output }
}

/// The lines of the script for a rule set.
pub open spec fn ruleset_lines(config: NftConfig, ruleset: RuleSet) -> Seq<Seq<char>> {
    let chains = chains_of(ruleset);
    let inline = ruleset.inline_rules@.len() > 0;
    seq![
        "add table inet ztunnel"@,
        "delete table inet ztunnel"@,
        "table inet ztunnel {"@,
    ] + sets_lines(
        chains.inline_input.sets + chains.inline_output.sets + chains.input.sets
            + chains.output.sets,
    ) + inline_chains(inline, chains.inline_input.lines, chains.inline_output.lines) + seq![
        "  chain zt_policy_input {"@,
        "    type filter hook input priority -150; policy accept;"@,
        "    ct state established,related accept"@,
        "    iif lo accept"@,
    ] + detour(inline, "    meta l4proto != tcp jump zt_inline_input"@) + indented(
        chains.input.lines,
    ) + default_deny(ruleset.policy_attached) + seq![
        "  }"@,
        "  chain zt_policy_output {"@,
        "    type filter hook output priority -150; policy accept;"@,
        "    ct state established,related accept"@,
        "    oif lo accept"@,
    ] + bypass_lines(config.proxy_mark) + detour(
        inline,
        "    meta l4proto != tcp jump zt_inline_output"@,
    ) + indented(chains.output.lines) + default_deny(ruleset.policy_attached) + seq!["  }"@, "}"@]
}

/// Appends a line.
fn push_line(lines: &mut Vec<String>, line: &str)
    ensures
        views(final(lines)@) == views(old(lines)@) + seq![line@],
{
    let ghost before = views(lines@);
    lines.push(line.to_owned());
    assert(views(lines@) =~= before + seq![line@]);
}

/// Appends the lines, each indented as the content of a chain.
fn push_indented(lines: &mut Vec<String>, more: &Vec<String>)
    ensures
        views(final(lines)@) == views(old(lines)@) + indented(views(more@)),
{
    let ghost before = views(lines@);
    let ghost wanted = indented(views(more@));
    let mut i: usize = 0;
    assert(views(lines@) =~= before + wanted.take(0));
    while i < more.len()
        invariant
            i <= more@.len(),
            wanted == indented(views(more@)),
            views(lines@) == before + wanted.take(i as int),
        decreases more@.len() - i,
    {
        let mut line: String = "    ".to_owned();
        line.append(more[i].as_str());
        push_line(lines, line.as_str());
        proof {
            assert(line@ == wanted[i as int]);
            assert(wanted.take(i + 1) =~= wanted.take(i as int) + seq![wanted[i as int]]);
            assert(views(lines@) =~= before + wanted.take(i + 1));
        }
        i = i + 1;
    }
    assert(wanted.take(i as int) =~= wanted);
}

/// Appends the declarations of the sets.
fn push_sets(lines: &mut Vec<String>, sets: &Vec<NamedSet>)
    ensures
        views(final(lines)@) == views(old(lines)@) + sets_lines(set_views(sets@)),
{
    let ghost before = views(lines@);
    let ghost all = set_views(sets@);
    let mut i: usize = 0;
    assert(views(lines@) =~= before + sets_lines(all.take(0)));
    while i < sets.len()
        invariant
            i <= sets@.len(),
            all == set_views(sets@),
            views(lines@) == before + sets_lines(all.take(i as int)),
        decreases sets@.len() - i,
    {
        let set: &NamedSet = &sets[i];
        let ghost mid = views(lines@);
        let mut head: String = "  set ".to_owned();
        head.append(set.name.as_str());
        head.append(" {");
        push_line(lines, head.as_str());
        if set.is_v4 {
            push_line(lines, "    type ipv4_addr");
        } else {
            push_line(lines, "    type ipv6_addr");
        }
        push_line(lines, "    flags interval");
        let mut elements: String = "    elements = { ".to_owned();
        elements.append(join(&set.elements, ", ").as_str());
        elements.append(" }");
        push_line(lines, elements.as_str());
        push_line(lines, "  }");
        proof {
            assert(all.take(i + 1).drop_last() =~= all.take(i as int));
            assert(all.take(i + 1).last() == set@);
            assert(views(lines@) =~= mid + set_lines(set@));
            assert(views(lines@) =~= before + sets_lines(all.take(i + 1)));
        }
        i = i + 1;
    }
    assert(all.take(i as int) =~= all);
}

/// The lines, each with its end.
fn script_of(lines: &Vec<String>) -> (r: String)
    ensures
        r@ == script(views(lines@)),
{
    let mut out: String = String::new();
    let ghost all = views(lines@);
    let mut i: usize = 0;
    assert(out@ =~= script(all.take(0)));
    while i < lines.len()
        invariant
            i <= lines@.len(),
            all == views(lines@),
            out@ == script(all.take(i as int)),
        decreases lines@.len() - i,
    {
        assert(all.take(i + 1).drop_last() =~= all.take(i as int));
        out.append(lines[i].as_str());
        out.append("\n");
        i = i + 1;
    }
    assert(all.take(i as int) =~= all);
    out
}

impl NftBackend {
    /// Appends the chains of the inline stage.
    fn push_inline_chains(lines: &mut Vec<String>, input: &Vec<String>, output: &Vec<String>)
        ensures
            views(final(lines)@) == views(old(lines)@) + inline_chains(
                true,
                views(input@),
                views(output@),
            ),
    {
        let ghost before = views(lines@);
        push_line(lines, "  chain zt_inline_input {");
        push_indented(lines, input);
        push_line(lines, "  }");
        push_line(lines, "  chain zt_inline_output {");
        push_indented(lines, output);
        push_line(lines, "  }");
        assert(views(lines@) =~= before + inline_chains(true, views(input@), views(output@)));
    }

    /// Renders a rule set as a script for `nft -f`.
    pub fn render_ruleset(&self, ruleset: &RuleSet) -> (r: String)
        ensures
            r@ == script(ruleset_lines(self@, *ruleset)),
    {
        let inline: bool = ruleset.inline_rules.len() > 0;
        let ghost chains = chains_of(*ruleset);
        let mut sets: Vec<NamedSet> = Vec::new();
        assert(set_views(sets@) =~= Seq::<SetModel>::empty());
        let inline_input: Vec<String> = Self::direction_lines(
            &ruleset.inline_rules,
            Direction::Inbound,
            Stage::Inline,
            &mut sets,
        );
        assert(set_views(sets@) =~= chains.inline_input.sets);
        assert(set_views(sets@).len() == sets@.len());
        let inline_output: Vec<String> = Self::direction_lines(
            &ruleset.inline_rules,
            Direction::Outbound,
            Stage::Inline,
            &mut sets,
        );
        assert(set_views(sets@).len() == sets@.len());
        let input: Vec<String> = Self::direction_lines(
            &ruleset.rules,
            Direction::Inbound,
            Stage::Workload,
            &mut sets,
        );
        assert(set_views(sets@).len() == sets@.len());
        let output: Vec<String> = Self::direction_lines(
            &ruleset.rules,
            Direction::Outbound,
            Stage::Workload,
            &mut sets,
        );
        assert(set_views(sets@) == chains.inline_input.sets + chains.inline_output.sets
            + chains.input.sets + chains.output.sets);

        let mut lines: Vec<String> = Vec::new();
        push_line(&mut lines, "add table inet ztunnel");
        push_line(&mut lines, "delete table inet ztunnel");
        push_line(&mut lines, "table inet ztunnel {");
        assert(views(lines@) =~= seq![
            "add table inet ztunnel"@,
            "delete table inet ztunnel"@,
            "table inet ztunnel {"@,
        ]);
        push_sets(&mut lines, &sets);
        let ghost before = views(lines@);
        if inline {
            Self::push_inline_chains(&mut lines, &inline_input, &inline_output);
        }
        assert(views(lines@) =~= before + inline_chains(
            inline,
            chains.inline_input.lines,
            chains.inline_output.lines,
        ));
        self.push_policy_chains(&mut lines, &input, &output, inline, ruleset.policy_attached);
        assert(views(lines@) =~= ruleset_lines(self@, *ruleset));
        script_of(&lines)
    }

    /// Appends the chains of the workload's policies and the end of the table.
    fn push_policy_chains(
        &self,
        lines: &mut Vec<String>,
        input: &Vec<String>,
        output: &Vec<String>,
        inline: bool,
        attached: bool,
    )
        ensures
            views(final(lines)@) == views(old(lines)@) + seq![
                "  chain zt_policy_input {"@,
                "    type filter hook input priority -150; policy accept;"@,
                "    ct state established,related accept"@,
                "    iif lo accept"@,
            ] + detour(inline, "    meta l4proto != tcp jump zt_inline_input"@) + indented(
                views(input@),
            ) + default_deny(attached) + seq![
                "  }"@,
                "  chain zt_policy_output {"@,
                "    type filter hook output priority -150; policy accept;"@,
                "    ct state established,related accept"@,
                "    oif lo accept"@,
            ] + bypass_lines(self@.proxy_mark) + detour(
                inline,
                "    meta l4proto != tcp jump zt_inline_output"@,
            ) + indented(views(output@)) + default_deny(attached) + seq!["  }"@, "}"@],
    {
        let ghost before = views(lines@);
        push_line(lines, "  chain zt_policy_input {");
        push_line(lines, "    type filter hook input priority -150; policy accept;");
        push_line(lines, "    ct state established,related accept");
        push_line(lines, "    iif lo accept");
        let ghost head = seq![
            "  chain zt_policy_input {"@,
            "    type filter hook input priority -150; policy accept;"@,
            "    ct state established,related accept"@,
            "    iif lo accept"@,
        ];
        assert(views(lines@) =~= before + head);
        let ghost before = views(lines@);
        if inline {
            push_line(lines, "    meta l4proto != tcp jump zt_inline_input");
        }
        assert(views(lines@) =~= before + detour(
            inline,
            "    meta l4proto != tcp jump zt_inline_input"@,
        ));
        push_indented(lines, input);
        let ghost before = views(lines@);
        if attached {
            push_line(lines, "    meta l4proto != tcp reject");
        }
        assert(views(lines@) =~= before + default_deny(attached));
        let ghost before = views(lines@);
        push_line(lines, "  }");
        push_line(lines, "  chain zt_policy_output {");
        push_line(lines, "    type filter hook output priority -150; policy accept;");
        push_line(lines, "    ct state established,related accept");
        push_line(lines, "    oif lo accept");
        assert(views(lines@) =~= before + seq![
            "  }"@,
            "  chain zt_policy_output {"@,
            "    type filter hook output priority -150; policy accept;"@,
            "    ct state established,related accept"@,
            "    oif lo accept"@,
        ]);
        let ghost before = views(lines@);
        match self.proxy_mark {
            Some(mark) => {
                let mut line: String = "    meta mark ".to_owned();
                push_decimal(&mut line, mark as u64);
                line.append(" return");
                push_line(lines, line.as_str());
            },
            None => {
                push_line(lines, "    meta skuid 1337 return");
                push_line(lines, "    meta skgid 1337 return");
            },
        }
        assert(views(lines@) =~= before + bypass_lines(self@.proxy_mark));
        let ghost before = views(lines@);
        if inline {
            push_line(lines, "    meta l4proto != tcp jump zt_inline_output");
        }
        assert(views(lines@) =~= before + detour(
            inline,
            "    meta l4proto != tcp jump zt_inline_output"@,
        ));
        push_indented(lines, output);
        let ghost before = views(lines@);
        if attached {
            push_line(lines, "    meta l4proto != tcp reject");
        }
        assert(views(lines@) =~= before + default_deny(attached));
        let ghost before = views(lines@);
        push_line(lines, "  }");
        push_line(lines, "}");
        assert(views(lines@) =~= before + seq!["  }"@, "}"@]);
    }
}

/// Whether a packet, which is not TCP, is one that the combination stands for.
pub open spec fn flat_passes(flat: NftFlat, packet: Packet) -> bool {
    &&& address_passes(flat.sources, packet.source)
    &&& address_passes(flat.dests, packet.dest)
    &&& packet.protocol !is Tcp
    &&& flat.groups matches Some(groups) ==> groups_pass(groups, packet)
}

/// Whether one of the combinations stands for the packet.
pub open spec fn any_passes(flats: Seq<NftFlat>, packet: Packet) -> bool {
    exists|i: int| 0 <= i < flats.len() && flat_passes(#[trigger] flats[i], packet)
}

/// The match speaks of no dimension that the combination already fixes.
spec fn adds_to(m: FirewallMatch, existing: NftFlat) -> bool {
    &&& m.source_ips@.len() > 0 ==> existing.sources.len() == 0
    &&& m.dest_ips@.len() > 0 ==> existing.dests.len() == 0
    &&& !m.any_port() ==> existing.groups.is_none()
}

proof fn lemma_refine(existing: NftFlat, m: FirewallMatch, packet: Packet)
    requires
        adds_to(m, existing),
    ensures
        flat_passes(refine(existing, m), packet) == (flat_passes(existing, packet) && m.passes(
            packet,
        )),
{
    if m.any_port() && packet.protocol !is Tcp {
        if m.port_groups@.len() == 1 {
            assert(m.port_groups@[0].protocol.passes(m.port_groups@[0].ports@, packet));
        }
        assert(groups_pass(m.port_groups@, packet));
    }
}

proof fn lemma_refine_all(existing: Seq<NftFlat>, clause: Seq<FirewallMatch>, packet: Packet)
    requires
        forall|i: int, k: int|
            0 <= i < clause.len() && 0 <= k < existing.len() ==> adds_to(
                #[trigger] clause[i],
                #[trigger] existing[k],
            ),
    ensures
        any_passes(refine_all(existing, clause), packet) == (any_passes(existing, packet)
            && clause_passes(clause, packet)),
    decreases existing.len(),
{
    if existing.len() > 0 {
        let short = existing.drop_last();
        let last = existing.last();
        assert(existing[existing.len() - 1] == last);
        assert forall|i: int, k: int|
            0 <= i < clause.len() && 0 <= k < short.len() implies adds_to(
            #[trigger] clause[i],
            #[trigger] short[k],
        ) by {
            assert(existing[k] == short[k]);
        }
        lemma_refine_all(short, clause, packet);
        let first = refine_all(short, clause);
        let second = refine_by_clause(last, clause);
        let all = first + second;
        assert forall|i: int| 0 <= i < clause.len() implies flat_passes(
            #[trigger] second[i],
            packet,
        ) == (flat_passes(last, packet) && clause[i].passes(packet)) by {
            lemma_refine(last, clause[i], packet);
        }
        if any_passes(all, packet) {
            let i = choose|i: int| 0 <= i < all.len() && flat_passes(#[trigger] all[i], packet);
            if i < first.len() {
                assert(flat_passes(first[i], packet));
                let k = choose|k: int|
                    0 <= k < short.len() && flat_passes(#[trigger] short[k], packet);
                assert(flat_passes(existing[k], packet));
            } else {
                assert(flat_passes(second[i - first.len()], packet));
                assert(flat_passes(existing[existing.len() - 1], packet));
                assert(clause[i - first.len()].passes(packet));
            }
        }
        if any_passes(existing, packet) && clause_passes(clause, packet) {
            let k = choose|k: int|
                0 <= k < existing.len() && flat_passes(#[trigger] existing[k], packet);
            if k < short.len() {
                assert(flat_passes(short[k], packet));
                let i = choose|i: int|
                    0 <= i < first.len() && flat_passes(#[trigger] first[i], packet);
                assert(flat_passes(all[i], packet));
            } else {
                let i = choose|i: int| 0 <= i < clause.len() && #[trigger] clause[i].passes(packet);
                assert(flat_passes(second[i], packet));
                assert(flat_passes(all[first.len() + i], packet));
            }
        }
    }
}

/// The combination fixes only dimensions that one of the clauses speaks of.
spec fn fixes_only(flat: NftFlat, clauses: Seq<Vec<FirewallMatch>>) -> bool {
    &&& flat.sources.len() > 0 ==> exists|i: int|
        0 <= i < clauses.len() && constrains_source(#[trigger] clauses[i]@)
    &&& flat.dests.len() > 0 ==> exists|i: int|
        0 <= i < clauses.len() && constrains_dest(#[trigger] clauses[i]@)
    &&& flat.groups.is_some() ==> exists|i: int|
        0 <= i < clauses.len() && constrains_ports(#[trigger] clauses[i]@)
}

proof fn lemma_refine_fixes(
    existing: NftFlat,
    m: FirewallMatch,
    i: int,
    clauses: Seq<Vec<FirewallMatch>>,
)
    requires
        clauses.len() > 0,
        0 <= i < clauses.last()@.len(),
        clauses.last()@[i] == m,
        fixes_only(existing, clauses.drop_last()),
    ensures
        fixes_only(refine(existing, m), clauses),
{
    let here = clauses.len() - 1;
    let short = clauses.drop_last();
    let flat = refine(existing, m);
    assert(clauses[here]@[i] == m);
    if flat.sources.len() > 0 {
        if m.source_ips@.len() > 0 {
            assert(constrains_source(clauses[here]@));
        } else {
            let k = choose|k: int| 0 <= k < short.len() && constrains_source(#[trigger] short[k]@);
            assert(constrains_source(clauses[k]@));
        }
    }
    if flat.dests.len() > 0 {
        if m.dest_ips@.len() > 0 {
            assert(constrains_dest(clauses[here]@));
        } else {
            let k = choose|k: int| 0 <= k < short.len() && constrains_dest(#[trigger] short[k]@);
            assert(constrains_dest(clauses[k]@));
        }
    }
    if flat.groups.is_some() {
        if !m.any_port() {
            assert(constrains_ports(clauses[here]@));
        } else {
            let k = choose|k: int| 0 <= k < short.len() && constrains_ports(#[trigger] short[k]@);
            assert(constrains_ports(clauses[k]@));
        }
    }
}

spec fn all_fix_only(flats: Seq<NftFlat>, clauses: Seq<Vec<FirewallMatch>>) -> bool {
    forall|i: int| 0 <= i < flats.len() ==> fixes_only(#[trigger] flats[i], clauses)
}

proof fn lemma_refine_all_fixes(existing: Seq<NftFlat>, clauses: Seq<Vec<FirewallMatch>>)
    requires
        clauses.len() > 0,
        all_fix_only(existing, clauses.drop_last()),
    ensures
        all_fix_only(refine_all(existing, clauses.last()@), clauses),
    decreases existing.len(),
{
    if existing.len() > 0 {
        let clause = clauses.last()@;
        let short = existing.drop_last();
        assert(existing[existing.len() - 1] == existing.last());
        assert forall|i: int| 0 <= i < short.len() implies fixes_only(
            #[trigger] short[i],
            clauses.drop_last(),
        ) by {
            assert(existing[i] == short[i]);
        }
        lemma_refine_all_fixes(short, clauses);
        let first = refine_all(short, clause);
        let second = refine_by_clause(existing.last(), clause);
        assert forall|i: int| 0 <= i < (first + second).len() implies fixes_only(
            #[trigger] (first + second)[i],
            clauses,
        ) by {
            if i < first.len() {
                assert((first + second)[i] == first[i]);
            } else {
                let k = i - first.len();
                lemma_refine_fixes(existing.last(), clause[k], k, clauses);
                assert((first + second)[i] == second[k]);
            }
        }
    }
}

proof fn lemma_flattened_fixes(clauses: Seq<Vec<FirewallMatch>>)
    ensures
        all_fix_only(flattened(clauses), clauses),
    decreases clauses.len(),
{
    if clauses.len() > 0 {
        lemma_flattened_fixes(clauses.drop_last());
        lemma_refine_all_fixes(flattened(clauses.drop_last()), clauses);
    }
}

/// Expanding a rule keeps its meaning: a packet that is not TCP meets all clauses
/// exactly where one of the combinations stands for it.
pub proof fn law_flattening_keeps_meaning(clauses: Seq<Vec<FirewallMatch>>, packet: Packet)
    requires
        separate_dimensions(clauses),
    ensures
        any_passes(flattened(clauses), packet) == clauses_pass(clauses, packet),
    decreases clauses.len(),
{
    if clauses.len() == 0 {
        assert(flattened(clauses)[0] == unrestricted());
        assert(flat_passes(unrestricted(), packet) == (packet.protocol !is Tcp));
    } else {
        let short = clauses.drop_last();
        let clause = clauses.last()@;
        let existing = flattened(short);
        assert forall|i: int, j: int|
            #![trigger short[i], short[j]]
            0 <= i < j < short.len() implies {
            &&& !(constrains_source(short[i]@) && constrains_source(short[j]@))
            &&& !(constrains_dest(short[i]@) && constrains_dest(short[j]@))
            &&& !(constrains_ports(short[i]@) && constrains_ports(short[j]@))
        } by {
            assert(clauses[i] == short[i] && clauses[j] == short[j]);
        }
        law_flattening_keeps_meaning(short, packet);
        lemma_flattened_fixes(short);
        let here = clauses.len() - 1;
        assert(clauses[here]@ == clause);
        assert forall|i: int, k: int| 0 <= i < clause.len() && 0 <= k < existing.len() implies adds_to(
            #[trigger] clause[i],
            #[trigger] existing[k],
        ) by {
            let m = clause[i];
            let flat = existing[k];
            assert(fixes_only(flat, short));
            if m.source_ips@.len() > 0 && flat.sources.len() > 0 {
                assert(constrains_source(clauses[here]@));
                let n = choose|n: int|
                    0 <= n < short.len() && constrains_source(#[trigger] short[n]@);
                assert(constrains_source(clauses[n]@));
            }
            if m.dest_ips@.len() > 0 && flat.dests.len() > 0 {
                assert(constrains_dest(clauses[here]@));
                let n = choose|n: int| 0 <= n < short.len() && constrains_dest(#[trigger] short[n]@);
                assert(constrains_dest(clauses[n]@));
            }
            if !m.any_port() && flat.groups.is_some() {
                assert(constrains_ports(clauses[here]@));
                let n = choose|n: int|
                    0 <= n < short.len() && constrains_ports(#[trigger] short[n]@);
                assert(constrains_ports(clauses[n]@));
            }
        }
        lemma_refine_all(existing, clause, packet);
        if clauses_pass(clauses, packet) {
            assert forall|i: int| 0 <= i < short.len() implies clause_passes(
                #[trigger] short[i]@,
                packet,
            ) by {
                assert(clauses[i] == short[i]);
            }
        }
        if clauses_pass(short, packet) && clause_passes(clause, packet) {
            assert forall|i: int| 0 <= i < clauses.len() implies clause_passes(
                #[trigger] clauses[i]@,
                packet,
            ) by {
                if i < short.len() {
                    assert(short[i] == clauses[i]);
                }
            }
        }
    }
}

proof fn lemma_of_family(nets: Seq<IpNet>, v4: bool, ip: crate::net::IpAddr)
    ensures
        (exists|i: int| 0 <= i < of_family(nets, v4).len() && #[trigger] of_family(nets, v4)[i].has(ip))
            == ((ip is V4) == v4 && exists|i: int| 0 <= i < nets.len() && #[trigger] nets[i].has(ip)),
    decreases nets.len(),
{
    if nets.len() > 0 {
        let short = nets.drop_last();
        let last = nets.last();
        let kept = of_family(short, v4);
        let all = of_family(nets, v4);
        lemma_of_family(short, v4, ip);
        if exists|i: int| 0 <= i < all.len() && #[trigger] all[i].has(ip) {
            let i = choose|i: int| 0 <= i < all.len() && #[trigger] all[i].has(ip);
            if i < kept.len() {
                assert(kept[i].has(ip));
                let k = choose|k: int| 0 <= k < short.len() && #[trigger] short[k].has(ip);
                assert(nets[k].has(ip));
            } else {
                assert(nets[nets.len() - 1].has(ip));
            }
        }
        if (ip is V4) == v4 && exists|i: int| 0 <= i < nets.len() && #[trigger] nets[i].has(ip) {
            let i = choose|i: int| 0 <= i < nets.len() && #[trigger] nets[i].has(ip);
            if i < short.len() {
                assert(short[i].has(ip));
                let k = choose|k: int| 0 <= k < kept.len() && #[trigger] kept[k].has(ip);
                assert(all[k].has(ip));
            } else {
                assert(all[all.len() - 1].has(ip));
            }
        }
    }
}

/// Splitting networks by family keeps their meaning: an address passes exactly
/// where it passes one of the groups, and then it is of that group's family. So a
/// pair of groups of different families matches no packet, whose two addresses
/// are of one family.
pub proof fn law_families_keep_meaning(nets: Seq<IpNet>, ip: crate::net::IpAddr)
    ensures
        address_passes(nets, ip) == exists|i: int|
            0 <= i < families(nets).len() && address_passes((#[trigger] families(nets)[i]).1, ip),
        forall|i: int|
            0 <= i < families(nets).len() && nets.len() > 0 && address_passes(
                (#[trigger] families(nets)[i]).1,
                ip,
            ) ==> (ip is V4) == families(nets)[i].0,
{
    let groups = families(nets);
    lemma_of_family(nets, true, ip);
    lemma_of_family(nets, false, ip);
    if nets.len() == 0 {
        assert(address_passes(groups[0].1, ip));
    } else {
        let v4 = of_family(nets, true);
        let v6 = of_family(nets, false);
        assert forall|i: int| 0 <= i < groups.len() implies (#[trigger] groups[i]).1.len() > 0 && (
        groups[i] == (true, v4) || groups[i] == (false, v6)) by {}
        if address_passes(nets, ip) {
            if ip is V4 {
                assert(groups[0] == (true, v4));
                assert(address_passes(groups[0].1, ip));
            } else {
                assert(groups[groups.len() - 1] == (false, v6));
                assert(address_passes(groups[groups.len() - 1].1, ip));
            }
        }
    }
}

/// An escaped text holds no control character.
pub proof fn law_escaped_has_no_control(s: Seq<char>)
    ensures
        forall|i: int| 0 <= i < escaped(s).len() ==> !is_control(#[trigger] escaped(s)[i]),
    decreases s.len(),
{
    if s.len() > 0 {
        law_escaped_has_no_control(s.drop_last());
        let before = escaped(s.drop_last());
        let all = escaped(s);
        assert forall|i: int| 0 <= i < all.len() implies !is_control(#[trigger] all[i]) by {
            if i < before.len() {
                assert(all[i] == before[i]);
            }
        }
    }
}

/// The lines end with the ending.
spec fn all_end_with(lines: Seq<Seq<char>>, end: Seq<char>) -> bool {
    forall|i: int| 0 <= i < lines.len() ==> end.is_suffix_of(#[trigger] lines[i])
}

proof fn lemma_line_ends(parts: Seq<Seq<char>>)
    requires
        parts.len() > 1,
    ensures
        parts.last().is_suffix_of(joined(parts, " "@)),
{
    let line = joined(parts, " "@);
    assert(line.subrange(line.len() - parts.last().len(), line.len() as int) =~= parts.last());
}

proof fn lemma_port_lines_end(
    addresses: Seq<Seq<char>>,
    groups: Option<Seq<PortGroup>>,
    v4: Option<bool>,
    end: Seq<Seq<char>>,
)
    requires
        end.len() == 2,
    ensures
        all_end_with(port_lines(addresses, groups, v4, end), end[1]),
{
    let lines = port_lines(addresses, groups, v4, end);
    assert forall|i: int| 0 <= i < lines.len() implies end[1].is_suffix_of(#[trigger] lines[i]) by {
        let parts = addresses + (match groups {
            Some(groups) => group_parts(groups[i].protocol, groups[i].ports@, v4),
            None => group_parts(FirewallProtocol::NonTcp, Seq::empty(), v4),
        }) + end;
        assert(parts.last() == end[1]);
        lemma_line_ends(parts);
        assert(lines[i] == joined(parts, " "@));
    }
}

proof fn lemma_dests_end(
    source: (bool, Seq<IpNet>),
    dests: Seq<(bool, Seq<IpNet>)>,
    groups: Option<Seq<PortGroup>>,
    end: Seq<Seq<char>>,
    n: nat,
)
    requires
        end.len() == 2,
    ensures
        all_end_with(dests_out(source, dests, groups, end, n).lines, end[1]),
    decreases dests.len(),
{
    if dests.len() > 0 {
        let before = dests_out(source, dests.drop_last(), groups, end, n);
        lemma_dests_end(source, dests.drop_last(), groups, end, n);
        let m = n + before.sets.len();
        let k = m + address_sets(source.1, source.0, m).len();
        lemma_port_lines_end(
            address_parts(source.1, "saddr"@, source.0, m) + address_parts(
                dests.last().1,
                "daddr"@,
                dests.last().0,
                k,
            ),
            groups,
            line_family(source, dests.last()),
            end,
        );
        lemma_ends_add(
            before.lines,
            pair_out(source, dests.last(), groups, end, m).lines,
            end[1],
        );
    }
}

proof fn lemma_ends_add(a: Seq<Seq<char>>, b: Seq<Seq<char>>, end: Seq<char>)
    requires
        all_end_with(a, end),
        all_end_with(b, end),
    ensures
        all_end_with(a + b, end),
{
    assert forall|i: int| 0 <= i < (a + b).len() implies end.is_suffix_of(#[trigger] (a + b)[i]) by {
        if i < a.len() {
            assert((a + b)[i] == a[i]);
        } else {
            assert((a + b)[i] == b[i - a.len()]);
        }
    }
}

proof fn lemma_sources_end(
    sources: Seq<(bool, Seq<IpNet>)>,
    dests: Seq<(bool, Seq<IpNet>)>,
    groups: Option<Seq<PortGroup>>,
    end: Seq<Seq<char>>,
    n: nat,
)
    requires
        end.len() == 2,
    ensures
        all_end_with(sources_out(sources, dests, groups, end, n).lines, end[1]),
    decreases sources.len(),
{
    if sources.len() > 0 {
        let before = sources_out(sources.drop_last(), dests, groups, end, n);
        lemma_sources_end(sources.drop_last(), dests, groups, end, n);
        lemma_dests_end(sources.last(), dests, groups, end, n + before.sets.len());
        lemma_ends_add(
            before.lines,
            dests_out(sources.last(), dests, groups, end, n + before.sets.len()).lines,
            end[1],
        );
    }
}

proof fn lemma_flats_end(flats: Seq<NftFlat>, end: Seq<Seq<char>>, n: nat)
    requires
        end.len() == 2,
    ensures
        all_end_with(flats_out(flats, end, n).lines, end[1]),
    decreases flats.len(),
{
    if flats.len() > 0 {
        let before = flats_out(flats.drop_last(), end, n);
        let flat = flats.last();
        let m = n + before.sets.len();
        lemma_flats_end(flats.drop_last(), end, n);
        lemma_sources_end(families(flat.sources), families(flat.dests), flat.groups, end, m);
        lemma_ends_add(
            before.lines,
            sources_out(families(flat.sources), families(flat.dests), flat.groups, end, m).lines,
            end[1],
        );
    }
}

/// Every line for a rule ends with a comment that holds the rule's name.
pub proof fn law_rule_names_in_comments(rule: FirewallRule, stage: Stage, n: nat)
    ensures
        forall|i: int|
            0 <= i < rule_out(rule, stage, n).lines.len() ==> ("comment \""@ + escaped(rule.name@)
                + "\""@).is_suffix_of(#[trigger] rule_out(rule, stage, n).lines[i]),
{
    let end = ending(rule.name@, stage, rule.action);
    lemma_flats_end(flattened(rule.clauses@), end, n);
    let lines = rule_out(rule, stage, n).lines;
    assert forall|i: int| 0 <= i < lines.len() implies ("comment \""@ + escaped(rule.name@)
        + "\""@).is_suffix_of(#[trigger] lines[i]) by {
        assert(end[1].is_suffix_of(lines[i]));
    }
}

spec fn numbered(sets: Seq<SetModel>, n: nat) -> bool {
    forall|i: int|
        0 <= i < sets.len() ==> (#[trigger] sets[i]).name == set_name(
            (n + i) as nat,
            sets[i].is_v4,
        )
}

proof fn lemma_numbered_add(a: Seq<SetModel>, b: Seq<SetModel>, n: nat)
    requires
        numbered(a, n),
        numbered(b, n + a.len()),
    ensures
        numbered(a + b, n),
{
    assert forall|i: int| 0 <= i < (a + b).len() implies (#[trigger] (a + b)[i]).name == set_name(
        (n + i) as nat,
        (a + b)[i].is_v4,
    ) by {
        if i < a.len() {
            assert((a + b)[i] == a[i]);
        } else {
            let k = i - a.len();
            assert((a + b)[i] == b[k]);
            assert(n + a.len() + k == n + i);
        }
    }
}

proof fn lemma_pair_numbered(
    source: (bool, Seq<IpNet>),
    dest: (bool, Seq<IpNet>),
    groups: Option<Seq<PortGroup>>,
    end: Seq<Seq<char>>,
    n: nat,
)
    ensures
        numbered(pair_out(source, dest, groups, end, n).sets, n),
{
    let source_sets = address_sets(source.1, source.0, n);
    lemma_numbered_add(
        source_sets,
        address_sets(dest.1, dest.0, n + source_sets.len()),
        n,
    );
}

proof fn lemma_dests_numbered(
    source: (bool, Seq<IpNet>),
    dests: Seq<(bool, Seq<IpNet>)>,
    groups: Option<Seq<PortGroup>>,
    end: Seq<Seq<char>>,
    n: nat,
)
    ensures
        numbered(dests_out(source, dests, groups, end, n).sets, n),
    decreases dests.len(),
{
    if dests.len() > 0 {
        let before = dests_out(source, dests.drop_last(), groups, end, n);
        lemma_dests_numbered(source, dests.drop_last(), groups, end, n);
        lemma_pair_numbered(source, dests.last(), groups, end, n + before.sets.len());
        lemma_numbered_add(
            before.sets,
            pair_out(source, dests.last(), groups, end, n + before.sets.len()).sets,
            n,
        );
    }
}

proof fn lemma_sources_numbered(
    sources: Seq<(bool, Seq<IpNet>)>,
    dests: Seq<(bool, Seq<IpNet>)>,
    groups: Option<Seq<PortGroup>>,
    end: Seq<Seq<char>>,
    n: nat,
)
    ensures
        numbered(sources_out(sources, dests, groups, end, n).sets, n),
    decreases sources.len(),
{
    if sources.len() > 0 {
        let before = sources_out(sources.drop_last(), dests, groups, end, n);
        lemma_sources_numbered(sources.drop_last(), dests, groups, end, n);
        lemma_dests_numbered(sources.last(), dests, groups, end, n + before.sets.len());
        lemma_numbered_add(
            before.sets,
            dests_out(sources.last(), dests, groups, end, n + before.sets.len()).sets,
            n,
        );
    }
}

proof fn lemma_flats_numbered(flats: Seq<NftFlat>, end: Seq<Seq<char>>, n: nat)
    ensures
        numbered(flats_out(flats, end, n).sets, n),
    decreases flats.len(),
{
    if flats.len() > 0 {
        let before = flats_out(flats.drop_last(), end, n);
        let flat = flats.last();
        let m = n + before.sets.len();
        lemma_flats_numbered(flats.drop_last(), end, n);
        lemma_sources_numbered(families(flat.sources), families(flat.dests), flat.groups, end, m);
        lemma_numbered_add(
            before.sets,
            sources_out(families(flat.sources), families(flat.dests), flat.groups, end, m).sets,
            n,
        );
    }
}

proof fn lemma_rules_numbered(
    rules: Seq<FirewallRule>,
    direction: Direction,
    stage: Stage,
    n: nat,
)
    ensures
        numbered(rules_out(rules, direction, stage, n).sets, n),
    decreases rules.len(),
{
    if rules.len() > 0 {
        let before = rules_out(rules.drop_last(), direction, stage, n);
        lemma_rules_numbered(rules.drop_last(), direction, stage, n);
        if rules.last().direction == direction {
            let rule = rules.last();
            let m = n + before.sets.len();
            lemma_flats_numbered(
                flattened(rule.clauses@),
                ending(rule.name@, stage, rule.action),
                m,
            );
            lemma_numbered_add(before.sets, rule_out(rule, stage, m).sets, n);
        }
    }
}

proof fn lemma_set_names_differ(a: nat, a_v4: bool, b: nat, b_v4: bool)
    requires
        set_name(a, a_v4) == set_name(b, b_v4),
    ensures
        a == b,
{
    reveal_strlit("zt_");
    reveal_strlit("_v4");
    reveal_strlit("_v6");
    lemma_decimal_is_digits(a);
    lemma_decimal_is_digits(b);
    let da = decimal(a);
    let db = decimal(b);
    let text = set_name(a, a_v4);
    let other = set_name(b, b_v4);
    assert(text.len() == 3 + da.len() + 3 && other.len() == 3 + db.len() + 3);
    assert(da =~= db) by {
        assert forall|i: int| 0 <= i < da.len() implies da[i] == db[i] by {
            assert(text[3 + i] == da[i]);
            assert(other[3 + i] == db[i]);
        }
    }
    lemma_decimal_injective(a, b);
}

/// All sets that a script declares, in order.
pub open spec fn declared_sets(ruleset: RuleSet) -> Seq<SetModel> {
    let chains = chains_of(ruleset);
    chains.inline_input.sets + chains.inline_output.sets + chains.input.sets + chains.output.sets
}

/// No two sets that a script declares have the same name, whichever rules and stages
/// they belong to.
pub proof fn law_set_names_are_unique(ruleset: RuleSet, i: int, j: int)
    requires
        0 <= i < j < declared_sets(ruleset).len(),
    ensures
        declared_sets(ruleset)[i].name != declared_sets(ruleset)[j].name,
{
    let chains = chains_of(ruleset);
    let inline = ordered(ruleset.inline_rules@);
    let rules = ordered(ruleset.rules@);
    let n = chains.inline_input.sets.len();
    let m = n + chains.inline_output.sets.len();
    let k = m + chains.input.sets.len();
    lemma_rules_numbered(inline, Direction::Inbound, Stage::Inline, 0);
    lemma_rules_numbered(inline, Direction::Outbound, Stage::Inline, n);
    lemma_rules_numbered(rules, Direction::Inbound, Stage::Workload, m);
    lemma_rules_numbered(rules, Direction::Outbound, Stage::Workload, k);
    let two = chains.inline_input.sets + chains.inline_output.sets;
    lemma_numbered_add(chains.inline_input.sets, chains.inline_output.sets, 0);
    lemma_numbered_add(two, chains.input.sets, 0);
    lemma_numbered_add(two + chains.input.sets, chains.output.sets, 0);
    let all = declared_sets(ruleset);
    assert(numbered(all, 0));
    if all[i].name == all[j].name {
        lemma_set_names_differ(i as nat, all[i].is_v4, j as nat, all[j].is_v4);
    }
}

/// Every script makes the table anew and declares both chains; where policies are
/// attached, what no rule matches is refused at the end of both; and the proxy's own
/// traffic goes by its mark, or by its user where it has none.
pub proof fn law_ruleset_structure(config: NftConfig, ruleset: RuleSet)
    ensures
        ruleset_lines(config, ruleset).take(3) == seq![
            "add table inet ztunnel"@,
            "delete table inet ztunnel"@,
            "table inet ztunnel {"@,
        ],
        ruleset_lines(config, ruleset).contains("  chain zt_policy_input {"@),
        ruleset_lines(config, ruleset).contains("  chain zt_policy_output {"@),
        ruleset.policy_attached ==> {
            let lines = ruleset_lines(config, ruleset);
            &&& lines.len() > 2
            &&& lines[lines.len() - 3] == "    meta l4proto != tcp reject"@
        },
        config.proxy_mark matches Some(mark) ==> ruleset_lines(config, ruleset).contains(
            "    meta mark "@ + decimal(mark as nat) + " return"@,
        ),
        config.proxy_mark is None ==> ruleset_lines(config, ruleset).contains(
            "    meta skuid 1337 return"@,
        ),
{
    let chains = chains_of(ruleset);
    let inline = ruleset.inline_rules@.len() > 0;
    let lines = ruleset_lines(config, ruleset);
    let head = seq![
        "add table inet ztunnel"@,
        "delete table inet ztunnel"@,
        "table inet ztunnel {"@,
    ] + sets_lines(declared_sets(ruleset)) + inline_chains(
        inline,
        chains.inline_input.lines,
        chains.inline_output.lines,
    );
    let input = seq![
        "  chain zt_policy_input {"@,
        "    type filter hook input priority -150; policy accept;"@,
        "    ct state established,related accept"@,
        "    iif lo accept"@,
    ] + detour(inline, "    meta l4proto != tcp jump zt_inline_input"@) + indented(
        chains.input.lines,
    ) + default_deny(ruleset.policy_attached);
    let output = seq![
        "  }"@,
        "  chain zt_policy_output {"@,
        "    type filter hook output priority -150; policy accept;"@,
        "    ct state established,related accept"@,
        "    oif lo accept"@,
    ];
    assert(lines.take(3) =~= seq![
        "add table inet ztunnel"@,
        "delete table inet ztunnel"@,
        "table inet ztunnel {"@,
    ]);
    assert(lines[head.len() as int] == "  chain zt_policy_input {"@);
    assert(lines[(head.len() + input.len() + 1) as int] == "  chain zt_policy_output {"@);
    assert(lines[(head.len() + input.len() + output.len()) as int] == bypass_lines(
        config.proxy_mark,
    )[0]);
}

} // verus!
