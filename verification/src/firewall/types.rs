//! Firewall rules.
//!
//! A rule has clauses, all of which must hold; a clause has matches, one of which
//! must hold; a match names addresses, protocols and ports. The backends expand
//! this into their native form: nftables uses sets for alternatives, iptables one
//! rule per combination.

use vstd::prelude::*;

use crate::net::{IpAddr, IpNet};

verus! {

/// What to do with matching traffic.
#[derive(Clone, Copy, Debug, PartialEq, Eq, Structural)]
pub enum RuleAction {
    /// Let the traffic pass (netfilter ACCEPT).
    Allow,
    /// Refuse the traffic (netfilter REJECT: an ICMP error goes back).
    Deny,
}

/// The chain that a rule belongs to.
#[derive(Clone, Copy, Debug, PartialEq, Eq, Structural)]
pub enum Direction {
    /// Traffic that comes in.
    Inbound,
    /// Traffic that goes out.
    Outbound,
}

/// The protocols that the firewall handles. TCP is not among them: the proxy
/// handles it itself.
#[derive(Clone, Copy, Debug, PartialEq, Eq, PartialOrd, Ord, Hash, Structural)]
pub enum FirewallProtocol {
    /// Everything but TCP; with ports, those that have ports: UDP and SCTP.
    NonTcp,
    /// UDP.
    Udp,
    /// SCTP.
    Sctp,
    /// ICMP, which has no ports.
    Icmp,
}

/// Ports from `start` to `end`, both included.
#[derive(Clone, Copy, Debug, PartialEq, Eq, Hash, Structural)]
pub struct PortRange {
    pub start: u16,
    pub end: u16,
}

impl PortRange {
    /// Whether the port lies in the range.
    pub open spec fn has(self, port: u16) -> bool {
        self.start <= port <= self.end
    }

    /// Whether the port lies in the range.
    pub fn contains(&self, port: u16) -> (r: bool)
        ensures
            r == self.has(port),
    {
        self.start <= port && port <= self.end
    }
}

/// Destination ports of one protocol.
#[derive(Clone, Debug, PartialEq, Eq)]
pub struct PortGroup {
    pub protocol: FirewallProtocol,
    /// Empty means any port. ICMP has none.
    pub ports: Vec<PortRange>,
}

/// A condition on one packet; what is empty matches anything.
#[derive(Clone, Debug, PartialEq, Eq)]
pub struct FirewallMatch {
    pub source_ips: Vec<IpNet>,
    pub dest_ips: Vec<IpNet>,
    /// Empty means everything but TCP.
    pub port_groups: Vec<PortGroup>,
}

/// A rule: it fires where each clause has a match that holds.
#[derive(Clone, Debug, PartialEq, Eq)]
pub struct FirewallRule {
    pub name: String,
    pub action: RuleAction,
    pub direction: Direction,
    /// Lower values come first.
    pub priority: i32,
    /// Empty means that the rule always fires.
    pub clauses: Vec<Vec<FirewallMatch>>,
}

/// The rules of one workload, in two stages.
#[derive(Clone, Debug, PartialEq, Eq)]
pub struct RuleSet {
    /// The rules of the workload's policies.
    pub rules: Vec<FirewallRule>,
    /// The rules of the stage before: what it allows goes on to `rules`. Empty
    /// means that there is no such stage.
    pub inline_rules: Vec<FirewallRule>,
    /// Whether traffic that no rule matches is refused.
    pub policy_attached: bool,
}

impl Default for RuleSet {
    fn default() -> (r: Self)
        ensures
            r.rules@ == Seq::<FirewallRule>::empty(),
            r.inline_rules@ == Seq::<FirewallRule>::empty(),
            !r.policy_attached,
    {
        RuleSet { rules: Vec::new(), inline_rules: Vec::new(), policy_attached: false }
    }
}

/// The protocol of a packet, as far as the rules tell protocols apart.
pub enum PacketProtocol {
    Tcp,
    Udp,
    Sctp,
    Icmp,
    Other,
}

/// A packet, as far as the rules look at it.
pub struct Packet {
    pub source: IpAddr,
    pub dest: IpAddr,
    pub protocol: PacketProtocol,
    pub dest_port: u16,
}

/// Whether one of the networks has the address, or there is none.
pub open spec fn address_passes(nets: Seq<IpNet>, ip: IpAddr) -> bool {
    nets.len() == 0 || exists|i: int| 0 <= i < nets.len() && #[trigger] nets[i].has(ip)
}

/// Whether one of the ranges has the port, or there is none.
pub open spec fn port_passes(ports: Seq<PortRange>, port: u16) -> bool {
    ports.len() == 0 || exists|i: int| 0 <= i < ports.len() && #[trigger] ports[i].has(port)
}

impl FirewallProtocol {
    /// Whether the packet is of this protocol and has one of these ports.
    pub open spec fn passes(self, ports: Seq<PortRange>, packet: Packet) -> bool {
        match self {
            FirewallProtocol::NonTcp => if ports.len() == 0 {
                packet.protocol !is Tcp
            } else {
                (packet.protocol is Udp || packet.protocol is Sctp) && port_passes(
                    ports,
                    packet.dest_port,
                )
            },
            FirewallProtocol::Udp => packet.protocol is Udp && port_passes(ports, packet.dest_port),
            FirewallProtocol::Sctp => packet.protocol is Sctp && port_passes(
                ports,
                packet.dest_port,
            ),
            FirewallProtocol::Icmp => packet.protocol is Icmp,
        }
    }
}

/// Whether the packet is in one of the groups, or there is none.
pub open spec fn groups_pass(groups: Seq<PortGroup>, packet: Packet) -> bool {
    &&& packet.protocol !is Tcp
    &&& groups.len() == 0 || exists|i: int|
        0 <= i < groups.len() && (#[trigger] groups[i]).protocol.passes(groups[i].ports@, packet)
}

impl FirewallMatch {
    /// Whether the match holds of the packet.
    pub open spec fn passes(self, packet: Packet) -> bool {
        &&& address_passes(self.source_ips@, packet.source)
        &&& address_passes(self.dest_ips@, packet.dest)
        &&& groups_pass(self.port_groups@, packet)
    }

    /// Whether the match says nothing of protocols and ports beyond "not TCP".
    pub open spec fn any_port(self) -> bool {
        self.port_groups@.len() == 0 || (self.port_groups@.len() == 1
            && self.port_groups@[0].protocol == FirewallProtocol::NonTcp
            && self.port_groups@[0].ports@.len() == 0)
    }

    /// Whether the match says nothing of protocols and ports beyond "not TCP".
    pub fn is_any_port(&self) -> (r: bool)
        ensures
            r == self.any_port(),
    {
        self.port_groups.len() == 0 || (self.port_groups.len() == 1
            && self.port_groups[0].protocol == FirewallProtocol::NonTcp
            && self.port_groups[0].ports.len() == 0)
    }
}

/// Whether one of the matches holds of the packet.
pub open spec fn clause_passes(clause: Seq<FirewallMatch>, packet: Packet) -> bool {
    exists|i: int| 0 <= i < clause.len() && #[trigger] clause[i].passes(packet)
}

/// Whether every clause has a match that holds of the packet, which is not TCP.
pub open spec fn clauses_pass(clauses: Seq<Vec<FirewallMatch>>, packet: Packet) -> bool {
    &&& packet.protocol !is Tcp
    &&& forall|i: int| 0 <= i < clauses.len() ==> clause_passes(#[trigger] clauses[i]@, packet)
}

/// Whether a clause says anything of sources, destinations or ports.
pub open spec fn constrains_source(clause: Seq<FirewallMatch>) -> bool {
    exists|i: int| 0 <= i < clause.len() && (#[trigger] clause[i]).source_ips@.len() > 0
}

pub open spec fn constrains_dest(clause: Seq<FirewallMatch>) -> bool {
    exists|i: int| 0 <= i < clause.len() && (#[trigger] clause[i]).dest_ips@.len() > 0
}

pub open spec fn constrains_ports(clause: Seq<FirewallMatch>) -> bool {
    exists|i: int| 0 <= i < clause.len() && !(#[trigger] clause[i]).any_port()
}

/// No two clauses speak of the same dimension. The control plane publishes only
/// such rules: where two clauses overlap, the later one would replace what the
/// earlier one says.
pub open spec fn separate_dimensions(clauses: Seq<Vec<FirewallMatch>>) -> bool {
    forall|i: int, j: int|
        #![trigger clauses[i], clauses[j]]
        0 <= i < j < clauses.len() ==> {
            &&& !(constrains_source(clauses[i]@) && constrains_source(clauses[j]@))
            &&& !(constrains_dest(clauses[i]@) && constrains_dest(clauses[j]@))
            &&& !(constrains_ports(clauses[i]@) && constrains_ports(clauses[j]@))
        }
}

/// A group of ports, as mathematics has it.
pub struct GroupModel {
    pub protocol: FirewallProtocol,
    pub ports: Seq<PortRange>,
}

/// A match, as mathematics has it.
pub struct MatchModel {
    pub source_ips: Seq<IpNet>,
    pub dest_ips: Seq<IpNet>,
    pub port_groups: Seq<GroupModel>,
}

/// A rule, as mathematics has it.
pub struct RuleModel {
    pub name: Seq<char>,
    pub action: RuleAction,
    pub direction: Direction,
    pub priority: i32,
    pub clauses: Seq<Seq<MatchModel>>,
}

impl View for PortGroup {
    type V = GroupModel;

    open spec fn view(&self) -> GroupModel {
        GroupModel { protocol: self.protocol, ports: self.ports@ }
    }
}

/// Each group, as mathematics has it.
pub open spec fn group_models(groups: Seq<PortGroup>) -> Seq<GroupModel> {
    groups.map_values(|g: PortGroup| g@)
}

impl View for FirewallMatch {
    type V = MatchModel;

    open spec fn view(&self) -> MatchModel {
        MatchModel {
            source_ips: self.source_ips@,
            dest_ips: self.dest_ips@,
            port_groups: group_models(self.port_groups@),
        }
    }
}

impl View for FirewallRule {
    type V = RuleModel;

    open spec fn view(&self) -> RuleModel {
        RuleModel {
            name: self.name@,
            action: self.action,
            direction: self.direction,
            priority: self.priority,
            clauses: self.clauses@.map_values(
                |c: Vec<FirewallMatch>| c@.map_values(|m: FirewallMatch| m@),
            ),
        }
    }
}

/// Each rule, as mathematics has it.
pub open spec fn rule_models(rules: Seq<FirewallRule>) -> Seq<RuleModel> {
    rules.map_values(|r: FirewallRule| r@)
}

/// Whether one of the ranges holds the port, or there is no range to hold it.
pub open spec fn is_open(ports: Seq<PortRange>, port: u16) -> bool {
    ports.len() > 0 ==> exists|i: int|
        0 <= i < ports.len() && (#[trigger] ports[i]).start <= port <= ports[i].end
}

/// Of each protocol it passes what is of that protocol, to a port that is asked for; where
/// everything but TCP is asked for, ports are those of UDP and SCTP. ICMP has no ports,
/// and TCP passes nothing.
pub proof fn law_what_passes_a_protocol(ports: Seq<PortRange>, packet: Packet)
    ensures
        FirewallProtocol::Udp.passes(ports, packet) <==> packet.protocol is Udp && is_open(
            ports,
            packet.dest_port,
        ),
        FirewallProtocol::Sctp.passes(ports, packet) <==> packet.protocol is Sctp && is_open(
            ports,
            packet.dest_port,
        ),
        FirewallProtocol::Icmp.passes(ports, packet) <==> packet.protocol is Icmp,
        ports.len() == 0 ==> (FirewallProtocol::NonTcp.passes(ports, packet) <==> packet.protocol
            !is Tcp),
        ports.len() > 0 ==> (FirewallProtocol::NonTcp.passes(ports, packet) <==> (
        packet.protocol is Udp || packet.protocol is Sctp) && is_open(ports, packet.dest_port)),
        forall|protocol: FirewallProtocol| #[trigger]
            protocol.passes(ports, packet) ==> packet.protocol !is Tcp,
{
    lemma_open(ports, packet.dest_port);
}

proof fn lemma_open(ports: Seq<PortRange>, port: u16)
    ensures
        port_passes(ports, port) <==> is_open(ports, port),
{
    if ports.len() > 0 {
        if port_passes(ports, port) {
            let i = choose|i: int| 0 <= i < ports.len() && #[trigger] ports[i].has(port);
            assert(ports[i].start <= port <= ports[i].end);
        }
        if is_open(ports, port) {
            let i = choose|i: int|
                0 <= i < ports.len() && (#[trigger] ports[i]).start <= port <= ports[i].end;
            assert(ports[i].has(port));
        }
    }
}

/// A match passes what comes from one of its sources and goes to one of its destinations,
/// any where it names none, in one of its groups, any but TCP where it has none. One that
/// names no port passes whatever is not TCP, and nothing less.
pub proof fn law_what_passes_a_match(m: FirewallMatch, packet: Packet)
    ensures
        m.passes(packet) <==> {
            &&& m.source_ips@.len() == 0 || exists|i: int|
                0 <= i < m.source_ips@.len() && (#[trigger] m.source_ips@[i]).has(packet.source)
            &&& m.dest_ips@.len() == 0 || exists|i: int|
                0 <= i < m.dest_ips@.len() && (#[trigger] m.dest_ips@[i]).has(packet.dest)
            &&& packet.protocol !is Tcp
            &&& m.port_groups@.len() == 0 || exists|i: int|
                0 <= i < m.port_groups@.len() && (#[trigger] m.port_groups@[i]).protocol.passes(
                    m.port_groups@[i].ports@,
                    packet,
                )
        },
        m.any_port() ==> (groups_pass(m.port_groups@, packet) <==> packet.protocol !is Tcp),
        m.port_groups@.len() == 0 ==> m.any_port(),
{
    if m.port_groups@.len() == 1 {
        assert(m.port_groups@[0].protocol.passes(m.port_groups@[0].ports@, packet) ==> groups_pass(
            m.port_groups@,
            packet,
        ) || packet.protocol is Tcp);
    }
}

/// Whether the packet passes a match of the clause.
pub open spec fn has_match(clause: Vec<FirewallMatch>, packet: Packet) -> bool {
    exists|k: int| 0 <= k < clause@.len() && (#[trigger] clause@[k]).passes(packet)
}

/// A rule passes what is not TCP and has a match in every clause; a rule without clauses
/// passes all of it, and a clause without matches nothing.
pub proof fn law_what_passes_a_rule(clauses: Seq<Vec<FirewallMatch>>, packet: Packet)
    ensures
        clauses_pass(clauses, packet) <==> packet.protocol !is Tcp && forall|i: int|
            0 <= i < clauses.len() ==> has_match(#[trigger] clauses[i], packet),
        clauses.len() == 0 ==> (clauses_pass(clauses, packet) <==> packet.protocol !is Tcp),
        forall|i: int|
            0 <= i < clauses.len() && (#[trigger] clauses[i])@.len() == 0 ==> !clauses_pass(
                clauses,
                packet,
            ),
{
    assert forall|i: int| 0 <= i < clauses.len() implies has_match(#[trigger] clauses[i], packet)
        == clause_passes(clauses[i]@, packet) by {
        if clause_passes(clauses[i]@, packet) {
            let k = choose|k: int|
                0 <= k < clauses[i]@.len() && #[trigger] clauses[i]@[k].passes(packet);
            assert(clauses[i]@[k].passes(packet));
        }
        if has_match(clauses[i], packet) {
            let k = choose|k: int|
                0 <= k < clauses[i]@.len() && (#[trigger] clauses[i]@[k]).passes(packet);
            assert(clauses[i]@[k].passes(packet));
        }
    }
    if clauses_pass(clauses, packet) {
        assert forall|i: int| 0 <= i < clauses.len() implies has_match(
            #[trigger] clauses[i],
            packet,
        ) by {
            assert(clause_passes(clauses[i]@, packet));
        }
    }
    if packet.protocol !is Tcp && forall|i: int|
        0 <= i < clauses.len() ==> has_match(#[trigger] clauses[i], packet) {
        assert forall|i: int| 0 <= i < clauses.len() implies clause_passes(
            #[trigger] clauses[i]@,
            packet,
        ) by {
            assert(has_match(clauses[i], packet));
        }
    }
}

} // verus!
