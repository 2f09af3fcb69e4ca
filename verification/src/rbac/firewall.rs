//! Rules on connections as firewall rules, for the traffic that is not TCP.

use vstd::prelude::*;

use super::policy::{PortMatch, Protocol, Rule};
use super::RbacAction;
use crate::firewall::types::{
    group_models, Direction, FirewallMatch, FirewallProtocol, FirewallRule, GroupModel,
    MatchModel, PortGroup, PortRange, RuleAction, RuleModel,
};
use crate::net::IpNet;

verus! {

/// The firewall's protocol; the firewall does not handle TCP.
pub open spec fn firewall_protocol(protocol: Protocol) -> Option<FirewallProtocol> {
    match protocol {
        Protocol::All => Some(FirewallProtocol::NonTcp),
        Protocol::Udp => Some(FirewallProtocol::Udp),
        Protocol::Icmp => Some(FirewallProtocol::Icmp),
        Protocol::Sctp => Some(FirewallProtocol::Sctp),
        Protocol::Tcp => None,
    }
}

/// The ranges of one group.
pub open spec fn ranges_of(range: Option<PortRange>) -> Seq<PortRange> {
    match range {
        Some(range) => seq![range],
        None => Seq::empty(),
    }
}

/// The ports without those of TCP.
pub open spec fn groups_of(ports: Seq<PortMatch>) -> Seq<GroupModel>
    decreases ports.len(),
{
    if ports.len() == 0 {
        Seq::empty()
    } else {
        let before = groups_of(ports.drop_last());
        match firewall_protocol(ports.last().protocol) {
            Some(protocol) => before.push(
                GroupModel { protocol, ports: ranges_of(ports.last().range) },
            ),
            None => before,
        }
    }
}

/// The firewall's action.
pub open spec fn firewall_action(action: RbacAction) -> RuleAction {
    match action {
        RbacAction::Allow => RuleAction::Allow,
        RbacAction::Deny => RuleAction::Deny,
    }
}

/// The rule for the firewall. One that speaks of TCP ports alone is none.
pub open spec fn firewall_model(
    rule: Rule,
    name: Seq<char>,
    direction: Direction,
    priority: i32,
) -> Option<RuleModel> {
    if rule.ports@.len() > 0 && groups_of(rule.ports@).len() == 0 {
        None
    } else {
        Some(
            RuleModel {
                name,
                action: firewall_action(rule.action),
                direction,
                priority,
                clauses: seq![
                    seq![
                        MatchModel {
                            source_ips: rule.source_ips@,
                            dest_ips: rule.destination_ips@,
                            port_groups: groups_of(rule.ports@),
                        },
                    ],
                ],
            },
        )
    }
}

/// A rule for everything that the firewall handles.
pub open spec fn catch_all(
    name: Seq<char>,
    action: RuleAction,
    direction: Direction,
    priority: i32,
) -> RuleModel {
    RuleModel {
        name,
        action,
        direction,
        priority,
        clauses: seq![
            seq![
                MatchModel {
                    source_ips: Seq::empty(),
                    dest_ips: Seq::empty(),
                    port_groups: Seq::empty(),
                },
            ],
        ],
    }
}

fn to_firewall_protocol(protocol: Protocol) -> (r: Option<FirewallProtocol>)
    ensures
        r == firewall_protocol(protocol),
{
    match protocol {
        Protocol::All => Some(FirewallProtocol::NonTcp),
        Protocol::Udp => Some(FirewallProtocol::Udp),
        Protocol::Icmp => Some(FirewallProtocol::Icmp),
        Protocol::Sctp => Some(FirewallProtocol::Sctp),
        Protocol::Tcp => None,
    }
}

fn port_groups(ports: &Vec<PortMatch>) -> (r: Vec<PortGroup>)
    ensures
        group_models(r@) == groups_of(ports@),
{
    let mut out: Vec<PortGroup> = Vec::new();
    let mut i: usize = 0;
    assert(group_models(out@) =~= groups_of(ports@.take(0)));
    while i < ports.len()
        invariant
            i <= ports@.len(),
            group_models(out@) == groups_of(ports@.take(i as int)),
        decreases ports@.len() - i,
    {
        let ghost before = group_models(out@);
        assert(ports@.take(i + 1).drop_last() =~= ports@.take(i as int));
        assert(ports@.take(i + 1).last() == ports@[i as int]);
        if let Some(protocol) = to_firewall_protocol(ports[i].protocol) {
            let mut ranges: Vec<PortRange> = Vec::new();
            if let Some(range) = ports[i].range {
                ranges.push(range);
            }
            assert(ranges@ =~= ranges_of(ports@[i as int].range));
            out.push(PortGroup { protocol, ports: ranges });
            assert(group_models(out@) =~= before.push(
                GroupModel { protocol, ports: ranges_of(ports@[i as int].range) },
            ));
        }
        i = i + 1;
    }
    assert(ports@.take(i as int) =~= ports@);
    out
}

fn one_clause(m: FirewallMatch) -> (r: Vec<Vec<FirewallMatch>>)
    ensures
        r@.map_values(|c: Vec<FirewallMatch>| c@.map_values(|m: FirewallMatch| m@)) == seq![
            seq![m@],
        ],
{
    let mut clause: Vec<FirewallMatch> = Vec::new();
    clause.push(m);
    assert(clause@.map_values(|m: FirewallMatch| m@) =~= seq![m@]);
    let mut clauses: Vec<Vec<FirewallMatch>> = Vec::new();
    clauses.push(clause);
    assert(clauses@.map_values(|c: Vec<FirewallMatch>| c@.map_values(|m: FirewallMatch| m@))
        =~= seq![seq![m@]]);
    clauses
}

/// The rule for the firewall, unless it speaks of TCP ports alone.
pub fn firewall_rule(rule: &Rule, name: String, direction: Direction, priority: i32) -> (r: Option<
    FirewallRule,
>)
    ensures
        match r {
            Some(out) => firewall_model(*rule, name@, direction, priority) == Some(out@),
            None => firewall_model(*rule, name@, direction, priority) is None,
        },
{
    let groups: Vec<PortGroup> = port_groups(&rule.ports);
    assert(group_models(groups@).len() == groups@.len());
    if rule.ports.len() > 0 && groups.len() == 0 {
        return None;
    }
    let source_ips: Vec<IpNet> = rule.source_ips.clone();
    assert(source_ips@ =~= rule.source_ips@);
    let dest_ips: Vec<IpNet> = rule.destination_ips.clone();
    assert(dest_ips@ =~= rule.destination_ips@);
    let action: RuleAction = match rule.action {
        RbacAction::Allow => RuleAction::Allow,
        RbacAction::Deny => RuleAction::Deny,
    };
    let clauses: Vec<Vec<FirewallMatch>> = one_clause(
        FirewallMatch { source_ips, dest_ips, port_groups: groups },
    );
    Some(FirewallRule { name, action, direction, priority, clauses })
}

/// A rule for everything that the firewall handles.
pub fn catch_all_rule(name: String, action: RuleAction, direction: Direction, priority: i32) -> (r:
    FirewallRule)
    ensures
        r@ == catch_all(name@, action, direction, priority),
{
    let m: FirewallMatch = FirewallMatch {
        source_ips: Vec::new(),
        dest_ips: Vec::new(),
        port_groups: Vec::new(),
    };
    assert(m@.port_groups =~= Seq::empty());
    let clauses: Vec<Vec<FirewallMatch>> = one_clause(m);
    FirewallRule { name, action, direction, priority, clauses }
}

} // verus!
