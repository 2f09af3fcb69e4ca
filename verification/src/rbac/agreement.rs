//! What holds of every chain of policies: the firewall decides over packets as the
//! chain does, in the order of the chain, and what is not there refuses.

use vstd::prelude::*;

use super::chain::{
    chain_model, chain_verdict, configures, firewall_direction, first_missing, link_rules,
    policy_fault, policy_is, ports_unfit, priority_at, rules_unfit, unavailable, with_chain,
    with_default, with_rules, Link, TrafficPolicy, TrafficPolicyMessage,
};
use super::firewall::{catch_all, firewall_action, firewall_model, groups_of, ranges_of};
use super::policy::{
    port_fault, port_is, ports_are, ports_fault, rule_fault, rule_is, rules_are, rules_fault,
    PortMatch, PortMatchMessage, Protocol, Rule, RuleMessage,
};
use super::{Connection, Direction, RbacAction};
use crate::firewall::order::{before, ordered, place};
use crate::firewall::types::{
    address_passes, rule_models, FirewallRule, GroupModel, MatchModel, Packet, RuleAction,
    RuleModel,
};

verus! {

/// Whether the ports have the packet among them.
pub open spec fn port_has(port: PortMatch, packet: Packet) -> bool {
    match port.protocol {
        Protocol::All => packet.protocol !is Tcp && (port.range is None || ((packet.protocol is Udp
            || packet.protocol is Sctp) && port.range.unwrap().has(packet.dest_port))),
        Protocol::Udp => packet.protocol is Udp && (port.range is None || port.range.unwrap().has(
            packet.dest_port,
        )),
        Protocol::Sctp => packet.protocol is Sctp && (port.range is None
            || port.range.unwrap().has(packet.dest_port)),
        Protocol::Icmp => packet.protocol is Icmp,
        Protocol::Tcp => false,
    }
}

/// Whether the rule speaks of the packet, which is not TCP.
pub open spec fn rule_has(rule: Rule, packet: Packet) -> bool {
    &&& packet.protocol !is Tcp
    &&& address_passes(rule.source_ips@, packet.source)
    &&& address_passes(rule.destination_ips@, packet.dest)
    &&& rule.ports@.len() == 0 || exists|i: int|
        0 <= i < rule.ports@.len() && port_has(#[trigger] rule.ports@[i], packet)
}

/// What the first rule that speaks of the packet says.
pub open spec fn rules_say(rules: Seq<Rule>, packet: Packet) -> Option<RbacAction>
    decreases rules.len(),
{
    if rules.len() == 0 {
        None
    } else if rules_say(rules.drop_last(), packet) is Some {
        rules_say(rules.drop_last(), packet)
    } else if rule_has(rules.last(), packet) {
        Some(rules.last().action)
    } else {
        None
    }
}

/// What the first rule of a chain that speaks of the packet says.
pub open spec fn chain_says(chain: Seq<Link>, direction: Direction, packet: Packet) -> Option<
    RbacAction,
>
    decreases chain.len(),
{
    if chain.len() == 0 {
        None
    } else if chain_says(chain.drop_last(), direction, packet) is Some {
        chain_says(chain.drop_last(), direction, packet)
    } else {
        match link_rules(chain.last(), direction) {
            Some(rules) => rules_say(rules, packet),
            None => None,
        }
    }
}

/// What a chain says of a packet: what is not there refuses, and so does the end of
/// a chain that has rules for the direction.
pub open spec fn packet_verdict(chain: Seq<Link>, direction: Direction, packet: Packet) -> Option<
    RuleAction,
> {
    if first_missing(chain, 0) is Some {
        Some(RuleAction::Deny)
    } else {
        match chain_says(chain, direction, packet) {
            Some(action) => Some(firewall_action(action)),
            None => if configures(chain, direction) {
                Some(RuleAction::Deny)
            } else {
                None
            },
        }
    }
}

/// Whether the group has the packet among its ports.
pub open spec fn group_has(group: GroupModel, packet: Packet) -> bool {
    group.protocol.passes(group.ports, packet)
}

/// Whether the match holds of the packet.
pub open spec fn match_has(m: MatchModel, packet: Packet) -> bool {
    &&& packet.protocol !is Tcp
    &&& address_passes(m.source_ips, packet.source)
    &&& address_passes(m.dest_ips, packet.dest)
    &&& m.port_groups.len() == 0 || exists|i: int|
        0 <= i < m.port_groups.len() && group_has(#[trigger] m.port_groups[i], packet)
}

/// Whether one of the matches holds of the packet.
pub open spec fn clause_has(clause: Seq<MatchModel>, packet: Packet) -> bool {
    exists|i: int| 0 <= i < clause.len() && match_has(#[trigger] clause[i], packet)
}

/// Whether the firewall rule fires on the packet.
pub open spec fn fires(rule: RuleModel, packet: Packet) -> bool {
    packet.protocol !is Tcp && forall|i: int|
        0 <= i < rule.clauses.len() ==> clause_has(#[trigger] rule.clauses[i], packet)
}

/// What the first rule of the direction that fires on the packet does.
pub open spec fn firewall_says(rules: Seq<RuleModel>, direction: Direction, packet: Packet) -> Option<
    RuleAction,
>
    decreases rules.len(),
{
    if rules.len() == 0 {
        None
    } else if firewall_says(rules.drop_last(), direction, packet) is Some {
        firewall_says(rules.drop_last(), direction, packet)
    } else if rules.last().direction == firewall_direction(direction) && fires(
        rules.last(),
        packet,
    ) {
        Some(rules.last().action)
    } else {
        None
    }
}

pub proof fn lemma_says_push(rules: Seq<RuleModel>, rule: RuleModel, direction: Direction, packet: Packet)
    ensures
        firewall_says(rules.push(rule), direction, packet) == (if firewall_says(
            rules,
            direction,
            packet,
        ) is Some {
            firewall_says(rules, direction, packet)
        } else if rule.direction == firewall_direction(direction) && fires(rule, packet) {
            Some(rule.action)
        } else {
            None
        }),
{
    assert(rules.push(rule).drop_last() =~= rules);
}

proof fn lemma_catch_all_fires(
    name: Seq<char>,
    action: RuleAction,
    direction: Direction,
    priority: i32,
    packet: Packet,
)
    requires
        packet.protocol !is Tcp,
    ensures
        fires(catch_all(name, action, firewall_direction(direction), priority), packet),
{
    let rule = catch_all(name, action, firewall_direction(direction), priority);
    assert(match_has(rule.clauses[0][0], packet));
    assert(clause_has(rule.clauses[0], packet));
}

proof fn lemma_groups(ports: Seq<PortMatch>, packet: Packet)
    requires
        packet.protocol !is Tcp,
    ensures
        (exists|i: int| 0 <= i < ports.len() && port_has(#[trigger] ports[i], packet)) == (exists|
            i: int,
        |
            0 <= i < groups_of(ports).len() && group_has(#[trigger] groups_of(ports)[i], packet)),
    decreases ports.len(),
{
    if ports.len() > 0 {
        let short = ports.drop_last();
        let last = ports.last();
        lemma_groups(short, packet);
        let old_groups = groups_of(short);
        let groups = groups_of(ports);
        if exists|i: int| 0 <= i < ports.len() && port_has(#[trigger] ports[i], packet) {
            let i = choose|i: int| 0 <= i < ports.len() && port_has(#[trigger] ports[i], packet);
            if i < short.len() {
                assert(port_has(short[i], packet));
                let k = choose|k: int|
                    0 <= k < old_groups.len() && group_has(#[trigger] old_groups[k], packet);
                assert(groups[k] == old_groups[k]);
            } else {
                assert(last.protocol != Protocol::Tcp);
                let k = groups.len() - 1;
                assert(groups[k].ports == ranges_of(last.range));
                if last.range is Some {
                    assert(groups[k].ports[0].has(packet.dest_port) || last.protocol
                        == Protocol::Icmp);
                }
                assert(group_has(groups[k], packet));
            }
        }
        if exists|i: int| 0 <= i < groups.len() && group_has(#[trigger] groups[i], packet) {
            let i = choose|i: int| 0 <= i < groups.len() && group_has(#[trigger] groups[i], packet);
            if i < old_groups.len() {
                assert(old_groups[i] == groups[i]);
                let k = choose|k: int|
                    0 <= k < short.len() && port_has(#[trigger] short[k], packet);
                assert(ports[k] == short[k]);
            } else {
                assert(groups[i].ports == ranges_of(last.range));
                assert(port_has(ports[ports.len() - 1], packet));
            }
        }
    }
}

pub proof fn lemma_rule(
    rule: Rule,
    name: Seq<char>,
    direction: Direction,
    priority: i32,
    packet: Packet,
)
    requires
        packet.protocol !is Tcp,
    ensures
        match firewall_model(rule, name, firewall_direction(direction), priority) {
            Some(model) => fires(model, packet) == rule_has(rule, packet) && model.direction
                == firewall_direction(direction) && model.action == firewall_action(rule.action),
            None => !rule_has(rule, packet),
        },
{
    lemma_groups(rule.ports@, packet);
    match firewall_model(rule, name, firewall_direction(direction), priority) {
        Some(model) => {
            let m = model.clauses[0][0];
            assert(match_has(m, packet) == rule_has(rule, packet));
            if rule_has(rule, packet) {
                assert(clause_has(model.clauses[0], packet));
            }
            if fires(model, packet) {
                assert(clause_has(model.clauses[0], packet));
            }
        },
        None => {},
    }
}

proof fn lemma_with_rules(
    start: Seq<RuleModel>,
    rules: Seq<Rule>,
    name: Seq<char>,
    built: Direction,
    direction: Direction,
    packet: Packet,
)
    requires
        packet.protocol !is Tcp,
    ensures
        firewall_says(with_rules(start, rules, name, built), direction, packet) == (
        if firewall_says(start, direction, packet) is Some || built != direction {
            firewall_says(start, direction, packet)
        } else {
            match rules_say(rules, packet) {
                Some(action) => Some(firewall_action(action)),
                None => None,
            }
        }),
    decreases rules.len(),
{
    if rules.len() > 0 {
        let short = rules.drop_last();
        lemma_with_rules(start, short, name, built, direction, packet);
        let so_far = with_rules(start, short, name, built);
        let full = name + "/"@ + super::chain::rule_name((rules.len() - 1) as nat);
        lemma_rule(rules.last(), full, built, priority_at(so_far.len()), packet);
        match firewall_model(
            rules.last(),
            full,
            firewall_direction(built),
            priority_at(so_far.len()),
        ) {
            Some(model) => {
                lemma_says_push(so_far, model, direction, packet);
            },
            None => {},
        }
    }
}

proof fn lemma_with_chain(
    start: Seq<RuleModel>,
    chain: Seq<Link>,
    built: Direction,
    direction: Direction,
    packet: Packet,
)
    requires
        packet.protocol !is Tcp,
    ensures
        firewall_says(with_chain(start, chain, built), direction, packet) == (if firewall_says(
            start,
            direction,
            packet,
        ) is Some || built != direction {
            firewall_says(start, direction, packet)
        } else {
            match chain_says(chain, direction, packet) {
                Some(action) => Some(firewall_action(action)),
                None => None,
            }
        }),
    decreases chain.len(),
{
    if chain.len() > 0 {
        let short = chain.drop_last();
        lemma_with_chain(start, short, built, direction, packet);
        match link_rules(chain.last(), built) {
            Some(rules) => {
                lemma_with_rules(
                    with_chain(start, short, built),
                    rules,
                    chain.last().name,
                    built,
                    direction,
                    packet,
                );
            },
            None => {},
        }
    }
}

proof fn lemma_with_default(
    start: Seq<RuleModel>,
    chain: Seq<Link>,
    built: Direction,
    direction: Direction,
    packet: Packet,
)
    requires
        packet.protocol !is Tcp,
    ensures
        firewall_says(with_default(start, chain, built), direction, packet) == (if firewall_says(
            start,
            direction,
            packet,
        ) is Some || built != direction {
            firewall_says(start, direction, packet)
        } else {
            match chain_says(chain, direction, packet) {
                Some(action) => Some(firewall_action(action)),
                None => if configures(chain, direction) {
                    Some(RuleAction::Deny)
                } else {
                    None
                },
            }
        }),
{
    lemma_with_chain(start, chain, built, direction, packet);
    let rules = with_chain(start, chain, built);
    if configures(chain, built) {
        let last = catch_all(
            super::chain::DEFAULT_DENY@,
            RuleAction::Deny,
            firewall_direction(built),
            priority_at(rules.len()),
        );
        lemma_catch_all_fires(
            super::chain::DEFAULT_DENY@,
            RuleAction::Deny,
            built,
            priority_at(rules.len()),
            packet,
        );
        lemma_says_push(rules, last, direction, packet);
    }
}

/// The firewall rules of a chain decide over every packet that is not TCP as the
/// chain itself does: by the first rule that speaks of it, and by a refusal where
/// none does but the direction is configured, or where a policy is not there.
pub proof fn law_firewall_decides_as_the_chain(
    chain: Seq<Link>,
    direction: Direction,
    packet: Packet,
)
    requires
        packet.protocol !is Tcp,
    ensures
        firewall_says(chain_model(chain), direction, packet) == packet_verdict(
            chain,
            direction,
            packet,
        ),
{
    let empty = Seq::<RuleModel>::empty();
    match first_missing(chain, 0) {
        Some(i) => {
            let name = chain[i as int].name;
            let full = name + "/"@ + super::chain::POLICY_UNAVAILABLE@;
            let first = catch_all(
                full,
                RuleAction::Deny,
                firewall_direction(Direction::Inbound),
                0,
            );
            let second = catch_all(
                full,
                RuleAction::Deny,
                firewall_direction(Direction::Outbound),
                1,
            );
            lemma_catch_all_fires(full, RuleAction::Deny, Direction::Inbound, 0, packet);
            lemma_catch_all_fires(full, RuleAction::Deny, Direction::Outbound, 1, packet);
            lemma_says_push(empty, first, direction, packet);
            lemma_says_push(empty.push(first), second, direction, packet);
            assert(empty.push(first).push(second) =~= unavailable(name));
        },
        None => {
            let inbound = with_default(empty, chain, Direction::Inbound);
            lemma_with_default(empty, chain, Direction::Inbound, direction, packet);
            lemma_with_default(inbound, chain, Direction::Outbound, direction, packet);
        },
    }
}

/// A policy that is not there refuses every connection, wherever in the chain it
/// stands.
pub proof fn law_missing_policy_refuses(chain: Seq<Link>, conn: Connection, i: int)
    requires
        0 <= i < chain.len(),
        chain[i].policy is None,
    ensures
        chain_verdict(chain, conn) is Err,
{
    lemma_missing_is_found(chain, 0, i);
}

proof fn lemma_missing_is_found(chain: Seq<Link>, from: nat, i: int)
    requires
        from <= i < chain.len(),
        chain[i].policy is None,
    ensures
        first_missing(chain, from) is Some,
    decreases i - from,
{
    if chain[from as int].policy is Some {
        lemma_missing_is_found(chain, from + 1, i);
    }
}

spec fn numbered(rules: Seq<RuleModel>) -> bool {
    forall|i: int|
        0 <= i < rules.len() ==> (#[trigger] rules[i]).priority == priority_at(i as nat)
}

proof fn lemma_rules_numbered(
    start: Seq<RuleModel>,
    rules: Seq<Rule>,
    name: Seq<char>,
    direction: Direction,
)
    requires
        numbered(start),
    ensures
        numbered(with_rules(start, rules, name, direction)),
    decreases rules.len(),
{
    if rules.len() > 0 {
        lemma_rules_numbered(start, rules.drop_last(), name, direction);
    }
}

proof fn lemma_chain_numbered(start: Seq<RuleModel>, chain: Seq<Link>, direction: Direction)
    requires
        numbered(start),
    ensures
        numbered(with_chain(start, chain, direction)),
        numbered(with_default(start, chain, direction)),
    decreases chain.len(),
{
    if chain.len() > 0 {
        lemma_chain_numbered(start, chain.drop_last(), direction);
        let so_far = with_chain(start, chain.drop_last(), direction);
        match link_rules(chain.last(), direction) {
            Some(rules) => {
                lemma_rules_numbered(so_far, rules, chain.last().name, direction);
            },
            None => {},
        }
    }
}

proof fn lemma_ascending_is_ordered(rules: Seq<FirewallRule>)
    requires
        forall|i: int, j: int|
            #![trigger rules[i], rules[j]]
            0 <= i < j < rules.len() ==> rules[i].priority < rules[j].priority,
    ensures
        ordered(rules) == rules,
    decreases rules.len(),
{
    if rules.len() > 0 {
        let short = rules.drop_last();
        assert forall|i: int, j: int|
            #![trigger short[i], short[j]]
            0 <= i < j < short.len() implies short[i].priority < short[j].priority by {
            assert(rules[i].priority < rules[j].priority);
        }
        lemma_ascending_is_ordered(short);
        if short.len() > 0 {
            assert(rules[short.len() - 1].priority < rules[short.len() as int].priority);
            assert(!before(rules.last(), short.last()));
        }
        assert(place(short, rules.last()) =~= rules);
    } else {
        assert(rules =~= Seq::empty());
    }
}

/// The backends order rules by priority and name; that keeps the rules of a chain
/// in the order of the chain.
pub proof fn law_order_of_the_chain_is_kept(rules: Seq<FirewallRule>, chain: Seq<Link>)
    requires
        rule_models(rules) == chain_model(chain),
        rules.len() <= i32::MAX,
    ensures
        ordered(rules) == rules,
{
    let empty = Seq::<RuleModel>::empty();
    assert(numbered(empty));
    lemma_chain_numbered(empty, chain, Direction::Inbound);
    lemma_chain_numbered(
        with_default(empty, chain, Direction::Inbound),
        chain,
        Direction::Outbound,
    );
    assert(numbered(chain_model(chain)));
    assert forall|i: int, j: int|
        #![trigger rules[i], rules[j]]
        0 <= i < j < rules.len() implies rules[i].priority < rules[j].priority by {
        assert(rule_models(rules)[i] == rules[i]@);
        assert(rule_models(rules)[j] == rules[j]@);
        assert(chain_model(chain)[i].priority == priority_at(i as nat));
        assert(chain_model(chain)[j].priority == priority_at(j as nat));
    }
    lemma_ascending_is_ordered(rules);
}

proof fn lemma_ports_fit(ports: Seq<PortMatch>, messages: Seq<PortMatchMessage>)
    requires
        ports_are(ports, messages),
        ports_fault(messages) is None,
    ensures
        ports_unfit(ports) is None,
    decreases ports.len(),
{
    if ports.len() > 0 {
        assert(port_is(ports[0], messages[0]));
        assert(port_fault(messages[0]) is None);
        let rest = ports.drop_first();
        let sent = messages.drop_first();
        assert forall|i: int| #![trigger rest[i]] 0 <= i < rest.len() implies port_is(
            rest[i],
            sent[i],
        ) by {
            assert(rest[i] == ports[i + 1]);
        }
        lemma_ports_fit(rest, sent);
    }
}

proof fn lemma_no_fault(messages: Seq<RuleMessage>, from: nat, i: int)
    requires
        rules_fault(messages, from) is None,
        from <= i < messages.len(),
    ensures
        rule_fault(messages[i]) is None,
    decreases i - from,
{
    if from < i {
        lemma_no_fault(messages, from + 1, i);
    }
}

proof fn lemma_rules_fit(rules: Seq<Rule>, all: Seq<Rule>, messages: Seq<RuleMessage>, from: int)
    requires
        0 <= from <= all.len(),
        rules == all.skip(from),
        rules_are(all, messages),
        rules_fault(messages, 0) is None,
    ensures
        rules_unfit(rules) is None,
    decreases rules.len(),
{
    if rules.len() > 0 {
        assert(rules[0] == all[from]);
        assert(rule_is(all[from], messages[from]));
        lemma_no_fault(messages, 0, from);
        let m = messages[from].matches.unwrap();
        lemma_ports_fit(all[from].ports@, m.ports@);
        assert(rules.drop_first() =~= all.skip(from + 1));
        lemma_rules_fit(rules.drop_first(), all, messages, from + 1);
    }
}

/// A policy that is accepted from the control plane is also accepted from a file.
pub proof fn law_accepted_policy_is_valid(policy: TrafficPolicy, message: TrafficPolicyMessage)
    requires
        policy_fault(message) is None,
        policy_is(policy, message),
    ensures
        policy.unfit() is None,
{
    if policy.ingress is Some {
        let rules = policy.ingress.unwrap().rules@;
        assert(rules.skip(0) =~= rules);
        lemma_rules_fit(rules, rules, message.ingress.unwrap().rules@, 0);
    }
    if policy.egress is Some {
        let rules = policy.egress.unwrap().rules@;
        assert(rules.skip(0) =~= rules);
        lemma_rules_fit(rules, rules, message.egress.unwrap().rules@, 0);
    }
}

} // verus!
