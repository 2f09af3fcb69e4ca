//! What policies mean for TCP connections, in terms of addresses and ports alone.

use vstd::prelude::*;

use super::authorize::{authorization, workload_chain, ProxyRbacContext};
use super::chain::{
    chain_verdict, first_missing, policy_fault, port_unfit, ports_unfit, rules_unfit, verdict,
    Link, TrafficPolicy, TrafficPolicyMessage,
};
use super::policy::{
    address_fault, address_is, addresses_fault, first_rule, law_first_rule, port_fault, port_is,
    ports_fault, rule_fault, rule_is, rules_fault, AddressMessage, PolicyRule, PolicyRuleMessage,
    PortMatch, PortMatchMessage, Rule, RuleError, RuleMessage,
};
use super::{Connection, Direction};
use crate::firewall::types::address_passes;
use crate::net::{
    address_of, in_block, law_first_address_keeps_the_network, law_network_is_a_block_of_addresses,
    law_bytes_write_an_address, lies_in, IpAddr, IpNet, SocketAddr,
};
use crate::state::store::ProxyState;
use crate::text::{decimal, opt_view, views};

verus! {

/// The address of an end of a connection.
pub open spec fn host(end: SocketAddr) -> IpAddr {
    match end {
        SocketAddr::V4 { ip, .. } => IpAddr::V4(ip),
        SocketAddr::V6 { ip, .. } => IpAddr::V6(ip),
    }
}

/// The port of an end of a connection.
pub open spec fn port(end: SocketAddr) -> u16 {
    match end {
        SocketAddr::V4 { port, .. } => port,
        SocketAddr::V6 { port, .. } => port,
    }
}

/// Whether the list is empty or has a network in which the address lies.
pub open spec fn lies_in_one(nets: Seq<IpNet>, ip: IpAddr) -> bool {
    nets.len() == 0 || exists|i: int| 0 <= i < nets.len() && lies_in(ip, #[trigger] nets[i])
}

/// Whether a TCP port is meant: the protocol is TCP or all of them, and the port lies
/// between the ends of the range, both included, where there is a range.
pub open spec fn means_tcp(ports: PortMatch, n: u16) -> bool {
    &&& ports.protocol is Tcp || ports.protocol is All
    &&& ports.range matches Some(range) ==> range.start <= n && n <= range.end
}

/// Whether a rule covers a TCP connection: by its source, its destination and the port
/// of its destination.
pub open spec fn covers(rule: Rule, conn: Connection) -> bool {
    &&& lies_in_one(rule.source_ips@, host(conn.src))
    &&& lies_in_one(rule.destination_ips@, host(conn.dst))
    &&& rule.ports@.len() == 0 || exists|i: int|
        0 <= i < rule.ports@.len() && means_tcp(#[trigger] rule.ports@[i], port(conn.dst))
}

/// Networks hold an address exactly where it lies in one of them, or there is none.
pub proof fn law_addresses_are_held_by_their_blocks(nets: Seq<IpNet>, ip: IpAddr)
    ensures
        address_passes(nets, ip) <==> lies_in_one(nets, ip),
{
    assert forall|i: int| 0 <= i < nets.len() implies nets[i].has(ip) == lies_in(
        ip,
        #[trigger] nets[i],
    ) by {
        law_network_is_a_block_of_addresses(nets[i], ip);
    }
    if nets.len() > 0 && address_passes(nets, ip) {
        let i = choose|i: int| 0 <= i < nets.len() && #[trigger] nets[i].has(ip);
        assert(lies_in(ip, nets[i]));
    }
    if nets.len() > 0 && lies_in_one(nets, ip) {
        let i = choose|i: int| 0 <= i < nets.len() && lies_in(ip, #[trigger] nets[i]);
        assert(nets[i].has(ip));
    }
}

/// Ports speak of a TCP port under the protocols TCP and ALL alike, and under no other;
/// a range speaks of the ports from its start to its end, and of no others.
pub proof fn law_tcp_ports(all: PortMatch, tcp: PortMatch, other: PortMatch, n: u16)
    requires
        all.protocol is All,
        tcp.protocol is Tcp,
        other.protocol is Udp || other.protocol is Sctp || other.protocol is Icmp,
        all.range == tcp.range,
    ensures
        all.has_tcp(n) == tcp.has_tcp(n),
        tcp.has_tcp(n) <==> (tcp.range matches Some(r) ==> r.start <= n <= r.end),
        !other.has_tcp(n),
{
}

/// A rule speaks of a TCP connection exactly where its source lies in one of the source
/// networks, its destination in one of the destination networks and the port of its
/// destination among the ports, each list standing for all where it is empty.
pub proof fn law_rule_speaks_of_what_it_covers(rule: Rule, conn: Connection)
    ensures
        rule.speaks_of(conn) <==> covers(rule, conn),
{
    law_addresses_are_held_by_their_blocks(rule.source_ips@, host(conn.src));
    law_addresses_are_held_by_their_blocks(rule.destination_ips@, host(conn.dst));
    let ports = rule.ports@;
    let n = port(conn.dst);
    assert forall|i: int| 0 <= i < ports.len() implies ports[i].has_tcp(n) == means_tcp(
        #[trigger] ports[i],
        n,
    ) by {
    }
    if exists|i: int| 0 <= i < ports.len() && #[trigger] ports[i].has_tcp(n) {
        let i = choose|i: int| 0 <= i < ports.len() && #[trigger] ports[i].has_tcp(n);
        assert(means_tcp(ports[i], n));
    }
    if exists|i: int| 0 <= i < ports.len() && means_tcp(#[trigger] ports[i], n) {
        let i = choose|i: int| 0 <= i < ports.len() && means_tcp(#[trigger] ports[i], n);
        assert(ports[i].has_tcp(n));
    }
}

/// A rule whose ports all name a range speaks of a connection only where the port of
/// its destination lies in one of the ranges.
pub proof fn law_ranges_limit_a_rule(rule: Rule, conn: Connection)
    requires
        rule.ports@.len() > 0,
        forall|i: int| 0 <= i < rule.ports@.len() ==> (#[trigger] rule.ports@[i]).range is Some,
        rule.speaks_of(conn),
    ensures
        exists|i: int|
            0 <= i < rule.ports@.len() && (#[trigger] rule.ports@[i]).range.unwrap().start <= port(
                conn.dst,
            ) <= rule.ports@[i].range.unwrap().end,
{
    law_rule_speaks_of_what_it_covers(rule, conn);
    let i = choose|i: int|
        0 <= i < rule.ports@.len() && means_tcp(#[trigger] rule.ports@[i], port(conn.dst));
    assert(rule.ports@[i].range is Some);
}

/// What came in as the ports of a rule means what was sent: the protocol by its number,
/// and one port, the ports from the first to the end, or all of them.
pub proof fn law_sent_ports_mean_what_they_say(ports: PortMatch, message: PortMatchMessage, n: u16)
    requires
        port_fault(message) is None,
        port_is(ports, message),
    ensures
        ports.has_tcp(n) <==> {
            &&& message.protocol == 0 || message.protocol == 1
            &&& match (message.port, message.end_port) {
                (None, None) => true,
                (Some(only), None) => n == only,
                (None, Some(end)) => 1 <= n <= end,
                (Some(start), Some(end)) => start <= n <= end,
            }
        },
{
}

/// Ports are accepted exactly where the protocol's number is known, the ports are not
/// zero and fit in sixteen bits, ICMP comes without any, and no range is reversed.
pub proof fn law_accepted_ports(message: PortMatchMessage)
    ensures
        port_fault(message) is None <==> {
            &&& 0 <= message.protocol <= 4
            &&& message.port matches Some(n) ==> 1 <= n <= 65535
            &&& message.end_port matches Some(n) ==> 1 <= n <= 65535
            &&& message.protocol == 3 ==> message.port is None && message.end_port is None
            &&& message.port is Some && message.end_port is Some ==> message.port.unwrap()
                <= message.end_port.unwrap()
        },
{
}

/// What came in as a network is a network of the same family that holds the address
/// that was sent, and holds every address that agrees with it but for the bits that the
/// sent length leaves open.
pub proof fn law_sent_networks_mean_what_they_say(net: IpNet, message: AddressMessage, ip: IpAddr)
    requires
        address_fault(message) is None,
        address_is(net, message),
    ensures
        match (address_of(message.address@).unwrap(), ip) {
            (IpAddr::V4(sent), IpAddr::V4(n)) => net.has(ip) <==> in_block(
                n as nat,
                sent as nat,
                (32 - message.length) as nat,
            ),
            (IpAddr::V6(sent), IpAddr::V6(n)) => net.has(ip) <==> in_block(
                n as nat,
                sent as nat,
                (128 - message.length) as nat,
            ),
            _ => !net.has(ip),
        },
        address_of(message.address@) is Some,
        message.length <= address_of(message.address@).unwrap().width(),
{
    let sent = address_of(message.address@).unwrap();
    let bits = (sent.width() - message.length) as nat;
    law_first_address_keeps_the_network(sent.number(), ip.number(), bits);
    crate::net::lemma_prefix_is_block(sent.number(), ip.number(), bits);
}

/// What came in as a rule speaks of the connections that were meant, and does to them
/// what was sent: number zero allows and number one refuses.
pub proof fn law_sent_rules_do_what_they_say(rule: Rule, message: RuleMessage)
    requires
        rule_fault(message) is None,
        rule_is(rule, message),
    ensures
        rule.action is Allow <==> message.action == 0,
        rule.action is Deny <==> message.action == 1,
        rule.source_ips@.len() == message.matches.unwrap().source_ips@.len(),
        rule.destination_ips@.len() == message.matches.unwrap().destination_ips@.len(),
        rule.ports@.len() == message.matches.unwrap().ports@.len(),
        message.matches is Some,
{
}

/// The rules of a policy for one direction: what comes in is a matter of ingress, what
/// goes out a matter of egress.
pub open spec fn rules_toward(policy: TrafficPolicy, direction: Direction) -> Option<Seq<Rule>> {
    let own = if direction is Inbound {
        policy.ingress
    } else {
        policy.egress
    };
    match own {
        Some(own) => Some(own.rules@),
        None => None,
    }
}

/// All rules of a chain for one direction, in order.
pub open spec fn rules_in_order(chain: Seq<Link>, direction: Direction) -> Seq<Rule>
    decreases chain.len(),
{
    if chain.len() == 0 {
        Seq::empty()
    } else {
        (match chain[0].policy {
            Some(policy) => match rules_toward(policy, direction) {
                Some(rules) => rules,
                None => Seq::empty(),
            },
            None => Seq::empty(),
        }) + rules_in_order(chain.drop_first(), direction)
    }
}

/// Whether some policy of a chain has rules for the direction, be they none.
pub open spec fn speaks_toward(chain: Seq<Link>, direction: Direction) -> bool {
    exists|i: int|
        0 <= i < chain.len() && (#[trigger] chain[i]).policy is Some && rules_toward(
            chain[i].policy.unwrap(),
            direction,
        ) is Some
}

/// Whether the rule is the first of all to cover the connection.
pub open spec fn first_to_cover(rules: Seq<Rule>, conn: Connection, i: int) -> bool {
    &&& 0 <= i < rules.len()
    &&& covers(rules[i], conn)
    &&& forall|k: int| 0 <= k < i ==> !covers(#[trigger] rules[k], conn)
}

/// Whether the rules let the connection pass: the first that covers it allows it, or
/// none covers it and nobody asked for rules.
pub open spec fn lets_pass(rules: Seq<Rule>, asked: bool, conn: Connection) -> bool {
    ||| exists|i: int| #[trigger] first_to_cover(rules, conn, i) && rules[i].action is Allow
    ||| !asked && forall|i: int| 0 <= i < rules.len() ==> !covers(#[trigger] rules[i], conn)
}

pub proof fn lemma_first_is_unique(rules: Seq<Rule>, conn: Connection, i: int, j: int)
    requires
        first_to_cover(rules, conn, i),
        first_to_cover(rules, conn, j),
    ensures
        i == j,
{
    if i < j {
        assert(!covers(rules[i], conn));
    } else if j < i {
        assert(!covers(rules[j], conn));
    }
}

pub proof fn lemma_lets_pass_append(a: Seq<Rule>, b: Seq<Rule>, asked: bool, conn: Connection)
    ensures
        (exists|i: int| #[trigger] first_to_cover(a, conn, i)) ==> lets_pass(a + b, asked, conn)
            == (exists|i: int| #[trigger]
            first_to_cover(a, conn, i) && a[i].action is Allow),
        (forall|i: int| 0 <= i < a.len() ==> !covers(#[trigger] a[i], conn)) ==> lets_pass(
            a + b,
            asked,
            conn,
        ) == lets_pass(b, asked, conn),
{
    let all = a + b;
    if exists|i: int| #[trigger] first_to_cover(a, conn, i) {
        let i = choose|i: int| #[trigger] first_to_cover(a, conn, i);
        assert(all[i] == a[i]);
        assert forall|k: int| 0 <= k < i implies !covers(#[trigger] all[k], conn) by {
            assert(all[k] == a[k]);
        }
        assert(first_to_cover(all, conn, i));
        if lets_pass(all, asked, conn) {
            if exists|j: int| #[trigger] first_to_cover(all, conn, j) && all[j].action is Allow {
                let j = choose|j: int| #[trigger]
                    first_to_cover(all, conn, j) && all[j].action is Allow;
                lemma_first_is_unique(all, conn, i, j);
            } else {
                assert(!covers(all[i], conn));
            }
        }
        if exists|j: int| #[trigger] first_to_cover(a, conn, j) && a[j].action is Allow {
            let j = choose|j: int| #[trigger] first_to_cover(a, conn, j) && a[j].action is Allow;
            lemma_first_is_unique(a, conn, i, j);
        }
    }
    if forall|i: int| 0 <= i < a.len() ==> !covers(#[trigger] a[i], conn) {
        let n = a.len() as int;
        if exists|j: int| #[trigger] first_to_cover(b, conn, j) && b[j].action is Allow {
            let j = choose|j: int| #[trigger] first_to_cover(b, conn, j) && b[j].action is Allow;
            assert(all[n + j] == b[j]);
            assert forall|k: int| 0 <= k < n + j implies !covers(#[trigger] all[k], conn) by {
                if k < n {
                    assert(all[k] == a[k]);
                } else {
                    assert(all[k] == b[k - n]);
                }
            }
            assert(first_to_cover(all, conn, n + j));
        }
        if exists|j: int| #[trigger] first_to_cover(all, conn, j) && all[j].action is Allow {
            let j = choose|j: int| #[trigger]
                first_to_cover(all, conn, j) && all[j].action is Allow;
            if j < n {
                assert(all[j] == a[j]);
            }
            assert(all[j] == b[j - n]);
            assert forall|k: int| 0 <= k < j - n implies !covers(#[trigger] b[k], conn) by {
                assert(all[n + k] == b[k]);
            }
            assert(first_to_cover(b, conn, j - n));
        }
        if forall|i: int| 0 <= i < b.len() ==> !covers(#[trigger] b[i], conn) {
            assert forall|k: int| 0 <= k < all.len() implies !covers(#[trigger] all[k], conn) by {
                if k < n {
                    assert(all[k] == a[k]);
                } else {
                    assert(all[k] == b[k - n]);
                }
            }
        }
        if forall|i: int| 0 <= i < all.len() ==> !covers(#[trigger] all[i], conn) {
            assert forall|k: int| 0 <= k < b.len() implies !covers(#[trigger] b[k], conn) by {
                assert(all[n + k] == b[k]);
            }
        }
    }
}

pub proof fn lemma_first_rule_covers(rules: Seq<Rule>, conn: Connection)
    ensures
        match first_rule(rules, conn, 0) {
            Some(i) => first_to_cover(rules, conn, i as int),
            None => forall|i: int| 0 <= i < rules.len() ==> !covers(#[trigger] rules[i], conn),
        },
{
    law_first_rule(rules, conn, 0);
    assert forall|i: int| 0 <= i < rules.len() implies covers(#[trigger] rules[i], conn)
        == rules[i].speaks_of(conn) by {
        law_rule_speaks_of_what_it_covers(rules[i], conn);
    }
}

proof fn lemma_verdict(chain: Seq<Link>, conn: Connection, from: nat, configured: bool)
    requires
        from <= chain.len(),
        forall|i: int| 0 <= i < chain.len() ==> (#[trigger] chain[i]).policy is Some,
    ensures
        verdict(chain, conn, from, configured) is Ok <==> lets_pass(
            rules_in_order(chain.skip(from as int), conn.direction),
            configured || speaks_toward(chain.skip(from as int), conn.direction),
            conn,
        ),
    decreases chain.len() - from,
{
    let rest = chain.skip(from as int);
    if from < chain.len() {
        let policy = chain[from as int].policy.unwrap();
        let after = chain.skip(from as int + 1);
        assert(rest.drop_first() =~= after);
        assert(rest[0] == chain[from as int]);
        lemma_verdict(chain, conn, from + 1, configured);
        lemma_verdict(chain, conn, from + 1, true);
        if speaks_toward(after, conn.direction) {
            let i = choose|i: int|
                0 <= i < after.len() && (#[trigger] after[i]).policy is Some && rules_toward(
                    after[i].policy.unwrap(),
                    conn.direction,
                ) is Some;
            assert(rest[i + 1] == after[i]);
            assert(speaks_toward(rest, conn.direction));
        }
        if speaks_toward(rest, conn.direction) && rules_toward(policy, conn.direction) is None {
            let i = choose|i: int|
                0 <= i < rest.len() && (#[trigger] rest[i]).policy is Some && rules_toward(
                    rest[i].policy.unwrap(),
                    conn.direction,
                ) is Some;
            assert(after[i - 1] == rest[i]);
            assert(speaks_toward(after, conn.direction));
        }
        let later = rules_in_order(after, conn.direction);
        match rules_toward(policy, conn.direction) {
            None => {
                assert(rules_in_order(rest, conn.direction) =~= later);
            },
            Some(rules) => {
                assert(rules_toward(rest[0].policy.unwrap(), conn.direction) is Some);
                assert(speaks_toward(rest, conn.direction));
                lemma_first_rule_covers(rules, conn);
                lemma_lets_pass_append(rules, later, true, conn);
                match first_rule(rules, conn, 0) {
                    Some(i) => {
                        assert(first_to_cover(rules, conn, i as int));
                        if exists|j: int| #[trigger]
                            first_to_cover(rules, conn, j) && rules[j].action is Allow {
                            let j = choose|j: int| #[trigger]
                                first_to_cover(rules, conn, j) && rules[j].action is Allow;
                            lemma_first_is_unique(rules, conn, i as int, j);
                        }
                    },
                    None => {},
                }
            },
        }
    } else {
        assert(rest =~= Seq::empty());
    }
}

/// Of policies that are all there, the first rule that covers a connection decides,
/// over all policies in their order; without one the connection passes only where no
/// policy has rules for its direction. Rules for the other direction have no say.
pub proof fn law_first_covering_rule_decides(chain: Seq<Link>, conn: Connection)
    requires
        forall|i: int| 0 <= i < chain.len() ==> (#[trigger] chain[i]).policy is Some,
    ensures
        chain_verdict(chain, conn) is Ok <==> lets_pass(
            rules_in_order(chain, conn.direction),
            speaks_toward(chain, conn.direction),
            conn,
        ),
        verdict(chain, conn, 0, false) is Ok <==> lets_pass(
            rules_in_order(chain, conn.direction),
            speaks_toward(chain, conn.direction),
            conn,
        ),
{
    assert(chain.skip(0) =~= chain);
    lemma_verdict(chain, conn, 0, false);
    lemma_none_missing(chain, 0);
}

proof fn lemma_none_missing(chain: Seq<Link>, from: nat)
    requires
        forall|i: int| 0 <= i < chain.len() ==> (#[trigger] chain[i]).policy is Some,
    ensures
        first_missing(chain, from) is None,
    decreases chain.len() - from,
{
    if from < chain.len() {
        lemma_none_missing(chain, from + 1);
    }
}

/// A connection that no rule covers is refused as soon as one policy has rules for its
/// direction, and one that is covered by refusals alone is refused too.
pub proof fn law_nothing_passes_uncovered(chain: Seq<Link>, conn: Connection, i: int)
    requires
        forall|k: int| 0 <= k < chain.len() ==> (#[trigger] chain[k]).policy is Some,
        0 <= i < chain.len(),
        rules_toward(chain[i].policy.unwrap(), conn.direction) is Some,
        forall|k: int|
            0 <= k < rules_in_order(chain, conn.direction).len() && covers(
                #[trigger] rules_in_order(chain, conn.direction)[k],
                conn,
            ) ==> rules_in_order(chain, conn.direction)[k].action is Deny,
    ensures
        chain_verdict(chain, conn) is Err,
        verdict(chain, conn, 0, false) is Err,
{
    law_first_covering_rule_decides(chain, conn);
    assert(speaks_toward(chain, conn.direction));
}

/// The policies that names lead to, all of which are there.
pub open spec fn policies_named(
    names: Seq<Seq<char>>,
    policies: Map<Seq<char>, TrafficPolicy>,
    chain: Seq<Link>,
) -> bool {
    &&& chain.len() == names.len()
    &&& forall|i: int|
        0 <= i < chain.len() ==> (#[trigger] chain[i]).policy == Some(policies[names[i]])
}

/// A connection of a sandbox passes exactly where two chains of policies both let it
/// pass: the sandbox's own policy with those that the sandbox names behind it, and
/// those that the workload names, as it is known now.
pub proof fn law_who_may_connect(
    state: ProxyState,
    ctx: ProxyRbacContext,
    uid: Seq<char>,
    first: Seq<Link>,
    second: Seq<Link>,
)
    requires
        opt_view(ctx.sandbox) == Some(uid),
        state.sandboxes@.resources.dom().contains(uid),
        state.workloads@.dom().contains(ctx.workload.uid@),
        ({
            let sandbox = state.sandboxes@.resources[uid];
            let workload = state.workloads@[ctx.workload.uid@];
            let own = if sandbox.traffic_policy is Some {
                1int
            } else {
                0int
            };
            &&& forall|i: int|
                0 <= i < sandbox.traffic_policy_refs@.len() ==> state.policies@.dom().contains(
                    (#[trigger] sandbox.traffic_policy_refs@[i])@,
                )
            &&& forall|i: int|
                0 <= i < workload.traffic_policy_refs@.len() ==> state.policies@.dom().contains(
                    (#[trigger] workload.traffic_policy_refs@[i])@,
                )
            &&& first.len() == own + sandbox.traffic_policy_refs@.len()
            &&& own == 1 ==> first[0].policy == sandbox.traffic_policy
            &&& policies_named(
                views(sandbox.traffic_policy_refs@),
                state.policies@,
                first.skip(own),
            )
            &&& policies_named(views(workload.traffic_policy_refs@), state.policies@, second)
        }),
    ensures
        authorization(state, ctx) is Ok <==> {
            &&& lets_pass(
                rules_in_order(first, ctx.conn.direction),
                speaks_toward(first, ctx.conn.direction),
                ctx.conn,
            )
            &&& lets_pass(
                rules_in_order(second, ctx.conn.direction),
                speaks_toward(second, ctx.conn.direction),
                ctx.conn,
            )
        },
{
    let sandbox = state.sandboxes@.resources[uid];
    let workload = state.workloads@[ctx.workload.uid@];
    let own = if sandbox.traffic_policy is Some {
        1int
    } else {
        0int
    };
    let direction = ctx.conn.direction;
    let a = sandbox.spec_traffic_policies(state.policies@);
    let b = workload_chain(state.workloads@, state.policies@, ctx.workload);
    assert(a.len() == first.len());
    assert forall|i: int| 0 <= i < a.len() implies #[trigger] a[i].policy == first[i].policy
        && a[i].policy is Some by {
        if i >= own {
            assert(first.skip(own)[i - own] == first[i]);
            assert(state.policies@.dom().contains(sandbox.traffic_policy_refs@[i - own]@));
        }
    }
    assert forall|i: int| 0 <= i < b.len() implies #[trigger] b[i].policy == second[i].policy
        && b[i].policy is Some by {
        assert(state.policies@.dom().contains(workload.traffic_policy_refs@[i]@));
    }
    lemma_names_do_not_matter(a, first, direction);
    lemma_names_do_not_matter(b, second, direction);
    law_first_covering_rule_decides(a, ctx.conn);
    law_first_covering_rule_decides(b, ctx.conn);
}

proof fn lemma_names_do_not_matter(a: Seq<Link>, b: Seq<Link>, direction: Direction)
    requires
        a.len() == b.len(),
        forall|i: int| 0 <= i < a.len() ==> #[trigger] a[i].policy == b[i].policy,
    ensures
        rules_in_order(a, direction) == rules_in_order(b, direction),
        speaks_toward(a, direction) == speaks_toward(b, direction),
    decreases a.len(),
{
    if a.len() > 0 {
        let x = a.drop_first();
        let y = b.drop_first();
        assert forall|i: int| 0 <= i < x.len() implies #[trigger] x[i].policy == y[i].policy by {
            assert(a[i + 1].policy == b[i + 1].policy);
        }
        lemma_names_do_not_matter(x, y, direction);
        assert(a[0].policy == b[0].policy);
    }
    if speaks_toward(a, direction) {
        let i = choose|i: int|
            0 <= i < a.len() && (#[trigger] a[i]).policy is Some && rules_toward(
                a[i].policy.unwrap(),
                direction,
            ) is Some;
        assert(b[i].policy == a[i].policy);
    }
    if speaks_toward(b, direction) {
        let i = choose|i: int|
            0 <= i < b.len() && (#[trigger] b[i]).policy is Some && rules_toward(
                b[i].policy.unwrap(),
                direction,
            ) is Some;
        assert(a[i].policy == b[i].policy);
    }
}

/// Whether a network can be read: an address of four bytes with at most thirty-two bits
/// set apart, or one of sixteen with at most one hundred and twenty-eight.
pub open spec fn readable_network(message: AddressMessage) -> bool {
    ||| message.address@.len() == 4 && message.length <= 32
    ||| message.address@.len() == 16 && message.length <= 128
}

/// Whether ports can be read.
pub open spec fn readable_ports(message: PortMatchMessage) -> bool {
    &&& 0 <= message.protocol <= 4
    &&& message.port matches Some(n) ==> 1 <= n <= 65535
    &&& message.end_port matches Some(n) ==> 1 <= n <= 65535
    &&& message.protocol == 3 ==> message.port is None && message.end_port is None
    &&& message.port is Some && message.end_port is Some ==> message.port.unwrap()
        <= message.end_port.unwrap()
}

/// Whether a rule can be read: it allows or refuses, it says what it is about, and all
/// of that can be read.
pub open spec fn readable_rule(message: RuleMessage) -> bool {
    &&& message.action == 0 || message.action == 1
    &&& message.matches matches Some(m) && {
        &&& forall|i: int|
            0 <= i < m.source_ips@.len() ==> readable_network(#[trigger] m.source_ips@[i])
        &&& forall|i: int|
            0 <= i < m.destination_ips@.len() ==> readable_network(#[trigger] m.destination_ips@[i])
        &&& forall|i: int| 0 <= i < m.ports@.len() ==> readable_ports(#[trigger] m.ports@[i])
    }
}

/// Whether all rules of a direction can be read.
pub open spec fn readable_direction(message: Option<PolicyRuleMessage>) -> bool {
    message matches Some(m) ==> forall|i: int|
        0 <= i < m.rules@.len() ==> readable_rule(#[trigger] m.rules@[i])
}

/// A network is accepted exactly where it can be read.
pub proof fn law_accepted_networks(message: AddressMessage)
    ensures
        address_fault(message) is None <==> readable_network(message),
{
}

proof fn lemma_accepted_network_list(messages: Seq<AddressMessage>)
    ensures
        addresses_fault(messages) is None <==> forall|i: int|
            0 <= i < messages.len() ==> readable_network(#[trigger] messages[i]),
    decreases messages.len(),
{
    if messages.len() > 0 {
        let rest = messages.drop_first();
        lemma_accepted_network_list(rest);
        law_accepted_networks(messages[0]);
        if forall|i: int| 0 <= i < rest.len() ==> readable_network(#[trigger] rest[i]) {
            assert forall|i: int| 1 <= i < messages.len() implies readable_network(
                #[trigger] messages[i],
            ) by {
                assert(rest[i - 1] == messages[i]);
            }
        }
        if forall|i: int| 0 <= i < messages.len() ==> readable_network(#[trigger] messages[i]) {
            assert forall|i: int| 0 <= i < rest.len() implies readable_network(
                #[trigger] rest[i],
            ) by {
                assert(rest[i] == messages[i + 1]);
            }
        }
    }
}

proof fn lemma_accepted_port_list(messages: Seq<PortMatchMessage>)
    ensures
        ports_fault(messages) is None <==> forall|i: int|
            0 <= i < messages.len() ==> readable_ports(#[trigger] messages[i]),
    decreases messages.len(),
{
    if messages.len() > 0 {
        let rest = messages.drop_first();
        lemma_accepted_port_list(rest);
        law_accepted_ports(messages[0]);
        if forall|i: int| 0 <= i < rest.len() ==> readable_ports(#[trigger] rest[i]) {
            assert forall|i: int| 1 <= i < messages.len() implies readable_ports(
                #[trigger] messages[i],
            ) by {
                assert(rest[i - 1] == messages[i]);
            }
        }
        if forall|i: int| 0 <= i < messages.len() ==> readable_ports(#[trigger] messages[i]) {
            assert forall|i: int| 0 <= i < rest.len() implies readable_ports(
                #[trigger] rest[i],
            ) by {
                assert(rest[i] == messages[i + 1]);
            }
        }
    }
}

/// A rule is accepted exactly where it can be read.
pub proof fn law_accepted_rules(message: RuleMessage)
    ensures
        rule_fault(message) is None <==> readable_rule(message),
{
    if let Some(m) = message.matches {
        lemma_accepted_network_list(m.source_ips@);
        lemma_accepted_network_list(m.destination_ips@);
        lemma_accepted_port_list(m.ports@);
    }
}

/// Of rules that are sent, the first that cannot be read is the one that is told; where
/// none is told, all can be read.
pub proof fn law_first_unreadable_rule_is_told(messages: Seq<RuleMessage>, from: nat)
    requires
        from <= messages.len(),
    ensures
        match rules_fault(messages, from) {
            Some((i, _)) => {
                &&& from <= i < messages.len()
                &&& !readable_rule(messages[i as int])
                &&& forall|k: int| from <= k < i ==> readable_rule(#[trigger] messages[k])
            },
            None => forall|k: int|
                from <= k < messages.len() ==> readable_rule(#[trigger] messages[k]),
        },
    decreases messages.len() - from,
{
    if from < messages.len() {
        law_accepted_rules(messages[from as int]);
        law_first_unreadable_rule_is_told(messages, from + 1);
    }
}

/// A policy is accepted exactly where all of its rules can be read. Otherwise the first
/// rule that cannot is told, with its direction; what comes in is looked at first.
pub proof fn law_accepted_policies(message: TrafficPolicyMessage)
    ensures
        policy_fault(message) is None <==> readable_direction(message.ingress)
            && readable_direction(message.egress),
        policy_fault(message) matches Some(fault) ==> fault.direction == (if readable_direction(
            message.ingress,
        ) {
            Direction::Outbound
        } else {
            Direction::Inbound
        }),
{
    if let Some(m) = message.ingress {
        law_first_unreadable_rule_is_told(m.rules@, 0);
    }
    if let Some(m) = message.egress {
        law_first_unreadable_rule_is_told(m.rules@, 0);
    }
}

/// Whether the ports are such as can be sent: a range starts above zero and is not
/// reversed, and ICMP has none.
pub open spec fn sound_ports(ports: PortMatch) -> bool {
    ports.range matches Some(range) ==> 1 <= range.start && range.start <= range.end
        && ports.protocol !is Icmp
}

/// Whether all ports of all rules are such as can be sent.
pub open spec fn sound_rules(rules: Option<PolicyRule>) -> bool {
    rules matches Some(rules) ==> forall|i: int, k: int|
        0 <= i < rules.rules@.len() && 0 <= k < rules.rules@[i].ports@.len() ==> sound_ports(
            #[trigger] rules.rules@[i].ports@[k],
        )
}

proof fn lemma_sound_ports(ports: Seq<PortMatch>)
    ensures
        ports_unfit(ports) is None <==> forall|k: int|
            0 <= k < ports.len() ==> sound_ports(#[trigger] ports[k]),
    decreases ports.len(),
{
    if ports.len() > 0 {
        let rest = ports.drop_first();
        lemma_sound_ports(rest);
        if forall|k: int| 0 <= k < rest.len() ==> sound_ports(#[trigger] rest[k]) {
            assert forall|k: int| 1 <= k < ports.len() implies sound_ports(#[trigger] ports[k]) by {
                assert(rest[k - 1] == ports[k]);
            }
        }
        if forall|k: int| 0 <= k < ports.len() ==> sound_ports(#[trigger] ports[k]) {
            assert forall|k: int| 0 <= k < rest.len() implies sound_ports(#[trigger] rest[k]) by {
                assert(rest[k] == ports[k + 1]);
            }
        }
    }
}

proof fn lemma_sound_rules(rules: Seq<Rule>)
    ensures
        rules_unfit(rules) is None <==> forall|i: int, k: int|
            0 <= i < rules.len() && 0 <= k < rules[i].ports@.len() ==> sound_ports(
                #[trigger] rules[i].ports@[k],
            ),
    decreases rules.len(),
{
    if rules.len() > 0 {
        let rest = rules.drop_first();
        lemma_sound_rules(rest);
        lemma_sound_ports(rules[0].ports@);
        if rules_unfit(rules) is None {
            assert forall|i: int, k: int|
                0 <= i < rules.len() && 0 <= k < rules[i].ports@.len() implies sound_ports(
                #[trigger] rules[i].ports@[k],
            ) by {
                if i > 0 {
                    assert(rest[i - 1] == rules[i]);
                    assert(sound_ports(rest[i - 1].ports@[k]));
                }
            }
        }
        if forall|i: int, k: int|
            0 <= i < rules.len() && 0 <= k < rules[i].ports@.len() ==> sound_ports(
                #[trigger] rules[i].ports@[k],
            ) {
            assert forall|i: int, k: int|
                0 <= i < rest.len() && 0 <= k < rest[i].ports@.len() implies sound_ports(
                #[trigger] rest[i].ports@[k],
            ) by {
                assert(rest[i] == rules[i + 1]);
                assert(sound_ports(rules[i + 1].ports@[k]));
            }
            assert forall|k: int| 0 <= k < rules[0].ports@.len() implies sound_ports(
                #[trigger] rules[0].ports@[k],
            ) by {
            }
        }
    }
}

/// A policy is valid exactly where the ports of all its rules are such as can be sent.
pub proof fn law_valid_policies(policy: TrafficPolicy)
    ensures
        policy.unfit() is None <==> sound_rules(policy.ingress) && sound_rules(policy.egress),
{
    if let Some(rules) = policy.ingress {
        lemma_sound_rules(rules.rules@);
    }
    if let Some(rules) = policy.egress {
        lemma_sound_rules(rules.rules@);
    }
}

/// Whether none of a policy's rules for the direction covers the connection.
pub open spec fn passes_over(link: Link, conn: Connection) -> bool {
    &&& link.policy is Some
    &&& rules_toward(link.policy.unwrap(), conn.direction) matches Some(rules) ==> forall|k: int|
        0 <= k < rules.len() ==> !covers(#[trigger] rules[k], conn)
}

/// Whether the rule at this position refuses the connection: it is the first of the
/// policy's rules to cover it, and it denies.
pub open spec fn refuses_at(link: Link, conn: Connection, k: int) -> bool {
    &&& link.policy is Some
    &&& rules_toward(link.policy.unwrap(), conn.direction) matches Some(rules) && first_to_cover(
        rules,
        conn,
        k,
    ) && rules[k].action is Deny
}

proof fn lemma_refusal(chain: Seq<Link>, conn: Connection, from: nat, configured: bool)
    requires
        from <= chain.len(),
        forall|i: int| 0 <= i < chain.len() ==> (#[trigger] chain[i]).policy is Some,
    ensures
        verdict(chain, conn, from, configured) matches Err((policy, rule)) ==> ((exists|
            i: int,
            k: int,
        |
            from <= i < chain.len() && #[trigger] refuses_at(chain[i], conn, k) && policy
                == chain[i].name && rule == "rule-"@ + decimal(k as nat) && forall|j: int|
                from <= j < i ==> passes_over(#[trigger] chain[j], conn)) || (rule == "DEFAULT-DENY"@
            && policy.len() == 0 && forall|j: int|
            from <= j < chain.len() ==> passes_over(#[trigger] chain[j], conn))),
    decreases chain.len() - from,
{
    if from < chain.len() {
        let link = chain[from as int];
        let policy = link.policy.unwrap();
        lemma_refusal(chain, conn, from + 1, configured);
        lemma_refusal(chain, conn, from + 1, true);
        let next = match policy.rules_for(conn.direction) {
            None => configured,
            Some(_) => true,
        };
        if let Some(rules) = rules_toward(policy, conn.direction) {
            lemma_first_rule_covers(rules, conn);
        }
        if verdict(chain, conn, from, configured) is Err {
            let told = verdict(chain, conn, from, configured)->Err_0;
            if passes_over(link, conn) {
                assert(verdict(chain, conn, from + 1, next) == verdict(
                    chain,
                    conn,
                    from,
                    configured,
                ));
                if exists|i: int, k: int|
                    from + 1 <= i < chain.len() && #[trigger] refuses_at(chain[i], conn, k)
                        && told.0 == chain[i].name && told.1 == "rule-"@ + decimal(k as nat)
                        && forall|j: int| from + 1 <= j < i ==> passes_over(#[trigger] chain[j], conn) {
                    let (i, k) = choose|i: int, k: int|
                        from + 1 <= i < chain.len() && #[trigger] refuses_at(chain[i], conn, k)
                            && told.0 == chain[i].name && told.1 == "rule-"@ + decimal(k as nat)
                            && forall|j: int|
                            from + 1 <= j < i ==> passes_over(#[trigger] chain[j], conn);
                    assert(forall|j: int| from <= j < i ==> passes_over(#[trigger] chain[j], conn));
                    assert(refuses_at(chain[i], conn, k));
                }
            } else {
                let rules = rules_toward(policy, conn.direction).unwrap();
                let k = first_rule(rules, conn, 0).unwrap();
                assert(refuses_at(chain[from as int], conn, k as int));
            }
        }
    }
}

/// A refusal tells who refuses: the policy by its name and its rule by its position,
/// where that rule is the first of all to cover the connection; the refusal at the end,
/// where no rule covers it. A policy that is not there is told before anything else.
pub proof fn law_refusal_tells_who_refuses(chain: Seq<Link>, conn: Connection)
    ensures
        chain_verdict(chain, conn) matches Err((policy, rule)) ==> {
            ||| exists|i: int|
                0 <= i < chain.len() && (#[trigger] chain[i]).policy is None && policy
                    == chain[i].name && rule == "policy-unavailable"@ && forall|j: int|
                    0 <= j < i ==> (#[trigger] chain[j]).policy is Some
            ||| exists|i: int, k: int|
                0 <= i < chain.len() && #[trigger] refuses_at(chain[i], conn, k) && policy
                    == chain[i].name && rule == "rule-"@ + decimal(k as nat) && forall|j: int|
                    0 <= j < i ==> passes_over(#[trigger] chain[j], conn)
            ||| rule == "DEFAULT-DENY"@ && policy.len() == 0 && forall|j: int|
                0 <= j < chain.len() ==> passes_over(#[trigger] chain[j], conn)
        },
{
    lemma_first_missing(chain, 0);
    if first_missing(chain, 0) is None {
        lemma_refusal(chain, conn, 0, false);
    }
}

proof fn lemma_first_missing(chain: Seq<Link>, from: nat)
    ensures
        match first_missing(chain, from) {
            Some(i) => from <= i < chain.len() && chain[i as int].policy is None && forall|j: int|
                from <= j < i ==> (#[trigger] chain[j]).policy is Some,
            None => forall|j: int| from <= j < chain.len() ==> (#[trigger] chain[j]).policy is Some,
        },
    decreases chain.len() - from,
{
    if from < chain.len() && chain[from as int].policy is Some {
        lemma_first_missing(chain, from + 1);
    }
}

/// Whether the network has this fault: its address has neither four nor sixteen bytes, or
/// it fixes more bits than the address has.
pub open spec fn network_has(message: AddressMessage, fault: RuleError) -> bool {
    match fault {
        RuleError::AddressBytes => message.address@.len() != 4 && message.address@.len() != 16,
        RuleError::PrefixLength(length) => {
            &&& length == message.length
            &&& (message.address@.len() == 4 && length > 32) || (message.address@.len() == 16
                && length > 128)
        },
        _ => false,
    }
}

/// Whether the ports have this fault: a protocol that is none, a port that is none, a port
/// of ICMP, or an end before the start.
pub open spec fn ports_have(message: PortMatchMessage, fault: RuleError) -> bool {
    match fault {
        RuleError::UnknownProtocol(number) => number == message.protocol && !(0 <= number <= 4),
        RuleError::Port(port) => (message.port == Some(port) || message.end_port == Some(port)) && (
        port == 0 || port > 65535),
        RuleError::PortOfIcmp => message.protocol == 3 && (message.port is Some || message.end_port
            is Some),
        RuleError::ReversedRange => message.port is Some && message.end_port is Some
            && message.port.unwrap() > message.end_port.unwrap(),
        _ => false,
    }
}

/// The fault that is told of a network is one that it has.
pub proof fn law_faults_of_networks(message: AddressMessage)
    ensures
        address_fault(message) matches Some(fault) ==> network_has(message, fault),
{
    law_bytes_write_an_address(message.address@);
}

/// The fault that is told of ports is one that they have; a protocol that is none comes
/// before all others.
pub proof fn law_faults_of_ports(message: PortMatchMessage)
    ensures
        port_fault(message) matches Some(fault) ==> ports_have(message, fault),
        !(0 <= message.protocol <= 4) ==> port_fault(message) == Some(
            RuleError::UnknownProtocol(message.protocol),
        ),
{
}

proof fn lemma_fault_of_networks(messages: Seq<AddressMessage>)
    ensures
        addresses_fault(messages) matches Some(fault) ==> exists|i: int|
            0 <= i < messages.len() && network_has(#[trigger] messages[i], fault),
    decreases messages.len(),
{
    if messages.len() > 0 {
        let rest = messages.drop_first();
        lemma_fault_of_networks(rest);
        law_faults_of_networks(messages[0]);
        if let Some(fault) = addresses_fault(messages) {
            if address_fault(messages[0]) is Some {
                assert(network_has(messages[0], fault));
            } else {
                let i = choose|i: int|
                    0 <= i < rest.len() && network_has(#[trigger] rest[i], fault);
                assert(network_has(messages[i + 1], fault));
            }
        }
    }
}

proof fn lemma_fault_of_ports(messages: Seq<PortMatchMessage>)
    ensures
        ports_fault(messages) matches Some(fault) ==> exists|i: int|
            0 <= i < messages.len() && ports_have(#[trigger] messages[i], fault),
    decreases messages.len(),
{
    if messages.len() > 0 {
        let rest = messages.drop_first();
        lemma_fault_of_ports(rest);
        law_faults_of_ports(messages[0]);
        if let Some(fault) = ports_fault(messages) {
            if port_fault(messages[0]) is Some {
                assert(ports_have(messages[0], fault));
            } else {
                let i = choose|i: int| 0 <= i < rest.len() && ports_have(#[trigger] rest[i], fault);
                assert(ports_have(messages[i + 1], fault));
            }
        }
    }
}

/// The fault that is told of a rule is one that it has: an action that is none, no match
/// at all, or the fault of one of its networks or ports.
pub proof fn law_faults_of_rules(message: RuleMessage)
    ensures
        rule_fault(message) matches Some(fault) ==> {
            ||| fault == RuleError::UnknownAction(message.action) && !(0 <= message.action <= 1)
            ||| fault == RuleError::MissingMatch && message.matches is None
            ||| message.matches matches Some(m) && exists|i: int|
                0 <= i < m.source_ips@.len() && network_has(#[trigger] m.source_ips@[i], fault)
            ||| message.matches matches Some(m) && exists|i: int|
                0 <= i < m.destination_ips@.len() && network_has(
                    #[trigger] m.destination_ips@[i],
                    fault,
                )
            ||| message.matches matches Some(m) && exists|i: int|
                0 <= i < m.ports@.len() && ports_have(#[trigger] m.ports@[i], fault)
        },
{
    if let Some(m) = message.matches {
        lemma_fault_of_networks(m.source_ips@);
        lemma_fault_of_networks(m.destination_ips@);
        lemma_fault_of_ports(m.ports@);
    }
}

/// The fault that is told of ports in a file is one that they have.
pub proof fn law_faults_of_written_ports(port: PortMatch)
    ensures
        port_unfit(port) is Some ==> port.range is Some,
        port_unfit(port) matches Some(fault) ==> {
            ||| fault == RuleError::Port(0) && port.range.unwrap().start == 0
            ||| fault == RuleError::PortOfIcmp && port.protocol is Icmp
            ||| fault == RuleError::ReversedRange && port.range.unwrap().end
                < port.range.unwrap().start
        },
{
}

} // verus!
