//! What sandboxes and their policies mean, in terms of what was sent.

use vstd::prelude::*;

use super::discovery::{
    bad_reference, bad_reference_type, extensions_fault, lacks_gateway, message_fault, referred,
    sandbox_fault, sni_messages, valid_id, Sandbox, SandboxExtension, SandboxFault, SandboxMessage,
    SniContent,
};
use super::traffic_policy::{
    policies_model, policy_fault, policy_is, verdict, with_direction, with_rules, PolicyError,
    TrafficPolicy, TrafficPolicyMessage,
};
use crate::extensions::extensions::{law_accepted_policies as law_accepted_routes, readable_policy};
use crate::extensions::sni::{law_accepted_rules, readable_rule};
use crate::firewall::types::{Direction as FirewallDirection, Packet, RuleModel};
use crate::rbac::agreement::{firewall_says, lemma_rule, lemma_says_push, rule_has};
use crate::rbac::chain::{firewall_direction, TrafficPolicy as ChainPolicy};
use crate::rbac::firewall::firewall_model;
use crate::rbac::meaning::{
    covers, first_to_cover, law_accepted_policies, law_first_unreadable_rule_is_told,
    law_valid_policies, lemma_first_rule_covers, readable_direction, sound_rules,
};
use crate::rbac::policy::{first_rule, Rule};
use crate::rbac::{Connection, Direction, RbacDecision};
use crate::text::views;

verus! {

/// The rules of a policy for one direction: what comes in is a matter of ingress, what
/// goes out a matter of egress.
pub open spec fn rules_toward(policy: TrafficPolicy, direction: Direction) -> Option<Seq<Rule>> {
    let own = if direction is Inbound {
        policy.ingress
    } else {
        policy.egress
    };
    match own {
        Some(own) => Some(own.rules@),
        None => None,
    }
}

/// Whether none of the policy's rules for the direction covers the connection.
pub open spec fn passes_over(policy: TrafficPolicy, conn: Connection) -> bool {
    rules_toward(policy, conn.direction) matches Some(rules) ==> forall|k: int|
        0 <= k < rules.len() ==> !covers(#[trigger] rules[k], conn)
}

/// Whether the policy decides on the connection, and how: the first of its rules to
/// cover it allows it, or does not.
pub open spec fn decides(policy: TrafficPolicy, conn: Connection, allows: bool) -> bool {
    rules_toward(policy, conn.direction) matches Some(rules) && exists|k: int| #[trigger]
        first_to_cover(rules, conn, k) && (rules[k].action is Allow <==> allows)
}

/// Whether this policy is the first of all to decide on the connection.
pub open spec fn decides_first(
    policies: Seq<TrafficPolicy>,
    conn: Connection,
    from: nat,
    i: int,
    allows: bool,
) -> bool {
    &&& from <= i < policies.len()
    &&& decides(policies[i], conn, allows)
    &&& forall|j: int| from <= j < i ==> passes_over(#[trigger] policies[j], conn)
}

/// Whether some policy has rules for the direction, be they none.
pub open spec fn speaks_toward(policies: Seq<TrafficPolicy>, direction: Direction, from: nat) -> bool {
    exists|i: int|
        from <= i < policies.len() && rules_toward(#[trigger] policies[i], direction) is Some
}

proof fn lemma_verdict(policies: Seq<TrafficPolicy>, conn: Connection, from: nat, configured: bool)
    requires
        from <= policies.len(),
    ensures
        match verdict(policies, conn, from, configured) {
            Ok(RbacDecision::Allow) => exists|i: int| #[trigger]
                decides_first(policies, conn, from, i, true),
            Ok(d) => d is NoMatch && !configured && !speaks_toward(
                policies,
                conn.direction,
                from,
            ),
            Err((namespace, name)) => {
                ||| exists|i: int| #[trigger]
                    decides_first(policies, conn, from, i, false) && namespace
                        == policies[i].namespace@ && name == policies[i].name@
                ||| {
                    &&& namespace.len() == 0 && name == "SANDBOX-DEFAULT-DENY"@
                    &&& configured || speaks_toward(policies, conn.direction, from)
                    &&& forall|j: int|
                        from <= j < policies.len() ==> passes_over(#[trigger] policies[j], conn)
                }
            },
        },
    decreases policies.len() - from,
{
    if from < policies.len() {
        let policy = policies[from as int];
        let next = configured || rules_toward(policy, conn.direction) is Some;
        lemma_verdict(policies, conn, from + 1, next);
        if let Some(rules) = rules_toward(policy, conn.direction) {
            lemma_first_rule_covers(rules, conn);
            assert(speaks_toward(policies, conn.direction, from));
        }
        if passes_over(policy, conn) {
            assert(verdict(policies, conn, from, configured) == verdict(
                policies,
                conn,
                from + 1,
                next,
            ));
            assert forall|i: int, allows: bool| #[trigger]
                decides_first(policies, conn, from + 1, i, allows) implies decides_first(
                policies,
                conn,
                from,
                i,
                allows,
            ) by {
                assert(forall|j: int|
                    from <= j < i ==> passes_over(#[trigger] policies[j], conn));
            }
            if speaks_toward(policies, conn.direction, from + 1) {
                let i = choose|i: int|
                    from + 1 <= i < policies.len() && rules_toward(
                        #[trigger] policies[i],
                        conn.direction,
                    ) is Some;
                assert(rules_toward(policies[i], conn.direction) is Some);
                assert(speaks_toward(policies, conn.direction, from));
            }
            match verdict(policies, conn, from + 1, next) {
                Ok(RbacDecision::Allow) => {
                    let i = choose|i: int| #[trigger]
                        decides_first(policies, conn, from + 1, i, true);
                    assert(decides_first(policies, conn, from, i, true));
                },
                Ok(_) => {
                    if speaks_toward(policies, conn.direction, from) {
                        let i = choose|i: int|
                            from <= i < policies.len() && rules_toward(
                                #[trigger] policies[i],
                                conn.direction,
                            ) is Some;
                        assert(rules_toward(policies[i], conn.direction) is Some);
                        assert(i != from);
                        assert(speaks_toward(policies, conn.direction, from + 1));
                    }
                },
                Err((namespace, name)) => {
                    if exists|i: int| #[trigger]
                        decides_first(policies, conn, from + 1, i, false) && namespace
                            == policies[i].namespace@ && name == policies[i].name@ {
                        let i = choose|i: int| #[trigger]
                            decides_first(policies, conn, from + 1, i, false) && namespace
                                == policies[i].namespace@ && name == policies[i].name@;
                        assert(decides_first(policies, conn, from, i, false));
                    }
                },
            }
        } else {
            let rules = rules_toward(policy, conn.direction).unwrap();
            let k = first_rule(rules, conn, 0).unwrap() as int;
            assert(first_to_cover(rules, conn, k));
            let allows = rules[k].action is Allow;
            assert(decides(policy, conn, allows));
            assert(decides_first(policies, conn, from, from as int, allows));
        }
    }
}

/// Over all policies in their order, the first rule for the direction that covers a
/// connection decides, and a refusal tells whose rule it was. Without such a rule the
/// connection is refused where any policy has rules for the direction, and nothing is
/// said of it otherwise.
pub proof fn law_first_covering_rule_decides(policies: Seq<TrafficPolicy>, conn: Connection)
    ensures
        match verdict(policies, conn, 0, false) {
            Ok(RbacDecision::Allow) => exists|i: int| #[trigger]
                decides_first(policies, conn, 0, i, true),
            Ok(d) => d is NoMatch && !speaks_toward(policies, conn.direction, 0),
            Err((namespace, name)) => {
                ||| exists|i: int| #[trigger]
                    decides_first(policies, conn, 0, i, false) && namespace
                        == policies[i].namespace@ && name == policies[i].name@
                ||| {
                    &&& namespace.len() == 0 && name == "SANDBOX-DEFAULT-DENY"@
                    &&& speaks_toward(policies, conn.direction, 0)
                    &&& forall|j: int|
                        0 <= j < policies.len() ==> passes_over(#[trigger] policies[j], conn)
                }
            },
        },
{
    lemma_verdict(policies, conn, 0, false);
}

/// A policy is accepted exactly where it has a name, a priority that is not negative, a
/// namespace if it is one of a namespace and none if it is global, rules for some
/// direction, and no rule that cannot be read.
pub proof fn law_accepted_named_policies(message: TrafficPolicyMessage)
    ensures
        policy_fault(message) is None <==> {
            &&& message.name@.len() > 0
            &&& message.priority >= 0
            &&& (message.scope == 0 && message.namespace@.len() == 0) || (message.scope == 1
                && message.namespace@.len() > 0)
            &&& message.ingress is Some || message.egress is Some
            &&& readable_direction(message.ingress)
            &&& readable_direction(message.egress)
        },
{
    if let Some(m) = message.ingress {
        law_first_unreadable_rule_is_told(m.rules@, 0);
    }
    if let Some(m) = message.egress {
        law_first_unreadable_rule_is_told(m.rules@, 0);
    }
}

/// What came in as a policy has rules for the directions that were sent, as many as were
/// sent, under the name, namespace and priority that were sent.
pub proof fn law_named_policies_say_what_was_sent(
    policy: TrafficPolicy,
    message: TrafficPolicyMessage,
)
    requires
        policy_is(policy, message),
    ensures
        policy.name@ == message.name@,
        policy.namespace@ == message.namespace@,
        policy.priority == message.priority,
        match (rules_toward(policy, Direction::Inbound), message.ingress) {
            (Some(rules), Some(m)) => rules.len() == m.rules@.len(),
            (None, None) => true,
            _ => false,
        },
        match (rules_toward(policy, Direction::Outbound), message.egress) {
            (Some(rules), Some(m)) => rules.len() == m.rules@.len(),
            (None, None) => true,
            _ => false,
        },
{
}

/// The rules of all policies for one direction, in order.
pub open spec fn rules_in_order(policies: Seq<TrafficPolicy>, direction: Direction) -> Seq<Rule>
    decreases policies.len(),
{
    if policies.len() == 0 {
        Seq::empty()
    } else {
        rules_in_order(policies.drop_last(), direction) + (match rules_toward(
            policies.last(),
            direction,
        ) {
            Some(rules) => rules,
            None => Seq::empty(),
        })
    }
}

/// Whether the rule is the first of all to speak of the packet.
pub open spec fn first_to_have(rules: Seq<Rule>, packet: Packet, i: int) -> bool {
    &&& 0 <= i < rules.len()
    &&& rule_has(rules[i], packet)
    &&& forall|k: int| 0 <= k < i ==> !rule_has(#[trigger] rules[k], packet)
}

/// The firewall does to the packet what the first of the rules to speak of it says, and
/// says nothing of it where none does.
pub open spec fn firewall_follows(
    models: Seq<RuleModel>,
    rules: Seq<Rule>,
    direction: Direction,
    packet: Packet,
) -> bool {
    match firewall_says(models, direction, packet) {
        Some(action) => exists|i: int| #[trigger]
            first_to_have(rules, packet, i) && (action is Allow <==> rules[i].action is Allow),
        None => forall|i: int| 0 <= i < rules.len() ==> !rule_has(#[trigger] rules[i], packet),
    }
}

proof fn lemma_one_rule(
    models: Seq<RuleModel>,
    rules: Seq<Rule>,
    rule: Rule,
    name: Seq<char>,
    direction: Direction,
    priority: i32,
    packet: Packet,
)
    requires
        packet.protocol !is Tcp,
        firewall_follows(models, rules, direction, packet),
    ensures
        firewall_follows(
            match firewall_model(rule, name, firewall_direction(direction), priority) {
                Some(model) => models.push(model),
                None => models,
            },
            rules.push(rule),
            direction,
            packet,
        ),
{
    lemma_rule(rule, name, direction, priority, packet);
    let more = rules.push(rule);
    let n = rules.len() as int;
    assert(more[n] == rule);
    assert(forall|k: int| 0 <= k < n ==> more[k] == rules[k]);
    if let Some(model) = firewall_model(rule, name, firewall_direction(direction), priority) {
        lemma_says_push(models, model, direction, packet);
    }
    match firewall_says(models, direction, packet) {
        Some(action) => {
            let i = choose|i: int| #[trigger]
                first_to_have(rules, packet, i) && (action is Allow <==> rules[i].action is Allow);
            assert(first_to_have(more, packet, i));
        },
        None => {
            if rule_has(rule, packet) {
                assert(first_to_have(more, packet, n));
            }
        },
    }
}

proof fn lemma_other_direction(
    models: Seq<RuleModel>,
    rule: Rule,
    name: Seq<char>,
    direction: Direction,
    other: Direction,
    priority: i32,
    packet: Packet,
)
    requires
        direction != other,
    ensures
        firewall_says(
            match firewall_model(rule, name, firewall_direction(other), priority) {
                Some(model) => models.push(model),
                None => models,
            },
            direction,
            packet,
        ) == firewall_says(models, direction, packet),
{
    if let Some(model) = firewall_model(rule, name, firewall_direction(other), priority) {
        lemma_says_push(models, model, direction, packet);
    }
}

proof fn lemma_rules(
    models: Seq<RuleModel>,
    before: Seq<Rule>,
    rules: Seq<Rule>,
    name: Seq<char>,
    of: Direction,
    direction: Direction,
    priority: i32,
    packet: Packet,
)
    requires
        packet.protocol !is Tcp,
        firewall_follows(models, before, direction, packet),
    ensures
        firewall_follows(
            with_rules(models, rules, name, firewall_direction(of), priority),
            if of == direction {
                before + rules
            } else {
                before
            },
            direction,
            packet,
        ),
    decreases rules.len(),
{
    if rules.len() == 0 {
        assert(before + rules =~= before);
    } else {
        let short = rules.drop_last();
        lemma_rules(models, before, short, name, of, direction, priority, packet);
        let so_far = with_rules(models, short, name, firewall_direction(of), priority);
        if of == direction {
            lemma_one_rule(so_far, before + short, rules.last(), name, direction, priority, packet);
            assert((before + short).push(rules.last()) =~= before + rules);
        } else {
            lemma_other_direction(so_far, rules.last(), name, direction, of, priority, packet);
        }
    }
}

proof fn lemma_direction(
    models: Seq<RuleModel>,
    before: Seq<Rule>,
    policy: TrafficPolicy,
    of: Direction,
    direction: Direction,
    packet: Packet,
)
    requires
        packet.protocol !is Tcp,
        firewall_follows(models, before, direction, packet),
    ensures
        firewall_follows(
            with_direction(models, policy, firewall_direction(of)),
            if of == direction && rules_toward(policy, of) is Some {
                before + rules_toward(policy, of).unwrap()
            } else {
                before
            },
            direction,
            packet,
        ),
{
    if let Some(rules) = rules_toward(policy, of) {
        lemma_rules(models, before, rules, policy.name@, of, direction, policy.priority, packet);
    }
}

/// Over packets that are not TCP, the firewall rules of the policies do what the first
/// rule for the direction says that speaks of the packet, over all policies in their
/// order, and say nothing of what no rule speaks of.
pub proof fn law_firewall_follows_the_policies(
    policies: Seq<TrafficPolicy>,
    direction: Direction,
    packet: Packet,
)
    requires
        packet.protocol !is Tcp,
    ensures
        firewall_follows(
            policies_model(policies),
            rules_in_order(policies, direction),
            direction,
            packet,
        ),
    decreases policies.len(),
{
    if policies.len() > 0 {
        let short = policies.drop_last();
        let policy = policies.last();
        law_firewall_follows_the_policies(short, direction, packet);
        let so_far = policies_model(short);
        let before = rules_in_order(short, direction);
        lemma_direction(so_far, before, policy, Direction::Inbound, direction, packet);
        let inbound = with_direction(so_far, policy, FirewallDirection::Inbound);
        let all = rules_in_order(policies, direction);
        if direction is Inbound {
            match rules_toward(policy, direction) {
                Some(rules) => {
                    assert(all =~= before + rules);
                },
                None => {
                    assert(all =~= before);
                },
            }
            lemma_direction(inbound, all, policy, Direction::Outbound, direction, packet);
        } else {
            assert(firewall_follows(inbound, before, direction, packet));
            lemma_direction(inbound, before, policy, Direction::Outbound, direction, packet);
            match rules_toward(policy, direction) {
                Some(rules) => {
                    assert(all =~= before + rules);
                },
                None => {
                    assert(all =~= before);
                },
            }
        }
    }
}

/// An identifier is taken exactly where it has 1 to 512 characters, all of them visible
/// characters of ASCII, and is not a lone asterisk.
pub proof fn law_identifiers(id: Seq<char>)
    ensures
        valid_id(id) <==> {
            &&& 0 < id.len() && id.len() < 513
            &&& !(id.len() == 1 && id[0] == '*')
            &&& forall|i: int| 0 <= i < id.len() ==> '!' <= #[trigger] id[i] && id[i] <= '~'
        },
{
    assert(id.len() == 1 && id[0] == '*' <==> id =~= seq!['*']);
    if valid_id(id) {
        assert forall|i: int| 0 <= i < id.len() implies '!' <= #[trigger] id[i] && id[i] <= '~' by {}
    }
}

/// Whether these can be the names of policies that are referred to: none is empty or a
/// lone asterisk, and none is given twice.
pub open spec fn sound_references(names: Seq<Seq<char>>) -> bool {
    &&& forall|i: int|
        0 <= i < names.len() ==> (#[trigger] names[i]).len() > 0 && !(names[i].len() == 1
            && names[i][0] == '*')
    &&& forall|i: int, j: int| 0 <= i < j < names.len() ==> names[i] != names[j]
}

/// Whether the name can stand at this place among the others.
spec fn sound_reference(names: Seq<Seq<char>>, i: int) -> bool {
    &&& names[i].len() > 0
    &&& !(names[i].len() == 1 && names[i][0] == '*')
    &&& forall|j: int| 0 <= j < i ==> names[i] != #[trigger] names[j]
}

proof fn lemma_references(names: Seq<Seq<char>>, from: nat)
    requires
        from <= names.len(),
    ensures
        match bad_reference(names, from) {
            None => forall|i: int| from <= i < names.len() ==> #[trigger] sound_reference(names, i),
            Some(name) => exists|i: int|
                from <= i < names.len() && !(#[trigger] sound_reference(names, i)) && names[i]
                    == name && forall|k: int|
                    from <= k < i ==> #[trigger] sound_reference(names, k),
        },
    decreases names.len() - from,
{
    if from < names.len() {
        lemma_references(names, from + 1);
        reveal_strlit("*");
        let name = names[from as int];
        assert(name.len() == 1 && name[0] == '*' <==> name =~= "*"@);
        let before = names.take(from as int);
        if before.contains(name) {
            let j = choose|j: int| 0 <= j < before.len() && before[j] == name;
            assert(names[j] == name);
        }
        if !sound_reference(names, from as int) && name.len() > 0 && !(name.len() == 1 && name[0]
            == '*') {
            let j = choose|j: int| 0 <= j < from && name == #[trigger] names[j];
            assert(before[j] == name);
        }
        match bad_reference(names, from) {
            None => {
                assert(sound_reference(names, from as int));
                assert forall|i: int| from <= i < names.len() implies #[trigger] sound_reference(
                    names,
                    i,
                ) by {
                    if i != from {
                        assert(from + 1 <= i);
                    }
                }
            },
            Some(told) => {
                if !sound_reference(names, from as int) {
                    assert(told == name);
                } else {
                    let i = choose|i: int|
                        from + 1 <= i < names.len() && !(#[trigger] sound_reference(names, i))
                            && names[i] == told && forall|k: int|
                            from + 1 <= k < i ==> #[trigger] sound_reference(names, k);
                    assert(!sound_reference(names, i));
                    assert forall|k: int| from <= k < i implies #[trigger] sound_reference(
                        names,
                        k,
                    ) by {
                        if k != from {
                            assert(from + 1 <= k);
                        }
                    }
                }
            },
        }
    }
}

/// References are accepted exactly where none is empty, none a lone asterisk and none
/// given twice; a reference that is told is one of those given.
pub proof fn law_references(names: Seq<Seq<char>>)
    ensures
        bad_reference(names, 0) is None <==> sound_references(names),
        bad_reference(names, 0) matches Some(name) ==> names.contains(name),
{
    lemma_references(names, 0);
    if bad_reference(names, 0) is None {
        assert forall|i: int| 0 <= i < names.len() implies (#[trigger] names[i]).len() > 0 && !(
        names[i].len() == 1 && names[i][0] == '*') by {
            assert(sound_reference(names, i));
        }
        assert forall|i: int, j: int| 0 <= i < j < names.len() implies names[i] != names[j] by {
            assert(sound_reference(names, j));
        }
    }
    if sound_references(names) {
        assert forall|i: int| 0 <= i < names.len() implies #[trigger] sound_reference(
            names,
            i,
        ) by {
            assert(names[i].len() > 0);
        }
    }
}

/// Whether all references are to traffic policies, but for types without any.
pub open spec fn of_traffic_policies(refs: Seq<(String, Vec<String>)>) -> bool {
    forall|i: int|
        0 <= i < refs.len() ==> (#[trigger] refs[i]).1@.len() == 0 || refs[i].0@
            == "type.googleapis.com/agentio.security.TrafficPolicy"@
}

/// References to policies of a type other than that of traffic policies are found.
pub proof fn law_reference_types(refs: Seq<(String, Vec<String>)>)
    ensures
        bad_reference_type(refs) is None <==> of_traffic_policies(refs),
    decreases refs.len(),
{
    if refs.len() > 0 {
        let rest = refs.drop_first();
        law_reference_types(rest);
        if bad_reference_type(refs) is None {
            assert forall|i: int| 0 <= i < refs.len() implies (#[trigger] refs[i]).1@.len() == 0
                || refs[i].0@ == "type.googleapis.com/agentio.security.TrafficPolicy"@ by {
                if i > 0 {
                    assert(rest[i - 1] == refs[i]);
                }
            }
        }
        if of_traffic_policies(refs) {
            assert(refs[0].1@.len() == 0 || refs[0].0@
                == "type.googleapis.com/agentio.security.TrafficPolicy"@);
            assert forall|i: int| 0 <= i < rest.len() implies (#[trigger] rest[i]).1@.len() == 0
                || rest[i].0@ == "type.googleapis.com/agentio.security.TrafficPolicy"@ by {
                assert(rest[i] == refs[i + 1]);
            }
        }
    }
}

/// The names referred to are those of each type in turn, in the order in which they
/// were sent.
pub proof fn law_references_are_in_order(
    a: Seq<(String, Vec<String>)>,
    b: Seq<(String, Vec<String>)>,
    one: (String, Vec<String>),
)
    ensures
        referred(a + b) == referred(a) + referred(b),
        referred(seq![one]) == views(one.1@),
    decreases b.len(),
{
    assert(seq![one].drop_last() =~= Seq::empty());
    reveal_with_fuel(referred, 2);
    assert(referred(seq![one]) =~= views(one.1@));
    if b.len() == 0 {
        assert(a + b =~= a);
        assert(referred(a + b) =~= referred(a) + referred(b));
    } else {
        law_references_are_in_order(a, b.drop_last(), one);
        assert((a + b).drop_last() =~= a + b.drop_last());
        assert(referred(a + b) =~= referred(a) + referred(b));
    }
}

/// Whether the extension holds rules on server names that can all be read.
pub open spec fn readable_extension(extension: SandboxExtension) -> bool {
    &&& extension.type_url@ == "type.googleapis.com/kruise.networking.extensions.v1.SniTrafficPolicy"@
    &&& extension.sni matches SniContent::Rules(rules) && forall|i: int|
        0 <= i < rules@.len() ==> readable_rule(#[trigger] rules@[i])
}

/// Extensions are accepted exactly where all of them hold rules on server names that
/// can be read.
pub proof fn law_accepted_extensions(extensions: Seq<SandboxExtension>)
    ensures
        extensions_fault(extensions) is None <==> forall|i: int|
            0 <= i < extensions.len() ==> readable_extension(#[trigger] extensions[i]),
    decreases extensions.len(),
{
    if extensions.len() > 0 {
        let rest = extensions.drop_first();
        law_accepted_extensions(rest);
        if let SniContent::Rules(rules) = extensions[0].sni {
            law_accepted_rules(rules@);
        }
        if extensions_fault(extensions) is None {
            assert forall|i: int| 0 <= i < extensions.len() implies readable_extension(
                #[trigger] extensions[i],
            ) by {
                if i > 0 {
                    assert(rest[i - 1] == extensions[i]);
                }
            }
        }
        if forall|i: int| 0 <= i < extensions.len() ==> readable_extension(#[trigger] extensions[i]) {
            assert(readable_extension(extensions[0]));
            assert forall|i: int| 0 <= i < rest.len() implies readable_extension(
                #[trigger] rest[i],
            ) by {
                assert(rest[i] == extensions[i + 1]);
            }
        }
    }
}

/// The rules on server names are those of each extension in turn, in the order in which
/// they were sent.
pub proof fn law_server_name_rules_are_in_order(
    a: Seq<SandboxExtension>,
    b: Seq<SandboxExtension>,
    one: SandboxExtension,
)
    ensures
        sni_messages(a + b) == sni_messages(a) + sni_messages(b),
        one.sni matches SniContent::Rules(rules) ==> sni_messages(seq![one]) == rules@,
    decreases b.len(),
{
    assert(seq![one].drop_last() =~= Seq::empty());
    reveal_with_fuel(sni_messages, 2);
    if let SniContent::Rules(rules) = one.sni {
        assert(sni_messages(seq![one]) =~= rules@);
    }
    if b.len() == 0 {
        assert(a + b =~= a);
        assert(sni_messages(a + b) =~= sni_messages(a) + sni_messages(b));
    } else {
        law_server_name_rules_are_in_order(a, b.drop_last(), one);
        assert((a + b).drop_last() =~= a + b.drop_last());
        assert(sni_messages(a + b) =~= sni_messages(a) + sni_messages(b));
    }
}

/// A sandbox that was sent is accepted exactly where its identifier is one, its attester
/// has a workload if there is an attester, its references are to traffic policies and
/// sound, and its routes, its policy and its extensions can all be read.
pub proof fn law_accepted_sandboxes(message: SandboxMessage)
    ensures
        message_fault(message) is None <==> {
            &&& valid_id(message.uid@)
            &&& message.attester matches Some(uid) ==> uid@.len() > 0
            &&& of_traffic_policies(message.policy_refs@)
            &&& sound_references(referred(message.policy_refs@))
            &&& message.egress_routing matches Some(routes) ==> forall|i: int|
                0 <= i < routes@.len() ==> readable_policy(#[trigger] routes@[i])
            &&& message.traffic_policy matches Some(policy) ==> readable_direction(policy.ingress)
                && readable_direction(policy.egress)
            &&& forall|i: int|
                0 <= i < message.extensions@.len() ==> readable_extension(
                    #[trigger] message.extensions@[i],
                )
        },
{
    law_reference_types(message.policy_refs@);
    law_references(referred(message.policy_refs@));
    law_accepted_extensions(message.extensions@);
    if let Some(routes) = message.egress_routing {
        law_accepted_routes(routes@);
    }
    if let Some(policy) = message.traffic_policy {
        law_accepted_policies(policy);
    }
}

/// A sandbox is valid exactly where its identifier is one, its workload has one if it is
/// named, its references are sound, the ports of its policy are such as can be sent, and
/// each route through a gateway has one.
pub proof fn law_valid_sandboxes(sandbox: Sandbox)
    ensures
        sandbox_fault(sandbox) is None <==> {
            &&& valid_id(sandbox.uid@)
            &&& sandbox.workload_uid matches Some(uid) ==> uid@.len() > 0
            &&& sound_references(views(sandbox.traffic_policy_refs@))
            &&& sandbox.traffic_policy matches Some(policy) ==> sound_rules(policy.ingress)
                && sound_rules(policy.egress)
            &&& sandbox.egress_routing matches Some(routes) ==> forall|i: int|
                0 <= i < routes.policies@.len() && (#[trigger] routes.policies@[i]).policy
                    is Gateway ==> routes.policies@[i].gateway is Some
        },
{
    law_references(views(sandbox.traffic_policy_refs@));
    if let Some(policy) = sandbox.traffic_policy {
        law_valid_policies(policy);
    }
    if let Some(routes) = sandbox.egress_routing {
        assert forall|i: int| 0 <= i < routes.policies@.len() implies lacks_gateway(
            #[trigger] routes.policies@[i],
        ) == (routes.policies@[i].policy is Gateway && routes.policies@[i].gateway is None) by {}
        if exists|i: int|
            0 <= i < routes.policies@.len() && (#[trigger] routes.policies@[i]).policy is Gateway
                && routes.policies@[i].gateway is None {
            let i = choose|i: int|
                0 <= i < routes.policies@.len() && (#[trigger] routes.policies@[i]).policy
                    is Gateway && routes.policies@[i].gateway is None;
            assert(lacks_gateway(routes.policies@[i]));
        }
    }
}

/// The policies of a sandbox are tried in this order: its own, under the name of
/// `inline`, and those that it refers to, each under its name, in the order of the
/// references; a reference without a policy stays in its place.
pub proof fn law_own_policy_comes_first(sandbox: Sandbox, store: Map<Seq<char>, ChainPolicy>, i: int)
    requires
        0 <= i < sandbox.traffic_policy_refs@.len(),
    ensures
        ({
            let links = sandbox.spec_traffic_policies(store);
            let own: int = if sandbox.traffic_policy is Some {
                1
            } else {
                0
            };
            let name = sandbox.traffic_policy_refs@[i]@;
            &&& links.len() == own + sandbox.traffic_policy_refs@.len()
            &&& own == 1 ==> links[0].name == "inline"@ && links[0].policy == sandbox.traffic_policy
            &&& links[own + i].name == name
            &&& match links[own + i].policy {
                Some(policy) => store.dom().contains(name) && store[name] == policy,
                None => !store.dom().contains(name),
            }
        }),
{
    assert(views(sandbox.traffic_policy_refs@)[i] == sandbox.traffic_policy_refs@[i]@);
}

/// The fault that is told of a policy is one that it has, and a name, a priority and a
/// scope come before its rules; of the rules, those for what comes in come first.
pub proof fn law_faults_of_named_policies(message: TrafficPolicyMessage)
    ensures
        policy_fault(message) matches Some(fault) ==> match fault {
            PolicyError::EmptyName => message.name@.len() == 0,
            PolicyError::NegativePriority => message.priority < 0,
            PolicyError::UnknownScope(n) => n == message.scope && n != 0 && n != 1,
            PolicyError::MissingNamespace => message.scope == 1 && message.namespace@.len() == 0,
            PolicyError::UnexpectedNamespace => message.scope == 0 && message.namespace@.len() > 0,
            PolicyError::NoDirection => message.ingress is None && message.egress is None,
            PolicyError::Rule(direction, _, _) => {
                &&& direction is Inbound <==> !readable_direction(message.ingress)
                &&& direction is Outbound ==> !readable_direction(message.egress)
            },
        },
{
    if let Some(m) = message.ingress {
        law_first_unreadable_rule_is_told(m.rules@, 0);
    }
    if let Some(m) = message.egress {
        law_first_unreadable_rule_is_told(m.rules@, 0);
    }
}

/// The fault that is told of a sandbox that was sent is one that it has.
pub proof fn law_faults_of_sandboxes(message: SandboxMessage)
    ensures
        message_fault(message) matches Some(fault) ==> match fault {
            SandboxFault::NameDiffers => false,
            SandboxFault::UnsupportedReference(_) => !of_traffic_policies(message.policy_refs@),
            SandboxFault::Routing(_) => message.egress_routing matches Some(routes) && !(forall|
                i: int,
            |
                0 <= i < routes@.len() ==> readable_policy(#[trigger] routes@[i])),
            SandboxFault::TrafficPolicy(_) => message.traffic_policy matches Some(policy) && !(
            readable_direction(policy.ingress) && readable_direction(policy.egress)),
            SandboxFault::UnsupportedExtension(_) | SandboxFault::Sni(_) => !(forall|i: int|
                0 <= i < message.extensions@.len() ==> readable_extension(
                    #[trigger] message.extensions@[i],
                )),
            SandboxFault::InvalidUid => !valid_id(message.uid@),
            SandboxFault::EmptyWorkloadUid => message.attester matches Some(uid) && uid@.len() == 0,
            SandboxFault::InvalidReference(_) => !sound_references(referred(message.policy_refs@)),
            SandboxFault::InvalidPolicy(_) => false,
            SandboxFault::MissingGateway => false,
        },
{
    law_reference_types(message.policy_refs@);
    law_references(referred(message.policy_refs@));
    law_accepted_extensions(message.extensions@);
    lemma_extension_faults(message.extensions@);
    if let Some(routes) = message.egress_routing {
        law_accepted_routes(routes@);
    }
    if let Some(policy) = message.traffic_policy {
        law_accepted_policies(policy);
    }
}

proof fn lemma_extension_faults(extensions: Seq<SandboxExtension>)
    ensures
        extensions_fault(extensions) matches Some(fault) ==> fault is UnsupportedExtension || fault
            is Sni,
    decreases extensions.len(),
{
    if extensions.len() > 0 {
        lemma_extension_faults(extensions.drop_first());
    }
}

/// The fault that is told of a sandbox in a file is one that it has.
pub proof fn law_faults_of_written_sandboxes(sandbox: Sandbox)
    ensures
        sandbox_fault(sandbox) matches Some(fault) ==> match fault {
            SandboxFault::InvalidUid => !valid_id(sandbox.uid@),
            SandboxFault::EmptyWorkloadUid => sandbox.workload_uid matches Some(uid) && uid@.len()
                == 0,
            SandboxFault::InvalidReference(_) => !sound_references(
                views(sandbox.traffic_policy_refs@),
            ),
            SandboxFault::InvalidPolicy(_) => sandbox.traffic_policy matches Some(policy) && !(
            sound_rules(policy.ingress) && sound_rules(policy.egress)),
            SandboxFault::MissingGateway => sandbox.egress_routing matches Some(routing)
                && exists|i: int|
                0 <= i < routing.policies@.len() && lacks_gateway(#[trigger] routing.policies@[i]),
            _ => false,
        },
{
    law_references(views(sandbox.traffic_policy_refs@));
    if let Some(policy) = sandbox.traffic_policy {
        law_valid_policies(policy);
    }
}

} // verus!
