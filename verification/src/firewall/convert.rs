//! The firewall rules of a workload, from what the proxy knows.

use vstd::prelude::*;

use super::content::{
    chain_content, content_number, firewall_number, link_content, policy_content,
    FirewallContent,
};
use super::types::{rule_models, Packet, RuleAction, RuleModel, RuleSet};
use crate::rbac::agreement::{firewall_says, law_firewall_decides_as_the_chain, packet_verdict};
use crate::rbac::authorize::inline_chain;
use crate::rbac::chain::{
    chain_model, configures, direction_content, firewall_rulesets, first_missing, link_rules, links,
    rule_content, rule_contents, with_chain, with_default, with_rules, Attached, Link,
    TrafficPolicy,
};
use crate::rbac::policy::Rule;
use crate::rbac::Direction;
use crate::sandbox::discovery::{referred_policies, Sandbox};
use crate::index::ids_of;
use crate::state::store::ProxyState;
use crate::state::workload::{Workload, WorkloadInfo};
use crate::text::views;

verus! {

/// The sandbox that stands for a workload.
pub open spec fn sandbox_of(state: ProxyState, uid: Seq<char>) -> Option<Sandbox> {
    let ids = ids_of(state.sandboxes@.bound, uid);
    if ids.len() > 0 {
        Some(state.sandboxes@.resources[ids[0]])
    } else {
        None
    }
}

/// The rules are those of the workload's policies, and before them those of its
/// sandbox's own policy.
pub open spec fn rules_are_of(rules: RuleSet, state: ProxyState, workload: Workload) -> bool {
    &&& rule_models(rules.rules@) == chain_model(
        referred_policies(views(workload.traffic_policy_refs@), state.policies@),
    )
    &&& rule_models(rules.inline_rules@) == (match sandbox_of(state, workload.uid@) {
        Some(sandbox) => match sandbox.traffic_policy {
            Some(policy) => chain_model(inline_chain(policy)),
            None => Seq::empty(),
        },
        None => Seq::empty(),
    })
    &&& !rules.policy_attached
}

/// What the firewall rules of a workload are made of.
pub open spec fn content_of(state: ProxyState, workload: Workload) -> FirewallContent {
    FirewallContent {
        uid: workload.uid@,
        chain: chain_content(
            referred_policies(views(workload.traffic_policy_refs@), state.policies@),
        ),
        sandbox: match sandbox_of(state, workload.uid@) {
            Some(sandbox) => Some((sandbox.uid@, policy_content(sandbox.traffic_policy))),
            None => None,
        },
    }
}

/// The number of a workload's firewall rules.
pub open spec fn rules_number(state: ProxyState, workload: Workload) -> u64 {
    content_number(content_of(state, workload))
}

/// The firewall rules of a workload, unless those with this number are in force.
pub fn rules_unless_applied<'a>(
    chain: &Vec<Attached<'a>>,
    inline: Option<&TrafficPolicy>,
    applied_hash: Option<u64>,
    hash: u64,
) -> (r: Option<(RuleSet, u64)>)
    ensures
        r.is_none() == (applied_hash == Some(hash)),
        r matches Some((rules, h)) ==> {
            &&& h == hash
            &&& rule_models(rules.rules@) == chain_model(links(chain@))
            &&& rule_models(rules.inline_rules@) == (match inline {
                Some(policy) => chain_model(inline_chain(*policy)),
                None => Seq::empty(),
            })
            &&& !rules.policy_attached
        },
{
    if let Some(applied) = applied_hash {
        if applied == hash {
            return None;
        }
    }
    let mut rules: RuleSet = firewall_rulesets(chain);
    if let Some(policy) = inline {
        let mut own: Vec<Attached> = Vec::new();
        own.push(Attached { name: "inline", policy: Some(policy) });
        assert(links(own@) =~= inline_chain(*policy));
        rules.inline_rules = firewall_rulesets(&own).rules;
    } else {
        assert(rule_models(rules.inline_rules@) =~= Seq::empty());
    }
    Some((rules, hash))
}

/// Whether the rules with this number are those of the workload that is taken for the
/// description.
pub open spec fn is_up_to_date(
    state: ProxyState,
    info: WorkloadInfo,
    applied_hash: Option<u64>,
) -> bool {
    state.workloads.taken_for(info) matches Some(workload) && applied_hash == Some(
        rules_number(state, workload),
    )
}

/// Whether a workload that the description fits is known.
pub open spec fn is_known(state: ProxyState, info: WorkloadInfo) -> bool {
    exists|uid: Seq<char>| #[trigger]
        state.workloads@.dom().contains(uid) && state.workloads@[uid].is_described_by(info)
}

/// The rules and their number are those of the workload that is taken for the
/// description.
pub open spec fn are_rules_for(
    rules: RuleSet,
    hash: u64,
    state: ProxyState,
    info: WorkloadInfo,
) -> bool {
    state.workloads.taken_for(info) matches Some(workload) && workload.is_described_by(info)
        && rules_are_of(rules, state, workload) && hash == rules_number(state, workload)
}

/// What is found for a workload's description: the rules of the workload that is taken
/// for it, with their number, where that is not the number of the rules in force; or
/// nothing, where no workload fits, or where the rules in force have that number.
pub open spec fn is_resolution(
    found: Option<(RuleSet, u64)>,
    state: ProxyState,
    info: WorkloadInfo,
    applied_hash: Option<u64>,
) -> bool {
    match found {
        Some((rules, hash)) => {
            &&& is_known(state, info)
            &&& applied_hash != Some(hash)
            &&& are_rules_for(rules, hash, state, info)
        },
        None => !is_known(state, info) || is_up_to_date(state, info, applied_hash),
    }
}

/// The firewall rules of the workload that is taken for the description, with a number
/// that stands for them. Nothing comes back where no workload fits, or where the number
/// is that of the rules in force.
pub fn resolve_workload_firewall(
    state: &ProxyState,
    info: &WorkloadInfo,
    applied_hash: Option<u64>,
) -> (r: Option<(RuleSet, u64)>)
    ensures
        is_resolution(r, *state, *info, applied_hash),
{
    let workload: &Workload = match state.workloads.find_by_info(info) {
        Some(workload) => workload,
        None => {
            return None;
        },
    };
    let sandbox: Option<&Sandbox> = state.sandboxes.fetch_sandbox(&workload.uid);
    let chain: Vec<Attached> = workload.traffic_policies(&state.policies);
    let inline: Option<&TrafficPolicy> = match sandbox {
        Some(sandbox) => match &sandbox.traffic_policy {
            Some(policy) => Some(policy),
            None => None,
        },
        None => None,
    };
    let hash: u64 = match sandbox {
        Some(sandbox) => firewall_number(
            workload.uid.as_str(),
            &chain,
            Some((sandbox.uid.as_str(), inline)),
        ),
        None => firewall_number(workload.uid.as_str(), &chain, None),
    };
    assert(hash == rules_number(*state, *workload));
    rules_unless_applied(&chain, inline, applied_hash, hash)
}

/// Two looks at the same state agree. Where the first one found rules, the second one
/// finds nothing if it is told that these are in force, and else finds the same rules
/// under the same number. A look without rules in force finds nothing only where no
/// workload fits.
pub proof fn law_looks_agree(
    state: ProxyState,
    info: WorkloadInfo,
    first_applied: Option<u64>,
    first: Option<(RuleSet, u64)>,
    second_applied: Option<u64>,
    second: Option<(RuleSet, u64)>,
)
    requires
        is_resolution(first, state, info, first_applied),
        is_resolution(second, state, info, second_applied),
    ensures
        first matches Some((_, hash)) ==> (second is None <==> second_applied == Some(hash)),
        first matches Some((rules, hash)) ==> (second matches Some((others, number)) ==> {
            &&& number == hash
            &&& rule_models(others.rules@) == rule_models(rules.rules@)
            &&& rule_models(others.inline_rules@) == rule_models(rules.inline_rules@)
            &&& others.policy_attached == rules.policy_attached
        }),
        first_applied is None ==> (first is None <==> !is_known(state, info)),
{
}

/// Whether the two stages refuse a packet: the stage before does, or it goes on to
/// the workload's rules, whatever let it pass there, and they do.
pub open spec fn stages_refuse(rules: RuleSet, direction: Direction, packet: Packet) -> bool {
    ||| firewall_says(rule_models(rules.inline_rules@), direction, packet) == Some(
        RuleAction::Deny,
    )
    ||| firewall_says(rule_models(rules.rules@), direction, packet) == Some(RuleAction::Deny)
}

/// A packet passes the firewall of a workload only where both stages let it pass:
/// it is refused exactly where the policy of the workload's sandbox or the
/// workload's policies refuse it.
pub proof fn law_firewall_needs_both_stages(
    rules: RuleSet,
    state: ProxyState,
    workload: Workload,
    direction: Direction,
    packet: Packet,
)
    requires
        rules_are_of(rules, state, workload),
        packet.protocol !is Tcp,
    ensures
        stages_refuse(rules, direction, packet) <==> {
            ||| packet_verdict(
                referred_policies(views(workload.traffic_policy_refs@), state.policies@),
                direction,
                packet,
            ) == Some(RuleAction::Deny)
            ||| sandbox_of(state, workload.uid@) matches Some(sandbox) && sandbox.traffic_policy
                matches Some(policy) && packet_verdict(inline_chain(policy), direction, packet)
                == Some(RuleAction::Deny)
        },
{
    law_firewall_decides_as_the_chain(
        referred_policies(views(workload.traffic_policy_refs@), state.policies@),
        direction,
        packet,
    );
    if let Some(sandbox) = sandbox_of(state, workload.uid@) {
        if let Some(policy) = sandbox.traffic_policy {
            law_firewall_decides_as_the_chain(inline_chain(policy), direction, packet);
        }
    }
}

proof fn lemma_same_rules(
    start: Seq<RuleModel>,
    a: Seq<Rule>,
    b: Seq<Rule>,
    name: Seq<char>,
    direction: Direction,
)
    requires
        rule_contents(a) == rule_contents(b),
    ensures
        with_rules(start, a, name, direction) == with_rules(start, b, name, direction),
    decreases a.len(),
{
    assert(a.len() == rule_contents(a).len() && b.len() == rule_contents(b).len());
    if a.len() > 0 {
        assert(rule_contents(a).last() == rule_content(a.last()));
        assert(rule_contents(b).last() == rule_content(b.last()));
        assert(rule_contents(a.drop_last()) =~= rule_contents(a).drop_last());
        assert(rule_contents(b.drop_last()) =~= rule_contents(b).drop_last());
        lemma_same_rules(start, a.drop_last(), b.drop_last(), name, direction);
    }
}

proof fn lemma_same_link(a: Link, b: Link, direction: Direction)
    requires
        link_content(a) == link_content(b),
    ensures
        a.name == b.name,
        a.policy is Some == b.policy is Some,
        link_rules(a, direction) is Some == link_rules(b, direction) is Some,
        link_rules(a, direction) matches Some(rules) ==> rule_contents(rules) == rule_contents(
            link_rules(b, direction)->0,
        ),
{
    if let Some(p) = a.policy {
        if let Some(q) = b.policy {
            assert(p@ == q@);
            assert(direction_content(p.ingress) == direction_content(q.ingress));
            assert(direction_content(p.egress) == direction_content(q.egress));
        }
    }
}

proof fn lemma_same_chain(start: Seq<RuleModel>, a: Seq<Link>, b: Seq<Link>, direction: Direction)
    requires
        chain_content(a) == chain_content(b),
    ensures
        with_chain(start, a, direction) == with_chain(start, b, direction),
    decreases a.len(),
{
    assert(a.len() == chain_content(a).len() && b.len() == chain_content(b).len());
    if a.len() > 0 {
        assert(chain_content(a).last() == link_content(a.last()));
        assert(chain_content(b).last() == link_content(b.last()));
        assert(chain_content(a.drop_last()) =~= chain_content(a).drop_last());
        assert(chain_content(b.drop_last()) =~= chain_content(b).drop_last());
        lemma_same_chain(start, a.drop_last(), b.drop_last(), direction);
        lemma_same_link(a.last(), b.last(), direction);
        if let Some(rules) = link_rules(a.last(), direction) {
            lemma_same_rules(
                with_chain(start, a.drop_last(), direction),
                rules,
                link_rules(b.last(), direction)->0,
                a.last().name,
                direction,
            );
        }
    }
}

proof fn lemma_same_missing(a: Seq<Link>, b: Seq<Link>, from: nat)
    requires
        chain_content(a) == chain_content(b),
    ensures
        first_missing(a, from) == first_missing(b, from),
    decreases a.len() - from,
{
    assert(a.len() == chain_content(a).len() && b.len() == chain_content(b).len());
    if from < a.len() {
        assert(chain_content(a)[from as int] == link_content(a[from as int]));
        assert(chain_content(b)[from as int] == link_content(b[from as int]));
        lemma_same_link(a[from as int], b[from as int], Direction::Inbound);
        lemma_same_missing(a, b, from + 1);
    }
}

proof fn lemma_same_default(start: Seq<RuleModel>, a: Seq<Link>, b: Seq<Link>, direction: Direction)
    requires
        chain_content(a) == chain_content(b),
    ensures
        with_default(start, a, direction) == with_default(start, b, direction),
{
    lemma_same_chain(start, a, b, direction);
    assert(a.len() == chain_content(a).len() && b.len() == chain_content(b).len());
    assert forall|i: int| 0 <= i < a.len() implies link_rules(#[trigger] a[i], direction) is Some
        == link_rules(b[i], direction) is Some by {
        assert(chain_content(a)[i] == link_content(a[i]));
        assert(chain_content(b)[i] == link_content(b[i]));
        lemma_same_link(a[i], b[i], direction);
    }
    if configures(a, direction) {
        let i = choose|i: int|
            0 <= i < a.len() && link_rules(#[trigger] a[i], direction) is Some;
        assert(link_rules(b[i], direction) is Some);
    }
    if configures(b, direction) {
        let i = choose|i: int|
            0 <= i < b.len() && link_rules(#[trigger] b[i], direction) is Some;
        assert(link_rules(a[i], direction) is Some);
    }
}

proof fn lemma_first_missing_in_range(chain: Seq<Link>, from: nat)
    ensures
        first_missing(chain, from) matches Some(i) ==> i < chain.len(),
    decreases chain.len() - from,
{
    if from < chain.len() {
        lemma_first_missing_in_range(chain, from + 1);
    }
}

proof fn lemma_same_model(a: Seq<Link>, b: Seq<Link>)
    requires
        chain_content(a) == chain_content(b),
    ensures
        chain_model(a) == chain_model(b),
{
    lemma_same_missing(a, b, 0);
    lemma_first_missing_in_range(a, 0);
    assert(a.len() == chain_content(a).len() && b.len() == chain_content(b).len());
    match first_missing(a, 0) {
        Some(i) => {
            assert(chain_content(a)[i as int] == link_content(a[i as int]));
            assert(chain_content(b)[i as int] == link_content(b[i as int]));
        },
        None => {
            lemma_same_default(Seq::empty(), a, b, Direction::Inbound);
            lemma_same_default(
                with_default(Seq::empty(), a, Direction::Inbound),
                a,
                b,
                Direction::Outbound,
            );
        },
    }
}

/// What the number stands for decides the rules: where it has not changed, neither
/// have they.
pub proof fn law_same_content_same_rules(
    before: ProxyState,
    old_workload: Workload,
    old_rules: RuleSet,
    after: ProxyState,
    new_workload: Workload,
    new_rules: RuleSet,
)
    requires
        rules_are_of(old_rules, before, old_workload),
        rules_are_of(new_rules, after, new_workload),
        content_of(before, old_workload) == content_of(after, new_workload),
    ensures
        rule_models(old_rules.rules@) == rule_models(new_rules.rules@),
        rule_models(old_rules.inline_rules@) == rule_models(new_rules.inline_rules@),
        old_rules.policy_attached == new_rules.policy_attached,
{
    lemma_same_model(
        referred_policies(views(old_workload.traffic_policy_refs@), before.policies@),
        referred_policies(views(new_workload.traffic_policy_refs@), after.policies@),
    );
    if let Some(a) = sandbox_of(before, old_workload.uid@) {
        if let Some(b) = sandbox_of(after, new_workload.uid@) {
            assert(policy_content(a.traffic_policy) == policy_content(b.traffic_policy));
            if let Some(p) = a.traffic_policy {
                if let Some(q) = b.traffic_policy {
                    assert(p@ == q@);
                    assert(chain_content(inline_chain(p)) =~= chain_content(inline_chain(q)));
                    lemma_same_model(inline_chain(p), inline_chain(q));
                }
            }
        }
    }
}

} // verus!
