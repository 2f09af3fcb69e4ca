//! The policies that workloads refer to by name.

use vstd::prelude::*;

use super::chain::{
    direction_content, policy_fault, policy_is, rule_contents, RuleFault, TrafficPolicy,
    TrafficPolicyMessage,
};
use super::policy::PolicyRule;
use crate::table::{lists, Table};

verus! {

/// Why a policy is not stored.
#[derive(Clone, Copy, Debug, PartialEq, Eq, Structural)]
pub enum StoreError {
    /// A policy requires a name.
    EmptyName,
    /// A rule is not accepted.
    Rule(RuleFault),
}

/// Policies by name.
pub struct TrafficPolicyStore {
    policies: Table<String, TrafficPolicy>,
}

impl View for TrafficPolicyStore {
    type V = Map<Seq<char>, TrafficPolicy>;

    closed spec fn view(&self) -> Map<Seq<char>, TrafficPolicy> {
        self.policies@
    }
}

/// Whether storing the policy under the name changes what is said.
pub open spec fn changes(
    store: Map<Seq<char>, TrafficPolicy>,
    name: Seq<char>,
    policy: TrafficPolicy,
) -> bool {
    !store.dom().contains(name) || store[name]@ != policy@
}

/// What storing a policy makes of the policies, and how that ends.
pub open spec fn is_stored(
    before: Map<Seq<char>, TrafficPolicy>,
    name: Seq<char>,
    policy: TrafficPolicy,
    after: Map<Seq<char>, TrafficPolicy>,
    end: Result<bool, StoreError>,
) -> bool {
    match end {
        Ok(changed) => name.len() > 0 && after == before.insert(name, policy) && changed == changes(
            before,
            name,
            policy,
        ),
        Err(e) => name.len() == 0 && e == StoreError::EmptyName && after == before,
    }
}

/// What a policy that was sent makes of the policies, and how that ends.
pub open spec fn is_updated(
    before: Map<Seq<char>, TrafficPolicy>,
    name: Seq<char>,
    message: TrafficPolicyMessage,
    after: Map<Seq<char>, TrafficPolicy>,
    end: Result<bool, StoreError>,
) -> bool {
    match end {
        Ok(changed) => policy_fault(message) is None && name.len() > 0 && after.dom()
            == before.dom().insert(name) && policy_is(after[name], message) && (forall|
            k: Seq<char>,
        |
            k != name ==> after[k] == #[trigger] before[k]) && changed == changes(
            before,
            name,
            after[name],
        ),
        Err(StoreError::Rule(fault)) => policy_fault(message) == Some(fault) && after == before,
        Err(StoreError::EmptyName) => policy_fault(message) is None && name.len() == 0 && after
            == before,
    }
}

impl TrafficPolicyStore {
    /// No policies yet.
    pub fn new() -> (r: TrafficPolicyStore)
        ensures
            r@ == Map::<Seq<char>, TrafficPolicy>::empty(),
    {
        TrafficPolicyStore { policies: Table::new() }
    }

    /// The policy of this name.
    pub fn get(&self, name: &String) -> (r: Option<&TrafficPolicy>)
        ensures
            r == (if self@.dom().contains(name@) {
                Some(&self@[name@])
            } else {
                None
            }),
    {
        self.policies.get(name)
    }

    /// All policies, each with its name.
    pub fn entries(&self) -> (r: &Vec<(String, TrafficPolicy)>)
        ensures
            lists(r@, self@),
    {
        self.policies.entries()
    }

    /// Stores a policy in place of the one of the same name, and says whether that
    /// changes anything.
    pub fn insert(&mut self, name: String, policy: TrafficPolicy) -> (r: Result<bool, StoreError>)
        ensures
            is_stored(old(self)@, name@, policy, final(self)@, r),
    {
        if name.is_empty() {
            return Err(StoreError::EmptyName);
        }
        let changed: bool = match self.policies.get(&name) {
            Some(known) => !known.same(&policy),
            None => true,
        };
        self.policies.insert(name, policy);
        Ok(changed)
    }

    /// Stores the policy that the control plane sent. One that is not accepted
    /// leaves the one of the same name in place.
    pub fn update(&mut self, name: String, message: &TrafficPolicyMessage) -> (r: Result<
        bool,
        StoreError,
    >)
        ensures
            is_updated(old(self)@, name@, *message, final(self)@, r),
    {
        match TrafficPolicy::try_from(message) {
            Ok(policy) => self.insert(name, policy),
            Err(fault) => Err(StoreError::Rule(fault)),
        }
    }

    /// Forgets a policy, and says whether there was one.
    pub fn remove(&mut self, name: &String) -> (r: bool)
        ensures
            final(self)@ == old(self)@.remove(name@),
            r == old(self)@.dom().contains(name@),
    {
        self.policies.remove(name).is_some()
    }

    /// Takes the policies of the other store in place of its own.
    pub fn replace(&mut self, other: TrafficPolicyStore)
        ensures
            final(self)@ == other@,
    {
        self.policies = other.policies;
    }
}

/// Whether the rules are the same: for each other the same action, networks and ports,
/// in the same order.
pub open spec fn same_rules(a: Option<PolicyRule>, b: Option<PolicyRule>) -> bool {
    match (a, b) {
        (Some(a), Some(b)) => a.rules@.len() == b.rules@.len() && forall|i: int|
            #![trigger a.rules@[i]]
            0 <= i < a.rules@.len() ==> {
                &&& a.rules@[i].action == b.rules@[i].action
                &&& a.rules@[i].source_ips@ == b.rules@[i].source_ips@
                &&& a.rules@[i].destination_ips@ == b.rules@[i].destination_ips@
                &&& a.rules@[i].ports@ == b.rules@[i].ports@
            },
        (None, None) => true,
        _ => false,
    }
}

proof fn lemma_same_direction(a: Option<PolicyRule>, b: Option<PolicyRule>)
    ensures
        direction_content(a) == direction_content(b) <==> same_rules(a, b),
{
    if let (Some(p), Some(q)) = (a, b) {
        let x = rule_contents(p.rules@);
        let y = rule_contents(q.rules@);
        if same_rules(a, b) {
            assert(x =~= y);
        }
        if x == y {
            assert(x.len() == p.rules@.len() && y.len() == q.rules@.len());
            assert forall|i: int|
                #![trigger p.rules@[i]]
                0 <= i < p.rules@.len() implies {
                &&& p.rules@[i].action == q.rules@[i].action
                &&& p.rules@[i].source_ips@ == q.rules@[i].source_ips@
                &&& p.rules@[i].destination_ips@ == q.rules@[i].destination_ips@
                &&& p.rules@[i].ports@ == q.rules@[i].ports@
            } by {
                assert(x[i] == y[i]);
            }
        }
    }
}

/// Two policies say the same exactly where their rules for both directions are the same.
pub proof fn law_policies_that_say_the_same(a: TrafficPolicy, b: TrafficPolicy)
    ensures
        a@ == b@ <==> same_rules(a.ingress, b.ingress) && same_rules(a.egress, b.egress),
{
    lemma_same_direction(a.ingress, b.ingress);
    lemma_same_direction(a.egress, b.egress);
}

/// Storing a policy changes something exactly where there was none of its name or one
/// with other rules.
pub proof fn law_what_changes_a_policy(
    store: Map<Seq<char>, TrafficPolicy>,
    name: Seq<char>,
    policy: TrafficPolicy,
)
    ensures
        changes(store, name, policy) <==> !(store.dom().contains(name) && same_rules(
            store[name].ingress,
            policy.ingress,
        ) && same_rules(store[name].egress, policy.egress)),
        !changes(store.insert(name, policy), name, policy),
{
    law_policies_that_say_the_same(store[name], policy);
}

/// A policy with a name is stored under it, and only under it; one without a name is
/// refused. Whatever is refused changes nothing. Storing the same policy again changes
/// nothing and says so.
pub proof fn law_policies_take_their_places(
    before: Map<Seq<char>, TrafficPolicy>,
    name: Seq<char>,
    policy: TrafficPolicy,
    after: Map<Seq<char>, TrafficPolicy>,
    end: Result<bool, StoreError>,
    last: Map<Seq<char>, TrafficPolicy>,
    again: Result<bool, StoreError>,
    other: Seq<char>,
)
    requires
        is_stored(before, name, policy, after, end),
        is_stored(after, name, policy, last, again),
        other != name,
    ensures
        end is Ok <==> name.len() > 0,
        end is Err ==> after == before,
        end is Ok ==> after.dom().contains(name) && after[name] == policy,
        after.dom().contains(other) <==> before.dom().contains(other),
        before.dom().contains(other) ==> after[other] == before[other],
        end is Ok && !before.dom().contains(name) ==> end == Ok::<bool, StoreError>(true),
        end is Ok ==> again == Ok::<bool, StoreError>(false) && last =~= after,
{
}

/// A policy that was sent is stored exactly where all of it is accepted and it has a name,
/// and says what was sent. Otherwise all policies stay as they were, and the fault that is
/// told is the message's own where it has one.
pub proof fn law_sent_policies_take_their_places(
    before: Map<Seq<char>, TrafficPolicy>,
    name: Seq<char>,
    message: TrafficPolicyMessage,
    after: Map<Seq<char>, TrafficPolicy>,
    end: Result<bool, StoreError>,
    other: Seq<char>,
)
    requires
        is_updated(before, name, message, after, end),
        other != name,
    ensures
        end is Ok <==> policy_fault(message) is None && name.len() > 0,
        end is Err ==> after == before,
        end matches Err(e) ==> (policy_fault(message) matches Some(fault) ==> e
            == StoreError::Rule(fault)),
        end matches Err(e) ==> (policy_fault(message) is None ==> e is EmptyName),
        end is Ok ==> after.dom().contains(name) && policy_is(after[name], message),
        after.dom().contains(other) <==> before.dom().contains(other),
        before.dom().contains(other) ==> after[other] == before[other],
        end is Ok && !before.dom().contains(name) ==> end == Ok::<bool, StoreError>(true),
{
    if end is Ok {
        assert(after[other] == before[other]);
    }
}

} // verus!
