//! Sandboxes as the control plane publishes them, and the workloads that they run
//! in.

use vstd::prelude::*;

use crate::extensions::extensions::{
    law_one_fault_rejects_all, policies_are, policies_fault, policy_fault as egress_fault, policy_is
    as egress_is, EgressPolicies, EgressPolicy, EgressPolicyAction, EgressPolicyError,
    EgressPolicyMessage, Fault,
};
use crate::extensions::sni::{
    messages_fault, rule_of, rules_of, SniFault, SniPolicyError, SniRule, SniRuleMessage,
    SniTrafficPolicy, SNI_POLICY_TYPE_URL,
};
use crate::rbac::agreement::law_accepted_policy_is_valid;
use crate::rbac::chain::{
    links, policy_fault, policy_is, Attached, Link, RuleFault, TrafficPolicy, TrafficPolicyMessage,
};
use crate::rbac::policy::RuleError;
use crate::rbac::store::TrafficPolicyStore;
use crate::text::{chars_of, opt_view, same_text, views};

verus! {

/// The type of the policies that a sandbox can refer to.
pub const TRAFFIC_POLICY_TYPE: &'static str = "type.googleapis.com/agentio.security.TrafficPolicy";

/// How long the identifier of a sandbox may be.
pub const MAX_ID_LENGTH: usize = 512;

/// A sandbox, as far as its traffic depends on it.
#[derive(Clone, Debug, PartialEq, Eq)]
pub struct Sandbox {
    pub uid: String,
    pub workload_uid: Option<String>,
    pub egress_routing: Option<EgressPolicies>,
    pub traffic_policy: Option<TrafficPolicy>,
    pub traffic_policy_refs: Vec<String>,
    pub sni_policy: Option<SniTrafficPolicy>,
}

/// What bytes say when read as rules on server names.
#[derive(Clone, Debug, PartialEq, Eq)]
pub enum SniContent {
    Rules(Vec<SniRuleMessage>),
    Unreadable(String),
}

/// An extension of a sandbox: its type, and what its bytes say when read as rules
/// on server names.
#[derive(Clone, Debug, PartialEq, Eq)]
pub struct SandboxExtension {
    pub type_url: String,
    pub sni: SniContent,
}

/// A sandbox as the control plane sends it. References to policies stand under the
/// type of the policies.
#[derive(Clone, Debug, PartialEq, Eq)]
pub struct SandboxMessage {
    pub uid: String,
    pub attester: Option<String>,
    pub policy_refs: Vec<(String, Vec<String>)>,
    pub egress_routing: Option<Vec<EgressPolicyMessage>>,
    pub traffic_policy: Option<TrafficPolicyMessage>,
    pub extensions: Vec<SandboxExtension>,
}

/// Why a sandbox is not accepted.
#[derive(Debug, PartialEq, Eq)]
pub enum SandboxError {
    /// The name of the resource differs from the identifier.
    NameDiffers,
    /// References to policies of a type that is not supported.
    UnsupportedReference(String),
    Routing(EgressPolicyError),
    TrafficPolicy(RuleFault),
    /// An extension of a type that is not supported.
    UnsupportedExtension(String),
    Sni(SniPolicyError),
    /// The identifier must be a nonempty printable ASCII text, at most 512 bytes,
    /// other than `*`.
    InvalidUid,
    /// The attester has no workload.
    EmptyWorkloadUid,
    /// A reference is invalid or given twice.
    InvalidReference(String),
    InvalidPolicy(RuleError),
    /// A route through a gateway requires one.
    MissingGateway,
}

/// Why a sandbox is not accepted, as mathematics has it.
pub enum SandboxFault {
    NameDiffers,
    UnsupportedReference(Seq<char>),
    Routing(Fault),
    TrafficPolicy(RuleFault),
    UnsupportedExtension(Seq<char>),
    Sni(SniFault),
    InvalidUid,
    EmptyWorkloadUid,
    InvalidReference(Seq<char>),
    InvalidPolicy(RuleError),
    MissingGateway,
}

impl View for SandboxError {
    type V = SandboxFault;

    open spec fn view(&self) -> SandboxFault {
        match *self {
            SandboxError::NameDiffers => SandboxFault::NameDiffers,
            SandboxError::UnsupportedReference(t) => SandboxFault::UnsupportedReference(t@),
            SandboxError::Routing(e) => SandboxFault::Routing(e@),
            SandboxError::TrafficPolicy(e) => SandboxFault::TrafficPolicy(e),
            SandboxError::UnsupportedExtension(t) => SandboxFault::UnsupportedExtension(t@),
            SandboxError::Sni(e) => SandboxFault::Sni(e@),
            SandboxError::InvalidUid => SandboxFault::InvalidUid,
            SandboxError::EmptyWorkloadUid => SandboxFault::EmptyWorkloadUid,
            SandboxError::InvalidReference(n) => SandboxFault::InvalidReference(n@),
            SandboxError::InvalidPolicy(e) => SandboxFault::InvalidPolicy(e),
            SandboxError::MissingGateway => SandboxFault::MissingGateway,
        }
    }
}

/// A printable ASCII character other than the space.
pub open spec fn is_graphic(c: char) -> bool {
    33 <= c as int <= 126
}

/// An identifier that can stand in a header and name one sandbox.
pub open spec fn valid_id(id: Seq<char>) -> bool {
    &&& 1 <= id.len() <= MAX_ID_LENGTH
    &&& id != seq!['*']
    &&& forall|i: int| 0 <= i < id.len() ==> is_graphic(#[trigger] id[i])
}

/// Whether the text is an identifier of a sandbox.
pub fn validate_id(id: &str) -> (r: bool)
    ensures
        r == valid_id(id@),
{
    let chars: Vec<char> = chars_of(id);
    if chars.len() == 0 || chars.len() > MAX_ID_LENGTH {
        return false;
    }
    if chars.len() == 1 && chars[0] == '*' {
        assert(id@ =~= seq!['*']);
        return false;
    }
    assert(id@ == seq!['*'] ==> id@[0] == '*');
    let mut i: usize = 0;
    while i < chars.len()
        invariant
            i <= chars@.len(),
            chars@ == id@,
            forall|k: int| 0 <= k < i ==> is_graphic(#[trigger] id@[k]),
        decreases chars@.len() - i,
    {
        let c: char = chars[i];
        assert(c == id@[i as int]);
        if !('!' <= c && c <= '~') {
            return false;
        }
        i = i + 1;
    }
    true
}

/// The first reference, from this one on, that is empty, an asterisk, or given
/// before.
pub open spec fn bad_reference(names: Seq<Seq<char>>, from: nat) -> Option<Seq<char>>
    decreases names.len() - from,
{
    if from >= names.len() {
        None
    } else if names[from as int].len() == 0 || names[from as int] == "*"@ || names.take(
        from as int,
    ).contains(names[from as int]) {
        Some(names[from as int])
    } else {
        bad_reference(names, from + 1)
    }
}

/// The policy routes through a gateway and has none.
pub open spec fn lacks_gateway(policy: EgressPolicy) -> bool {
    policy.policy == EgressPolicyAction::Gateway && policy.gateway is None
}

/// Some policy routes through a gateway and has none.
pub open spec fn some_lacks_gateway(policies: Seq<EgressPolicy>) -> bool {
    exists|i: int| 0 <= i < policies.len() && lacks_gateway(#[trigger] policies[i])
}

/// Some route leads through a gateway and has none.
pub open spec fn route_lacks_gateway(routing: Option<EgressPolicies>) -> bool {
    match routing {
        Some(routing) => some_lacks_gateway(routing.policies@),
        None => false,
    }
}

/// The first reference to a type that is not supported. A type without references
/// is passed over.
pub open spec fn bad_reference_type(refs: Seq<(String, Vec<String>)>) -> Option<Seq<char>>
    decreases refs.len(),
{
    if refs.len() == 0 {
        None
    } else if refs[0].1@.len() > 0 && refs[0].0@ != TRAFFIC_POLICY_TYPE@ {
        Some(refs[0].0@)
    } else {
        bad_reference_type(refs.drop_first())
    }
}

/// The names of all policies referred to.
pub open spec fn referred(refs: Seq<(String, Vec<String>)>) -> Seq<Seq<char>>
    decreases refs.len(),
{
    if refs.len() == 0 {
        Seq::empty()
    } else {
        referred(refs.drop_last()) + views(refs.last().1@)
    }
}

/// What is wrong with an extension.
pub open spec fn extension_fault(extension: SandboxExtension) -> Option<SandboxFault> {
    if extension.type_url@ != SNI_POLICY_TYPE_URL@ {
        Some(SandboxFault::UnsupportedExtension(extension.type_url@))
    } else {
        match extension.sni {
            SniContent::Unreadable(reason) => Some(SandboxFault::Sni(SniFault::Decode(reason@))),
            SniContent::Rules(rules) => match messages_fault(rules@) {
                Some(fault) => Some(SandboxFault::Sni(fault)),
                None => None,
            },
        }
    }
}

/// What is wrong with the first extension that is not accepted.
pub open spec fn extensions_fault(extensions: Seq<SandboxExtension>) -> Option<SandboxFault>
    decreases extensions.len(),
{
    if extensions.len() == 0 {
        None
    } else if extension_fault(extensions[0]) is Some {
        extension_fault(extensions[0])
    } else {
        extensions_fault(extensions.drop_first())
    }
}

/// The rules of all extensions, one after the other.
pub open spec fn sni_messages(extensions: Seq<SandboxExtension>) -> Seq<SniRuleMessage>
    decreases extensions.len(),
{
    if extensions.len() == 0 {
        Seq::empty()
    } else {
        sni_messages(extensions.drop_last()) + (match extensions.last().sni {
            SniContent::Rules(rules) => rules@,
            SniContent::Unreadable(_) => Seq::empty(),
        })
    }
}

/// What is wrong with a sandbox that the control plane sent.
pub open spec fn message_fault(message: SandboxMessage) -> Option<SandboxFault> {
    if bad_reference_type(message.policy_refs@) is Some {
        Some(
            SandboxFault::UnsupportedReference(bad_reference_type(message.policy_refs@).unwrap()),
        )
    } else if message.egress_routing is Some && policies_fault(message.egress_routing.unwrap()@)
        is Some {
        Some(SandboxFault::Routing(policies_fault(message.egress_routing.unwrap()@).unwrap()))
    } else if message.traffic_policy is Some && policy_fault(message.traffic_policy.unwrap())
        is Some {
        Some(SandboxFault::TrafficPolicy(policy_fault(message.traffic_policy.unwrap()).unwrap()))
    } else if extensions_fault(message.extensions@) is Some {
        extensions_fault(message.extensions@)
    } else if !valid_id(message.uid@) {
        Some(SandboxFault::InvalidUid)
    } else if opt_view(message.attester) matches Some(uid) && uid.len() == 0 {
        Some(SandboxFault::EmptyWorkloadUid)
    } else if bad_reference(referred(message.policy_refs@), 0) is Some {
        Some(
            SandboxFault::InvalidReference(
                bad_reference(referred(message.policy_refs@), 0).unwrap(),
            ),
        )
    } else {
        None
    }
}

/// The sandbox is the one that the message describes.
pub open spec fn sandbox_is(sandbox: Sandbox, message: SandboxMessage) -> bool {
    &&& sandbox.uid@ == message.uid@
    &&& opt_view(sandbox.workload_uid) == opt_view(message.attester)
    &&& views(sandbox.traffic_policy_refs@) == referred(message.policy_refs@)
    &&& match (sandbox.egress_routing, message.egress_routing) {
        (Some(routing), Some(sent)) => policies_are(routing.policies@, sent@),
        (None, None) => true,
        _ => false,
    }
    &&& match (sandbox.traffic_policy, message.traffic_policy) {
        (Some(policy), Some(sent)) => policy_is(policy, sent),
        (None, None) => true,
        _ => false,
    }
    &&& match sandbox.sni_policy {
        Some(policy) => message.extensions@.len() > 0 && rules_of(
            policy.rules@,
            sni_messages(message.extensions@),
        ),
        None => message.extensions@.len() == 0,
    }
}

/// What is wrong with a sandbox.
pub open spec fn sandbox_fault(sandbox: Sandbox) -> Option<SandboxFault> {
    if !valid_id(sandbox.uid@) {
        Some(SandboxFault::InvalidUid)
    } else if opt_view(sandbox.workload_uid) matches Some(uid) && uid.len() == 0 {
        Some(SandboxFault::EmptyWorkloadUid)
    } else if bad_reference(views(sandbox.traffic_policy_refs@), 0) is Some {
        Some(
            SandboxFault::InvalidReference(
                bad_reference(views(sandbox.traffic_policy_refs@), 0).unwrap(),
            ),
        )
    } else if sandbox.traffic_policy is Some && sandbox.traffic_policy.unwrap().unfit() is Some {
        Some(SandboxFault::InvalidPolicy(sandbox.traffic_policy.unwrap().unfit().unwrap()))
    } else if route_lacks_gateway(sandbox.egress_routing) {
        Some(SandboxFault::MissingGateway)
    } else {
        None
    }
}

fn occurs_before(names: &Vec<String>, i: usize) -> (r: bool)
    requires
        i < names@.len(),
    ensures
        r == views(names@).take(i as int).contains(views(names@)[i as int]),
{
    let ghost all = views(names@);
    let mut k: usize = 0;
    while k < i
        invariant
            k <= i < names@.len(),
            all == views(names@),
            forall|j: int| 0 <= j < k ==> #[trigger] all[j] != all[i as int],
        decreases i - k,
    {
        assert(all[k as int] == names@[k as int]@ && all[i as int] == names@[i as int]@);
        if same_text(names[k].as_str(), names[i].as_str()) {
            assert(all.take(i as int)[k as int] == all[i as int]);
            return true;
        }
        k = k + 1;
    }
    proof {
        if all.take(i as int).contains(all[i as int]) {
            let j = choose|j: int|
                0 <= j < all.take(i as int).len() && all.take(i as int)[j] == all[i as int];
            assert(all[j] == all[i as int]);
        }
    }
    false
}

/// The first reference that is empty, an asterisk, or given before.
pub fn invalid_reference(names: &Vec<String>) -> (r: Option<String>)
    ensures
        opt_view(r) == bad_reference(views(names@), 0),
{
    let ghost all = views(names@);
    let mut i: usize = 0;
    while i < names.len()
        invariant
            i <= names@.len(),
            all == views(names@),
            bad_reference(all, 0) == bad_reference(all, i as nat),
        decreases names@.len() - i,
    {
        assert(all[i as int] == names@[i as int]@);
        if names[i].is_empty() || same_text(names[i].as_str(), "*") || occurs_before(names, i) {
            return Some(names[i].clone());
        }
        i = i + 1;
    }
    None
}

impl EgressPolicy {
    /// Whether the policy has the gateway that it routes through.
    pub fn validate_route(&self) -> (r: bool)
        ensures
            r == !lacks_gateway(*self),
    {
        !(self.policy == EgressPolicyAction::Gateway && self.gateway.is_none())
    }
}

fn routes_are_valid(routing: &EgressPolicies) -> (r: bool)
    ensures
        r == !some_lacks_gateway(routing.policies@),
{
    let mut i: usize = 0;
    while i < routing.policies.len()
        invariant
            i <= routing.policies@.len(),
            forall|k: int| 0 <= k < i ==> !lacks_gateway(#[trigger] routing.policies@[k]),
        decreases routing.policies@.len() - i,
    {
        if !routing.policies[i].validate_route() {
            assert(lacks_gateway(routing.policies@[i as int]));
            return false;
        }
        i = i + 1;
    }
    true
}

fn check_reference_types(refs: &Vec<(String, Vec<String>)>) -> (r: Result<(), SandboxError>)
    ensures
        match r {
            Ok(_) => bad_reference_type(refs@) is None,
            Err(e) => bad_reference_type(refs@) matches Some(t) && e@
                == SandboxFault::UnsupportedReference(t),
        },
{
    let mut i: usize = 0;
    assert(refs@.skip(0) =~= refs@);
    while i < refs.len()
        invariant
            i <= refs@.len(),
            bad_reference_type(refs@) == bad_reference_type(refs@.skip(i as int)),
        decreases refs@.len() - i,
    {
        assert(refs@.skip(i as int).drop_first() =~= refs@.skip(i + 1));
        assert(refs@.skip(i as int)[0] == refs@[i as int]);
        if refs[i].1.len() > 0 && !same_text(refs[i].0.as_str(), TRAFFIC_POLICY_TYPE) {
            return Err(SandboxError::UnsupportedReference(refs[i].0.clone()));
        }
        i = i + 1;
    }
    Ok(())
}

fn push_names(out: &mut Vec<String>, names: &Vec<String>)
    ensures
        views(final(out)@) == views(old(out)@) + views(names@),
{
    let ghost start = views(out@);
    let mut i: usize = 0;
    assert(start + views(names@).take(0) =~= start);
    while i < names.len()
        invariant
            i <= names@.len(),
            views(out@) == start + views(names@).take(i as int),
        decreases names@.len() - i,
    {
        let ghost before = views(out@);
        out.push(names[i].clone());
        assert(views(out@) =~= before.push(views(names@)[i as int]));
        i = i + 1;
        assert(views(out@) =~= start + views(names@).take(i as int));
    }
    assert(views(names@).take(i as int) =~= views(names@));
}

fn references(refs: &Vec<(String, Vec<String>)>) -> (r: Vec<String>)
    ensures
        views(r@) == referred(refs@),
{
    let mut out: Vec<String> = Vec::new();
    let mut i: usize = 0;
    assert(views(out@) =~= referred(refs@.take(0)));
    while i < refs.len()
        invariant
            i <= refs@.len(),
            views(out@) == referred(refs@.take(i as int)),
        decreases refs@.len() - i,
    {
        assert(refs@.take(i + 1).drop_last() =~= refs@.take(i as int));
        push_names(&mut out, &refs[i].1);
        i = i + 1;
    }
    assert(refs@.take(i as int) =~= refs@);
    out
}

fn append_rules(out: &mut Vec<SniRule>, rules: Vec<SniRule>)
    ensures
        final(out)@ == old(out)@ + rules@,
{
    let mut rest: Vec<SniRule> = rules;
    out.append(&mut rest);
}

proof fn lemma_rules_appended(
    a: Seq<SniRule>,
    b: Seq<SniRule>,
    x: Seq<SniRuleMessage>,
    y: Seq<SniRuleMessage>,
)
    requires
        rules_of(a, x),
        rules_of(b, y),
    ensures
        rules_of(a + b, x + y),
{
    let all = a + b;
    let sent = x + y;
    assert forall|i: int| #![trigger all[i]] 0 <= i < all.len() implies rule_of(
        all[i],
        sent[i],
    ) by {
        if i < a.len() {
            assert(rule_of(a[i], x[i]));
        } else {
            assert(rule_of(b[i - a.len()], y[i - a.len()]));
        }
    }
}

fn read_extensions(extensions: Vec<SandboxExtension>) -> (r: Result<
    Option<SniTrafficPolicy>,
    SandboxError,
>)
    ensures
        match r {
            Ok(Some(policy)) => extensions_fault(extensions@) is None && extensions@.len() > 0
                && rules_of(policy.rules@, sni_messages(extensions@)),
            Ok(None) => extensions@.len() == 0,
            Err(e) => extensions_fault(extensions@) == Some(e@),
        },
{
    let ghost all = extensions@;
    let mut rest: Vec<SandboxExtension> = extensions;
    let count: usize = rest.len();
    if count == 0 {
        return Ok(None);
    }
    let mut rules: Vec<SniRule> = Vec::new();
    let mut i: usize = 0;
    assert(all.skip(0) =~= all);
    assert(rules_of(rules@, sni_messages(all.take(0))));
    while i < count
        invariant
            i <= count,
            count == all.len(),
            count > 0,
            all == extensions@,
            rest@ == all.skip(i as int),
            extensions_fault(all) == extensions_fault(all.skip(i as int)),
            rules_of(rules@, sni_messages(all.take(i as int))),
        decreases count - i,
    {
        let extension: SandboxExtension = rest.remove(0);
        assert(extension == all[i as int]);
        assert(all.skip(i as int).drop_first() =~= all.skip(i + 1));
        assert(rest@ =~= all.skip(i + 1));
        assert(all.take(i + 1).drop_last() =~= all.take(i as int));
        if !same_text(extension.type_url.as_str(), SNI_POLICY_TYPE_URL) {
            return Err(SandboxError::UnsupportedExtension(extension.type_url));
        }
        match extension.sni {
            SniContent::Unreadable(reason) => {
                return Err(SandboxError::Sni(SniPolicyError::Decode(reason)));
            },
            SniContent::Rules(sent) => match SniTrafficPolicy::from_messages(sent) {
                Err(e) => {
                    return Err(SandboxError::Sni(e));
                },
                Ok(policy) => {
                    proof {
                        lemma_rules_appended(
                            rules@,
                            policy.rules@,
                            sni_messages(all.take(i as int)),
                            sent@,
                        );
                    }
                    append_rules(&mut rules, policy.rules);
                },
            },
        }
        i = i + 1;
    }
    assert(all.take(i as int) =~= all);
    Ok(Some(SniTrafficPolicy { rules }))
}

proof fn lemma_accepted_routes(policies: Seq<EgressPolicy>, messages: Seq<EgressPolicyMessage>)
    requires
        policies_are(policies, messages),
        policies_fault(messages) is None,
    ensures
        forall|i: int| 0 <= i < policies.len() ==> !lacks_gateway(#[trigger] policies[i]),
{
    assert forall|i: int| 0 <= i < policies.len() implies !lacks_gateway(
        #[trigger] policies[i],
    ) by {
        assert(egress_is(policies[i], messages[i]));
        if egress_fault(messages[i]) is Some {
            law_one_fault_rejects_all(messages, i);
        }
    }
}

impl Sandbox {
    /// The sandbox that the control plane sent.
    pub fn try_from(message: SandboxMessage) -> (r: Result<Sandbox, SandboxError>)
        ensures
            match r {
                Ok(sandbox) => message_fault(message) is None && sandbox_is(sandbox, message),
                Err(e) => message_fault(message) == Some(e@),
            },
    {
        match check_reference_types(&message.policy_refs) {
            Ok(_) => {},
            Err(e) => {
                return Err(e);
            },
        }
        let traffic_policy_refs: Vec<String> = references(&message.policy_refs);
        let egress_routing: Option<EgressPolicies> = match message.egress_routing {
            None => None,
            Some(sent) => match EgressPolicies::try_from(sent) {
                Ok(routing) => {
                    proof {
                        lemma_accepted_routes(routing.policies@, sent@);
                    }
                    Some(routing)
                },
                Err(e) => {
                    return Err(SandboxError::Routing(e));
                },
            },
        };
        let traffic_policy: Option<TrafficPolicy> = match &message.traffic_policy {
            None => None,
            Some(sent) => match TrafficPolicy::try_from(sent) {
                Ok(policy) => {
                    proof {
                        law_accepted_policy_is_valid(policy, *sent);
                    }
                    Some(policy)
                },
                Err(e) => {
                    return Err(SandboxError::TrafficPolicy(e));
                },
            },
        };
        let sni_policy: Option<SniTrafficPolicy> = match read_extensions(message.extensions) {
            Ok(policy) => policy,
            Err(e) => {
                return Err(e);
            },
        };
        let sandbox: Sandbox = Sandbox {
            uid: message.uid,
            workload_uid: message.attester,
            egress_routing,
            traffic_policy,
            traffic_policy_refs,
            sni_policy,
        };
        match sandbox.validate() {
            Ok(_) => Ok(sandbox),
            Err(e) => Err(e),
        }
    }

    /// Whether the sandbox is one that the control plane could have sent.
    pub fn validate(&self) -> (r: Result<(), SandboxError>)
        ensures
            match r {
                Ok(_) => sandbox_fault(*self) is None,
                Err(e) => sandbox_fault(*self) == Some(e@),
            },
    {
        if !validate_id(self.uid.as_str()) {
            return Err(SandboxError::InvalidUid);
        }
        if let Some(uid) = &self.workload_uid {
            if uid.is_empty() {
                return Err(SandboxError::EmptyWorkloadUid);
            }
        }
        if let Some(name) = invalid_reference(&self.traffic_policy_refs) {
            return Err(SandboxError::InvalidReference(name));
        }
        if let Some(policy) = &self.traffic_policy {
            match policy.validate() {
                Ok(_) => {},
                Err(e) => {
                    return Err(SandboxError::InvalidPolicy(e));
                },
            }
        }
        if let Some(routing) = &self.egress_routing {
            if !routes_are_valid(routing) {
                return Err(SandboxError::MissingGateway);
            }
        }
        Ok(())
    }

    /// The sandbox's policies in the order of their evaluation: its own, then those
    /// that it refers to, as far as they are there.
    pub open spec fn spec_traffic_policies(self, store: Map<Seq<char>, TrafficPolicy>) -> Seq<
        Link,
    > {
        (match self.traffic_policy {
            Some(policy) => seq![Link { name: "inline"@, policy: Some(policy) }],
            None => Seq::empty(),
        }) + referred_policies(views(self.traffic_policy_refs@), store)
    }

    /// The sandbox's policies in the order of their evaluation.
    pub fn traffic_policies<'a>(&'a self, store: &'a TrafficPolicyStore) -> (r: Vec<Attached<'a>>)
        ensures
            links(r@) == self.spec_traffic_policies(store@),
    {
        let mut out: Vec<Attached<'a>> = Vec::new();
        if let Some(policy) = &self.traffic_policy {
            out.push(Attached { name: "inline", policy: Some(policy) });
            assert(links(out@) =~= seq![Link { name: "inline"@, policy: Some(*policy) }]);
        } else {
            assert(links(out@) =~= Seq::empty());
        }
        attach(&mut out, &self.traffic_policy_refs, store);
        out
    }
}

/// The policies of these names, as far as they are there.
pub open spec fn referred_policies(
    names: Seq<Seq<char>>,
    store: Map<Seq<char>, TrafficPolicy>,
) -> Seq<Link> {
    names.map_values(
        |name: Seq<char>|
            Link {
                name,
                policy: if store.dom().contains(name) {
                    Some(store[name])
                } else {
                    None
                },
            },
    )
}

/// Puts the policies of these names, as far as they are there, behind the others.
pub fn attach<'a>(
    out: &mut Vec<Attached<'a>>,
    names: &'a Vec<String>,
    store: &'a TrafficPolicyStore,
)
    ensures
        links(final(out)@) == links(old(out)@) + referred_policies(views(names@), store@),
{
    let ghost start = links(out@);
    let ghost all = referred_policies(views(names@), store@);
    let mut i: usize = 0;
    assert(start + all.take(0) =~= start);
    while i < names.len()
        invariant
            i <= names@.len(),
            all == referred_policies(views(names@), store@),
            links(out@) == start + all.take(i as int),
        decreases names@.len() - i,
    {
        let ghost before = links(out@);
        let link: Attached<'a> = Attached {
            name: names[i].as_str(),
            policy: store.get(&names[i]),
        };
        assert(link@ == all[i as int]);
        out.push(link);
        assert(links(out@) =~= before.push(all[i as int]));
        i = i + 1;
        assert(links(out@) =~= start + all.take(i as int));
    }
    assert(all.take(i as int) =~= all);
}

/// A route leads nowhere exactly where it asks for a gateway and names none, and routes
/// are fit exactly where each of them leads somewhere.
pub proof fn law_routes_lead_somewhere(routing: EgressPolicies)
    ensures
        route_lacks_gateway(None) == false,
        route_lacks_gateway(Some(routing)) <==> exists|i: int|
            0 <= i < routing.policies@.len() && (#[trigger] routing.policies@[i]).policy is Gateway
                && routing.policies@[i].gateway is None,
        forall|i: int|
            0 <= i < routing.policies@.len() ==> (lacks_gateway(#[trigger] routing.policies@[i])
                <==> routing.policies@[i].policy is Gateway && routing.policies@[i].gateway is None),
{
    if exists|i: int|
        0 <= i < routing.policies@.len() && (#[trigger] routing.policies@[i]).policy is Gateway
            && routing.policies@[i].gateway is None {
        let i = choose|i: int|
            0 <= i < routing.policies@.len() && (#[trigger] routing.policies@[i]).policy is Gateway
                && routing.policies@[i].gateway is None;
        assert(lacks_gateway(routing.policies@[i]));
    }
}

} // verus!
