//! Extensions of workloads and policies, and the egress policies among them.

use vstd::prelude::*;

use crate::index::lemma_pushed;
use crate::labels::{base64_text, encode_labels, label_views, labels_text};
use crate::net::{parsed_net, IpNet};
use crate::state::workload::{Destination, GatewayAddress, NamespacedHostname};
use crate::text::{
    decimal, decimal_text, joined, law_decimal_reads_back, law_split_of_one, law_split_of_two,
    law_split_parts, list_has, parse_u16, same_text, signed_decimal, signed_decimal_text, split,
    split_text, u16_value, views,
};

verus! {

/// The type of the extension with the priority and mode of a traffic policy.
pub const TRAFFIC_POLICY_TYPE_URL: &'static str =
    "type.googleapis.com/kruise.networking.extensions.v1.TrafficPolicyExtension";

/// The type of the extension with a workload's labels.
pub const WORKLOAD_METADATA_TYPE_URL: &'static str =
    "type.googleapis.com/kruise.networking.extensions.v1.WorkloadMetadata";

/// The type of the extension with a workload's egress policies.
pub const DEFAULT_EGRESS_POLICIES_TYPE_URL: &'static str =
    "type.googleapis.com/kruise.networking.extensions.v1.EgressPolicies";

/// The port on which a gateway takes tunnels unless it names another.
pub const DEFAULT_HBONE_PORT: u16 = 15008;

/// What happens to traffic that a policy speaks of.
#[derive(Clone, Copy, Debug, PartialEq, Eq, Hash, Structural)]
pub enum EgressPolicyAction {
    Passthrough,
    Deny,
    Gateway,
}

/// Why egress policies are not accepted.
#[derive(Debug, PartialEq, Eq)]
pub enum EgressPolicyError {
    UnknownAction(i32),
    InvalidCidr(String),
    InvalidPort(String),
    InvalidGatewayService(String),
    InvalidGatewayPort(u32),
    MissingGateway,
    Decode(String),
}

/// Where traffic of these namespaces to these networks and ports goes. An empty
/// list stands for all; no namespace stands in its list twice.
#[derive(Clone, Debug, PartialEq, Eq, Hash)]
pub struct EgressPolicy {
    pub namespaces: Vec<String>,
    pub match_cidrs: Vec<IpNet>,
    pub match_ports: Vec<u16>,
    pub policy: EgressPolicyAction,
    pub gateway: Option<GatewayAddress>,
}

/// Policies in the order in which they are tried.
#[derive(Clone, Debug, PartialEq, Eq, Hash)]
pub struct EgressPolicies {
    pub policies: Vec<EgressPolicy>,
}

/// A gateway as the control plane sends it.
#[derive(Clone, Debug, PartialEq, Eq)]
pub struct GatewayMessage {
    pub service: String,
    pub port: u32,
}

/// A policy as the control plane sends it.
#[derive(Clone, Debug, PartialEq, Eq)]
pub struct EgressPolicyMessage {
    pub namespaces: Vec<String>,
    pub match_cidrs: Vec<String>,
    pub match_ports: Vec<String>,
    pub policy: i32,
    pub gateway: Option<GatewayMessage>,
}

/// Why egress policies are not accepted, as mathematics has it.
pub enum Fault {
    UnknownAction(i32),
    InvalidCidr(Seq<char>),
    InvalidPort(Seq<char>),
    InvalidGatewayService(Seq<char>),
    InvalidGatewayPort(u32),
    MissingGateway,
    Decode(Seq<char>),
}

impl View for EgressPolicyError {
    type V = Fault;

    open spec fn view(&self) -> Fault {
        match *self {
            EgressPolicyError::UnknownAction(n) => Fault::UnknownAction(n),
            EgressPolicyError::InvalidCidr(s) => Fault::InvalidCidr(s@),
            EgressPolicyError::InvalidPort(s) => Fault::InvalidPort(s@),
            EgressPolicyError::InvalidGatewayService(s) => Fault::InvalidGatewayService(s@),
            EgressPolicyError::InvalidGatewayPort(n) => Fault::InvalidGatewayPort(n),
            EgressPolicyError::MissingGateway => Fault::MissingGateway,
            EgressPolicyError::Decode(s) => Fault::Decode(s@),
        }
    }
}

/// The action that a number stands for.
pub open spec fn action_of(number: i32) -> Option<EgressPolicyAction> {
    if number == 0 {
        Some(EgressPolicyAction::Passthrough)
    } else if number == 1 {
        Some(EgressPolicyAction::Deny)
    } else if number == 2 {
        Some(EgressPolicyAction::Gateway)
    } else {
        None
    }
}

/// The part of a service's name at this position, empty where it has fewer.
pub open spec fn service_part(service: Seq<char>, i: int) -> Seq<char> {
    if i < split(service, '.').len() {
        split(service, '.')[i]
    } else {
        Seq::empty()
    }
}

/// What is wrong with a gateway: its service has no name or no namespace, or its
/// port is none.
pub open spec fn gateway_fault(gateway: GatewayMessage) -> Option<Fault> {
    if service_part(gateway.service@, 0).len() == 0 || service_part(gateway.service@, 1).len()
        == 0 {
        Some(Fault::InvalidGatewayService(gateway.service@))
    } else if gateway.port > u16::MAX {
        Some(Fault::InvalidGatewayPort(gateway.port))
    } else {
        None
    }
}

/// The gateway is the one that the message names: by host name, in the namespace
/// that is the name's second part.
pub open spec fn gateway_is(gateway: GatewayAddress, message: GatewayMessage) -> bool {
    &&& gateway.hbone_mtls_port == (if message.port == 0 {
        DEFAULT_HBONE_PORT
    } else {
        message.port as u16
    })
    &&& gateway.destination matches Destination::Hostname(host) && host.hostname@
        == message.service@ && host.namespace@ == service_part(message.service@, 1)
}

/// The first text that writes no network.
pub open spec fn bad_cidr(texts: Seq<String>) -> Option<Seq<char>>
    decreases texts.len(),
{
    if texts.len() == 0 {
        None
    } else if parsed_net(texts[0]@) is None {
        Some(texts[0]@)
    } else {
        bad_cidr(texts.drop_first())
    }
}

/// The first text that writes no port.
pub open spec fn bad_port(texts: Seq<String>) -> Option<Seq<char>>
    decreases texts.len(),
{
    if texts.len() == 0 {
        None
    } else if u16_value(texts[0]@) is None {
        Some(texts[0]@)
    } else {
        bad_port(texts.drop_first())
    }
}

/// What is wrong with a policy.
pub open spec fn policy_fault(message: EgressPolicyMessage) -> Option<Fault> {
    if action_of(message.policy) is None {
        Some(Fault::UnknownAction(message.policy))
    } else if bad_cidr(message.match_cidrs@) is Some {
        Some(Fault::InvalidCidr(bad_cidr(message.match_cidrs@).unwrap()))
    } else if bad_port(message.match_ports@) is Some {
        Some(Fault::InvalidPort(bad_port(message.match_ports@).unwrap()))
    } else if message.gateway is Some && gateway_fault(message.gateway.unwrap()) is Some {
        gateway_fault(message.gateway.unwrap())
    } else if action_of(message.policy) == Some(EgressPolicyAction::Gateway) && message.gateway
        is None {
        Some(Fault::MissingGateway)
    } else {
        None
    }
}

/// The network is the one that the text writes.
pub open spec fn net_is(net: IpNet, text: Seq<char>) -> bool {
    parsed_net(text) == Some(
        (net.spec_addr() is V6, net.spec_addr().number() as u128, net.spec_prefix_len()),
    )
}

/// The networks are those that the texts write.
pub open spec fn nets_are(nets: Seq<IpNet>, texts: Seq<String>) -> bool {
    nets.len() == texts.len() && forall|i: int|
        #![trigger nets[i]]
        0 <= i < nets.len() ==> net_is(nets[i], texts[i]@)
}

/// The ports are those that the texts write.
pub open spec fn ports_are(ports: Seq<u16>, texts: Seq<String>) -> bool {
    ports.len() == texts.len() && forall|i: int|
        #![trigger ports[i]]
        0 <= i < ports.len() ==> u16_value(texts[i]@) == Some(ports[i])
}

/// The list has the same members, each once.
pub open spec fn members_are(list: Seq<String>, texts: Seq<String>) -> bool {
    &&& views(list).no_duplicates()
    &&& forall|t: Seq<char>| #[trigger] views(list).contains(t) == views(texts).contains(t)
}

/// The policy says what the message does.
pub open spec fn policy_is(policy: EgressPolicy, message: EgressPolicyMessage) -> bool {
    &&& action_of(message.policy) == Some(policy.policy)
    &&& members_are(policy.namespaces@, message.namespaces@)
    &&& nets_are(policy.match_cidrs@, message.match_cidrs@)
    &&& ports_are(policy.match_ports@, message.match_ports@)
    &&& match (policy.gateway, message.gateway) {
        (Some(gateway), Some(sent)) => gateway_is(gateway, sent),
        (None, None) => true,
        _ => false,
    }
}

/// What is wrong with the first policy that is not accepted.
pub open spec fn policies_fault(messages: Seq<EgressPolicyMessage>) -> Option<Fault>
    decreases messages.len(),
{
    if messages.len() == 0 {
        None
    } else if policy_fault(messages[0]) is Some {
        policy_fault(messages[0])
    } else {
        policies_fault(messages.drop_first())
    }
}

/// The policies say what the messages do, in the same order.
pub open spec fn policies_are(
    policies: Seq<EgressPolicy>,
    messages: Seq<EgressPolicyMessage>,
) -> bool {
    policies.len() == messages.len() && forall|i: int|
        #![trigger policies[i]]
        0 <= i < policies.len() ==> policy_is(policies[i], messages[i])
}

impl EgressPolicyAction {
    /// The action that a number stands for.
    pub fn try_from(value: i32) -> (r: Result<EgressPolicyAction, EgressPolicyError>)
        ensures
            match r {
                Ok(action) => action_of(value) == Some(action),
                Err(e) => action_of(value) is None && e@ == Fault::UnknownAction(value),
            },
    {
        match value {
            0 => Ok(EgressPolicyAction::Passthrough),
            1 => Ok(EgressPolicyAction::Deny),
            2 => Ok(EgressPolicyAction::Gateway),
            other => Err(EgressPolicyError::UnknownAction(other)),
        }
    }
}

impl EgressPolicyError {
    /// The error in words.
    pub open spec fn described(self) -> Seq<char> {
        match self@ {
            Fault::UnknownAction(n) => "unknown egress policy action: "@ + signed_decimal(n as int),
            Fault::InvalidCidr(s) => "invalid egress policy CIDR: "@ + s,
            Fault::InvalidPort(s) => "invalid egress policy port: "@ + s,
            Fault::InvalidGatewayService(s) => "invalid egress gateway service: "@ + s,
            Fault::InvalidGatewayPort(n) => "invalid egress gateway port: "@ + decimal(n as nat),
            Fault::MissingGateway => "gateway action requires a gateway"@,
            Fault::Decode(s) => "failed to decode egress policies: "@ + s,
        }
    }

    /// The error in words.
    pub fn message(&self) -> (r: String)
        ensures
            r@ == self.described(),
    {
        let mut out: String = match self {
            EgressPolicyError::UnknownAction(_) => "unknown egress policy action: ".to_owned(),
            EgressPolicyError::InvalidCidr(_) => "invalid egress policy CIDR: ".to_owned(),
            EgressPolicyError::InvalidPort(_) => "invalid egress policy port: ".to_owned(),
            EgressPolicyError::InvalidGatewayService(_) =>
                "invalid egress gateway service: ".to_owned(),
            EgressPolicyError::InvalidGatewayPort(_) => "invalid egress gateway port: ".to_owned(),
            EgressPolicyError::MissingGateway => "gateway action requires a gateway".to_owned(),
            EgressPolicyError::Decode(_) => "failed to decode egress policies: ".to_owned(),
        };
        match self {
            EgressPolicyError::UnknownAction(n) => out.append(signed_decimal_text(*n).as_str()),
            EgressPolicyError::InvalidCidr(s) => out.append(s.as_str()),
            EgressPolicyError::InvalidPort(s) => out.append(s.as_str()),
            EgressPolicyError::InvalidGatewayService(s) => out.append(s.as_str()),
            EgressPolicyError::InvalidGatewayPort(n) => out.append(
                decimal_text(*n as u64).as_str(),
            ),
            EgressPolicyError::MissingGateway => {},
            EgressPolicyError::Decode(s) => out.append(s.as_str()),
        }
        out
    }
}

/// The gateway that a message names. Its service is a full host name such as
/// `name.namespace.svc.cluster.local`; port zero stands for the default.
pub fn proto_gateway_to_gateway(message: &GatewayMessage) -> (r: Result<
    GatewayAddress,
    EgressPolicyError,
>)
    ensures
        match r {
            Ok(gateway) => gateway_fault(*message) is None && gateway_is(gateway, *message),
            Err(e) => gateway_fault(*message) == Some(e@),
        },
{
    let parts: Vec<String> = split_text(message.service.as_str(), '.');
    assert(views(parts@)[0] == parts@[0]@);
    if parts.len() > 1 {
        assert(views(parts@)[1] == parts@[1]@);
    }
    if parts[0].is_empty() || parts.len() < 2 || parts[1].is_empty() {
        return Err(EgressPolicyError::InvalidGatewayService(message.service.clone()));
    }
    if message.port > 65535 {
        return Err(EgressPolicyError::InvalidGatewayPort(message.port));
    }
    let port: u16 = if message.port == 0 {
        DEFAULT_HBONE_PORT
    } else {
        message.port as u16
    };
    Ok(
        GatewayAddress {
            destination: Destination::Hostname(
                NamespacedHostname {
                    namespace: parts[1].clone(),
                    hostname: message.service.clone(),
                },
            ),
            hbone_mtls_port: port,
        },
    )
}

fn read_cidrs(texts: &Vec<String>) -> (r: Result<Vec<IpNet>, EgressPolicyError>)
    ensures
        match r {
            Ok(nets) => bad_cidr(texts@) is None && nets_are(nets@, texts@),
            Err(e) => bad_cidr(texts@) is Some && e@ == Fault::InvalidCidr(
                bad_cidr(texts@).unwrap(),
            ),
        },
{
    let mut out: Vec<IpNet> = Vec::new();
    let mut i: usize = 0;
    assert(texts@.skip(0) =~= texts@);
    while i < texts.len()
        invariant
            i <= texts@.len(),
            out@.len() == i,
            bad_cidr(texts@) == bad_cidr(texts@.skip(i as int)),
            forall|k: int| #![trigger out@[k]] 0 <= k < i ==> net_is(out@[k], texts@[k]@),
        decreases texts@.len() - i,
    {
        assert(texts@.skip(i as int).drop_first() =~= texts@.skip(i + 1));
        assert(texts@.skip(i as int)[0] == texts@[i as int]);
        match IpNet::parse(texts[i].as_str()) {
            Some(net) => {
                out.push(net);
            },
            None => {
                return Err(EgressPolicyError::InvalidCidr(texts[i].clone()));
            },
        }
        i = i + 1;
    }
    Ok(out)
}

fn read_ports(texts: &Vec<String>) -> (r: Result<Vec<u16>, EgressPolicyError>)
    ensures
        match r {
            Ok(ports) => bad_port(texts@) is None && ports_are(ports@, texts@),
            Err(e) => bad_port(texts@) is Some && e@ == Fault::InvalidPort(
                bad_port(texts@).unwrap(),
            ),
        },
{
    let mut out: Vec<u16> = Vec::new();
    let mut i: usize = 0;
    assert(texts@.skip(0) =~= texts@);
    while i < texts.len()
        invariant
            i <= texts@.len(),
            out@.len() == i,
            bad_port(texts@) == bad_port(texts@.skip(i as int)),
            forall|k: int|
                #![trigger out@[k]]
                0 <= k < i ==> u16_value(texts@[k]@) == Some(out@[k]),
        decreases texts@.len() - i,
    {
        assert(texts@.skip(i as int).drop_first() =~= texts@.skip(i + 1));
        assert(texts@.skip(i as int)[0] == texts@[i as int]);
        match parse_u16(texts[i].as_str()) {
            Some(port) => {
                out.push(port);
            },
            None => {
                return Err(EgressPolicyError::InvalidPort(texts[i].clone()));
            },
        }
        i = i + 1;
    }
    Ok(out)
}

fn members(texts: &Vec<String>) -> (r: Vec<String>)
    ensures
        members_are(r@, texts@),
{
    let mut out: Vec<String> = Vec::new();
    let mut i: usize = 0;
    while i < texts.len()
        invariant
            i <= texts@.len(),
            views(out@).no_duplicates(),
            forall|t: Seq<char>| #[trigger]
                views(out@).contains(t) == views(texts@).take(i as int).contains(t),
        decreases texts@.len() - i,
    {
        let ghost before = views(out@);
        let ghost seen = views(texts@).take(i as int);
        let ghost next = views(texts@)[i as int];
        assert(views(texts@).take(i + 1) =~= seen.push(next));
        if !list_has(out.as_slice(), texts[i].as_str()) {
            out.push(texts[i].clone());
            assert(views(out@) =~= before.push(next));
            proof {
                assert forall|t: Seq<char>| #[trigger] views(out@).contains(t) == seen.push(
                    next,
                ).contains(t) by {
                    lemma_pushed(before, next, t);
                    lemma_pushed(seen, next, t);
                }
            }
        } else {
            assert forall|t: Seq<char>| #[trigger] views(out@).contains(t) == seen.push(
                next,
            ).contains(t) by {
                lemma_pushed(seen, next, t);
            }
        }
        i = i + 1;
    }
    assert(views(texts@).take(i as int) =~= views(texts@));
    out
}

impl EgressPolicy {
    /// The policy that the control plane sent.
    pub fn try_from(message: EgressPolicyMessage) -> (r: Result<EgressPolicy, EgressPolicyError>)
        ensures
            match r {
                Ok(policy) => policy_fault(message) is None && policy_is(policy, message),
                Err(e) => policy_fault(message) == Some(e@),
            },
    {
        let policy: EgressPolicyAction = match EgressPolicyAction::try_from(message.policy) {
            Ok(action) => action,
            Err(e) => {
                return Err(e);
            },
        };
        let match_cidrs: Vec<IpNet> = match read_cidrs(&message.match_cidrs) {
            Ok(nets) => nets,
            Err(e) => {
                return Err(e);
            },
        };
        let match_ports: Vec<u16> = match read_ports(&message.match_ports) {
            Ok(ports) => ports,
            Err(e) => {
                return Err(e);
            },
        };
        let gateway: Option<GatewayAddress> = match &message.gateway {
            None => None,
            Some(sent) => match proto_gateway_to_gateway(sent) {
                Ok(gateway) => Some(gateway),
                Err(e) => {
                    return Err(e);
                },
            },
        };
        if policy == EgressPolicyAction::Gateway && gateway.is_none() {
            return Err(EgressPolicyError::MissingGateway);
        }
        let namespaces: Vec<String> = members(&message.namespaces);
        Ok(EgressPolicy { namespaces, match_cidrs, match_ports, policy, gateway })
    }
}

impl EgressPolicies {
    /// The policies that the control plane sent; one that is not accepted rejects
    /// them all.
    pub fn try_from(messages: Vec<EgressPolicyMessage>) -> (r: Result<
        EgressPolicies,
        EgressPolicyError,
    >)
        ensures
            match r {
                Ok(policies) => policies_fault(messages@) is None && policies_are(
                    policies.policies@,
                    messages@,
                ),
                Err(e) => policies_fault(messages@) == Some(e@),
            },
    {
        let ghost all = messages@;
        let mut rest: Vec<EgressPolicyMessage> = messages;
        let count: usize = rest.len();
        let mut policies: Vec<EgressPolicy> = Vec::new();
        let mut i: usize = 0;
        assert(all.skip(0) =~= all);
        while i < count
            invariant
                i <= count,
                count == all.len(),
                all == messages@,
                rest@ == all.skip(i as int),
                policies@.len() == i,
                policies_fault(all) == policies_fault(all.skip(i as int)),
                forall|k: int|
                    #![trigger policies@[k]]
                    0 <= k < i ==> policy_is(policies@[k], all[k]),
            decreases count - i,
        {
            let message: EgressPolicyMessage = rest.remove(0);
            assert(message == all[i as int]);
            assert(all.skip(i as int).drop_first() =~= all.skip(i + 1));
            assert(rest@ =~= all.skip(i + 1));
            match EgressPolicy::try_from(message) {
                Ok(policy) => {
                    policies.push(policy);
                },
                Err(e) => {
                    return Err(e);
                },
            }
            i = i + 1;
        }
        Ok(EgressPolicies { policies })
    }
}

/// One policy that is not accepted rejects them all, whatever stands around it.
pub proof fn law_one_fault_rejects_all(messages: Seq<EgressPolicyMessage>, i: int)
    requires
        0 <= i < messages.len(),
        policy_fault(messages[i]) is Some,
    ensures
        policies_fault(messages) is Some,
    decreases messages.len(),
{
    if i > 0 && policy_fault(messages[0]) is None {
        assert(messages.drop_first()[i - 1] == messages[i]);
        law_one_fault_rejects_all(messages.drop_first(), i - 1);
    }
}

/// A value of some type, as bytes.
#[derive(Clone, Debug, PartialEq, Eq)]
pub struct AnyMessage {
    pub type_url: String,
    pub value: Vec<u8>,
}

/// An extension as the control plane sends it.
#[derive(Clone, Debug, PartialEq, Eq)]
pub struct ExtensionMessage {
    pub name: String,
    pub config: Option<AnyMessage>,
}

/// The labels of a workload; no name stands in the list twice.
#[derive(Clone, Debug, PartialEq, Eq)]
pub struct WorkloadMetadata {
    pub labels: Vec<(String, String)>,
}

/// The priority and mode of a traffic policy.
#[derive(Clone, Copy, Debug, PartialEq, Eq, Structural)]
pub struct TrafficPolicyExtension {
    pub priority: i32,
    pub mode: i32,
}

/// An extension that was not read, kept as it came.
#[derive(Clone, Debug, PartialEq, Eq)]
pub struct RawExtension {
    pub name: String,
    pub config_type_url: Option<String>,
    pub config_raw: Option<Vec<u8>>,
}

/// An extension, read where its type is known.
#[derive(Clone, Debug, PartialEq, Eq)]
pub enum AuthExtension {
    WorkloadMetadata(WorkloadMetadata),
    TrafficPolicy(TrafficPolicyExtension),
    EgressPolicies(EgressPolicies),
    Raw(RawExtension),
}

/// Whether the extension carries a value of this type.
pub open spec fn carries(extension: ExtensionMessage, type_url: Seq<char>) -> bool {
    extension.config matches Some(any) && any.type_url@ == type_url
}

/// The extension is kept as it came.
pub open spec fn raw_is(raw: RawExtension, extension: ExtensionMessage) -> bool {
    &&& raw.name == extension.name
    &&& match extension.config {
        Some(any) => raw.config_type_url == Some(any.type_url) && raw.config_raw == Some(any.value),
        None => raw.config_type_url is None && raw.config_raw is None,
    }
}

/// What becomes of an extension of a workload.
pub open spec fn is_of_workload(
    read: Result<AuthExtension, EgressPolicyError>,
    extension: ExtensionMessage,
    metadata: Option<WorkloadMetadata>,
    egress: Result<Vec<EgressPolicyMessage>, String>,
) -> bool {
    if carries(extension, WORKLOAD_METADATA_TYPE_URL@) && metadata is Some {
        read == Ok::<AuthExtension, EgressPolicyError>(
            AuthExtension::WorkloadMetadata(metadata.unwrap()),
        )
    } else if carries(extension, DEFAULT_EGRESS_POLICIES_TYPE_URL@) && !carries(
        extension,
        WORKLOAD_METADATA_TYPE_URL@,
    ) {
        match (egress, read) {
            (Err(reason), Err(e)) => e@ == Fault::Decode(reason@),
            (Err(_), Ok(_)) => false,
            (Ok(sent), Err(e)) => policies_fault(sent@) == Some(e@),
            (Ok(sent), Ok(AuthExtension::EgressPolicies(p))) => policies_fault(sent@) is None
                && policies_are(p.policies@, sent@),
            (Ok(_), Ok(_)) => false,
        }
    } else {
        read matches Ok(AuthExtension::Raw(raw)) && raw_is(raw, extension)
    }
}

/// What becomes of an extension of a policy.
pub open spec fn is_of_policy(
    read: AuthExtension,
    extension: ExtensionMessage,
    policy: Option<TrafficPolicyExtension>,
) -> bool {
    if carries(extension, TRAFFIC_POLICY_TYPE_URL@) && policy is Some {
        read == AuthExtension::TrafficPolicy(policy.unwrap())
    } else {
        read matches AuthExtension::Raw(raw) && raw_is(raw, extension)
    }
}

fn is_of_type(extension: &ExtensionMessage, type_url: &str) -> (r: bool)
    ensures
        r == carries(*extension, type_url@),
{
    match &extension.config {
        Some(any) => same_text(any.type_url.as_str(), type_url),
        None => false,
    }
}

impl WorkloadMetadata {
    /// The labels as base64 of `name=value,...`, in order of their names: whoever
    /// has the same labels has the same text.
    pub fn encode_labels(&self) -> (r: String)
        ensures
            r@ == base64_text(labels_text(label_views(self.labels@))),
    {
        encode_labels(&self.labels)
    }
}

impl RawExtension {
    /// The extension as it came.
    pub fn from(extension: ExtensionMessage) -> (r: RawExtension)
        ensures
            raw_is(r, extension),
    {
        match extension.config {
            Some(any) => RawExtension {
                name: extension.name,
                config_type_url: Some(any.type_url),
                config_raw: Some(any.value),
            },
            None => RawExtension {
                name: extension.name,
                config_type_url: None,
                config_raw: None,
            },
        }
    }
}

impl AuthExtension {
    /// An extension of a workload. `metadata` and `egress` are what its bytes say
    /// when read as labels and as egress policies; only the one that its type names
    /// counts. Labels that cannot be read leave the extension as it came; egress
    /// policies that cannot be read, or are not accepted, reject it.
    pub fn from_workload(
        extension: ExtensionMessage,
        metadata: Option<WorkloadMetadata>,
        egress: Result<Vec<EgressPolicyMessage>, String>,
    ) -> (r: Result<AuthExtension, EgressPolicyError>)
        ensures
            is_of_workload(r, extension, metadata, egress),
    {
        if is_of_type(&extension, WORKLOAD_METADATA_TYPE_URL) {
            if let Some(metadata) = metadata {
                return Ok(AuthExtension::WorkloadMetadata(metadata));
            }
        } else if is_of_type(&extension, DEFAULT_EGRESS_POLICIES_TYPE_URL) {
            return match egress {
                Err(reason) => Err(EgressPolicyError::Decode(reason)),
                Ok(sent) => match EgressPolicies::try_from(sent) {
                    Ok(policies) => Ok(AuthExtension::EgressPolicies(policies)),
                    Err(e) => Err(e),
                },
            };
        }
        Ok(AuthExtension::Raw(RawExtension::from(extension)))
    }

    /// An extension of a policy. `policy` is what its bytes say when read as the
    /// priority and mode of a traffic policy.
    pub fn from_security(
        extension: ExtensionMessage,
        policy: Option<TrafficPolicyExtension>,
    ) -> (r: AuthExtension)
        ensures
            is_of_policy(r, extension, policy),
    {
        if is_of_type(&extension, TRAFFIC_POLICY_TYPE_URL) {
            if let Some(policy) = policy {
                return AuthExtension::TrafficPolicy(policy);
            }
        }
        AuthExtension::Raw(RawExtension::from(extension))
    }
}

/// Whether the name of a service starts with these two parts, neither of them empty.
pub open spec fn begins_with(service: Seq<char>, name: Seq<char>, namespace: Seq<char>) -> bool {
    &&& name.len() > 0 && !name.contains('.')
    &&& namespace.len() > 0 && !namespace.contains('.')
    &&& {
        ||| service == name + seq!['.'] + namespace
        ||| exists|rest: Seq<char>| #[trigger]
            (name + seq!['.'] + namespace + seq!['.'] + rest) == service
    }
}

proof fn lemma_service_parts(service: Seq<char>, name: Seq<char>, namespace: Seq<char>)
    requires
        begins_with(service, name, namespace),
    ensures
        service_part(service, 0) == name,
        service_part(service, 1) == namespace,
{
    law_split_of_one(name, '.');
    law_split_of_one(namespace, '.');
    law_split_of_two(name, namespace, '.');
    let both = name + seq!['.'] + namespace;
    assert(split(both, '.') =~= seq![name, namespace]);
    if service != both {
        let rest = choose|rest: Seq<char>| #[trigger]
            (name + seq!['.'] + namespace + seq!['.'] + rest) == service;
        law_split_of_two(both, rest, '.');
        assert(both + seq!['.'] + rest =~= service);
        assert(split(service, '.')[0] == name);
        assert(split(service, '.')[1] == namespace);
    }
}

proof fn lemma_service_begins(service: Seq<char>)
    requires
        service_part(service, 0).len() > 0,
        service_part(service, 1).len() > 0,
    ensures
        begins_with(service, service_part(service, 0), service_part(service, 1)),
{
    let parts = split(service, '.');
    law_split_parts(service, '.');
    let name = parts[0];
    let namespace = parts[1];
    assert(!parts[0].contains('.') && !parts[1].contains('.'));
    lemma_joined_from_two(parts, '.');
    if parts.len() > 2 {
        let rest = joined(parts.skip(2), seq!['.']);
        assert(name + seq!['.'] + namespace + seq!['.'] + rest == service);
    }
}

proof fn lemma_joined_from_two(parts: Seq<Seq<char>>, separator: char)
    requires
        parts.len() >= 2,
    ensures
        parts.len() == 2 ==> joined(parts, seq![separator]) == parts[0] + seq![separator] + parts[1],
        parts.len() > 2 ==> joined(parts, seq![separator]) == parts[0] + seq![separator] + parts[1]
            + seq![separator] + joined(parts.skip(2), seq![separator]),
    decreases parts.len(),
{
    reveal_with_fuel(joined, 3);
    if parts.len() == 2 {
        assert(parts.drop_last() =~= seq![parts[0]]);
    } else {
        let short = parts.drop_last();
        lemma_joined_from_two(short, separator);
        let rest = parts.skip(2);
        assert(rest.drop_last() =~= short.skip(2));
        assert(rest.last() == parts.last());
        if parts.len() == 3 {
            assert(rest =~= seq![parts[2]]);
            assert(short =~= seq![parts[0], parts[1]]);
        }
        assert(joined(parts, seq![separator]) =~= parts[0] + seq![separator] + parts[1]
            + seq![separator] + joined(rest, seq![separator]));
    }
}

/// A gateway is accepted exactly where the name of its service starts with the name of
/// the service and that of its namespace, with a dot between them, and its port fits in
/// sixteen bits.
pub proof fn law_accepted_gateways(message: GatewayMessage)
    ensures
        gateway_fault(message) is None <==> message.port <= 65535 && exists|
            name: Seq<char>,
            namespace: Seq<char>,
        | #[trigger]
            begins_with(message.service@, name, namespace),
{
    let service = message.service@;
    if gateway_fault(message) is None {
        lemma_service_begins(service);
    }
    if exists|name: Seq<char>, namespace: Seq<char>| #[trigger]
        begins_with(service, name, namespace) {
        let (name, namespace) = choose|name: Seq<char>, namespace: Seq<char>| #[trigger]
            begins_with(service, name, namespace);
        lemma_service_parts(service, name, namespace);
    }
}

/// What came in as a gateway is reached under the whole name that was sent, in the
/// namespace that the name's second part gives, on the port that was sent, or on 15008
/// where that is zero.
pub proof fn law_gateway_is_where_it_was_sent(
    gateway: GatewayAddress,
    message: GatewayMessage,
    name: Seq<char>,
    namespace: Seq<char>,
)
    requires
        begins_with(message.service@, name, namespace),
        message.port <= 65535,
        gateway_is(gateway, message),
    ensures
        gateway.hbone_mtls_port == message.port || (message.port == 0 && gateway.hbone_mtls_port
            == 15008),
        gateway.hbone_mtls_port != 0,
        gateway.destination matches Destination::Hostname(host) && host.hostname@
            == message.service@ && host.namespace@ == namespace,
{
    lemma_service_parts(message.service@, name, namespace);
}

/// Whether a policy can be read: its action is known by its number, each network and
/// each port is written as one, a gateway is one, and there is one where the action
/// needs it.
pub open spec fn readable_policy(message: EgressPolicyMessage) -> bool {
    &&& 0 <= message.policy <= 2
    &&& forall|i: int|
        0 <= i < message.match_cidrs@.len() ==> parsed_net((#[trigger] message.match_cidrs@[i])@)
            is Some
    &&& forall|i: int|
        0 <= i < message.match_ports@.len() ==> u16_value((#[trigger] message.match_ports@[i])@)
            is Some
    &&& message.gateway matches Some(gateway) ==> gateway.port <= 65535 && exists|
        name: Seq<char>,
        namespace: Seq<char>,
    | #[trigger]
        begins_with(gateway.service@, name, namespace)
    &&& message.policy == 2 ==> message.gateway is Some
}

proof fn lemma_readable_cidrs(texts: Seq<String>)
    ensures
        bad_cidr(texts) is None <==> forall|i: int|
            0 <= i < texts.len() ==> parsed_net((#[trigger] texts[i])@) is Some,
    decreases texts.len(),
{
    if texts.len() > 0 {
        let rest = texts.drop_first();
        lemma_readable_cidrs(rest);
        if bad_cidr(texts) is None {
            assert forall|i: int| 1 <= i < texts.len() implies parsed_net((#[trigger] texts[i])@)
                is Some by {
                assert(rest[i - 1] == texts[i]);
            }
        }
        if forall|i: int| 0 <= i < texts.len() ==> parsed_net((#[trigger] texts[i])@) is Some {
            assert forall|i: int| 0 <= i < rest.len() implies parsed_net((#[trigger] rest[i])@)
                is Some by {
                assert(rest[i] == texts[i + 1]);
            }
        }
    }
}

proof fn lemma_readable_ports(texts: Seq<String>)
    ensures
        bad_port(texts) is None <==> forall|i: int|
            0 <= i < texts.len() ==> u16_value((#[trigger] texts[i])@) is Some,
    decreases texts.len(),
{
    if texts.len() > 0 {
        let rest = texts.drop_first();
        lemma_readable_ports(rest);
        if bad_port(texts) is None {
            assert forall|i: int| 1 <= i < texts.len() implies u16_value((#[trigger] texts[i])@)
                is Some by {
                assert(rest[i - 1] == texts[i]);
            }
        }
        if forall|i: int| 0 <= i < texts.len() ==> u16_value((#[trigger] texts[i])@) is Some {
            assert forall|i: int| 0 <= i < rest.len() implies u16_value((#[trigger] rest[i])@)
                is Some by {
                assert(rest[i] == texts[i + 1]);
            }
        }
    }
}

/// A policy is accepted exactly where it can be read.
pub proof fn law_accepted_policy(message: EgressPolicyMessage)
    ensures
        policy_fault(message) is None <==> readable_policy(message),
{
    lemma_readable_cidrs(message.match_cidrs@);
    lemma_readable_ports(message.match_ports@);
    if let Some(gateway) = message.gateway {
        law_accepted_gateways(gateway);
    }
}

/// Policies are accepted exactly where all of them can be read.
pub proof fn law_accepted_policies(messages: Seq<EgressPolicyMessage>)
    ensures
        policies_fault(messages) is None <==> forall|i: int|
            0 <= i < messages.len() ==> readable_policy(#[trigger] messages[i]),
    decreases messages.len(),
{
    if messages.len() > 0 {
        let rest = messages.drop_first();
        law_accepted_policies(rest);
        law_accepted_policy(messages[0]);
        if policies_fault(messages) is None {
            assert forall|i: int| 1 <= i < messages.len() implies readable_policy(
                #[trigger] messages[i],
            ) by {
                assert(rest[i - 1] == messages[i]);
            }
        }
        if forall|i: int| 0 <= i < messages.len() ==> readable_policy(#[trigger] messages[i]) {
            assert forall|i: int| 0 <= i < rest.len() implies readable_policy(
                #[trigger] rest[i],
            ) by {
                assert(rest[i] == messages[i + 1]);
            }
        }
    }
}

/// What came in as a policy does what was sent: number zero lets traffic pass, number
/// one refuses it and number two sends it through the gateway, which is there.
pub proof fn law_policies_do_what_was_sent(policy: EgressPolicy, message: EgressPolicyMessage)
    requires
        policy_fault(message) is None,
        policy_is(policy, message),
    ensures
        policy.policy is Passthrough <==> message.policy == 0,
        policy.policy is Deny <==> message.policy == 1,
        policy.policy is Gateway <==> message.policy == 2,
        policy.policy is Gateway ==> policy.gateway is Some,
        policy.gateway is Some <==> message.gateway is Some,
        forall|t: Seq<char>| #[trigger]
            views(policy.namespaces@).contains(t) <==> views(message.namespaces@).contains(t),
        policy.match_cidrs@.len() == message.match_cidrs@.len(),
        forall|i: int|
            0 <= i < policy.match_cidrs@.len() ==> parsed_net(message.match_cidrs@[i]@) == Some(
                (
                    (#[trigger] policy.match_cidrs@[i]).spec_addr() is V6,
                    policy.match_cidrs@[i].spec_addr().number() as u128,
                    policy.match_cidrs@[i].spec_prefix_len(),
                ),
            ),
        policy.match_ports@.len() == message.match_ports@.len(),
        forall|i: int, n: nat|
            0 <= i < policy.match_ports@.len() && n <= 65535 && message.match_ports@[i]@
                == #[trigger] decimal(n) ==> #[trigger] policy.match_ports@[i] == n,
{
    assert forall|i: int, n: nat|
        0 <= i < policy.match_ports@.len() && n <= 65535 && message.match_ports@[i]@
            == #[trigger] decimal(n) implies #[trigger] policy.match_ports@[i] == n by {
        law_decimal_reads_back(n);
    }
}

proof fn lemma_types_differ()
    ensures
        WORKLOAD_METADATA_TYPE_URL@ != DEFAULT_EGRESS_POLICIES_TYPE_URL@,
{
    reveal_strlit("type.googleapis.com/kruise.networking.extensions.v1.WorkloadMetadata");
    reveal_strlit("type.googleapis.com/kruise.networking.extensions.v1.EgressPolicies");
    assert("type.googleapis.com/kruise.networking.extensions.v1.WorkloadMetadata"@.len() == 68);
    assert("type.googleapis.com/kruise.networking.extensions.v1.EgressPolicies"@.len() == 66);
}

/// An extension of a workload is read as what its type says: labels, or egress policies.
/// Only egress policies can be refused, where they cannot be read or one of them is not
/// accepted. Everything else is kept as it came, name, type and bytes: extensions of other
/// types, those without a value, and labels that cannot be read.
pub proof fn law_extensions_of_workloads(
    read: Result<AuthExtension, EgressPolicyError>,
    extension: ExtensionMessage,
    metadata: Option<WorkloadMetadata>,
    egress: Result<Vec<EgressPolicyMessage>, String>,
)
    requires
        is_of_workload(read, extension, metadata, egress),
    ensures
        ({
            let type_url = match extension.config {
                Some(any) => Some(any.type_url@),
                None => None,
            };
            let is_labels = type_url == Some(
                "type.googleapis.com/kruise.networking.extensions.v1.WorkloadMetadata"@,
            );
            let is_egress = type_url == Some(
                "type.googleapis.com/kruise.networking.extensions.v1.EgressPolicies"@,
            );
            &&& read is Err <==> is_egress && (egress is Err || policies_fault(egress->Ok_0@)
                is Some)
            &&& (read matches Ok(AuthExtension::WorkloadMetadata(_))) <==> is_labels && metadata
                is Some
            &&& (read matches Ok(AuthExtension::EgressPolicies(_))) <==> is_egress && egress is Ok
                && policies_fault(egress->Ok_0@) is None
            &&& !(read matches Ok(AuthExtension::TrafficPolicy(_)))
            &&& read matches Ok(AuthExtension::WorkloadMetadata(labels)) ==> metadata == Some(
                labels,
            )
            &&& read matches Ok(AuthExtension::EgressPolicies(p)) ==> policies_are(
                p.policies@,
                egress->Ok_0@,
            )
            &&& read matches Ok(AuthExtension::Raw(raw)) ==> {
                &&& raw.name == extension.name
                &&& extension.config matches Some(any) ==> raw.config_type_url == Some(any.type_url)
                    && raw.config_raw == Some(any.value)
                &&& extension.config is None ==> raw.config_type_url is None && raw.config_raw
                    is None
            }
        }),
{
    lemma_types_differ();
}

/// An extension of a policy is read as its priority and mode where its type says so and
/// it can be read, and is kept as it came otherwise.
pub proof fn law_extensions_of_policies(
    read: AuthExtension,
    extension: ExtensionMessage,
    policy: Option<TrafficPolicyExtension>,
)
    requires
        is_of_policy(read, extension, policy),
    ensures
        read is TrafficPolicy <==> policy is Some && (extension.config matches Some(any)
            && any.type_url@
            == "type.googleapis.com/kruise.networking.extensions.v1.TrafficPolicyExtension"@),
        read is TrafficPolicy || read is Raw,
        read matches AuthExtension::TrafficPolicy(p) ==> policy == Some(p),
        read matches AuthExtension::Raw(raw) ==> {
            &&& raw.name == extension.name
            &&& extension.config matches Some(any) ==> raw.config_type_url == Some(any.type_url)
                && raw.config_raw == Some(any.value)
            &&& extension.config is None ==> raw.config_type_url is None && raw.config_raw is None
        },
{
}

/// A policy that is refused is told to be so with what stands in it that is not accepted.
pub proof fn law_refused_policies_in_words(text: String, action: i32, port: u32)
    ensures
        EgressPolicyError::UnknownAction(action).described() == "unknown egress policy action: "@
            + signed_decimal(action as int),
        EgressPolicyError::InvalidCidr(text).described() == "invalid egress policy CIDR: "@ + text@,
        EgressPolicyError::InvalidPort(text).described() == "invalid egress policy port: "@ + text@,
        EgressPolicyError::InvalidGatewayService(text).described()
            == "invalid egress gateway service: "@ + text@,
        EgressPolicyError::InvalidGatewayPort(port).described() == "invalid egress gateway port: "@
            + decimal(port as nat),
        EgressPolicyError::MissingGateway.described() == "gateway action requires a gateway"@,
        EgressPolicyError::Decode(text).described() == "failed to decode egress policies: "@ + text@,
{
}

proof fn lemma_told_cidr(texts: Seq<String>)
    ensures
        bad_cidr(texts) matches Some(t) ==> views(texts).contains(t) && parsed_net(t) is None,
    decreases texts.len(),
{
    if texts.len() > 0 {
        let rest = texts.drop_first();
        lemma_told_cidr(rest);
        if parsed_net(texts[0]@) is None {
            assert(views(texts)[0] == texts[0]@);
        } else if let Some(t) = bad_cidr(rest) {
            let i = choose|i: int| 0 <= i < views(rest).len() && views(rest)[i] == t;
            assert(views(texts)[i + 1] == t);
        }
    }
}

proof fn lemma_told_port(texts: Seq<String>)
    ensures
        bad_port(texts) matches Some(t) ==> views(texts).contains(t) && u16_value(t) is None,
    decreases texts.len(),
{
    if texts.len() > 0 {
        let rest = texts.drop_first();
        lemma_told_port(rest);
        if u16_value(texts[0]@) is None {
            assert(views(texts)[0] == texts[0]@);
        } else if let Some(t) = bad_port(rest) {
            let i = choose|i: int| 0 <= i < views(rest).len() && views(rest)[i] == t;
            assert(views(texts)[i + 1] == t);
        }
    }
}

/// The fault that is told of a policy is one that it has, with what stands in it: an
/// action that is none, a text that writes no network or no port, a gateway whose name or
/// port is none, or a gateway that is not there.
pub proof fn law_faults_of_policies(message: EgressPolicyMessage)
    ensures
        policy_fault(message) matches Some(fault) ==> match fault {
            Fault::UnknownAction(n) => n == message.policy && !(0 <= n <= 2),
            Fault::InvalidCidr(t) => views(message.match_cidrs@).contains(t) && parsed_net(t)
                is None,
            Fault::InvalidPort(t) => views(message.match_ports@).contains(t) && u16_value(t)
                is None,
            Fault::InvalidGatewayService(t) => message.gateway matches Some(g) && t == g.service@,
            Fault::InvalidGatewayPort(n) => message.gateway matches Some(g) && n == g.port && n
                > 65535,
            Fault::MissingGateway => message.policy == 2 && message.gateway is None,
            Fault::Decode(_) => false,
        },
{
    lemma_told_cidr(message.match_cidrs@);
    lemma_told_port(message.match_ports@);
}

} // verus!
