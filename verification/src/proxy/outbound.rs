//! Where outgoing traffic goes, and what its next hop is told.

use vstd::prelude::*;

use crate::extensions::extensions::{EgressPolicies, EgressPolicy, EgressPolicyAction};
use crate::extensions::sni::{SniAction, SniTrafficPolicy};
use crate::firewall::types::address_passes;
use crate::net::{ipv4_text, IpAddr, SocketAddr};
use crate::rbac::meaning::{host, law_addresses_are_held_by_their_blocks, lies_in_one, port};
use crate::rbac::policy::any_contains;
use crate::rbac::{Connection, Direction};
use crate::sandbox::discovery::Sandbox;
use crate::state::workload::{GatewayAddress, Identity, OutboundProtocol, Workload};
use crate::text::{decimal, list_has, opt_view, push_decimal, views};

verus! {

/// Why traffic is not forwarded.
#[derive(Debug, PartialEq, Eq)]
pub enum OutboundError {
    /// The proxy would call itself.
    SelfCall,
    EgressPolicyDenied(SocketAddr),
    EgressPolicyGatewayMissing(SocketAddr),
    UnsupportedFeature(String),
    SniPolicyDenied(String),
    /// What was sniffed is no TLS handshake, by how it failed.
    TlsSniffFailed(String),
}

/// The far end of a tunnel.
#[derive(Clone, Debug, PartialEq, Eq)]
pub enum HboneAddress {
    SocketAddr(SocketAddr),
    SvcHostname(String, u16),
}

/// What is known of a TLS stream.
#[derive(Clone, Debug, PartialEq, Eq)]
pub struct TlsMetadata {
    pub sni: Option<String>,
    pub action: Option<SniAction>,
}

impl Default for TlsMetadata {
    fn default() -> (r: Self)
        ensures
            r.sni is None,
            r.action is None,
    {
        TlsMetadata { sni: None, action: None }
    }
}

/// Everything about traffic that leaves: by which protocol, from whom, and through
/// which hop.
#[derive(Clone, Debug, PartialEq, Eq)]
pub struct Request {
    pub protocol: OutboundProtocol,
    pub source: Workload,
    /// Chosen before routing: policy, headers and pooling all use it.
    pub sandbox: Option<Sandbox>,
    /// Of this stream alone, never of the tunnel that it shares.
    pub tls: TlsMetadata,
    pub actual_destination_workload: Option<Workload>,
    /// The address of the next hop.
    pub actual_destination: SocketAddr,
    /// The far end of the tunnel, where there is one.
    pub hbone_target_destination: Option<HboneAddress>,
    /// Which identities the next hop may have.
    pub upstream_sans: Vec<Identity>,
}

/// A gateway that was found.
#[derive(Clone, Debug, PartialEq, Eq)]
pub struct Upstream {
    pub workload: Workload,
    pub workload_socket_addr: SocketAddr,
    pub sans: Vec<Identity>,
}

/// Where traffic goes: straight to its target, or through a gateway.
pub enum Route<'a> {
    Direct,
    Gateway(&'a GatewayAddress),
}

/// Whether the policy speaks of traffic from the namespace to the target. An empty
/// list stands for all.
pub open spec fn policy_applies(
    policy: EgressPolicy,
    source_namespace: Seq<char>,
    target: SocketAddr,
) -> bool {
    &&& policy.namespaces@.len() == 0 || views(policy.namespaces@).contains(source_namespace)
    &&& address_passes(policy.match_cidrs@, target.spec_ip())
    &&& policy.match_ports@.len() == 0 || policy.match_ports@.contains(target.spec_port())
}

/// The first policy, from this one on, that speaks of the traffic.
pub open spec fn first_policy(
    policies: Seq<EgressPolicy>,
    source_namespace: Seq<char>,
    target: SocketAddr,
    from: nat,
) -> Option<EgressPolicy>
    decreases policies.len() - from,
{
    if from >= policies.len() {
        None
    } else if policy_applies(policies[from as int], source_namespace, target) {
        Some(policies[from as int])
    } else {
        first_policy(policies, source_namespace, target, from + 1)
    }
}

fn has_port(ports: &[u16], port: u16) -> (r: bool)
    ensures
        r == ports@.contains(port),
{
    let mut i: usize = 0;
    while i < ports.len()
        invariant
            i <= ports@.len(),
            forall|k: int| 0 <= k < i ==> #[trigger] ports@[k] != port,
        decreases ports@.len() - i,
    {
        if ports[i] == port {
            assert(ports@[i as int] == port);
            return true;
        }
        i = i + 1;
    }
    false
}

fn applies(policy: &EgressPolicy, source_namespace: &str, target: &SocketAddr) -> (r: bool)
    ensures
        r == policy_applies(*policy, source_namespace@, *target),
{
    (policy.namespaces.len() == 0 || list_has(policy.namespaces.as_slice(), source_namespace))
        && any_contains(&policy.match_cidrs, &target.ip()) && (policy.match_ports.len() == 0 || has_port(
        policy.match_ports.as_slice(),
        target.port(),
    ))
}

/// The first policy that speaks of traffic from the namespace to the target: later
/// ones are not consulted.
pub fn match_egress_policy<'a>(
    policies: &'a EgressPolicies,
    source_namespace: &str,
    target: &SocketAddr,
) -> (r: Option<&'a EgressPolicy>)
    ensures
        (match r {
            Some(policy) => Some(*policy),
            None => None,
        }) == first_policy(policies.policies@, source_namespace@, *target, 0),
{
    let mut i: usize = 0;
    while i < policies.policies.len()
        invariant
            i <= policies.policies@.len(),
            first_policy(policies.policies@, source_namespace@, *target, 0) == first_policy(
                policies.policies@,
                source_namespace@,
                *target,
                i as nat,
            ),
        decreases policies.policies@.len() - i,
    {
        if applies(&policies.policies[i], source_namespace, target) {
            return Some(&policies.policies[i]);
        }
        i = i + 1;
    }
    None
}

/// The policy of the workload that speaks of its traffic to the target. The
/// workload alone decides, whether or not the traffic is a sandbox's.
pub open spec fn source_policy(source: Workload, target: SocketAddr) -> Option<EgressPolicy> {
    match source.egress_policies {
        Some(policies) => first_policy(policies.policies@, source.namespace@, target, 0),
        None => None,
    }
}

/// The policy of the workload that speaks of its traffic to the target.
pub fn match_source_egress_policy<'a>(source: &'a Workload, target: &SocketAddr) -> (r: Option<
    &'a EgressPolicy,
>)
    ensures
        (match r {
            Some(policy) => Some(*policy),
            None => None,
        }) == source_policy(*source, *target),
{
    match &source.egress_policies {
        Some(policies) => match_egress_policy(policies, source.namespace.as_str(), target),
        None => None,
    }
}

/// Whether the proxy would call itself: a port of its own, on this host or on the
/// workload.
pub open spec fn calls_itself(illegal_ports: Seq<u16>, source: Workload, target: SocketAddr) -> bool {
    illegal_ports.contains(target.spec_port()) && (target.spec_ip().loopback()
        || source.workload_ips@.contains(target.spec_ip()))
}

/// Where traffic goes, or why it does not.
pub enum RouteModel {
    Direct,
    Gateway(GatewayAddress),
    SelfCall,
    Denied,
    GatewayMissing,
}

/// Where traffic from the workload to the target goes.
pub open spec fn route(illegal_ports: Seq<u16>, source: Workload, target: SocketAddr) -> RouteModel {
    if calls_itself(illegal_ports, source, target) {
        RouteModel::SelfCall
    } else {
        match source_policy(source, target) {
            None => RouteModel::Direct,
            Some(policy) => match policy.policy {
                EgressPolicyAction::Passthrough => RouteModel::Direct,
                EgressPolicyAction::Deny => RouteModel::Denied,
                EgressPolicyAction::Gateway => match policy.gateway {
                    Some(gateway) => RouteModel::Gateway(gateway),
                    None => RouteModel::GatewayMissing,
                },
            },
        }
    }
}

/// What is answered for a route.
pub open spec fn is_selected(
    answer: Result<Route, OutboundError>,
    model: RouteModel,
    target: SocketAddr,
) -> bool {
    match answer {
        Ok(Route::Direct) => model is Direct,
        Ok(Route::Gateway(gateway)) => model == RouteModel::Gateway(*gateway),
        Err(OutboundError::SelfCall) => model is SelfCall,
        Err(OutboundError::EgressPolicyDenied(t)) => model is Denied && t == target,
        Err(OutboundError::EgressPolicyGatewayMissing(t)) => model is GatewayMissing && t == target,
        Err(_) => false,
    }
}

/// Where traffic from the workload to the target goes.
pub fn select_route<'a>(illegal_ports: &[u16], source: &'a Workload, target: &SocketAddr) -> (r:
    Result<Route<'a>, OutboundError>)
    ensures
        is_selected(r, route(illegal_ports@, *source, *target), *target),
{
    let ip: IpAddr = target.ip();
    if has_port(illegal_ports, target.port()) && (ip.is_loopback() || source.has_ip(&ip)) {
        return Err(OutboundError::SelfCall);
    }
    match match_source_egress_policy(source, target) {
        None => Ok(Route::Direct),
        Some(policy) => match policy.policy {
            EgressPolicyAction::Passthrough => Ok(Route::Direct),
            EgressPolicyAction::Deny => Err(OutboundError::EgressPolicyDenied(*target)),
            EgressPolicyAction::Gateway => match &policy.gateway {
                Some(gateway) => Ok(Route::Gateway(gateway)),
                None => Err(OutboundError::EgressPolicyGatewayMissing(*target)),
            },
        },
    }
}

/// The first policy that speaks of the traffic decides, whatever stands behind it.
pub proof fn law_first_policy_wins(
    policies: Seq<EgressPolicy>,
    source_namespace: Seq<char>,
    target: SocketAddr,
    from: nat,
    i: int,
)
    requires
        from <= i < policies.len(),
        policy_applies(policies[i], source_namespace, target),
        forall|k: int|
            from <= k < i ==> !policy_applies(#[trigger] policies[k], source_namespace, target),
    ensures
        first_policy(policies, source_namespace, target, from) == Some(policies[i]),
    decreases i - from,
{
    if from < i {
        assert(!policy_applies(policies[from as int], source_namespace, target));
        law_first_policy_wins(policies, source_namespace, target, from + 1, i);
    }
}

/// Traffic that no policy speaks of is not affected by them.
pub proof fn law_unmatched_traffic_goes_direct(
    policies: Seq<EgressPolicy>,
    source_namespace: Seq<char>,
    target: SocketAddr,
    from: nat,
)
    requires
        forall|k: int|
            from <= k < policies.len() ==> !policy_applies(
                #[trigger] policies[k],
                source_namespace,
                target,
            ),
    ensures
        first_policy(policies, source_namespace, target, from) is None,
    decreases policies.len() - from,
{
    if from < policies.len() {
        assert(!policy_applies(policies[from as int], source_namespace, target));
        law_unmatched_traffic_goes_direct(policies, source_namespace, target, from + 1);
    }
}

/// What a sandbox's and a workload's rules on server names come to: either can
/// refuse, either can require that TLS ends here, and neither can undo that.
pub open spec fn combined(a: Option<SniAction>, b: Option<SniAction>) -> SniAction {
    if a == Some(SniAction::Deny) || b == Some(SniAction::Deny) {
        SniAction::Deny
    } else if a == Some(SniAction::TlsTermination) || b == Some(SniAction::TlsTermination) {
        SniAction::TlsTermination
    } else {
        SniAction::Passthrough
    }
}

/// What a policy decides of a name, where there is one.
pub open spec fn policy_decision(policy: Option<SniTrafficPolicy>, sni: Seq<char>) -> Option<
    SniAction,
> {
    match policy {
        Some(policy) => policy.decision(sni),
        None => None,
    }
}

fn evaluate(policy: &Option<SniTrafficPolicy>, sni: &str) -> (r: Option<SniAction>)
    ensures
        r == policy_decision(*policy, sni@),
{
    match policy {
        Some(policy) => policy.evaluate(sni),
        None => None,
    }
}

impl TlsMetadata {
    /// The stream's action and name as a header has them: what is not known is left
    /// out, and where nothing is known there is no header.
    pub open spec fn spec_header_value(self) -> Option<Seq<char>> {
        let action = match self.action {
            Some(action) => match action.named() {
                Some(name) => Some("action="@ + name),
                None => None,
            },
            None => None,
        };
        let sni = match self.sni {
            Some(sni) => Some("sni="@ + sni@),
            None => None,
        };
        match (action, sni) {
            (Some(action), Some(sni)) => Some(action + ";"@ + sni),
            (Some(action), None) => Some(action),
            (None, Some(sni)) => Some(sni),
            (None, None) => None,
        }
    }

    /// `action=<terminate|passthrough>;sni=<name>`, without what is not known.
    pub fn header_value(&self) -> (r: Option<String>)
        ensures
            opt_view(r) == self.spec_header_value(),
    {
        let action: Option<&'static str> = match self.action {
            Some(action) => action.header_value(),
            None => None,
        };
        match action {
            Some(name) => {
                let mut out: String = "action=".to_owned();
                out.append(name);
                if let Some(sni) = &self.sni {
                    let ghost first = out@;
                    out.append(";");
                    out.append("sni=");
                    out.append(sni.as_str());
                    assert(out@ =~= first + ";"@ + ("sni="@ + sni@));
                }
                Some(out)
            },
            None => match &self.sni {
                Some(sni) => {
                    let mut out: String = "sni=".to_owned();
                    out.append(sni.as_str());
                    Some(out)
                },
                None => None,
            },
        }
    }
}

impl Request {
    /// Traffic that goes straight to its target.
    pub fn direct(source: Workload, sandbox: Option<Sandbox>, target: SocketAddr) -> (r: Request)
        ensures
            r.is_direct(source, sandbox, target),
    {
        Request {
            protocol: OutboundProtocol::TCP,
            source,
            sandbox,
            tls: TlsMetadata::default(),
            actual_destination_workload: None,
            actual_destination: target,
            hbone_target_destination: None,
            upstream_sans: Vec::new(),
        }
    }

    /// Traffic that goes through a gateway to its target.
    pub fn through_gateway(
        source: Workload,
        sandbox: Option<Sandbox>,
        target: SocketAddr,
        gateway: Upstream,
    ) -> (r: Request)
        ensures
            r.is_through(source, sandbox, target, gateway),
    {
        Request {
            protocol: OutboundProtocol::HBONE,
            source,
            sandbox,
            tls: TlsMetadata::default(),
            actual_destination_workload: Some(gateway.workload),
            actual_destination: gateway.workload_socket_addr,
            hbone_target_destination: Some(HboneAddress::SocketAddr(target)),
            upstream_sans: gateway.sans,
        }
    }

    /// What the policies decide of this server name.
    pub open spec fn sni_decision(self, sni: Seq<char>) -> SniAction {
        combined(
            policy_decision(self.source.sni_policy, sni),
            match self.sandbox {
                Some(sandbox) => policy_decision(sandbox.sni_policy, sni),
                None => None,
            },
        )
    }

    /// Everything but the action is the same.
    pub open spec fn same_but_action(self, other: Request) -> bool {
        &&& self.protocol == other.protocol
        &&& self.source == other.source
        &&& self.sandbox == other.sandbox
        &&& self.tls.sni == other.tls.sni
        &&& self.actual_destination_workload == other.actual_destination_workload
        &&& self.actual_destination == other.actual_destination
        &&& self.hbone_target_destination == other.hbone_target_destination
        &&& self.upstream_sans == other.upstream_sans
    }

    /// A request that goes straight to its target.
    pub open spec fn is_direct(
        self,
        source: Workload,
        sandbox: Option<Sandbox>,
        target: SocketAddr,
    ) -> bool {
        &&& self.protocol == OutboundProtocol::TCP
        &&& self.source == source
        &&& self.sandbox == sandbox
        &&& self.tls.sni is None && self.tls.action is None
        &&& self.actual_destination_workload is None
        &&& self.actual_destination == target
        &&& self.hbone_target_destination is None
        &&& self.upstream_sans@.len() == 0
    }

    /// A request that goes through a gateway's tunnel.
    pub open spec fn is_through(
        self,
        source: Workload,
        sandbox: Option<Sandbox>,
        target: SocketAddr,
        gateway: Upstream,
    ) -> bool {
        &&& self.protocol == OutboundProtocol::HBONE
        &&& self.source == source
        &&& self.sandbox == sandbox
        &&& self.tls.sni is None && self.tls.action is None
        &&& self.actual_destination_workload == Some(gateway.workload)
        &&& self.actual_destination == gateway.workload_socket_addr
        &&& self.hbone_target_destination == Some(HboneAddress::SocketAddr(target))
        &&& self.upstream_sans == gateway.sans
    }

    /// What the stream's server name makes of the request, and how that ends.
    pub open spec fn is_decided(self, after: Request, end: Result<(), OutboundError>) -> bool {
        &&& after.same_but_action(self)
        &&& match self.tls.sni {
            None => end is Ok && after.tls.action is None,
            Some(sni) => if self.sni_decision(sni@) == SniAction::Deny {
                &&& end matches Err(OutboundError::SniPolicyDenied(name)) && name@ == sni@
                &&& after.tls.action == self.tls.action
            } else {
                end is Ok && after.tls.action == Some(self.sni_decision(sni@))
            },
        }
    }

    /// Decides what to do with the stream, by its server name. Without one nothing
    /// is decided.
    pub fn evaluate_sni_policy(&mut self) -> (r: Result<(), OutboundError>)
        ensures
            old(self).is_decided(*final(self), r),
    {
        let decision: Option<SniAction> = match &self.tls.sni {
            None => None,
            Some(sni) => {
                let a: Option<SniAction> = evaluate(&self.source.sni_policy, sni.as_str());
                let b: Option<SniAction> = match &self.sandbox {
                    Some(sandbox) => evaluate(&sandbox.sni_policy, sni.as_str()),
                    None => None,
                };
                if is_action(a, SniAction::Deny) || is_action(b, SniAction::Deny) {
                    return Err(OutboundError::SniPolicyDenied(sni.clone()));
                }
                if is_action(a, SniAction::TlsTermination) || is_action(
                    b,
                    SniAction::TlsTermination,
                ) {
                    Some(SniAction::TlsTermination)
                } else {
                    Some(SniAction::Passthrough)
                }
            },
        };
        self.tls.action = decision;
        Ok(())
    }
}

fn is_action(decision: Option<SniAction>, action: SniAction) -> (r: bool)
    ensures
        r == (decision == Some(action)),
{
    match decision {
        Some(a) => a == action,
        None => false,
    }
}

/// A refusal of either stands, and so does the demand that TLS ends here unless the
/// other refuses.
pub proof fn law_strictest_action_stands(a: Option<SniAction>, b: Option<SniAction>)
    ensures
        combined(a, b) == combined(b, a),
        a == Some(SniAction::Deny) ==> combined(a, b) == SniAction::Deny,
        a == Some(SniAction::TlsTermination) && b != Some(SniAction::Deny) ==> combined(a, b)
            == SniAction::TlsTermination,
        combined(None, None) == SniAction::Passthrough,
{
}

/// The path that asks a gateway for datagrams to the target; only a numeric IPv4
/// target with a port has one.
pub open spec fn masque_path(target: Option<HboneAddress>) -> Option<Seq<char>> {
    match target {
        Some(HboneAddress::SocketAddr(SocketAddr::V4 { ip, port })) => if port != 0 {
            Some(
                "/.well-known/masque/udp/"@ + ipv4_text(ip) + "/"@ + decimal(port as nat) + "/"@,
            )
        } else {
            None
        },
        _ => None,
    }
}

/// The path that asks a gateway for datagrams to the target.
pub fn connect_udp_masque_path(target: &Option<HboneAddress>) -> (r: Result<String, OutboundError>)
    ensures
        match r {
            Ok(path) => masque_path(*target) == Some(path@),
            Err(OutboundError::UnsupportedFeature(reason)) => masque_path(*target) is None
                && reason@ == "CONNECT-UDP egress policy requires a numeric IPv4 target"@,
            Err(_) => false,
        },
{
    if let Some(HboneAddress::SocketAddr(SocketAddr::V4 { ip, port })) = target {
        if *port != 0 {
            let mut out: String = "/.well-known/masque/udp/".to_owned();
            out.append(IpAddr::V4(*ip).text().as_str());
            out.append("/");
            push_decimal(&mut out, *port as u64);
            out.append("/");
            return Ok(out);
        }
    }
    Err(
        OutboundError::UnsupportedFeature(
            "CONNECT-UDP egress policy requires a numeric IPv4 target".to_owned(),
        ),
    )
}

/// Whether datagrams can go the way of the request, and what is answered where not.
pub open spec fn is_fit_for_datagrams(request: Request, answer: Result<(), OutboundError>) -> bool {
    match answer {
        Ok(_) => request.protocol == OutboundProtocol::HBONE,
        Err(OutboundError::UnsupportedFeature(reason)) => request.protocol
            != OutboundProtocol::HBONE && reason@
            == "CONNECT-UDP PoC requires an HBONE gateway route"@,
        Err(_) => false,
    }
}

/// Datagrams go through a gateway only: whether this traffic does.
pub fn check_udp_route(request: &Request) -> (r: Result<(), OutboundError>)
    ensures
        is_fit_for_datagrams(*request, r),
{
    if request.protocol == OutboundProtocol::HBONE {
        Ok(())
    } else {
        Err(
            OutboundError::UnsupportedFeature(
                "CONNECT-UDP PoC requires an HBONE gateway route".to_owned(),
            ),
        )
    }
}

/// What a tunnel for datagrams is asked for at, and what is answered where there is
/// nothing to ask for.
pub open spec fn is_uri_of(request: Request, answer: Result<String, OutboundError>) -> bool {
    match answer {
        Ok(uri) => masque_path(request.hbone_target_destination) matches Some(path) && uri@
            == "https://"@ + request.actual_destination.shown() + path,
        Err(OutboundError::UnsupportedFeature(reason)) => masque_path(
            request.hbone_target_destination,
        ) is None && reason@ == "CONNECT-UDP egress policy requires a numeric IPv4 target"@,
        Err(_) => false,
    }
}

/// The address that a request asks for when it asks a gateway for datagrams.
pub fn connect_udp_uri(request: &Request) -> (r: Result<String, OutboundError>)
    ensures
        is_uri_of(*request, r),
{
    match connect_udp_masque_path(&request.hbone_target_destination) {
        Ok(path) => {
            let mut out: String = "https://".to_owned();
            out.append(request.actual_destination.text().as_str());
            out.append(path.as_str());
            Ok(out)
        },
        Err(e) => Err(e),
    }
}

/// For whom a hop forwards, as a header has it.
pub fn build_forwarded(remote_addr: &SocketAddr) -> (r: String)
    ensures
        r@ == "for=\""@ + remote_addr.shown() + "\""@,
{
    let mut out: String = "for=\"".to_owned();
    out.append(remote_addr.text().as_str());
    out.append("\"");
    out
}

/// The far end of a tunnel in text.
pub open spec fn address_text(address: HboneAddress) -> Seq<char> {
    match address {
        HboneAddress::SocketAddr(addr) => addr.shown(),
        HboneAddress::SvcHostname(host, port) => host@ + ":"@ + decimal(port as nat),
    }
}

impl HboneAddress {
    /// The far end of a tunnel in text.
    pub fn text(&self) -> (r: String)
        ensures
            r@ == address_text(*self),
    {
        match self {
            HboneAddress::SocketAddr(addr) => addr.text(),
            HboneAddress::SvcHostname(host, port) => {
                let mut out: String = host.clone();
                out.append(":");
                push_decimal(&mut out, *port as u64);
                out
            },
        }
    }
}

/// The headers of a request for a tunnel.
#[derive(Clone, Copy, Debug, PartialEq, Eq, Structural)]
pub enum HeaderName {
    Baggage,
    Forwarded,
    TraceParent,
    WorkloadName,
    WorkloadNamespace,
    Tls,
    SandboxId,
    SandboxToken,
    SandboxLabels,
}

/// A header and its value, as mathematics has it.
pub type HeaderView = (HeaderName, Seq<char>);

/// Each header, as mathematics has it.
pub open spec fn header_views(headers: Seq<(HeaderName, String)>) -> Seq<HeaderView> {
    headers.map_values(|h: (HeaderName, String)| (h.0, h.1@))
}

/// The headers with this one behind them, where it has a value.
pub open spec fn with_header(
    headers: Seq<HeaderView>,
    name: HeaderName,
    value: Option<Seq<char>>,
) -> Seq<HeaderView> {
    match value {
        Some(value) => headers.push((name, value)),
        None => headers,
    }
}

/// The headers of a request for a tunnel. The workload is named in every request;
/// the sandbox's identifier goes with its traffic, the token and the labels with
/// every request where tokens are managed.
pub open spec fn tunnel_headers(
    request: Request,
    remote_addr: SocketAddr,
    baggage: Seq<char>,
    trace_parent: Seq<char>,
    tokens_managed: bool,
    token: Option<Seq<char>>,
) -> Seq<HeaderView> {
    let fixed = seq![
        (HeaderName::Baggage, baggage),
        (HeaderName::Forwarded, "for=\""@ + remote_addr.shown() + "\""@),
        (HeaderName::TraceParent, trace_parent),
        (HeaderName::WorkloadName, request.source.name@),
        (HeaderName::WorkloadNamespace, request.source.namespace@),
    ];
    let with_tls = with_header(fixed, HeaderName::Tls, request.tls.spec_header_value());
    let with_id = with_header(
        with_tls,
        HeaderName::SandboxId,
        match request.sandbox {
            Some(sandbox) => Some(sandbox.uid@),
            None => None,
        },
    );
    if tokens_managed {
        with_header(
            with_header(with_id, HeaderName::SandboxToken, token),
            HeaderName::SandboxLabels,
            opt_view(request.source.encoded_labels),
        )
    } else {
        with_id
    }
}

fn push_header(headers: &mut Vec<(HeaderName, String)>, name: HeaderName, value: String)
    ensures
        header_views(final(headers)@) == header_views(old(headers)@).push((name, value@)),
{
    let ghost before = header_views(headers@);
    headers.push((name, value));
    assert(header_views(headers@) =~= before.push((name, value@)));
}

/// The headers of a request for a tunnel, with the baggage, the trace and the token
/// that go with it.
pub fn hbone_headers(
    request: &Request,
    remote_addr: &SocketAddr,
    baggage: String,
    trace_parent: String,
    tokens_managed: bool,
    token: Option<String>,
) -> (r: Vec<(HeaderName, String)>)
    ensures
        header_views(r@) == tunnel_headers(
            *request,
            *remote_addr,
            baggage@,
            trace_parent@,
            tokens_managed,
            opt_view(token),
        ),
{
    let mut out: Vec<(HeaderName, String)> = Vec::new();
    assert(header_views(out@) =~= Seq::empty());
    push_header(&mut out, HeaderName::Baggage, baggage);
    push_header(&mut out, HeaderName::Forwarded, build_forwarded(remote_addr));
    push_header(&mut out, HeaderName::TraceParent, trace_parent);
    push_header(&mut out, HeaderName::WorkloadName, request.source.name.clone());
    push_header(&mut out, HeaderName::WorkloadNamespace, request.source.namespace.clone());
    assert(header_views(out@) =~= seq![
        (HeaderName::Baggage, baggage@),
        (HeaderName::Forwarded, "for=\""@ + remote_addr.shown() + "\""@),
        (HeaderName::TraceParent, trace_parent@),
        (HeaderName::WorkloadName, request.source.name@),
        (HeaderName::WorkloadNamespace, request.source.namespace@),
    ]);
    if let Some(tls) = request.tls.header_value() {
        push_header(&mut out, HeaderName::Tls, tls);
    }
    if let Some(sandbox) = &request.sandbox {
        push_header(&mut out, HeaderName::SandboxId, sandbox.uid.clone());
    }
    if tokens_managed {
        if let Some(token) = token {
            push_header(&mut out, HeaderName::SandboxToken, token);
        }
        if let Some(labels) = &request.source.encoded_labels {
            push_header(&mut out, HeaderName::SandboxLabels, labels.clone());
        }
    }
    out
}

/// The connection that rules are asked about.
pub open spec fn is_connection_of(
    conn: Connection,
    source_addr: SocketAddr,
    dest_addr: SocketAddr,
    request: Request,
) -> bool {
    &&& conn.src == source_addr
    &&& conn.dst == dest_addr
    &&& conn.src_identity matches Some(id) && id@ == request.source.spec_identity()
    &&& conn.dst_network@ == (match request.actual_destination_workload {
        Some(workload) => workload.network@,
        None => ""@,
    })
    &&& conn.direction == Direction::Outbound
}

/// What policies look at of outgoing traffic.
pub fn outbound_connection(source_addr: SocketAddr, dest_addr: SocketAddr, request: &Request) -> (r:
    Connection)
    ensures
        is_connection_of(r, source_addr, dest_addr, *request),
{
    let dst_network: String = match &request.actual_destination_workload {
        Some(workload) => workload.network.clone(),
        None => "".to_owned(),
    };
    Connection {
        src: source_addr,
        dst: dest_addr,
        src_identity: Some(request.source.identity()),
        dst_network,
        direction: Direction::Outbound,
    }
}

/// Whether a peer's identity is proved by mutual TLS.
#[derive(Clone, Copy, Debug, PartialEq, Eq, Structural)]
pub enum SecurityPolicy {
    MutualTls,
    Unknown,
}

/// What is reported of a request that is sent on.
pub open spec fn is_reported(
    request: Request,
    identity: Option<Identity>,
    policy: SecurityPolicy,
) -> bool {
    match request.protocol {
        OutboundProtocol::HBONE => (identity matches Some(id) && id@
            == request.source.spec_identity()) && policy == SecurityPolicy::MutualTls,
        OutboundProtocol::TCP => identity is None && policy == SecurityPolicy::Unknown,
    }
}

/// What is reported of a connection that opens: the identity that the source proves
/// where it proves one, and how.
pub fn conn_metrics_from_request(request: &Request) -> (r: (Option<Identity>, SecurityPolicy))
    ensures
        is_reported(*request, r.0, r.1),
{
    match request.protocol {
        OutboundProtocol::HBONE => (Some(request.source.identity()), SecurityPolicy::MutualTls),
        OutboundProtocol::TCP => (None, SecurityPolicy::Unknown),
    }
}

/// What sniffing a stream for its server name brought: the name, where the stream
/// has one, and how it failed, where it did.
pub struct Sniffed {
    pub sni: Option<String>,
    pub failure: Option<String>,
}

/// What comes of a request by what sniffing brought, and how that ends.
pub open spec fn is_sniffed(
    before: Request,
    sniffed: Sniffed,
    fail_open: bool,
    after: Request,
    end: Result<(), OutboundError>,
) -> bool {
    match sniffed.failure {
        Some(reason) if !fail_open => (end matches Err(OutboundError::TlsSniffFailed(why)) && why@
            == reason@) && after == before,
        _ => end is Ok && after == (Request {
            tls: TlsMetadata { sni: sniffed.sni, action: before.tls.action },
            ..before
        }),
    }
}

/// Takes what sniffing brought into the request. A failure refuses the stream
/// unless failures are let pass.
pub fn after_sniffing(request: &mut Request, sniffed: Sniffed, fail_open: bool) -> (r: Result<
    (),
    OutboundError,
>)
    ensures
        is_sniffed(*old(request), sniffed, fail_open, *final(request), r),
{
    if !fail_open {
        if let Some(reason) = sniffed.failure {
            return Err(OutboundError::TlsSniffFailed(reason));
        }
    }
    request.tls.sni = sniffed.sni;
    Ok(())
}

/// Whether to sniff the stream for its server name: a tunnel to a numeric target
/// has none of its own.
pub fn should_sniff(request: &Request) -> (r: bool)
    ensures
        r == (request.hbone_target_destination matches Some(HboneAddress::SocketAddr(_))),
{
    match &request.hbone_target_destination {
        Some(HboneAddress::SocketAddr(_)) => true,
        _ => false,
    }
}

/// Which tunnels traffic may share: those of the same source and sandbox to the
/// same hop with the same identity.
#[derive(Clone, Debug, PartialEq, Eq)]
pub struct WorkloadKey {
    pub src_id: Identity,
    pub dst_id: Vec<Identity>,
    pub sandbox_id: Option<String>,
    pub src: IpAddr,
    pub dst: SocketAddr,
}

fn copy_identities(ids: &Vec<Identity>) -> (r: Vec<Identity>)
    ensures
        r@.len() == ids@.len(),
        forall|i: int| 0 <= i < r@.len() ==> (#[trigger] r@[i])@ == ids@[i]@,
{
    let mut out: Vec<Identity> = Vec::new();
    let mut i: usize = 0;
    while i < ids.len()
        invariant
            i <= ids@.len(),
            out@.len() == i,
            forall|k: int| 0 <= k < i ==> (#[trigger] out@[k])@ == ids@[k]@,
        decreases ids@.len() - i,
    {
        out.push(
            Identity {
                trust_domain: ids[i].trust_domain.clone(),
                namespace: ids[i].namespace.clone(),
                service_account: ids[i].service_account.clone(),
            },
        );
        i = i + 1;
    }
    out
}

/// The key says which tunnels the traffic may share.
pub open spec fn is_key_of(key: WorkloadKey, request: Request, remote_addr: SocketAddr) -> bool {
    &&& key.src_id@ == request.source.spec_identity()
    &&& key.dst_id@.len() == request.upstream_sans@.len()
    &&& forall|i: int|
        0 <= i < key.dst_id@.len() ==> (#[trigger] key.dst_id@[i])@ == request.upstream_sans@[i]@
    &&& opt_view(key.sandbox_id) == (match request.sandbox {
        Some(sandbox) => Some(sandbox.uid@),
        None => None,
    })
    &&& key.src == remote_addr.spec_ip()
    &&& key.dst == request.actual_destination
}

/// Which tunnels the traffic may share.
pub fn pool_key(request: &Request, remote_addr: &SocketAddr) -> (r: WorkloadKey)
    ensures
        is_key_of(r, *request, *remote_addr),
{
    let sandbox_id: Option<String> = match &request.sandbox {
        Some(sandbox) => Some(sandbox.uid.clone()),
        None => None,
    };
    WorkloadKey {
        src_id: request.source.identity(),
        dst_id: copy_identities(&request.upstream_sans),
        sandbox_id,
        src: remote_addr.ip(),
        dst: request.actual_destination,
    }
}

/// Whether a policy of the workload is for its traffic to the target: by the namespace
/// of the workload, the address of the target and the port of the target.
pub open spec fn is_for(policy: EgressPolicy, workload: Workload, target: SocketAddr) -> bool {
    &&& policy.namespaces@.len() == 0 || exists|i: int|
        0 <= i < policy.namespaces@.len() && (#[trigger] policy.namespaces@[i])@
            == workload.namespace@
    &&& lies_in_one(policy.match_cidrs@, host(target))
    &&& policy.match_ports@.len() == 0 || exists|i: int|
        0 <= i < policy.match_ports@.len() && #[trigger] policy.match_ports@[i] == port(target)
}

/// Whether the traffic would come back to the proxy: it goes to a port of the proxy, on
/// a loopback address or an address of the workload.
pub open spec fn comes_back(illegal_ports: Seq<u16>, workload: Workload, target: SocketAddr) -> bool {
    &&& exists|i: int| 0 <= i < illegal_ports.len() && #[trigger] illegal_ports[i] == port(target)
    &&& match host(target) {
        IpAddr::V4(ip) => 0x7f00_0000 <= ip <= 0x7fff_ffff,
        IpAddr::V6(ip) => ip == 1,
    } || exists|i: int|
        0 <= i < workload.workload_ips@.len() && #[trigger] workload.workload_ips@[i] == host(
            target,
        )
}

proof fn lemma_is_for(policy: EgressPolicy, workload: Workload, target: SocketAddr)
    ensures
        policy_applies(policy, workload.namespace@, target) <==> is_for(policy, workload, target),
{
    law_addresses_are_held_by_their_blocks(policy.match_cidrs@, host(target));
    let names = policy.namespaces@;
    if views(names).contains(workload.namespace@) {
        let i = choose|i: int| 0 <= i < views(names).len() && views(names)[i]
            == workload.namespace@;
        assert(names[i]@ == workload.namespace@);
    }
    if exists|i: int| 0 <= i < names.len() && (#[trigger] names[i])@ == workload.namespace@ {
        let i = choose|i: int| 0 <= i < names.len() && (#[trigger] names[i])@
            == workload.namespace@;
        assert(views(names)[i] == workload.namespace@);
    }
    let ports = policy.match_ports@;
    if ports.contains(port(target)) {
        let i = choose|i: int| 0 <= i < ports.len() && ports[i] == port(target);
        assert(ports[i] == port(target));
    }
}

proof fn lemma_comes_back(illegal_ports: Seq<u16>, workload: Workload, target: SocketAddr)
    ensures
        calls_itself(illegal_ports, workload, target) <==> comes_back(
            illegal_ports,
            workload,
            target,
        ),
{
    crate::net::law_loopback_addresses(host(target));
    let ips = workload.workload_ips@;
    if illegal_ports.contains(port(target)) {
        let i = choose|i: int| 0 <= i < illegal_ports.len() && illegal_ports[i] == port(target);
        assert(illegal_ports[i] == port(target));
    }
    if ips.contains(host(target)) {
        let i = choose|i: int| 0 <= i < ips.len() && ips[i] == host(target);
        assert(ips[i] == host(target));
    }
}

/// Traffic that would come back to the proxy is refused, before any policy is asked, and
/// no other traffic is refused for that.
pub proof fn law_proxy_does_not_call_itself(
    illegal_ports: Seq<u16>,
    workload: Workload,
    target: SocketAddr,
)
    ensures
        route(illegal_ports, workload, target) is SelfCall <==> comes_back(
            illegal_ports,
            workload,
            target,
        ),
{
    lemma_comes_back(illegal_ports, workload, target);
}

/// The first policy of the workload that is for the traffic decides the route: a refusal
/// refuses it, a gateway takes it through that gateway, and a policy that asks for a
/// gateway without naming one leaves it without a route.
pub proof fn law_first_policy_decides_the_route(
    illegal_ports: Seq<u16>,
    workload: Workload,
    target: SocketAddr,
    i: int,
)
    requires
        !comes_back(illegal_ports, workload, target),
        workload.egress_policies is Some,
        0 <= i < workload.egress_policies.unwrap().policies@.len(),
        is_for(workload.egress_policies.unwrap().policies@[i], workload, target),
        forall|k: int|
            0 <= k < i ==> !is_for(
                #[trigger] workload.egress_policies.unwrap().policies@[k],
                workload,
                target,
            ),
    ensures
        ({
            let policy = workload.egress_policies.unwrap().policies@[i];
            let taken = route(illegal_ports, workload, target);
            &&& policy.policy is Passthrough <==> taken is Direct
            &&& policy.policy is Deny <==> taken is Denied
            &&& policy.policy is Gateway && policy.gateway is Some <==> taken is Gateway
            &&& policy.policy is Gateway && policy.gateway is None <==> taken is GatewayMissing
            &&& taken matches RouteModel::Gateway(gateway) ==> policy.gateway == Some(gateway)
        }),
{
    lemma_comes_back(illegal_ports, workload, target);
    let policies = workload.egress_policies.unwrap().policies@;
    assert forall|k: int| 0 <= k < policies.len() implies policy_applies(
        #[trigger] policies[k],
        workload.namespace@,
        target,
    ) == is_for(policies[k], workload, target) by {
        lemma_is_for(policies[k], workload, target);
    }
    law_first_policy_wins(policies, workload.namespace@, target, 0, i);
}

/// Traffic that no policy of the workload is for goes straight to its target.
pub proof fn law_traffic_without_a_policy_goes_direct(
    illegal_ports: Seq<u16>,
    workload: Workload,
    target: SocketAddr,
)
    requires
        !comes_back(illegal_ports, workload, target),
        workload.egress_policies matches Some(list) ==> forall|k: int|
            0 <= k < list.policies@.len() ==> !is_for(#[trigger] list.policies@[k], workload, target),
    ensures
        route(illegal_ports, workload, target) is Direct,
{
    lemma_comes_back(illegal_ports, workload, target);
    if let Some(list) = workload.egress_policies {
        let policies = list.policies@;
        assert forall|k: int| 0 <= k < policies.len() implies !policy_applies(
            #[trigger] policies[k],
            workload.namespace@,
            target,
        ) by {
            lemma_is_for(policies[k], workload, target);
        }
        law_unmatched_traffic_goes_direct(policies, workload.namespace@, target, 0);
    }
}

/// Of a workload only its namespace, its addresses and its policies have a say in the
/// route: workloads that differ in anything else, such as their names, get the same.
pub proof fn law_name_has_no_say_in_the_route(
    illegal_ports: Seq<u16>,
    a: Workload,
    b: Workload,
    target: SocketAddr,
)
    requires
        a.namespace@ == b.namespace@,
        a.workload_ips@ == b.workload_ips@,
        a.egress_policies == b.egress_policies,
    ensures
        route(illegal_ports, a, target) == route(illegal_ports, b, target),
{
}

/// Both the workload's policy on server names and the sandbox's have a say: what either
/// refuses is refused, and what neither refuses ends here where either demands it.
pub proof fn law_both_have_a_say_in_names(request: Request, sni: Seq<char>)
    ensures
        ({
            let own = request.source.sni_policy;
            let boxed = match request.sandbox {
                Some(sandbox) => sandbox.sni_policy,
                None => None,
            };
            let refused = (own matches Some(p) && p.decision(sni) == Some(SniAction::Deny)) || (
            boxed matches Some(p) && p.decision(sni) == Some(SniAction::Deny));
            let ended = (own matches Some(p) && p.decision(sni) == Some(SniAction::TlsTermination))
                || (boxed matches Some(p) && p.decision(sni) == Some(SniAction::TlsTermination));
            &&& request.sni_decision(sni) is Deny <==> refused
            &&& request.sni_decision(sni) is TlsTermination <==> ended && !refused
        }),
{
}

/// Whether the header is among them, with this value.
pub open spec fn tells(headers: Seq<HeaderView>, name: HeaderName, value: Seq<char>) -> bool {
    exists|i: int| 0 <= i < headers.len() && #[trigger] headers[i] == (name, value)
}

/// Whether no header has the name.
pub open spec fn silent(headers: Seq<HeaderView>, name: HeaderName) -> bool {
    forall|i: int| 0 <= i < headers.len() ==> (#[trigger] headers[i]).0 != name
}

proof fn lemma_with_header(headers: Seq<HeaderView>, name: HeaderName, value: Option<Seq<char>>)
    ensures
        value matches Some(v) ==> tells(with_header(headers, name, value), name, v),
        value is None && silent(headers, name) ==> silent(with_header(headers, name, value), name),
        forall|n: HeaderName, v: Seq<char>|
            tells(headers, n, v) ==> #[trigger] tells(with_header(headers, name, value), n, v),
        forall|n: HeaderName|
            n != name && silent(headers, n) ==> #[trigger] silent(
                with_header(headers, name, value),
                n,
            ),
{
    let more = with_header(headers, name, value);
    if let Some(v) = value {
        assert(more[headers.len() as int] == (name, v));
        assert forall|n: HeaderName, v: Seq<char>| tells(headers, n, v) implies #[trigger] tells(
            more,
            n,
            v,
        ) by {
            let i = choose|i: int| 0 <= i < headers.len() && #[trigger] headers[i] == (n, v);
            assert(more[i] == headers[i]);
        }
        assert forall|n: HeaderName| n != name && silent(headers, n) implies #[trigger] silent(
            more,
            n,
        ) by {
            assert forall|i: int| 0 <= i < more.len() implies (#[trigger] more[i]).0 != n by {
                if i < headers.len() {
                    assert(more[i] == headers[i]);
                }
            }
        }
    }
}

/// What the next hop is told: the name and the namespace of the workload always, the
/// sandbox where there is one, the token and the labels only where tokens are managed.
pub proof fn law_what_the_next_hop_is_told(
    request: Request,
    remote_addr: SocketAddr,
    baggage: Seq<char>,
    trace_parent: Seq<char>,
    tokens_managed: bool,
    token: Option<Seq<char>>,
)
    ensures
        ({
            let headers = tunnel_headers(
                request,
                remote_addr,
                baggage,
                trace_parent,
                tokens_managed,
                token,
            );
            &&& tells(headers, HeaderName::WorkloadName, request.source.name@)
            &&& tells(headers, HeaderName::WorkloadNamespace, request.source.namespace@)
            &&& tells(headers, HeaderName::Baggage, baggage)
            &&& tells(headers, HeaderName::TraceParent, trace_parent)
            &&& tells(
                headers,
                HeaderName::Forwarded,
                "for=\""@ + remote_addr.shown() + "\""@,
            )
            &&& request.sandbox matches Some(sandbox) ==> tells(
                headers,
                HeaderName::SandboxId,
                sandbox.uid@,
            )
            &&& request.sandbox is None ==> silent(headers, HeaderName::SandboxId)
            &&& !tokens_managed ==> silent(headers, HeaderName::SandboxToken) && silent(
                headers,
                HeaderName::SandboxLabels,
            )
            &&& tokens_managed && token is Some ==> tells(
                headers,
                HeaderName::SandboxToken,
                token.unwrap(),
            )
            &&& tokens_managed && request.source.encoded_labels is Some ==> tells(
                headers,
                HeaderName::SandboxLabels,
                request.source.encoded_labels.unwrap()@,
            )
            &&& request.tls.action is None && request.tls.sni is None ==> silent(
                headers,
                HeaderName::Tls,
            )
        }),
{
    let fixed = seq![
        (HeaderName::Baggage, baggage),
        (HeaderName::Forwarded, "for=\""@ + remote_addr.shown() + "\""@),
        (HeaderName::TraceParent, trace_parent),
        (HeaderName::WorkloadName, request.source.name@),
        (HeaderName::WorkloadNamespace, request.source.namespace@),
    ];
    assert(tells(fixed, HeaderName::Baggage, baggage)) by {
        assert(fixed[0] == (HeaderName::Baggage, baggage));
    }
    assert(tells(fixed, HeaderName::Forwarded, "for=\""@ + remote_addr.shown() + "\""@)) by {
        assert(fixed[1] == (HeaderName::Forwarded, "for=\""@ + remote_addr.shown() + "\""@));
    }
    assert(tells(fixed, HeaderName::TraceParent, trace_parent)) by {
        assert(fixed[2] == (HeaderName::TraceParent, trace_parent));
    }
    assert(tells(fixed, HeaderName::WorkloadName, request.source.name@)) by {
        assert(fixed[3] == (HeaderName::WorkloadName, request.source.name@));
    }
    assert(tells(fixed, HeaderName::WorkloadNamespace, request.source.namespace@)) by {
        assert(fixed[4] == (HeaderName::WorkloadNamespace, request.source.namespace@));
    }
    assert(silent(fixed, HeaderName::Tls) && silent(fixed, HeaderName::SandboxId) && silent(
        fixed,
        HeaderName::SandboxToken,
    ) && silent(fixed, HeaderName::SandboxLabels));
    let tls = request.tls.spec_header_value();
    let with_tls = with_header(fixed, HeaderName::Tls, tls);
    lemma_with_header(fixed, HeaderName::Tls, tls);
    let id = match request.sandbox {
        Some(sandbox) => Some(sandbox.uid@),
        None => None,
    };
    let with_id = with_header(with_tls, HeaderName::SandboxId, id);
    lemma_with_header(with_tls, HeaderName::SandboxId, id);
    if tokens_managed {
        lemma_with_header(with_id, HeaderName::SandboxToken, token);
        let with_token = with_header(with_id, HeaderName::SandboxToken, token);
        lemma_with_header(
            with_token,
            HeaderName::SandboxLabels,
            opt_view(request.source.encoded_labels),
        );
    }
}

/// Traffic shares a tunnel only with traffic of the same identity, from the same address,
/// for the same sandbox or likewise for none, to the same hop with the same names.
pub proof fn law_who_shares_a_tunnel(
    key: WorkloadKey,
    a: Request,
    a_addr: SocketAddr,
    b: Request,
    b_addr: SocketAddr,
)
    requires
        is_key_of(key, a, a_addr),
        is_key_of(key, b, b_addr),
    ensures
        a.source.trust_domain@ == b.source.trust_domain@,
        a.source.namespace@ == b.source.namespace@,
        a.source.service_account@ == b.source.service_account@,
        host(a_addr) == host(b_addr),
        a.sandbox is Some <==> b.sandbox is Some,
        a.sandbox is Some ==> a.sandbox.unwrap().uid@ == b.sandbox.unwrap().uid@,
        a.actual_destination == b.actual_destination,
        a.upstream_sans@.len() == b.upstream_sans@.len(),
        forall|i: int|
            0 <= i < a.upstream_sans@.len() ==> (#[trigger] a.upstream_sans@[i])@
                == b.upstream_sans@[i]@,
{
    assert(a.source.spec_identity() == b.source.spec_identity());
    assert forall|i: int| 0 <= i < a.upstream_sans@.len() implies (#[trigger] a.upstream_sans@[i])@
        == b.upstream_sans@[i]@ by {
        assert(key.dst_id@[i]@ == a.upstream_sans@[i]@);
        assert(key.dst_id@[i]@ == b.upstream_sans@[i]@);
    }
}

/// The next hop is told of a stream that is to end there, or to pass, and of its server
/// name, as far as they are known; a refusal is not told.
pub proof fn law_what_is_told_of_a_stream(tls: TlsMetadata)
    ensures
        ({
            let action = match tls.action {
                Some(SniAction::TlsTermination) => "action=terminate"@,
                Some(SniAction::Passthrough) => "action=passthrough"@,
                _ => Seq::empty(),
            };
            let told = action.len() > 0;
            match (tls.spec_header_value(), tls.sni) {
                (Some(value), Some(name)) => value == (if told {
                    action + seq![';'] + "sni="@ + name@
                } else {
                    "sni="@ + name@
                }),
                (Some(value), None) => told && value == action,
                (None, Some(_)) => false,
                (None, None) => !told,
            }
        }),
{
    reveal_strlit("action=");
    reveal_strlit("terminate");
    reveal_strlit("passthrough");
    reveal_strlit("action=terminate");
    reveal_strlit("action=passthrough");
    reveal_strlit(";");
    reveal_strlit("sni=");
    assert("action="@ + "terminate"@ =~= "action=terminate"@);
    assert("action="@ + "passthrough"@ =~= "action=passthrough"@);
    assert("action=terminate"@.len() == 16 && "action=passthrough"@.len() == 18);
    assert(";"@ =~= seq![';']);
    if let Some(name) = tls.sni {
        if let Some(action) = tls.action {
            if let Some(word) = action.named() {
                let start = "action="@ + word;
                assert(start + ";"@ + ("sni="@ + name@) =~= start + seq![';'] + "sni="@ + name@);
            }
        }
    }
}

/// Datagrams can be asked for exactly where the target is an IPv4 address with a port
/// that is not zero; the path names both, each as a part of its own, behind the parts
/// that every such path has.
pub proof fn law_path_names_the_target(target: Option<HboneAddress>)
    ensures
        masque_path(target) is Some <==> (target matches Some(
            HboneAddress::SocketAddr(SocketAddr::V4 { port, .. }),
        ) && port != 0),
        masque_path(target) matches Some(path) ==> (target matches Some(
            HboneAddress::SocketAddr(SocketAddr::V4 { ip, port }),
        ) && path == "/.well-known/masque/udp/"@ + IpAddr::V4(ip).shown() + seq!['/'] + decimal(
            port as nat,
        ) + seq!['/']),
{
    reveal_strlit("/");
    assert("/"@ =~= seq!['/']);
}

/// The far end of a tunnel is written as its host and its port with a colon between them.
pub proof fn law_far_end_is_written(host: String, port: u16, address: SocketAddr)
    ensures
        address_text(HboneAddress::SvcHostname(host, port)) == host@ + seq![':'] + decimal(
            port as nat,
        ),
        address_text(HboneAddress::SocketAddr(address)) == address.shown(),
{
    reveal_strlit(":");
    assert(":"@ =~= seq![':']);
}

/// A stream is refused exactly where its server name is one that is refused, and by that
/// name; a stream without a name, or with another, goes on. Nothing is decided without a
/// name, and something always with one. Where the stream goes has nothing to do with it.
pub proof fn law_server_name_decides(before: Request, after: Request, end: Result<(), OutboundError>)
    requires
        before.is_decided(after, end),
    ensures
        end is Err <==> (before.tls.sni matches Some(sni) && before.sni_decision(sni@) is Deny),
        end matches Err(e) ==> (e matches OutboundError::SniPolicyDenied(name) && (before.tls.sni
            matches Some(sni) && name@ == sni@)),
        end is Ok ==> (after.tls.action is Some <==> before.tls.sni is Some),
        end is Ok ==> after.tls.action != Some(SniAction::Deny),
        end is Ok ==> (before.tls.sni matches Some(sni) ==> (after.tls.action == Some(
            SniAction::TlsTermination,
        ) <==> before.sni_decision(sni@) is TlsTermination)),
        after.tls.sni == before.tls.sni,
        after.source == before.source && after.sandbox == before.sandbox,
        after.protocol == before.protocol && after.actual_destination == before.actual_destination,
        after.hbone_target_destination == before.hbone_target_destination,
        after.upstream_sans == before.upstream_sans,
        after.actual_destination_workload == before.actual_destination_workload,
{
}

/// A stream that could not be sniffed is refused unless failures are let pass, and is
/// left as it was. All others go on with the name that was sniffed, or without one where
/// there was none, to where they went before.
pub proof fn law_sniffing_brings_the_name(
    before: Request,
    sniffed: Sniffed,
    fail_open: bool,
    after: Request,
    end: Result<(), OutboundError>,
)
    requires
        is_sniffed(before, sniffed, fail_open, after, end),
    ensures
        end is Err <==> sniffed.failure is Some && !fail_open,
        end is Err ==> after == before,
        end matches Err(e) ==> (e matches OutboundError::TlsSniffFailed(why) && (sniffed.failure
            matches Some(reason) && why@ == reason@)),
        end is Ok ==> after.tls.sni == sniffed.sni,
        after.tls.action == before.tls.action,
        after.source == before.source && after.sandbox == before.sandbox,
        after.protocol == before.protocol && after.actual_destination == before.actual_destination,
        after.hbone_target_destination == before.hbone_target_destination,
        after.upstream_sans == before.upstream_sans,
        after.actual_destination_workload == before.actual_destination_workload,
{
}

/// Straight or through a gateway, a request is of the same source and the same sandbox,
/// and nothing is known of its stream yet. Straight it goes to its target itself; through
/// a gateway it goes to the gateway's address, which must prove one of the gateway's
/// identities, and the target is the far end of the tunnel.
pub proof fn law_straight_or_through_a_gateway(
    straight: Request,
    through: Request,
    source: Workload,
    sandbox: Option<Sandbox>,
    target: SocketAddr,
    gateway: Upstream,
)
    requires
        straight.is_direct(source, sandbox, target),
        through.is_through(source, sandbox, target, gateway),
    ensures
        straight.source == through.source && straight.source == source,
        straight.sandbox == through.sandbox && straight.sandbox == sandbox,
        straight.tls.sni is None && through.tls.sni is None,
        straight.tls.action is None && through.tls.action is None,
        straight.actual_destination == target,
        straight.hbone_target_destination is None,
        straight.actual_destination_workload is None,
        straight.upstream_sans@.len() == 0,
        through.actual_destination == gateway.workload_socket_addr,
        through.hbone_target_destination matches Some(far) && far == HboneAddress::SocketAddr(
            target,
        ),
        through.actual_destination_workload == Some(gateway.workload),
        through.upstream_sans == gateway.sans,
        straight.protocol is TCP && through.protocol is HBONE,
{
}

/// Only a request that goes through a tunnel proves who sends it, and what it proves is
/// the identity of its source.
pub proof fn law_tunnels_prove_who_sends(
    request: Request,
    identity: Option<Identity>,
    policy: SecurityPolicy,
)
    requires
        is_reported(request, identity, policy),
    ensures
        identity is Some <==> request.protocol is HBONE,
        policy is MutualTls <==> request.protocol is HBONE,
        identity matches Some(id) ==> id@ == request.source.spec_identity(),
{
}

/// Of every route it is told what it is: that it leads straight on, or through which
/// gateway; a route that is none is refused, and the target is named unless it is the
/// proxy itself.
pub proof fn law_routes_are_told(
    answer: Result<Route, OutboundError>,
    model: RouteModel,
    target: SocketAddr,
)
    requires
        is_selected(answer, model, target),
    ensures
        (answer matches Ok(Route::Direct)) <==> model is Direct,
        answer matches Ok(Route::Gateway(gateway)) ==> model == RouteModel::Gateway(*gateway),
        answer is Err <==> model is SelfCall || model is Denied || model is GatewayMissing,
        model is SelfCall ==> (answer matches Err(e) && e is SelfCall),
        model is Denied ==> answer == Err::<Route, OutboundError>(
            OutboundError::EgressPolicyDenied(target),
        ),
        model is GatewayMissing ==> answer == Err::<Route, OutboundError>(
            OutboundError::EgressPolicyGatewayMissing(target),
        ),
{
}

/// Datagrams go through tunnels and no other way. A tunnel for them is asked for at the
/// gateway's address, for a target that has a path.
pub proof fn law_datagrams_go_through_tunnels(
    request: Request,
    answer: Result<(), OutboundError>,
    uri: Result<String, OutboundError>,
)
    requires
        is_fit_for_datagrams(request, answer),
        is_uri_of(request, uri),
    ensures
        answer is Ok <==> request.protocol is HBONE,
        answer matches Err(e) ==> e is UnsupportedFeature,
        uri is Ok <==> masque_path(request.hbone_target_destination) is Some,
        uri matches Err(e) ==> e is UnsupportedFeature,
        uri matches Ok(text) ==> text@ == "https://"@ + request.actual_destination.shown()
            + masque_path(request.hbone_target_destination).unwrap(),
{
}

/// Rules are asked about the connection as the workload opened it: from where and to
/// where, as one that goes out, with the identity of the workload, and with the network of
/// the gateway where it goes through one.
pub proof fn law_rules_are_asked_about_the_connection(
    conn: Connection,
    source_addr: SocketAddr,
    dest_addr: SocketAddr,
    request: Request,
)
    requires
        is_connection_of(conn, source_addr, dest_addr, request),
    ensures
        conn.src == source_addr && conn.dst == dest_addr,
        conn.direction is Outbound,
        conn.src_identity matches Some(id) && id@ == request.source.spec_identity(),
        request.actual_destination_workload matches Some(gateway) ==> conn.dst_network@
            == gateway.network@,
        request.actual_destination_workload is None ==> conn.dst_network@.len() == 0,
{
    reveal_strlit("");
}

} // verus!
