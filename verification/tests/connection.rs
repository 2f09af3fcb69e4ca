use ztunnel::extensions::extensions::{EgressPolicies, EgressPolicy, EgressPolicyAction};
use ztunnel::extensions::sni::{SniAction, SniRule, SniTrafficPolicy};
use ztunnel::net::{IpAddr, SocketAddr};
use ztunnel::proxy::connection::{Action, Denial, Event, Failure, OutboundConnection};
use ztunnel::proxy::outbound::{HboneAddress, OutboundError, Sniffed, Upstream};
use ztunnel::state::store::ProxyState;
use ztunnel::state::workload::{
    Destination, GatewayAddress, HealthStatus, NamespacedHostname, OutboundProtocol, Workload,
};

fn text(s: &str) -> String {
    s.to_string()
}

fn v4(a: u8, b: u8, c: u8, d: u8, port: u16) -> SocketAddr {
    SocketAddr::new(IpAddr::V4(u32::from_be_bytes([a, b, c, d])), port)
}

const TARGET: SocketAddr = SocketAddr::V4 { ip: 0xcb00_7101, port: 443 };

fn workload(action: Option<EgressPolicyAction>) -> Workload {
    Workload {
        uid: text("pod"),
        name: text("source"),
        namespace: text("ns"),
        network: text("network"),
        node: text("local-node"),
        trust_domain: text("cluster.local"),
        service_account: text("default"),
        workload_ips: vec![IpAddr::V4(u32::from_be_bytes([10, 0, 0, 1]))],
        status: HealthStatus::Healthy,
        egress_policies: action.map(|policy| EgressPolicies {
            policies: vec![EgressPolicy {
                namespaces: vec![],
                match_cidrs: vec![],
                match_ports: vec![],
                policy,
                gateway: Some(gateway()),
            }],
        }),
        sni_policy: Some(SniTrafficPolicy {
            rules: vec![SniRule { sni: vec![text("bad.example")], action: SniAction::Deny }],
        }),
        encoded_labels: None,
        traffic_policy_refs: vec![],
    }
}

fn gateway() -> GatewayAddress {
    GatewayAddress {
        destination: Destination::Hostname(NamespacedHostname {
            namespace: text("ns"),
            hostname: text("egress.ns"),
        }),
        hbone_mtls_port: 15008,
    }
}

fn upstream() -> Upstream {
    let workload = workload(None);
    Upstream {
        sans: vec![workload.identity()],
        workload,
        workload_socket_addr: v4(127, 0, 0, 10, 15008),
    }
}

fn accepted(fail_open: bool) -> OutboundConnection {
    OutboundConnection::new(v4(10, 0, 0, 1, 40000), TARGET, vec![15001, 15006, 15008], fail_open)
}

fn sniffing(fail_open: bool) -> OutboundConnection {
    let state = ProxyState::new();
    let mut connection = accepted(fail_open);
    let source = workload(Some(EgressPolicyAction::Gateway));
    assert_eq!(
        connection.proxy_to(&state, Event::Source(Some((source, None)))),
        Action::FindGateway
    );
    assert_eq!(connection.gateway(), Some(&gateway()));
    assert!(connection.request().is_none());
    assert_eq!(connection.proxy_to(&state, Event::Gateway(Some(upstream()))), Action::Sniff);
    assert!(connection.gateway().is_none());
    connection
}

fn sniffed(sni: Option<&str>, failure: Option<&str>) -> Event {
    Event::Sniffed(Some(Sniffed { sni: sni.map(text), failure: failure.map(text) }))
}

#[test]
fn a_direct_connection_is_connected_and_copied() {
    let state = ProxyState::new();
    let mut connection = accepted(false);
    let source = Event::Source(Some((workload(None), None)));
    assert_eq!(connection.proxy_to(&state, source), Action::Connect);
    let request = connection.request().unwrap();
    assert_eq!(request.protocol, OutboundProtocol::TCP);
    assert_eq!(request.actual_destination, TARGET);
    assert_eq!(connection.proxy_to(&state, Event::Ended), Action::Wait);
    assert_eq!(connection.proxy_to(&state, Event::Opened { success: true }), Action::Copy);
    assert_eq!(connection.proxy_to(&state, Event::Ended), Action::Close);
    assert!(connection.request().is_none());
    assert_eq!(connection.proxy_to(&state, Event::Withdrawn), Action::Wait);
}

#[test]
fn a_tunnel_opens_with_the_name_that_was_sniffed() {
    let state = ProxyState::new();
    let mut connection = sniffing(false);
    assert_eq!(
        connection.proxy_to(&state, sniffed(Some("good.example"), None)),
        Action::OpenTunnel
    );
    let request = connection.request().unwrap();
    assert_eq!(request.tls.sni.as_deref(), Some("good.example"));
    assert_eq!(request.tls.action, Some(SniAction::Passthrough));
    assert_eq!(request.actual_destination, v4(127, 0, 0, 10, 15008));
    assert_eq!(request.hbone_target_destination, Some(HboneAddress::SocketAddr(TARGET)));
    assert_eq!(
        connection.proxy_to(&state, Event::Opened { success: false }),
        Action::Fail(Failure::NotOpened)
    );
}

#[test]
fn a_refused_name_opens_no_tunnel() {
    let mut connection = sniffing(true);
    assert_eq!(
        connection.proxy_to(&ProxyState::new(), sniffed(Some("bad.example"), None)),
        Action::Fail(Failure::Refused(OutboundError::SniPolicyDenied(text("bad.example"))))
    );
    assert!(connection.request().is_none());
}

#[test]
fn a_stream_that_is_no_tls_passes_where_failures_do() {
    let state = ProxyState::new();
    assert_eq!(
        sniffing(false).proxy_to(&state, sniffed(None, Some("malformed"))),
        Action::Fail(Failure::Refused(OutboundError::TlsSniffFailed(text("malformed"))))
    );
    let mut open = sniffing(true);
    assert_eq!(open.proxy_to(&state, sniffed(None, Some("malformed"))), Action::OpenTunnel);
    assert_eq!(open.request().unwrap().tls.action, None);
    assert_eq!(
        sniffing(true).proxy_to(&state, Event::Sniffed(None)),
        Action::Fail(Failure::Unreadable)
    );
}

#[test]
fn connections_are_refused_before_anything_leaves() {
    let state = ProxyState::new();
    assert_eq!(
        accepted(false).proxy_to(&state, Event::Source(None)),
        Action::Deny(Denial::UnknownSource)
    );
    let denied = workload(Some(EgressPolicyAction::Deny));
    assert_eq!(
        accepted(false).proxy_to(&state, Event::Source(Some((denied, None)))),
        Action::Deny(Denial::Route(OutboundError::EgressPolicyDenied(TARGET)))
    );
    let mut homeless = workload(Some(EgressPolicyAction::Gateway));
    homeless.egress_policies.as_mut().unwrap().policies[0].gateway = None;
    assert_eq!(
        accepted(false).proxy_to(&state, Event::Source(Some((homeless, None)))),
        Action::Deny(Denial::Route(OutboundError::EgressPolicyGatewayMissing(TARGET)))
    );
    let mut own = OutboundConnection::new(
        v4(10, 0, 0, 1, 40000),
        v4(10, 0, 0, 1, 15008),
        vec![15008],
        false,
    );
    assert_eq!(
        own.proxy_to(&state, Event::Source(Some((workload(None), None)))),
        Action::Deny(Denial::Route(OutboundError::SelfCall))
    );
    let mut lost = accepted(false);
    let source = workload(Some(EgressPolicyAction::Gateway));
    lost.proxy_to(&state, Event::Source(Some((source, None))));
    assert_eq!(
        lost.proxy_to(&state, Event::Gateway(None)),
        Action::Deny(Denial::UnknownGateway)
    );
}

#[test]
fn policies_refuse_a_connection_before_it_is_connected() {
    let mut source = workload(None);
    source.traffic_policy_refs = vec![text("ns/gone")];
    let mut connection = accepted(false);
    let action = connection.proxy_to(&ProxyState::new(), Event::Source(Some((source, None))));
    assert!(matches!(action, Action::Deny(Denial::Policy(_))));
    assert!(connection.request().is_none());
}

#[test]
fn a_withdrawn_connection_ends() {
    let state = ProxyState::new();
    let mut connection = sniffing(false);
    assert_eq!(connection.proxy_to(&state, Event::Withdrawn), Action::Close);
    assert!(connection.request().is_none());
    let mut early = accepted(false);
    assert_eq!(early.proxy_to(&state, Event::Withdrawn), Action::Wait);
    let source = Event::Source(Some((workload(None), None)));
    assert_eq!(early.proxy_to(&state, source), Action::Connect);
}
