use ztunnel::extensions::extensions::{EgressPolicies, EgressPolicy, EgressPolicyAction};
use ztunnel::extensions::sni::{SniAction, SniRule, SniTrafficPolicy};
use ztunnel::net::{IpAddr, IpNet, SocketAddr};
use ztunnel::proxy::outbound::{
    self, after_sniffing, check_udp_route, conn_metrics_from_request,
    connect_udp_masque_path, connect_udp_uri, hbone_headers, match_egress_policy,
    match_source_egress_policy, outbound_connection, pool_key, select_route, should_sniff,
    HboneAddress, HeaderName, OutboundError, Request, Route, SecurityPolicy, Sniffed, TlsMetadata,
    Upstream,
};
use ztunnel::rbac::Direction;
use ztunnel::sandbox::discovery::Sandbox;
use ztunnel::state::workload::{
    Destination, GatewayAddress, HealthStatus, NamespacedHostname, OutboundProtocol, Workload,
};

const LOCAL_PORTS: [u16; 3] = [15001, 15006, 15008];

fn text(s: &str) -> String {
    s.to_string()
}

fn ip4(a: u8, b: u8, c: u8, d: u8) -> IpAddr {
    IpAddr::V4(u32::from_be_bytes([a, b, c, d]))
}

fn v4(a: u8, b: u8, c: u8, d: u8, port: u16) -> SocketAddr {
    SocketAddr::new(ip4(a, b, c, d), port)
}

fn v6(ip: u128, port: u16) -> SocketAddr {
    SocketAddr::new(IpAddr::V6(ip), port)
}

fn cidr(s: &str) -> IpNet {
    IpNet::parse(s).expect("valid CIDR")
}

fn ns(items: &[&str]) -> Vec<String> {
    items.iter().map(|s| s.to_string()).collect()
}

fn workload(name: &str) -> Workload {
    Workload {
        uid: format!("cluster1//v1/Pod/ns/{name}"),
        name: text(name),
        namespace: text("ns"),
        network: text("network"),
        node: text("local-node"),
        trust_domain: text("cluster.local"),
        service_account: text("default"),
        workload_ips: vec![ip4(127, 0, 0, 1)],
        status: HealthStatus::Healthy,
        egress_policies: None,
        sni_policy: None,
        encoded_labels: None,
        traffic_policy_refs: vec![],
    }
}

fn sandbox(sni_policy: Option<SniTrafficPolicy>) -> Sandbox {
    Sandbox {
        uid: text("sandbox-a"),
        workload_uid: None,
        egress_routing: None,
        traffic_policy: None,
        traffic_policy_refs: vec![],
        sni_policy,
    }
}

fn policy_passthrough() -> EgressPolicy {
    EgressPolicy {
        namespaces: vec![],
        match_cidrs: vec![],
        match_ports: vec![],
        policy: EgressPolicyAction::Passthrough,
        gateway: None,
    }
}

fn gateway() -> GatewayAddress {
    GatewayAddress {
        destination: Destination::Hostname(NamespacedHostname {
            namespace: text("ns"),
            hostname: text("egress.ns"),
        }),
        hbone_mtls_port: 15008,
    }
}

fn upstream() -> Upstream {
    let workload = workload("egress-gateway");
    Upstream {
        sans: vec![workload.identity()],
        workload,
        workload_socket_addr: v4(127, 0, 0, 10, 15008),
    }
}

fn wrap(policies: Vec<EgressPolicy>) -> EgressPolicies {
    EgressPolicies { policies }
}

fn header(request: &Request, name: HeaderName) -> Option<String> {
    hbone_headers(
        request,
        &v4(127, 0, 0, 1, 12345),
        text("k8s.cluster.name=x"),
        text("00-1-2-01"),
        false,
        None,
    )
    .into_iter()
    .find(|(n, _)| *n == name)
    .map(|(_, value)| value)
}

#[test]
fn routing_uses_source_policy_for_known_and_unknown_destinations() {
    for target in [v4(127, 0, 0, 2, 80), v4(127, 0, 0, 3, 80), v4(203, 0, 113, 1, 80)] {
        let source = workload("source-workload");
        assert!(matches!(select_route(&LOCAL_PORTS, &source, &target), Ok(Route::Direct)));
        let direct = Request::direct(source.clone(), None, target);
        assert_eq!(direct.protocol, OutboundProtocol::TCP);
        assert_eq!(direct.actual_destination, target);
        assert!(direct.actual_destination_workload.is_none());
        assert!(direct.hbone_target_destination.is_none());

        for action in [
            EgressPolicyAction::Passthrough,
            EgressPolicyAction::Deny,
            EgressPolicyAction::Gateway,
        ] {
            let source = Workload {
                egress_policies: Some(wrap(vec![EgressPolicy {
                    policy: action,
                    gateway: Some(gateway()),
                    ..policy_passthrough()
                }])),
                ..source.clone()
            };
            let result = select_route(&LOCAL_PORTS, &source, &target);
            match action {
                EgressPolicyAction::Deny => {
                    assert!(matches!(result, Err(OutboundError::EgressPolicyDenied(t)) if t == target))
                }
                EgressPolicyAction::Passthrough => assert!(matches!(result, Ok(Route::Direct))),
                EgressPolicyAction::Gateway => {
                    match result {
                        Ok(Route::Gateway(found)) => assert_eq!(*found, gateway()),
                        _ => panic!("expected a gateway"),
                    }
                    let request =
                        Request::through_gateway(source.clone(), None, target, upstream());
                    assert_eq!(request.protocol, OutboundProtocol::HBONE);
                    assert_eq!(request.actual_destination, v4(127, 0, 0, 10, 15008));
                    assert_eq!(
                        request.hbone_target_destination.unwrap().text(),
                        target.text()
                    );
                }
            }
        }
    }
}

#[test]
fn a_gateway_policy_needs_a_gateway() {
    let target = v4(203, 0, 113, 1, 80);
    let source = Workload {
        egress_policies: Some(wrap(vec![EgressPolicy {
            policy: EgressPolicyAction::Gateway,
            ..policy_passthrough()
        }])),
        ..workload("source-workload")
    };
    assert!(matches!(
        select_route(&LOCAL_PORTS, &source, &target),
        Err(OutboundError::EgressPolicyGatewayMissing(t)) if t == target
    ));
}

#[test]
fn direct_routing_rejects_local_proxy_ports() {
    let public = 0x2001_0db8_0000_0000_0000_0000_0000_0001;
    let source = Workload {
        workload_ips: vec![ip4(192, 0, 2, 1), IpAddr::V6(public)],
        ..workload("source-workload")
    };
    for port in LOCAL_PORTS {
        for ip in [ip4(127, 0, 0, 1), IpAddr::V6(1), ip4(192, 0, 2, 1), IpAddr::V6(public)] {
            let target = SocketAddr::new(ip, port);
            assert!(matches!(
                select_route(&LOCAL_PORTS, &source, &target),
                Err(OutboundError::SelfCall)
            ));
        }
        let target = v4(192, 0, 2, 2, port);
        assert!(select_route(&LOCAL_PORTS, &source, &target).is_ok());
    }
    assert!(select_route(&LOCAL_PORTS, &source, &v4(192, 0, 2, 1, 8080)).is_ok());
}

#[test]
fn build_forwarded() {
    assert_eq!(outbound::build_forwarded(&v4(127, 0, 0, 1, 80)), r#"for="127.0.0.1:80""#);
    assert_eq!(outbound::build_forwarded(&v6(1, 80)), r#"for="[::1]:80""#);
}

#[test]
fn connect_udp_masque_path_uses_egress_policy_ipv4_target_without_service() {
    let target = HboneAddress::SocketAddr(v4(10, 0, 0, 8, 9000));

    let path = connect_udp_masque_path(&Some(target)).unwrap();

    assert_eq!(path, "/.well-known/masque/udp/10.0.0.8/9000/");
}

#[test]
fn connect_udp_masque_path_rejects_unsupported_numeric_targets() {
    let ipv6 =
        HboneAddress::SocketAddr(v6(0x2001_0db8_0000_0000_0000_0000_0000_0001, 9000));
    let zero_port = HboneAddress::SocketAddr(v4(10, 0, 0, 8, 0));

    for target in [None, Some(ipv6), Some(zero_port)] {
        assert!(matches!(
            connect_udp_masque_path(&target),
            Err(OutboundError::UnsupportedFeature(_))
        ));
    }
}

#[test]
fn hbone_request_carries_workload_headers() {
    let mut req = Request {
        protocol: OutboundProtocol::HBONE,
        source: workload("source-workload"),
        sandbox: None,
        tls: TlsMetadata::default(),
        hbone_target_destination: Some(HboneAddress::SocketAddr(v4(10, 0, 0, 1, 8080))),
        actual_destination_workload: None,
        actual_destination: v4(10, 0, 0, 1, 8080),
        upstream_sans: vec![],
    };

    req.evaluate_sni_policy().unwrap();
    assert_eq!(header(&req, HeaderName::WorkloadName).unwrap(), "source-workload");
    assert_eq!(header(&req, HeaderName::WorkloadNamespace).unwrap(), "ns");
    assert_eq!(header(&req, HeaderName::Baggage).unwrap(), "k8s.cluster.name=x");
    assert_eq!(header(&req, HeaderName::TraceParent).unwrap(), "00-1-2-01");
    assert_eq!(header(&req, HeaderName::Tls), None);
    assert_eq!(
        connect_udp_uri(&req).unwrap(),
        "https://10.0.0.1:8080/.well-known/masque/udp/10.0.0.1/8080/"
    );
    assert_eq!(header(&req, HeaderName::Forwarded).unwrap(), r#"for="127.0.0.1:12345""#);

    let policy = SniTrafficPolicy {
        rules: vec![
            SniRule { sni: ns(&["first.example"]), action: SniAction::TlsTermination },
            SniRule { sni: ns(&["blocked.example"]), action: SniAction::Deny },
        ],
    };
    // Without a sandbox there is no policy: TLS that is seen passes.
    req.tls.sni = Some(text("blocked.example"));
    req.evaluate_sni_policy().unwrap();
    assert_eq!(
        header(&req, HeaderName::Tls).unwrap(),
        "action=passthrough;sni=blocked.example"
    );

    // A sandbox without a policy for names decides the same.
    req.sandbox = Some(sandbox(None));
    req.evaluate_sni_policy().unwrap();
    assert_eq!(
        header(&req, HeaderName::Tls).unwrap(),
        "action=passthrough;sni=blocked.example"
    );
    assert_eq!(header(&req, HeaderName::SandboxId).unwrap(), "sandbox-a");
    req.tls.sni = None;
    req.evaluate_sni_policy().unwrap();
    assert_eq!(header(&req, HeaderName::Tls), None);

    req.sandbox = Some(sandbox(Some(policy)));
    for (sni, action) in [("first.example", "terminate"), ("second.example", "passthrough")] {
        req.tls.sni = Some(text(sni));
        req.evaluate_sni_policy().unwrap();
        assert_eq!(header(&req, HeaderName::Tls).unwrap(), format!("action={action};sni={sni}"));
    }
    req.tls.sni = None;
    req.evaluate_sni_policy().unwrap();
    assert_eq!(header(&req, HeaderName::Tls), None);

    req.tls.sni = Some(text("blocked.example"));
    assert!(matches!(req.evaluate_sni_policy(), Err(OutboundError::SniPolicyDenied(_))));

    // The workload's policy for names is a gate of its own, with or without a sandbox.
    req.source.sni_policy = Some(SniTrafficPolicy {
        rules: vec![SniRule { sni: ns(&["first.example"]), action: SniAction::Deny }],
    });
    req.tls.sni = Some(text("first.example"));
    assert!(matches!(req.evaluate_sni_policy(), Err(OutboundError::SniPolicyDenied(_))));
    req.sandbox = None;
    assert!(matches!(req.evaluate_sni_policy(), Err(OutboundError::SniPolicyDenied(_))));
    req.source.sni_policy.as_mut().unwrap().rules[0].action = SniAction::TlsTermination;
    req.evaluate_sni_policy().unwrap();
    assert_eq!(req.tls.action, Some(SniAction::TlsTermination));
}

#[test]
fn udp_goes_through_gateways_only() {
    let target = v4(203, 0, 113, 1, 80);
    let direct = Request::direct(workload("source"), None, target);
    assert!(matches!(check_udp_route(&direct), Err(OutboundError::UnsupportedFeature(_))));
    let tunnelled = Request::through_gateway(workload("source"), None, target, upstream());
    assert_eq!(check_udp_route(&tunnelled), Ok(()));
}

#[test]
fn sandbox_headers_name_the_token() {
    let mut req = Request::through_gateway(
        Workload { encoded_labels: Some(text("YT0x")), ..workload("source") },
        Some(sandbox(None)),
        v4(203, 0, 113, 1, 80),
        upstream(),
    );
    let headers = hbone_headers(
        &req,
        &v4(127, 0, 0, 1, 1),
        text("b"),
        text("t"),
        true,
        Some(text("dG9rZW4=")),
    );
    assert!(headers.contains(&(HeaderName::SandboxToken, text("dG9rZW4="))));
    assert!(headers.contains(&(HeaderName::SandboxId, text("sandbox-a"))));
    req.sandbox = None;
    assert_eq!(header(&req, HeaderName::SandboxId), None);
}

#[test]
fn connections_are_told_apart() {
    let target = v4(203, 0, 113, 1, 80);
    let direct = Request::direct(workload("source"), None, target);
    let conn = outbound_connection(v4(127, 0, 0, 1, 1234), target, &direct);
    assert_eq!(conn.direction, Direction::Outbound);
    assert_eq!(conn.src, v4(127, 0, 0, 1, 1234));
    assert_eq!(conn.dst, target);
    assert_eq!(conn_metrics_from_request(&direct).1, SecurityPolicy::Unknown);
    let tunnelled = Request::through_gateway(workload("source"), None, target, upstream());
    let (identity, security) = conn_metrics_from_request(&tunnelled);
    assert_eq!(security, SecurityPolicy::MutualTls);
    assert_eq!(identity, Some(upstream().workload.identity()));

    let remote = v4(10, 1, 2, 3, 9);
    let key = pool_key(&tunnelled, &remote);
    assert_eq!(key.dst, v4(127, 0, 0, 10, 15008));
    assert_eq!(key.src, ip4(10, 1, 2, 3));
    assert_eq!(key.sandbox_id, None);
    let with_sandbox = Request { sandbox: Some(sandbox(None)), ..tunnelled };
    assert_eq!(pool_key(&with_sandbox, &remote).sandbox_id, Some(text("sandbox-a")));
}

#[test]
fn sniffing_that_fails_may_pass() {
    let target = v4(203, 0, 113, 1, 443);
    let mut req = Request::through_gateway(workload("source"), None, target, upstream());
    assert!(should_sniff(&req));
    assert!(!should_sniff(&Request::direct(workload("source"), None, target)));
    let failed = || Sniffed { sni: None, failure: Some(text("truncated")) };
    assert_eq!(
        after_sniffing(&mut req, failed(), false),
        Err(OutboundError::TlsSniffFailed(text("truncated")))
    );
    assert_eq!(after_sniffing(&mut req, failed(), true), Ok(()));
    let seen = Sniffed { sni: Some(text("a.example")), failure: None };
    assert_eq!(after_sniffing(&mut req, seen, false), Ok(()));
    assert_eq!(req.tls.sni.as_deref(), Some("a.example"));
    assert_eq!(req.tls.action, None);
    req.evaluate_sni_policy().unwrap();
    assert_eq!(req.tls.action, Some(SniAction::Passthrough));
}

#[test]
fn workload_policy_applies_without_a_sandbox() {
    let mut workload = workload("source");
    workload.namespace = text("ns-a");
    workload.egress_policies = Some(wrap(vec![EgressPolicy {
        policy: EgressPolicyAction::Deny,
        ..policy_passthrough()
    }]));

    let got = match_source_egress_policy(&workload, &v4(10, 0, 0, 1, 443))
        .expect("inline workload policy should match");
    assert_eq!(got.policy, EgressPolicyAction::Deny);

    workload.egress_policies = None;
    assert!(match_source_egress_policy(&workload, &v4(10, 0, 0, 1, 443)).is_none());
}

#[test]
fn empty_policy_list_returns_none() {
    let ep = wrap(vec![]);
    assert!(match_egress_policy(&ep, "ns1", &v4(10, 0, 0, 1, 80)).is_none());
}

#[test]
fn fully_unconstrained_policy_matches_anything() {
    let ep = wrap(vec![policy_passthrough()]);
    let got = match_egress_policy(&ep, "any-ns", &v4(1, 2, 3, 4, 9999)).expect("should match");
    assert_eq!(got.policy, EgressPolicyAction::Passthrough);
}

#[test]
fn namespace_filter_admits_listed_source() {
    let ep = wrap(vec![EgressPolicy { namespaces: ns(&["ns-a", "ns-b"]), ..policy_passthrough() }]);
    assert!(match_egress_policy(&ep, "ns-a", &v4(10, 0, 0, 1, 80)).is_some());
    assert!(match_egress_policy(&ep, "ns-b", &v4(10, 0, 0, 1, 80)).is_some());
}

#[test]
fn namespace_filter_rejects_unlisted_source() {
    let ep = wrap(vec![EgressPolicy { namespaces: ns(&["ns-a"]), ..policy_passthrough() }]);
    assert!(match_egress_policy(&ep, "ns-other", &v4(10, 0, 0, 1, 80)).is_none());
}

#[test]
fn cidr_filter_admits_target_inside_any_range() {
    let ep = wrap(vec![EgressPolicy {
        match_cidrs: vec![cidr("10.0.0.0/8"), cidr("192.168.1.0/24")],
        ..policy_passthrough()
    }]);
    assert!(match_egress_policy(&ep, "ns", &v4(10, 255, 255, 1, 80)).is_some());
    assert!(match_egress_policy(&ep, "ns", &v4(192, 168, 1, 42, 80)).is_some());
}

#[test]
fn cidr_filter_rejects_target_outside_all_ranges() {
    let ep =
        wrap(vec![EgressPolicy { match_cidrs: vec![cidr("10.0.0.0/8")], ..policy_passthrough() }]);
    assert!(match_egress_policy(&ep, "ns", &v4(172, 16, 0, 1, 80)).is_none());
}

#[test]
fn port_filter_admits_target_with_matching_port() {
    let ep = wrap(vec![EgressPolicy { match_ports: vec![80, 443, 8080], ..policy_passthrough() }]);
    assert!(match_egress_policy(&ep, "ns", &v4(10, 0, 0, 1, 443)).is_some());
    assert!(match_egress_policy(&ep, "ns", &v4(10, 0, 0, 1, 8080)).is_some());
}

#[test]
fn port_filter_rejects_target_with_non_matching_port() {
    let ep = wrap(vec![EgressPolicy { match_ports: vec![80, 443], ..policy_passthrough() }]);
    assert!(match_egress_policy(&ep, "ns", &v4(10, 0, 0, 1, 22)).is_none());
}

#[test]
fn combined_filters_require_all_to_pass() {
    let ep = wrap(vec![EgressPolicy {
        namespaces: ns(&["ns-a"]),
        match_cidrs: vec![cidr("10.0.0.0/24")],
        match_ports: vec![80],
        ..policy_passthrough()
    }]);
    assert!(match_egress_policy(&ep, "ns-a", &v4(10, 0, 0, 5, 80)).is_some());
    assert!(match_egress_policy(&ep, "ns-b", &v4(10, 0, 0, 5, 80)).is_none());
    assert!(match_egress_policy(&ep, "ns-a", &v4(11, 0, 0, 5, 80)).is_none());
    assert!(match_egress_policy(&ep, "ns-a", &v4(10, 0, 0, 5, 81)).is_none());
}

#[test]
fn first_match_wins_skips_later_policies() {
    let allow_first = EgressPolicy {
        match_cidrs: vec![cidr("10.0.0.0/24")],
        policy: EgressPolicyAction::Passthrough,
        ..policy_passthrough()
    };
    let deny_all = EgressPolicy { policy: EgressPolicyAction::Deny, ..policy_passthrough() };
    let ep = wrap(vec![allow_first, deny_all]);
    let got = match_egress_policy(&ep, "ns", &v4(10, 0, 0, 5, 80))
        .expect("first policy should match");
    assert_eq!(got.policy, EgressPolicyAction::Passthrough);
}

#[test]
fn non_matching_policy_falls_through_to_next() {
    let strict_first = EgressPolicy {
        match_cidrs: vec![cidr("10.0.0.0/24")],
        policy: EgressPolicyAction::Deny,
        ..policy_passthrough()
    };
    let catchall = EgressPolicy { policy: EgressPolicyAction::Gateway, ..policy_passthrough() };
    let ep = wrap(vec![strict_first, catchall]);
    let got = match_egress_policy(&ep, "ns", &v4(172, 16, 0, 1, 80))
        .expect("catchall should match");
    assert_eq!(got.policy, EgressPolicyAction::Gateway);
}

#[test]
fn ipv6_target_matches_ipv6_cidr() {
    let ep =
        wrap(vec![EgressPolicy { match_cidrs: vec![cidr("fd00::/8")], ..policy_passthrough() }]);
    let inside = v6(0xfd00_0000_0000_0000_0000_0000_0000_0001, 80);
    let outside = v6(0x2001_0db8_0000_0000_0000_0000_0000_0001, 80);
    assert!(match_egress_policy(&ep, "ns", &inside).is_some());
    assert!(match_egress_policy(&ep, "ns", &outside).is_none());
}

#[test]
fn returned_reference_preserves_action_and_gateway() {
    let ep = wrap(vec![EgressPolicy {
        policy: EgressPolicyAction::Gateway,
        gateway: None,
        ..policy_passthrough()
    }]);
    let got = match_egress_policy(&ep, "ns", &v4(10, 0, 0, 1, 80)).expect("match");
    assert_eq!(got.policy, EgressPolicyAction::Gateway);
    assert!(got.gateway.is_none());
}
