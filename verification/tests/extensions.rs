use ztunnel::extensions::extensions::{
    proto_gateway_to_gateway, AnyMessage, AuthExtension, EgressPolicies, EgressPolicy,
    EgressPolicyAction, EgressPolicyError, EgressPolicyMessage, ExtensionMessage, GatewayMessage,
    RawExtension, TrafficPolicyExtension, WorkloadMetadata, DEFAULT_EGRESS_POLICIES_TYPE_URL,
    TRAFFIC_POLICY_TYPE_URL, WORKLOAD_METADATA_TYPE_URL,
};
use ztunnel::state::workload::Destination;

fn text(s: &str) -> String {
    s.to_string()
}

fn texts(list: &[&str]) -> Vec<String> {
    list.iter().map(|s| s.to_string()).collect()
}

fn message() -> EgressPolicyMessage {
    EgressPolicyMessage {
        namespaces: vec![],
        match_cidrs: vec![],
        match_ports: vec![],
        policy: 0,
        gateway: None,
    }
}

fn any(type_url: &str, value: &[u8]) -> AnyMessage {
    AnyMessage { type_url: text(type_url), value: value.to_vec() }
}

fn extension(name: &str, config: Option<AnyMessage>) -> ExtensionMessage {
    ExtensionMessage { name: text(name), config }
}

fn label(key: &str, value: &str) -> (String, String) {
    (text(key), text(value))
}

#[test]
fn extension_type_urls_match_control_plane_proto_package() {
    const PREFIX: &str = "type.googleapis.com/kruise.networking.extensions.v1.";

    assert_eq!(TRAFFIC_POLICY_TYPE_URL, format!("{PREFIX}TrafficPolicyExtension"));
    assert_eq!(WORKLOAD_METADATA_TYPE_URL, format!("{PREFIX}WorkloadMetadata"));
    assert_eq!(DEFAULT_EGRESS_POLICIES_TYPE_URL, format!("{PREFIX}EgressPolicies"));
}

#[test]
fn egress_action_from_known_values() {
    assert_eq!(EgressPolicyAction::try_from(0).unwrap(), EgressPolicyAction::Passthrough);
    assert_eq!(EgressPolicyAction::try_from(1).unwrap(), EgressPolicyAction::Deny);
    assert_eq!(EgressPolicyAction::try_from(2).unwrap(), EgressPolicyAction::Gateway);
}

#[test]
fn egress_action_unknown_is_rejected() {
    assert!(EgressPolicyAction::try_from(99).is_err());
    assert!(EgressPolicyAction::try_from(-1).is_err());
}

#[test]
fn gateway_extracts_namespace_from_fqdn() {
    let gw = GatewayMessage { service: text("egress.istio-system.svc.cluster.local"), port: 8443 };
    let out = proto_gateway_to_gateway(&gw).expect("should parse");
    match out.destination {
        Destination::Hostname(h) => {
            assert_eq!(h.namespace.as_str(), "istio-system");
            assert_eq!(h.hostname.as_str(), "egress.istio-system.svc.cluster.local");
        }
        _ => panic!("expected Hostname destination"),
    }
    assert_eq!(out.hbone_mtls_port, 8443);
}

#[test]
fn gateway_port_zero_defaults_to_hbone_mtls() {
    let gw = GatewayMessage { service: text("egress.istio-system"), port: 0 };
    let out = proto_gateway_to_gateway(&gw).expect("should parse");
    assert_eq!(out.hbone_mtls_port, 15008);
}

#[test]
fn gateway_without_dot_is_rejected() {
    let gw = GatewayMessage { service: text("no-dots-here"), port: 0 };
    assert!(proto_gateway_to_gateway(&gw).is_err());
}

#[test]
fn gateway_trailing_dot_is_rejected() {
    let gw = GatewayMessage { service: text("foo."), port: 1234 };
    assert!(proto_gateway_to_gateway(&gw).is_err());
}

#[test]
fn gateway_errors_name_the_value() {
    let gw = GatewayMessage { service: text("no-dots-here"), port: 0 };
    assert_eq!(
        proto_gateway_to_gateway(&gw),
        Err(EgressPolicyError::InvalidGatewayService(text("no-dots-here")))
    );
    let gw = GatewayMessage { service: text("gw.ns"), port: 65536 };
    assert_eq!(
        proto_gateway_to_gateway(&gw),
        Err(EgressPolicyError::InvalidGatewayPort(65536))
    );
    let gw = GatewayMessage { service: text("gw.ns"), port: 65535 };
    assert_eq!(proto_gateway_to_gateway(&gw).unwrap().hbone_mtls_port, 65535);
}

#[test]
fn egress_policy_from_proto_accepts_valid_fields() {
    let pp = EgressPolicyMessage {
        namespaces: texts(&["ns-a", "ns-b", "ns-a"]),
        match_cidrs: texts(&["10.0.0.0/8", "2001:db8::/32"]),
        match_ports: texts(&["80", "443"]),
        policy: 2,
        gateway: Some(GatewayMessage { service: text("gw.istio-system"), port: 0 }),
    };
    let p = EgressPolicy::try_from(pp).unwrap();
    // Each namespace stands once.
    assert_eq!(p.namespaces.len(), 2);
    assert!(p.namespaces.contains(&text("ns-a")));
    assert!(p.namespaces.contains(&text("ns-b")));
    assert_eq!(p.match_cidrs.len(), 2);
    assert_eq!(p.match_ports, vec![80, 443]);
    assert_eq!(p.policy, EgressPolicyAction::Gateway);
    assert!(p.gateway.is_some());
}

#[test]
fn egress_policy_from_proto_rejects_invalid_cidr() {
    let pp = EgressPolicyMessage { match_cidrs: texts(&["not-a-cidr"]), ..message() };
    assert!(EgressPolicy::try_from(pp).is_err());
}

#[test]
fn egress_policy_from_proto_rejects_invalid_port() {
    let pp = EgressPolicyMessage { match_ports: texts(&["65536"]), ..message() };
    assert!(EgressPolicy::try_from(pp).is_err());
}

#[test]
fn egress_policy_from_proto_rejects_invalid_gateway() {
    let pp = EgressPolicyMessage {
        policy: 2,
        gateway: Some(GatewayMessage { service: text("no-namespace"), port: 0 }),
        ..message()
    };
    assert!(EgressPolicy::try_from(pp).is_err());
}

#[test]
fn egress_policy_errors_say_why() {
    let pp = EgressPolicyMessage { match_cidrs: texts(&["not-a-cidr"]), ..message() };
    let error = EgressPolicy::try_from(pp).unwrap_err();
    assert_eq!(error, EgressPolicyError::InvalidCidr(text("not-a-cidr")));
    assert!(error.message().contains("not-a-cidr"));
    let pp = EgressPolicyMessage { match_ports: texts(&["http"]), ..message() };
    let error = EgressPolicy::try_from(pp).unwrap_err();
    assert_eq!(error, EgressPolicyError::InvalidPort(text("http")));
    let pp = EgressPolicyMessage { policy: 2, ..message() };
    let error = EgressPolicy::try_from(pp).unwrap_err();
    assert_eq!(error, EgressPolicyError::MissingGateway);
    let pp = EgressPolicyMessage { policy: 7, ..message() };
    let error = EgressPolicy::try_from(pp).unwrap_err();
    assert_eq!(error, EgressPolicyError::UnknownAction(7));
    assert!(error.message().contains('7'));
}

#[test]
fn egress_policies_from_proto_preserves_order() {
    let pp = vec![
        EgressPolicyMessage { namespaces: texts(&["a"]), policy: 0, ..message() },
        EgressPolicyMessage { namespaces: texts(&["b"]), policy: 1, ..message() },
    ];
    let p = EgressPolicies::try_from(pp).unwrap();
    assert_eq!(p.policies.len(), 2);
    assert_eq!(p.policies[0].policy, EgressPolicyAction::Passthrough);
    assert_eq!(p.policies[1].policy, EgressPolicyAction::Deny);
    assert_eq!(p.policies[0].namespaces, texts(&["a"]));
    assert_eq!(p.policies[1].namespaces, texts(&["b"]));
}

#[test]
fn egress_policies_from_proto_rejects_any_invalid_policy() {
    let pp = vec![
        EgressPolicyMessage { policy: 1, ..message() },
        EgressPolicyMessage { match_ports: texts(&["invalid"]), ..message() },
    ];
    assert!(EgressPolicies::try_from(pp).is_err());
}

#[test]
fn encode_labels_empty_input() {
    let m = WorkloadMetadata { labels: vec![] };
    assert_eq!(m.encode_labels(), "");
}

#[test]
fn encode_labels_single_kv() {
    let m = WorkloadMetadata { labels: vec![label("app", "v1")] };
    assert_eq!(m.encode_labels(), "YXBwPXYx");
}

#[test]
fn encode_labels_is_deterministic_regardless_of_insert_order() {
    let ma = WorkloadMetadata { labels: vec![label("b", "2"), label("a", "1")] };
    let mb = WorkloadMetadata { labels: vec![label("a", "1"), label("b", "2")] };
    assert_eq!(ma.encode_labels(), mb.encode_labels());
    assert_eq!(ma.encode_labels(), "YT0xLGI9Mg==");
}

#[test]
fn auth_extension_from_workload_metadata() {
    let meta = WorkloadMetadata { labels: vec![label("env", "prod")] };
    let ext = extension("meta-ext", Some(any(WORKLOAD_METADATA_TYPE_URL, &[])));

    match AuthExtension::from_workload(ext, Some(meta), Ok(vec![])).unwrap() {
        AuthExtension::WorkloadMetadata(m) => {
            assert_eq!(m.labels, vec![label("env", "prod")]);
        }
        other => panic!("expected WorkloadMetadata, got {:?}", other),
    }
}

#[test]
fn auth_extension_from_workload_egress_policies() {
    let policies = vec![EgressPolicyMessage { policy: 1, ..message() }];
    let ext = extension("eg-ext", Some(any(DEFAULT_EGRESS_POLICIES_TYPE_URL, &[])));

    match AuthExtension::from_workload(ext, None, Ok(policies)).unwrap() {
        AuthExtension::EgressPolicies(p) => {
            assert_eq!(p.policies.len(), 1);
            assert_eq!(p.policies[0].policy, EgressPolicyAction::Deny);
        }
        other => panic!("expected EgressPolicies, got {:?}", other),
    }
}

#[test]
fn auth_extension_from_workload_with_undecodable_egress_policies_is_rejected() {
    let ext = extension("eg-ext", Some(any(DEFAULT_EGRESS_POLICIES_TYPE_URL, &[0xff])));
    assert_eq!(
        AuthExtension::from_workload(ext, None, Err(text("buffer underflow"))),
        Err(EgressPolicyError::Decode(text("buffer underflow")))
    );
}

#[test]
fn auth_extension_from_workload_unknown_type_url_falls_back_to_raw() {
    let ext = extension("unk", Some(any("type.googleapis.com/unknown.Thing", &[1, 2, 3])));

    match AuthExtension::from_workload(ext, None, Err(text("unused"))).unwrap() {
        AuthExtension::Raw(r) => {
            assert_eq!(r.name, "unk");
            assert_eq!(r.config_type_url.as_deref(), Some("type.googleapis.com/unknown.Thing"));
            assert_eq!(r.config_raw.as_deref(), Some(&[1u8, 2, 3][..]));
        }
        other => panic!("expected Raw, got {:?}", other),
    }
}

#[test]
fn auth_extension_from_workload_metadata_with_corrupt_bytes_falls_back_to_raw() {
    let ext =
        extension("bad-meta", Some(any(WORKLOAD_METADATA_TYPE_URL, &[0xff, 0xff, 0xff, 0xff])));
    assert!(matches!(
        AuthExtension::from_workload(ext, None, Err(text("unused"))).unwrap(),
        AuthExtension::Raw(_)
    ));
}

#[test]
fn auth_extension_from_workload_without_config_is_raw_with_none_fields() {
    let ext = extension("nocfg", None);
    match AuthExtension::from_workload(ext, None, Ok(vec![])).unwrap() {
        AuthExtension::Raw(r) => {
            assert_eq!(r.name, "nocfg");
            assert!(r.config_type_url.is_none());
            assert!(r.config_raw.is_none());
        }
        other => panic!("expected Raw, got {:?}", other),
    }
}

#[test]
fn auth_extension_from_security_traffic_policy() {
    let tp = TrafficPolicyExtension { priority: 42, mode: 1 };
    let ext = extension("tp", Some(any(TRAFFIC_POLICY_TYPE_URL, &[])));

    match AuthExtension::from_security(ext, Some(tp)) {
        AuthExtension::TrafficPolicy(t) => {
            assert_eq!(t.priority, 42);
            assert_eq!(t.mode, 1);
        }
        other => panic!("expected TrafficPolicy, got {:?}", other),
    }
}

#[test]
fn auth_extension_from_security_unknown_type_url_falls_back_to_raw() {
    let ext = extension("other", Some(any("type.googleapis.com/other.Thing", &[])));
    assert!(matches!(AuthExtension::from_security(ext, None), AuthExtension::Raw(_)));
}

#[test]
fn auth_extension_from_security_corrupt_traffic_policy_falls_back_to_raw() {
    let ext = extension("corrupt", Some(any(TRAFFIC_POLICY_TYPE_URL, &[0xff, 0xff])));
    assert!(matches!(AuthExtension::from_security(ext, None), AuthExtension::Raw(_)));
}

#[test]
fn auth_extension_from_security_without_config_is_raw_with_none_fields() {
    let ext = extension("nocfg", None);
    match AuthExtension::from_security(ext, None) {
        AuthExtension::Raw(r) => {
            assert_eq!(r.name, "nocfg");
            assert!(r.config_type_url.is_none());
            assert!(r.config_raw.is_none());
        }
        other => panic!("expected Raw, got {:?}", other),
    }
}

#[test]
fn raw_extension_from_security_extension_with_config_keeps_fields() {
    let r: RawExtension = RawExtension::from(extension("name1", Some(any("tu", &[9, 9, 9]))));
    assert_eq!(r.name, "name1");
    assert_eq!(r.config_type_url.as_deref(), Some("tu"));
    assert_eq!(r.config_raw.as_deref(), Some(&[9u8, 9, 9][..]));
}
