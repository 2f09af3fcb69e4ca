use ztunnel::firewall::backend::ipt::IptBackend;
use ztunnel::firewall::backend::nft::NftBackend;
use ztunnel::firewall::types::{
    Direction as FirewallDirection, FirewallMatch, FirewallProtocol, FirewallRule, PortGroup,
    PortRange, RuleAction,
};
use ztunnel::net::{IpAddr, IpNet, SocketAddr};
use ztunnel::rbac::policy::{
    AddressMessage, MatchMessage, PolicyRuleMessage, PortMatchMessage, RuleError, RuleMessage,
};
use ztunnel::rbac::{AuthorizationRejectionError, Connection, Direction};
use ztunnel::sandbox::traffic_policy::{
    assert_tcp, firewall_ruleset, PolicyError, TrafficPolicy, TrafficPolicyMessage,
};

const ALLOW: i32 = 0;
const DENY: i32 = 1;
const NAMESPACE: i32 = 1;

fn text(s: &str) -> String {
    s.to_string()
}

fn v4(a: u8, b: u8, c: u8, d: u8, port: u16) -> SocketAddr {
    SocketAddr::new(IpAddr::V4(u32::from_be_bytes([a, b, c, d])), port)
}

fn connection(src: SocketAddr, dst: SocketAddr) -> Connection {
    Connection {
        src,
        dst,
        src_identity: None,
        dst_network: text(""),
        direction: Direction::Outbound,
    }
}

fn wildcard() -> MatchMessage {
    MatchMessage { source_ips: vec![], destination_ips: vec![], ports: vec![] }
}

fn rule(action: i32) -> RuleMessage {
    RuleMessage { action, matches: Some(wildcard()) }
}

fn port(protocol: i32, port: Option<u32>, end_port: Option<u32>) -> PortMatchMessage {
    PortMatchMessage { protocol, port, end_port }
}

fn policy(name: &str, egress: Option<Vec<RuleMessage>>) -> TrafficPolicyMessage {
    TrafficPolicyMessage {
        name: text(name),
        namespace: text(""),
        priority: 1000,
        scope: 0,
        egress: egress.map(|rules| PolicyRuleMessage { rules }),
        ingress: Some(PolicyRuleMessage { rules: vec![] }),
    }
}

fn evaluate(
    policies: Vec<TrafficPolicyMessage>,
    conn: &Connection,
) -> Result<(), AuthorizationRejectionError> {
    let policies: Vec<TrafficPolicy> =
        policies.into_iter().map(|policy| TrafficPolicy::try_from(policy).unwrap()).collect();
    assert_tcp(&policies, conn).map(|_| ())
}

#[test]
fn native_policy_order_and_direction_defaults() {
    let conn = connection(v4(10, 1, 0, 1, 1234), v4(192, 0, 2, 1, 443));
    assert!(evaluate(vec![], &conn).is_ok());
    assert!(evaluate(vec![policy("ingress-only", None)], &conn).is_ok());
    assert!(evaluate(vec![policy("empty-egress", Some(vec![]))], &conn).is_err());

    // A match without constraints has everything. The first rule decides.
    assert!(evaluate(
        vec![policy("allow-first", Some(vec![rule(ALLOW), rule(DENY)]))],
        &conn
    )
    .is_ok());
    assert!(evaluate(
        vec![policy("deny-first", Some(vec![rule(DENY), rule(ALLOW)]))],
        &conn
    )
    .is_err());
    // A policy has no default of its own: an empty direction leads on to the next.
    assert!(evaluate(
        vec![policy("empty", Some(vec![])), policy("allow", Some(vec![rule(ALLOW)]))],
        &conn
    )
    .is_ok());
    let mut high = policy("higher-priority-deny", Some(vec![rule(DENY)]));
    high.priority = 0;
    let low = policy("lower-priority-allow", Some(vec![rule(ALLOW)]));
    assert_eq!(
        evaluate(vec![high, low], &conn),
        Err(AuthorizationRejectionError::ExplicitlyDenied(
            text(""),
            text("higher-priority-deny"),
        ))
    );
}

#[test]
fn native_tcp_matches_addresses_and_port_ranges() {
    let doc: u128 = 0x2001_0db8_0000_0000_0000_0000_0000_0123;
    let rule = RuleMessage {
        action: ALLOW,
        matches: Some(MatchMessage {
            source_ips: vec![
                AddressMessage { address: vec![10, 1, 2, 3], length: 8 },
                AddressMessage { address: doc.to_be_bytes().to_vec(), length: 32 },
            ],
            destination_ips: vec![AddressMessage { address: vec![192, 0, 2, 0], length: 24 }],
            ports: vec![port(1, Some(400), Some(450))],
        }),
    };
    let public = IpAddr::V6(0x2001_0db8_0001_0000_0000_0000_0000_0001);
    for (src, dst, allowed) in [
        (v4(10, 9, 0, 1, 1234), v4(192, 0, 2, 1, 400), true),
        (SocketAddr::new(public, 1234), v4(192, 0, 2, 2, 450), true),
        (v4(11, 0, 0, 1, 1234), v4(192, 0, 2, 1, 443), false),
        (v4(10, 9, 0, 1, 1234), v4(198, 51, 100, 1, 443), false),
        (v4(10, 9, 0, 1, 1234), v4(192, 0, 2, 1, 451), false),
    ] {
        assert_eq!(
            evaluate(vec![policy("allow", Some(vec![rule.clone()]))], &connection(src, dst))
                .is_ok(),
            allowed
        );
    }
}

#[test]
fn native_protocol_and_optional_port_semantics() {
    for (protocol, start, end, allowed) in [
        (0, None, None, true),
        (1, None, None, true),
        (2, None, None, false),
        (3, None, None, false),
        (4, None, None, false),
        (0, Some(443), None, true),
        (1, Some(442), None, false),
        (1, None, Some(443), true),
        (1, None, Some(442), false),
    ] {
        let rule = RuleMessage {
            action: ALLOW,
            matches: Some(MatchMessage { ports: vec![port(protocol, start, end)], ..wildcard() }),
        };
        assert_eq!(
            evaluate(
                vec![policy("ports", Some(vec![rule]))],
                &connection(v4(10, 0, 0, 1, 443), v4(192, 0, 2, 1, 443))
            )
            .is_ok(),
            allowed
        );
    }
}

#[test]
fn malformed_native_policy_is_rejected() {
    let valid = policy("valid", Some(vec![rule(ALLOW)]));
    let mut malformed = vec![];
    let mut bad = valid.clone();
    bad.name.clear();
    malformed.push((bad, PolicyError::EmptyName));
    let mut bad = valid.clone();
    bad.priority = -1;
    malformed.push((bad, PolicyError::NegativePriority));
    let mut bad = valid.clone();
    bad.scope = 99;
    malformed.push((bad, PolicyError::UnknownScope(99)));
    let mut bad = valid.clone();
    bad.scope = NAMESPACE;
    malformed.push((bad, PolicyError::MissingNamespace));
    let mut bad = valid.clone();
    bad.namespace = text("ns");
    malformed.push((bad, PolicyError::UnexpectedNamespace));
    let mut bad = valid.clone();
    bad.ingress = None;
    bad.egress = None;
    malformed.push((bad, PolicyError::NoDirection));
    let in_rule = |rule: RuleMessage, error: RuleError| {
        let mut bad = valid.clone();
        bad.egress.as_mut().unwrap().rules[0] = rule;
        (bad, PolicyError::Rule(Direction::Outbound, 0, error))
    };
    malformed
        .push(in_rule(RuleMessage { action: ALLOW, matches: None }, RuleError::MissingMatch));
    malformed.push(in_rule(rule(99), RuleError::UnknownAction(99)));
    for (address, error) in [
        (AddressMessage { address: vec![], length: 0 }, RuleError::AddressBytes),
        (AddressMessage { address: vec![0; 4], length: 33 }, RuleError::PrefixLength(33)),
        (AddressMessage { address: vec![0; 16], length: 129 }, RuleError::PrefixLength(129)),
    ] {
        let matches = Some(MatchMessage { source_ips: vec![address], ..wildcard() });
        malformed.push(in_rule(RuleMessage { action: ALLOW, matches }, error));
    }
    for (message, error) in [
        (port(99, None, None), RuleError::UnknownProtocol(99)),
        (port(1, Some(0), None), RuleError::Port(0)),
        (port(1, None, Some(65536)), RuleError::Port(65536)),
        (port(1, Some(100), Some(99)), RuleError::ReversedRange),
        (port(3, Some(80), None), RuleError::PortOfIcmp),
    ] {
        let matches = Some(MatchMessage { ports: vec![message], ..wildcard() });
        malformed.push(in_rule(RuleMessage { action: ALLOW, matches }, error));
    }
    for (bad, error) in malformed {
        assert_eq!(TrafficPolicy::try_from(bad), Err(error));
    }
}

#[test]
fn native_firewall_matches_workload_rendering() {
    let native = TrafficPolicy::try_from(TrafficPolicyMessage {
        name: text("ns/dns"),
        namespace: text("ns"),
        priority: 0,
        scope: NAMESPACE,
        ingress: Some(PolicyRuleMessage {
            rules: vec![RuleMessage {
                action: ALLOW,
                matches: Some(MatchMessage {
                    source_ips: vec![AddressMessage { address: vec![10, 0, 0, 0], length: 8 }],
                    ports: vec![port(2, Some(53), None)],
                    ..wildcard()
                }),
            }],
        }),
        egress: None,
    })
    .unwrap();
    let native_rules = firewall_ruleset(&[native]);
    assert!(native_rules.policy_attached);
    assert_eq!(
        native_rules.rules,
        vec![FirewallRule {
            name: text("ns/dns"),
            action: RuleAction::Allow,
            direction: FirewallDirection::Inbound,
            priority: 0,
            clauses: vec![vec![FirewallMatch {
                source_ips: vec![IpNet::parse("10.0.0.0/8").unwrap()],
                dest_ips: vec![],
                port_groups: vec![PortGroup {
                    protocol: FirewallProtocol::Udp,
                    ports: vec![PortRange { start: 53, end: 53 }],
                }],
            }]],
        }]
    );

    // A protocol without ports means any port. TCP is left to the proxy.
    let mixed = RuleMessage {
        action: DENY,
        matches: Some(MatchMessage {
            ports: vec![port(3, None, None), port(4, None, None), port(1, None, None)],
            ..wildcard()
        }),
    };
    let native = TrafficPolicy::try_from(policy("mixed", Some(vec![mixed]))).unwrap();
    let rules = firewall_ruleset(&[native]);
    let groups = &rules.rules[0].clauses[0][0].port_groups;
    assert_eq!(groups.len(), 2);
    assert!(groups.iter().all(|g| g.ports.is_empty()));
    let ipt = IptBackend::new().render_ruleset(&rules);
    assert!(ipt.contains("-p icmp -j REJECT"));
    assert!(ipt.contains("-p sctp -j REJECT"));
    let nft = NftBackend::new().render_ruleset(&rules);
    assert!(nft.contains("icmp"));
    assert!(nft.contains("sctp"));

    // A refusal of everything is kept.
    let catch_all = TrafficPolicy::try_from(policy("deny-all", Some(vec![rule(DENY)]))).unwrap();
    let rules = firewall_ruleset(&[catch_all]);
    assert_eq!(rules.rules[0].action, RuleAction::Deny);
    assert!(IptBackend::new().render_ruleset(&rules).contains("! -p tcp -j REJECT"));
}
