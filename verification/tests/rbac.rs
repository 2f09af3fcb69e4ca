use ztunnel::firewall::backend::ipt::IptBackend;
use ztunnel::firewall::backend::nft::NftBackend;
use ztunnel::firewall::convert::{resolve_workload_firewall, rules_unless_applied};
use ztunnel::firewall::types::{
    Direction as FirewallDirection, FirewallMatch, FirewallProtocol, FirewallRule, PortGroup,
    PortRange, RuleAction, RuleSet,
};
use ztunnel::net::{IpAddr, IpNet, SocketAddr};
use ztunnel::rbac::authorize::{assert_rbac, ProxyRbacContext, SANDBOX_UNAVAILABLE};
use ztunnel::rbac::chain::{
    check_chain, firewall_ruleset, firewall_rulesets, Attached, TrafficPolicy, TrafficPolicyMessage,
};
use ztunnel::rbac::policy::{
    parse_address, parse_port, AddressMessage, MatchMessage, PolicyRuleMessage, PortMatch,
    PortMatchMessage, Protocol, Rule, RuleError, RuleMessage,
};
use ztunnel::rbac::store::{StoreError, TrafficPolicyStore};
use ztunnel::rbac::{AuthorizationRejectionError, Connection, Direction};
use ztunnel::sandbox::discovery::{SandboxMessage, TRAFFIC_POLICY_TYPE};
use ztunnel::state::store::ProxyState;
use ztunnel::state::workload::{HealthStatus, Workload, WorkloadInfo};
use ztunnel::xds::{
    handle_addresses, handle_policies, handle_sandboxes, AddressMessage as XdsAddress,
    ProxyStateUpdateMutator, UpdateError, WorkloadMessage, XdsUpdate,
};

const ALLOW: i32 = 0;
const DENY: i32 = 1;

const ALL: i32 = 0;
const TCP: i32 = 1;
const UDP: i32 = 2;
const ICMP: i32 = 3;
const SCTP: i32 = 4;

const SHARED: &str = "trafficPolicies/shared";
const GONE: &str = "trafficPolicies/gone";

fn text(s: &str) -> String {
    s.to_string()
}

fn v4(a: u8, b: u8, c: u8, d: u8, port: u16) -> SocketAddr {
    SocketAddr::new(IpAddr::V4(u32::from_be_bytes([a, b, c, d])), port)
}

fn v6(ip: u128, port: u16) -> SocketAddr {
    SocketAddr::new(IpAddr::V6(ip), port)
}

fn connection(src: SocketAddr, dst: SocketAddr) -> Connection {
    Connection {
        src,
        dst,
        src_identity: None,
        dst_network: text(""),
        direction: Direction::Outbound,
    }
}

fn usual_connection() -> Connection {
    connection(v4(10, 1, 0, 1, 1234), v4(192, 0, 2, 1, 443))
}

fn wildcard() -> MatchMessage {
    MatchMessage { source_ips: vec![], destination_ips: vec![], ports: vec![] }
}

fn rule(action: i32) -> RuleMessage {
    RuleMessage { action, matches: Some(wildcard()) }
}

fn ports_rule(action: i32, ports: Vec<PortMatchMessage>) -> RuleMessage {
    RuleMessage { action, matches: Some(MatchMessage { ports, ..wildcard() }) }
}

fn port(protocol: i32, port: Option<u32>, end_port: Option<u32>) -> PortMatchMessage {
    PortMatchMessage { protocol, port, end_port }
}

fn policy(egress: Option<Vec<RuleMessage>>) -> TrafficPolicyMessage {
    TrafficPolicyMessage {
        ingress: None,
        egress: egress.map(|rules| PolicyRuleMessage { rules }),
    }
}

fn accepted(message: TrafficPolicyMessage) -> TrafficPolicy {
    TrafficPolicy::try_from(&message).unwrap()
}

fn chain<'a>(links: &[(&'a str, Option<&'a TrafficPolicy>)]) -> Vec<Attached<'a>> {
    links.iter().map(|(name, policy)| Attached { name, policy: *policy }).collect()
}

fn denied(policy: &str, rule: &str) -> Result<(), AuthorizationRejectionError> {
    Err(AuthorizationRejectionError::ExplicitlyDenied(text(policy), text(rule)))
}

fn workload(refs: &[&str]) -> Workload {
    Workload {
        uid: text("workload-uid"),
        name: text("pod"),
        namespace: text("ns"),
        network: text(""),
        node: text("node-a"),
        trust_domain: text("cluster.local"),
        service_account: text("default"),
        workload_ips: vec![],
        status: HealthStatus::Healthy,
        egress_policies: None,
        sni_policy: None,
        encoded_labels: None,
        traffic_policy_refs: refs.iter().map(|s| s.to_string()).collect(),
    }
}

fn info() -> WorkloadInfo {
    WorkloadInfo { name: text("pod"), namespace: text("ns"), service_account: text("default") }
}

fn fixture(refs: &[&str]) -> ProxyState {
    let mut state = ProxyState::new();
    state.workloads.insert(workload(refs));
    state
}

fn sandbox(id: &str, traffic_policy: Option<TrafficPolicyMessage>) -> SandboxMessage {
    SandboxMessage {
        uid: text(id),
        attester: Some(text("workload-uid")),
        policy_refs: vec![],
        egress_routing: None,
        traffic_policy,
        extensions: vec![],
    }
}

fn context(conn: &Connection, sandbox: Option<&str>) -> ProxyRbacContext {
    ProxyRbacContext {
        conn: conn.clone(),
        workload: workload(&[]),
        sandbox: sandbox.map(text),
    }
}

fn check_policies(
    inline: Option<TrafficPolicyMessage>,
    policies: &[(&str, Option<&TrafficPolicyMessage>)],
    conn: &Connection,
) -> Result<(), AuthorizationRejectionError> {
    let names: Vec<&str> = policies.iter().map(|(name, _)| *name).collect();
    let mut state = fixture(&names);
    for (name, policy) in policies {
        if let Some(policy) = policy {
            state.policies.update(text(name), policy).unwrap();
        }
    }
    state.sandboxes.update("sandbox-a", sandbox("sandbox-a", inline)).unwrap();
    assert_rbac(&state, &context(conn, None))
}

fn evaluate(
    policy: TrafficPolicyMessage,
    conn: &Connection,
) -> Result<(), AuthorizationRejectionError> {
    check_policies(Some(policy), &[], conn)
}

fn publish_sandbox(state: &mut ProxyState, message: SandboxMessage) -> (bool, bool) {
    let update = XdsUpdate::Update { name: message.uid.clone(), resource: message };
    let handled = handle_sandboxes(state, vec![update]);
    (handled.rejected.is_empty(), handled.notify)
}

#[test]
fn sandbox_allow_continues_to_workload_policies() {
    let conn = usual_connection();
    let allow = policy(Some(vec![rule(ALLOW)]));
    let deny = policy(Some(vec![rule(DENY)]));
    assert!(check_policies(Some(allow.clone()), &[("system", Some(&deny))], &conn).is_err());
    assert!(check_policies(Some(deny), &[("system", Some(&allow))], &conn).is_err());
    assert!(check_policies(Some(allow.clone()), &[("system", Some(&allow))], &conn).is_ok());
    assert!(check_policies(Some(allow), &[("missing", None)], &conn).is_err());
}

#[test]
fn sandbox_firewall_allow_returns_to_workload_stage() {
    let allow = accepted(policy(Some(vec![rule(ALLOW)])));
    let deny = accepted(policy(Some(vec![rule(DENY)])));
    let mut rules = firewall_rulesets(&chain(&[("system", Some(&deny))]));
    rules.inline_rules = firewall_rulesets(&chain(&[("inline", Some(&allow))])).rules;
    let ipt = IptBackend::new().render_ruleset(&rules);
    let inline_allow = ipt
        .lines()
        .find(|line| line.starts_with("-A ISTIO_FW_INLINE_OUT ") && line.contains("-j RETURN"))
        .unwrap();
    assert!(inline_allow.starts_with("-A ISTIO_FW_INLINE_OUT "));
    assert!(inline_allow.contains("-j RETURN"));
    let system_deny = ipt
        .lines()
        .find(|line| line.starts_with("-A ISTIO_FW_FILTER_OUT ") && line.contains("-j REJECT"))
        .unwrap();
    assert!(system_deny.contains("-j REJECT"));
    assert!(ipt.find("! -p tcp -j ISTIO_FW_INLINE_OUT").unwrap() < ipt.find(system_deny).unwrap());

    let nft = NftBackend::new().render_ruleset(&rules);
    let inline_allow = nft.lines().find(|line| line.contains("inline/rule-0")).unwrap();
    assert!(inline_allow.contains("return"));
    let system_deny = nft.lines().find(|line| line.contains("system/rule-0")).unwrap();
    assert!(system_deny.contains("reject"));
    assert!(nft.find("jump zt_inline_output").unwrap() < nft.find(system_deny).unwrap());
}

#[test]
fn tests_native_policy_order_and_direction_defaults() {
    let mut conn = usual_connection();
    assert_eq!(evaluate(policy(None), &conn), Ok(()));
    assert_eq!(evaluate(policy(Some(vec![])), &conn), denied("", "DEFAULT-DENY"));

    // The first rule that matches decides.
    assert_eq!(evaluate(policy(Some(vec![rule(ALLOW), rule(DENY)])), &conn), Ok(()));
    assert_eq!(
        evaluate(policy(Some(vec![rule(DENY), rule(ALLOW)])), &conn),
        denied("inline", "rule-0")
    );
    // A rule that does not match refuses nothing.
    let miss = ports_rule(DENY, vec![port(TCP, Some(80), None)]);
    assert_eq!(evaluate(policy(Some(vec![miss, rule(ALLOW)])), &conn), Ok(()));
    conn.direction = Direction::Inbound;
    assert_eq!(evaluate(policy(Some(vec![])), &conn), Ok(()));
    let ingress = TrafficPolicyMessage {
        ingress: Some(PolicyRuleMessage { rules: vec![] }),
        egress: None,
    };
    assert!(evaluate(ingress, &conn).is_err());
}

#[test]
fn tests_native_tcp_matches_addresses_and_port_ranges() {
    let doc: u128 = 0x2001_0db8_0000_0000_0000_0000_0000_0123;
    let rule = RuleMessage {
        action: ALLOW,
        matches: Some(MatchMessage {
            source_ips: vec![
                AddressMessage { address: vec![10, 1, 2, 3], length: 8 },
                AddressMessage { address: doc.to_be_bytes().to_vec(), length: 32 },
            ],
            destination_ips: vec![AddressMessage { address: vec![192, 0, 2, 0], length: 24 }],
            ports: vec![port(TCP, Some(400), Some(450))],
        }),
    };
    for (src, dst, allowed) in [
        (v4(10, 9, 0, 1, 1234), v4(192, 0, 2, 1, 400), true),
        (v6(0x2001_0db8_0001_0000_0000_0000_0000_0001, 1234), v4(192, 0, 2, 2, 450), true),
        (v4(11, 0, 0, 1, 1234), v4(192, 0, 2, 1, 443), false),
        (v4(10, 9, 0, 1, 1234), v4(198, 51, 100, 1, 443), false),
        (v4(10, 9, 0, 1, 1234), v4(192, 0, 2, 1, 451), false),
    ] {
        assert_eq!(
            evaluate(policy(Some(vec![rule.clone()])), &connection(src, dst)).is_ok(),
            allowed
        );
    }
}

#[test]
fn tests_native_protocol_and_optional_port_semantics() {
    for (protocol, start, end, allowed) in [
        (ALL, None, None, true),
        (TCP, None, None, true),
        (UDP, None, None, false),
        (ICMP, None, None, false),
        (SCTP, None, None, false),
        (ALL, Some(443), None, true),
        (TCP, Some(442), None, false),
        (TCP, None, Some(443), true),
        (TCP, None, Some(442), false),
    ] {
        let rule = ports_rule(ALLOW, vec![port(protocol, start, end)]);
        assert_eq!(
            evaluate(
                policy(Some(vec![rule])),
                &connection(v4(10, 0, 0, 1, 443), v4(192, 0, 2, 1, 443))
            )
            .is_ok(),
            allowed
        );
    }
}

#[test]
fn tests_malformed_native_policy_is_rejected() {
    let mut malformed = vec![
        (RuleMessage { action: ALLOW, matches: None }, RuleError::MissingMatch),
        (rule(99), RuleError::UnknownAction(99)),
    ];
    for (address, error) in [
        (AddressMessage { address: vec![], length: 0 }, RuleError::AddressBytes),
        (AddressMessage { address: vec![0; 4], length: 33 }, RuleError::PrefixLength(33)),
        (AddressMessage { address: vec![0; 16], length: 129 }, RuleError::PrefixLength(129)),
    ] {
        let matches = MatchMessage { source_ips: vec![address], ..wildcard() };
        malformed.push((RuleMessage { action: ALLOW, matches: Some(matches) }, error));
    }
    for (message, error) in [
        (port(99, None, None), RuleError::UnknownProtocol(99)),
        (port(1, Some(0), None), RuleError::Port(0)),
        (port(1, None, Some(65536)), RuleError::Port(65536)),
        (port(1, Some(100), Some(99)), RuleError::ReversedRange),
        (port(3, Some(80), None), RuleError::PortOfIcmp),
    ] {
        malformed.push((ports_rule(ALLOW, vec![message]), error));
    }
    for (bad, error) in malformed {
        let fault =
            TrafficPolicy::try_from(&policy(Some(vec![rule(ALLOW), bad.clone()]))).unwrap_err();
        assert_eq!(fault.error, error);
        assert_eq!(fault.index, 1);
        assert_eq!(fault.direction, Direction::Outbound);
        assert!(TrafficPolicy::try_from(&policy(Some(vec![bad]))).is_err());
    }
}

#[test]
fn parsed_addresses_are_cut_to_their_network() {
    let net = parse_address(&AddressMessage { address: vec![10, 1, 2, 3], length: 8 }).unwrap();
    assert!(net.contains(&IpAddr::V4(u32::from_be_bytes([10, 200, 0, 1]))));
    assert!(!net.contains(&IpAddr::V4(u32::from_be_bytes([11, 0, 0, 1]))));
    assert_eq!(parse_port(65535), Ok(65535));
    assert_eq!(parse_port(0), Err(RuleError::Port(0)));
    assert_eq!(
        PortMatch::try_from(&port(UDP, Some(53), None)),
        Ok(PortMatch { protocol: Protocol::Udp, range: Some(PortRange { start: 53, end: 53 }) })
    );
}

#[test]
fn sandbox_rbac_tracks_current_policies_and_binding() {
    // Policies count only where a workload refers to them.
    let mut state = fixture(&[]);
    state
        .policies
        .update(text("trafficPolicies/unreferenced-deny"), &policy(Some(vec![rule(DENY)])))
        .unwrap();
    let conn = usual_connection();
    let before_discovery = context(&conn, None);
    assert!(assert_rbac(&state, &before_discovery).is_ok());

    let allow = policy(Some(vec![rule(ALLOW)]));
    state.sandboxes.update("sandbox-a", sandbox("sandbox-a", Some(allow))).unwrap();
    let mut ctx = context(&conn, Some("sandbox-a"));
    assert!(assert_rbac(&state, &ctx).is_ok());
    assert!(assert_rbac(&state, &before_discovery).is_ok());

    // An update counts for connections that were opened before it.
    let deny = policy(Some(vec![rule(DENY)]));
    state.sandboxes.update("sandbox-a", sandbox("sandbox-a", Some(deny))).unwrap();
    assert!(assert_rbac(&state, &ctx).is_err());
    assert!(assert_rbac(&state, &before_discovery).is_err());

    // What is not accepted leaves the sandbox and its binding as they were.
    let mut invalid = sandbox(
        "sandbox-a",
        Some(policy(Some(vec![RuleMessage { action: DENY, matches: None }]))),
    );
    invalid.attester = Some(text("different-workload"));
    assert!(state.sandboxes.update("sandbox-a", invalid).is_err());
    assert_eq!(state.sandboxes.fetch_sandbox(&text("workload-uid")).unwrap().uid, "sandbox-a");
    assert!(assert_rbac(&state, &ctx).is_err());

    // A sandbox without rules lets traffic pass.
    state.sandboxes.update("sandbox-a", sandbox("sandbox-a", None)).unwrap();
    assert!(assert_rbac(&state, &ctx).is_ok());

    // What comes in is decided by the rules for what comes in.
    let mut both = TrafficPolicyMessage {
        ingress: Some(PolicyRuleMessage { rules: vec![rule(DENY)] }),
        ..policy(Some(vec![rule(ALLOW)]))
    };
    state.sandboxes.update("sandbox-a", sandbox("sandbox-a", Some(both.clone()))).unwrap();
    assert!(assert_rbac(&state, &ctx).is_ok());
    ctx.conn.direction = Direction::Inbound;
    assert!(assert_rbac(&state, &ctx).is_err());
    both.ingress.as_mut().unwrap().rules[0].action = ALLOW;
    state.sandboxes.update("sandbox-a", sandbox("sandbox-a", Some(both))).unwrap();
    assert!(assert_rbac(&state, &ctx).is_ok());

    // A connection of a sandbox that is gone does not become one of the workload.
    state.sandboxes.remove(&text("sandbox-a"));
    ctx.conn.direction = Direction::Outbound;
    assert_eq!(assert_rbac(&state, &ctx), denied("sandbox-a", SANDBOX_UNAVAILABLE));
    assert!(assert_rbac(&state, &before_discovery).is_ok());
}

#[test]
fn native_firewall_rendering() {
    let native = accepted(TrafficPolicyMessage {
        egress: Some(PolicyRuleMessage { rules: vec![] }),
        ingress: Some(PolicyRuleMessage {
            rules: vec![RuleMessage {
                action: ALLOW,
                matches: Some(MatchMessage {
                    source_ips: vec![AddressMessage { address: vec![10, 0, 0, 0], length: 8 }],
                    ports: vec![port(UDP, Some(53), None)],
                    ..wildcard()
                }),
            }],
        }),
    });
    let native_rules = firewall_ruleset(&native);
    assert_eq!(
        native_rules.rules[0],
        FirewallRule {
            name: text("inline/rule-0"),
            action: RuleAction::Allow,
            direction: FirewallDirection::Inbound,
            priority: 0,
            clauses: vec![vec![FirewallMatch {
                source_ips: vec![IpNet::parse("10.0.0.0/8").unwrap()],
                dest_ips: vec![],
                port_groups: vec![PortGroup {
                    protocol: FirewallProtocol::Udp,
                    ports: vec![PortRange { start: 53, end: 53 }],
                }],
            }]],
        }
    );
    let ipt = IptBackend::new().render_ruleset(&native_rules);
    assert!(ipt.contains("-s 10.0.0.0/8 -p udp --dport 53 -j ACCEPT"));
    let nft = NftBackend::new().render_ruleset(&native_rules);
    assert!(nft.contains("ip saddr 10.0.0.0/8"));
    assert!(nft.contains("udp dport 53 accept"));

    // A protocol without ports means any port. TCP is left to the proxy.
    let mixed = ports_rule(
        DENY,
        vec![port(ICMP, None, None), port(SCTP, None, None), port(TCP, None, None)],
    );
    let rules = firewall_ruleset(&accepted(policy(Some(vec![mixed]))));
    let groups = &rules.rules[0].clauses[0][0].port_groups;
    assert_eq!(groups.len(), 2);
    assert!(groups.iter().all(|g| g.ports.is_empty()));
    let ipt = IptBackend::new().render_ruleset(&rules);
    assert!(ipt.contains("-p icmp -j REJECT"));
    assert!(ipt.contains("-p sctp -j REJECT"));
    let nft = NftBackend::new().render_ruleset(&rules);
    assert!(nft.contains("icmp"));
    assert!(nft.contains("sctp"));

    // A refusal of everything is kept.
    let rules = firewall_ruleset(&accepted(policy(Some(vec![rule(DENY)]))));
    assert_eq!(rules.rules[0].action, RuleAction::Deny);
    assert!(IptBackend::new().render_ruleset(&rules).contains("! -p tcp -j REJECT"));
}

#[test]
fn tests_native_firewall_resolution_tracks_policy_updates_and_removal() {
    let mut state = fixture(&[]);
    let initial = resolve_workload_firewall(&state, &info(), None).unwrap();
    assert_eq!(initial.0, RuleSet::default());
    let deny = policy(Some(vec![rule(DENY)]));
    assert_eq!(publish_sandbox(&mut state, sandbox("sandbox-a", Some(deny))), (true, true));
    let denied = resolve_workload_firewall(&state, &info(), None).unwrap();
    assert_ne!(initial.1, denied.1);
    assert_eq!(denied.0.inline_rules.len(), 2);
    assert_eq!(denied.0.inline_rules[0].action, RuleAction::Deny);

    let allow = policy(Some(vec![rule(ALLOW)]));
    assert_eq!(publish_sandbox(&mut state, sandbox("sandbox-a", Some(allow))), (true, true));
    let allowed = resolve_workload_firewall(&state, &info(), None).unwrap();
    assert_ne!(denied.1, allowed.1);
    assert_eq!(allowed.0.inline_rules[0].action, RuleAction::Allow);

    let invalid = policy(Some(vec![RuleMessage { action: ALLOW, matches: None }]));
    assert_eq!(publish_sandbox(&mut state, sandbox("sandbox-a", Some(invalid))), (false, false));
    assert_eq!(resolve_workload_firewall(&state, &info(), None).unwrap(), allowed);

    let removed = handle_sandboxes(&mut state, vec![XdsUpdate::Remove(text("sandbox-a"))]);
    assert!(removed.notify);
    assert_eq!(resolve_workload_firewall(&state, &info(), None).unwrap(), initial);
}

#[test]
fn native_firewall_preserves_order_and_direction_presence() {
    assert!(firewall_ruleset(&TrafficPolicy::default()).rules.is_empty());
    for inbound in [false, true] {
        let mut wire = policy(Some(vec![]));
        if inbound {
            wire.ingress = wire.egress.take();
        }
        let rules = firewall_ruleset(&accepted(wire));
        assert_eq!(rules.rules.len(), 1);
        assert_eq!(
            rules.rules[0].direction,
            if inbound { FirewallDirection::Inbound } else { FirewallDirection::Outbound }
        );
        let ipt = IptBackend::new().render_ruleset(&rules);
        assert_eq!(ipt.contains("-A ISTIO_FW_FILTER_IN ! -p tcp -j REJECT"), inbound);
        assert_eq!(ipt.contains("-A ISTIO_FW_FILTER_OUT ! -p tcp -j REJECT"), !inbound);
        let nft = NftBackend::new().render_ruleset(&rules);
        let (input, output) = nft.split_once("chain zt_policy_output").unwrap();
        assert_eq!(input.contains("meta l4proto != tcp reject"), inbound);
        assert_eq!(output.contains("meta l4proto != tcp reject"), !inbound);
    }

    // Sorting keeps the order in which rules are published.
    for allow_first in [true, false] {
        let actions = if allow_first { [ALLOW, DENY] } else { [DENY, ALLOW] };
        let rules = actions
            .into_iter()
            .map(|action| ports_rule(action, vec![port(UDP, Some(53), None)]))
            .collect();
        let rules = firewall_ruleset(&accepted(policy(Some(rules))));
        let ipt = IptBackend::new().render_ruleset(&rules);
        assert_eq!(
            ipt.find("--dport 53 -j ACCEPT").unwrap() < ipt.find("--dport 53 -j REJECT").unwrap(),
            allow_first,
        );
        let nft = NftBackend::new().render_ruleset(&rules);
        assert_eq!(
            nft.find("udp dport 53 accept").unwrap() < nft.find("udp dport 53 reject").unwrap(),
            allow_first,
        );
    }
}

#[test]
fn many_rules_keep_their_order() {
    let rules = (0..120)
        .map(|i| ports_rule(i % 2, vec![port(UDP, Some(1000 + i as u32), None)]))
        .collect();
    let rules = firewall_ruleset(&accepted(policy(Some(rules))));
    let ipt = IptBackend::new().render_ruleset(&rules);
    let mut last = 0;
    for i in 0..120 {
        let at = ipt.find(&format!("--dport {} ", 1000 + i)).unwrap();
        assert!(last < at);
        last = at;
    }
}

#[test]
fn shared_policy_chain_precedence_missing_and_direction_defaults() {
    let conn = usual_connection();
    let empty = policy(Some(vec![]));
    let absent = policy(None);
    let allow = policy(Some(vec![rule(ALLOW)]));
    let deny = policy(Some(vec![rule(DENY)]));
    let evaluate = |chain: Vec<Option<&TrafficPolicyMessage>>| {
        let names: Vec<String> =
            (0..chain.len()).map(|index| format!("trafficPolicies/{index}")).collect();
        let policies: Vec<_> =
            names.iter().zip(chain).map(|(name, policy)| (name.as_str(), policy)).collect();
        check_policies(None, &policies, &conn)
    };
    assert_eq!(evaluate(vec![]), Ok(()));
    assert_eq!(evaluate(vec![Some(&absent)]), Ok(()));
    assert_eq!(evaluate(vec![Some(&empty), Some(&allow)]), Ok(()));
    assert_eq!(evaluate(vec![Some(&allow), Some(&deny)]), Ok(()));
    assert!(evaluate(vec![Some(&deny), Some(&allow)]).is_err());
    assert!(evaluate(vec![Some(&empty), Some(&absent)]).is_err());
    assert!(evaluate(vec![None, Some(&allow)]).is_err());
    assert!(evaluate(vec![Some(&allow), None]).is_err());
    assert!(evaluate(vec![Some(&empty), None]).is_err());

    // The firewall goes by the same chain.
    let empty = accepted(empty);
    let allow = accepted(allow);
    let deny = accepted(deny);
    let flat = accepted(policy(Some(vec![rule(ALLOW), rule(DENY)])));
    let together = firewall_rulesets(&chain(&[
        ("inline", Some(&empty)),
        ("inline", Some(&allow)),
        ("inline", Some(&deny)),
    ]));
    let mut expected = firewall_ruleset(&flat);
    // Rules are numbered within their policy.
    for (rule, actual) in expected.rules.iter_mut().zip(&together.rules) {
        rule.name = actual.name.clone();
    }
    assert_eq!(
        IptBackend::new().render_ruleset(&together),
        IptBackend::new().render_ruleset(&expected)
    );
    assert_eq!(
        NftBackend::new().render_ruleset(&together),
        NftBackend::new().render_ruleset(&expected)
    );
    let missing = firewall_rulesets(&chain(&[
        ("inline", Some(&empty)),
        ("inline", None),
        ("inline", Some(&allow)),
    ]));
    assert_eq!(missing.rules.len(), 2);
    assert!(missing.rules.iter().all(|r| r.action == RuleAction::Deny));
}

#[test]
fn shared_policy_updates_recheck_sandbox_context_without_replacing_sandbox() {
    let name = "namespaces/ns/trafficPolicies/shared";
    let mut state = fixture(&[name]);
    for id in ["sandbox-a", "sandbox-b"] {
        state.sandboxes.update(id, sandbox(id, None)).unwrap();
    }
    let before = state.sandboxes.fetch_sandbox(&text("workload-uid")).unwrap().clone();
    let ctx = context(&usual_connection(), Some("sandbox-a"));
    assert!(assert_rbac(&state, &ctx).is_err());
    let update = |action| XdsUpdate::Update {
        name: text(name),
        resource: policy(Some(vec![rule(action)])),
    };
    assert!(handle_policies(&mut state, vec![update(ALLOW)]).notify);
    assert!(assert_rbac(&state, &ctx).is_ok());
    let initial_hash = resolve_workload_firewall(&state, &info(), None).unwrap().1;
    let known = state.workloads.find_uid(&text("workload-uid")).unwrap();
    assert!(std::ptr::eq(
        known.traffic_policies(&state.policies)[0].policy.unwrap(),
        state.policies.get(&text(name)).unwrap(),
    ));
    assert!(handle_policies(&mut state, vec![update(DENY)]).notify);
    assert!(assert_rbac(&state, &ctx).is_err());
    assert_eq!(*state.sandboxes.fetch_sandbox(&text("workload-uid")).unwrap(), before);
    let updated_hash = resolve_workload_firewall(&state, &info(), None).unwrap().1;
    assert_ne!(initial_hash, updated_hash);
    let invalid = XdsUpdate::Update {
        name: text(name),
        resource: policy(Some(vec![RuleMessage { action: 99, matches: None }])),
    };
    let handled = handle_policies(&mut state, vec![invalid]);
    assert_eq!(handled.rejected.len(), 1);
    assert_eq!(handled.rejected[0].name, name);
    assert!(assert_rbac(&state, &ctx).is_err());
    handle_policies(&mut state, vec![update(ALLOW)]);
    assert!(handle_policies(&mut state, vec![XdsUpdate::Remove(text(name))]).notify);
    assert!(assert_rbac(&state, &ctx).is_err());
    handle_policies(&mut state, vec![update(ALLOW)]);
    assert!(assert_rbac(&state, &ctx).is_ok());
}

#[test]
fn sandbox_notifications_ignore_identical_updates_and_handle_partial_batches() {
    let mut state = fixture(&[]);
    let mut resource = sandbox("a", None);
    assert_eq!(publish_sandbox(&mut state, resource.clone()), (true, true));
    // The same again changes nothing.
    assert_eq!(publish_sandbox(&mut state, resource.clone()), (true, false));
    resource.traffic_policy = Some(policy(Some(vec![rule(DENY)])));
    assert_eq!(publish_sandbox(&mut state, resource.clone()), (true, true));
    resource.attester = None;
    let mut invalid = resource.clone();
    invalid.uid = text("wrong-name");
    let handled = handle_sandboxes(
        &mut state,
        vec![
            XdsUpdate::Update { name: text("a"), resource },
            XdsUpdate::Update { name: text("a"), resource: invalid },
        ],
    );
    assert_eq!(handled.rejected.len(), 1);
    // What was accepted counts though another update was not.
    assert!(handled.notify);
    let remove = || vec![XdsUpdate::Remove(text("a"))];
    assert!(handle_sandboxes(&mut state, remove()).notify);
    assert!(!handle_sandboxes(&mut state, remove()).notify);
}

#[test]
fn shared_policy_diagnostics_keep_resource_name_and_local_rule_index() {
    let conn = usual_connection();
    let name = "namespaces/ns/trafficPolicies/deny-web";
    let deny = policy(Some(vec![rule(DENY)]));
    assert_eq!(check_policies(None, &[(name, Some(&deny))], &conn), denied(name, "rule-0"));
    assert_eq!(check_policies(None, &[(name, None)], &conn), denied(name, "policy-unavailable"));
    let firewall = firewall_rulesets(&chain(&[(name, None)]));
    assert!(firewall.rules.iter().all(|r| r.name == format!("{name}/policy-unavailable")));
}

#[test]
fn unchanged_firewall_hash_skips_build_with_and_without_sandbox() {
    let mut state = fixture(&[]);
    for publish in [false, true] {
        if publish {
            state.sandboxes.update("a", sandbox("a", None)).unwrap();
        }
        let (_, hash) = resolve_workload_firewall(&state, &info(), None).unwrap();
        assert!(resolve_workload_firewall(&state, &info(), Some(hash)).is_none());
        assert!(resolve_workload_firewall(&state, &info(), Some(hash.wrapping_add(1))).is_some());
    }
    let unknown = WorkloadInfo { name: text("other"), ..info() };
    assert!(resolve_workload_firewall(&state, &unknown, None).is_none());
}

#[test]
fn rules_in_force_are_not_built() {
    let deny = accepted(policy(Some(vec![rule(DENY)])));
    let links = chain(&[("system", Some(&deny))]);
    assert!(rules_unless_applied(&links, None, Some(5), 5).is_none());
    let (rules, hash) = rules_unless_applied(&links, Some(&deny), Some(4), 5).unwrap();
    assert_eq!(hash, 5);
    assert_eq!(rules.rules[0].name, "system/rule-0");
    assert_eq!(rules.inline_rules[0].name, "inline/rule-0");
}

#[test]
fn workload_references_recheck_tcp_and_firewall() {
    let mut state = fixture(&[]);
    let names = ["trafficPolicies/allow", "trafficPolicies/deny"];
    let mutator = ProxyStateUpdateMutator::new_no_fetch();
    let publish = |state: &mut ProxyState, refs: &[&str]| {
        let message = XdsAddress::Workload(WorkloadMessage {
            workload: workload(refs),
            services: vec![],
        });
        let update = XdsUpdate::Update { name: text("workload-uid"), resource: message };
        handle_addresses(&mutator, state, vec![update]).handled
    };
    // The connection was opened before its sandbox was known.
    let mut ctx = context(&usual_connection(), None);

    assert!(assert_rbac(&state, &ctx).is_ok());
    assert!(resolve_workload_firewall(&state, &info(), None).unwrap().0.rules.is_empty());
    assert!(publish(&mut state, &names).notify);
    assert_eq!(assert_rbac(&state, &ctx), denied(names[0], "policy-unavailable"));
    let missing_hash = resolve_workload_firewall(&state, &info(), None).unwrap().1;
    for (name, action) in names.iter().zip([ALLOW, DENY]) {
        let both = TrafficPolicyMessage {
            ingress: Some(PolicyRuleMessage { rules: vec![rule(action)] }),
            egress: Some(PolicyRuleMessage { rules: vec![rule(action)] }),
        };
        let update = XdsUpdate::Update { name: text(name), resource: both };
        assert!(handle_policies(&mut state, vec![update]).rejected.is_empty());
    }
    assert!(assert_rbac(&state, &ctx).is_ok());
    ctx.conn.direction = Direction::Inbound;
    assert!(assert_rbac(&state, &ctx).is_ok());
    let (allowed, allowed_hash) = resolve_workload_firewall(&state, &info(), None).unwrap();
    assert_ne!(missing_hash, allowed_hash);
    assert_eq!(allowed.rules[0].action, RuleAction::Allow);
    // The order of references alone is reason to check again.
    assert!(publish(&mut state, &[names[1], names[0]]).notify);
    assert_eq!(assert_rbac(&state, &ctx), denied(names[1], "rule-0"));
    ctx.conn.direction = Direction::Outbound;
    assert!(assert_rbac(&state, &ctx).is_err());
    let (refused, denied_hash) = resolve_workload_firewall(&state, &info(), None).unwrap();
    assert_ne!(allowed_hash, denied_hash);
    assert_eq!(refused.rules[0].action, RuleAction::Deny);
    let handled = publish(&mut state, &[names[0], names[0]]);
    assert_eq!(handled.rejected[0].reason, UpdateError::PolicyReference(text(names[0])));
    assert!(assert_rbac(&state, &ctx).is_err());
    publish(&mut state, &[]);
    assert!(assert_rbac(&state, &ctx).is_ok());
    assert!(resolve_workload_firewall(&state, &info(), None).unwrap().0.rules.is_empty());
}

#[test]
fn the_store_keeps_what_is_valid() {
    let mut store = TrafficPolicyStore::new();
    let deny = policy(Some(vec![rule(DENY)]));
    assert_eq!(store.update(text(""), &deny), Err(StoreError::EmptyName));
    assert_eq!(store.update(text("a"), &deny), Ok(true));
    assert_eq!(store.update(text("a"), &deny), Ok(false));
    assert!(matches!(
        store.update(text("a"), &policy(Some(vec![rule(99)]))),
        Err(StoreError::Rule(_))
    ));
    assert_eq!(*store.get(&text("a")).unwrap(), accepted(deny));
    assert!(store.remove(&text("a")));
    assert!(!store.remove(&text("a")));
    assert!(store.entries().is_empty());
}

#[test]
fn policies_built_by_hand_are_validated() {
    let range = |start, end| Some(PortRange { start, end });
    let with = |protocol, range| TrafficPolicy {
        ingress: None,
        egress: Some(ztunnel::rbac::policy::PolicyRule {
            rules: vec![Rule {
                action: ztunnel::rbac::RbacAction::Allow,
                source_ips: vec![],
                destination_ips: vec![],
                ports: vec![PortMatch { protocol, range }],
            }],
        }),
    };
    assert_eq!(with(Protocol::Tcp, range(80, 90)).validate(), Ok(()));
    assert!(with(Protocol::Tcp, range(0, 90)).validate().is_err());
    assert!(with(Protocol::Tcp, range(90, 80)).validate().is_err());
    assert!(with(Protocol::Icmp, range(80, 80)).validate().is_err());
}

#[test]
fn a_chain_refuses_what_is_missing() {
    let allow = accepted(policy(Some(vec![rule(ALLOW)])));
    let conn = usual_connection();
    assert_eq!(check_chain(&chain(&[("a", Some(&allow))]), &conn), Ok(()));
    assert_eq!(
        check_chain(&chain(&[("a", Some(&allow)), ("b", None)]), &conn),
        denied("b", "policy-unavailable")
    );
}

#[test]
fn a_sandbox_refers_to_policies_behind_its_own() {
    let web = |action| ports_rule(action, vec![port(TCP, Some(443), None)]);
    let refer = |inline: Option<TrafficPolicyMessage>| SandboxMessage {
        policy_refs: vec![(text(TRAFFIC_POLICY_TYPE), vec![text(SHARED), text(GONE)])],
        ..sandbox("sandbox-a", inline)
    };
    let conn = usual_connection();
    let mut state = fixture(&[]);
    let ctx = context(&conn, None);

    // What is missing refuses where the policies before it have not decided.
    state.sandboxes.update("sandbox-a", refer(None)).unwrap();
    assert_eq!(assert_rbac(&state, &ctx), denied(SHARED, "policy-unavailable"));
    state.policies.update(text(SHARED), &policy(Some(vec![]))).unwrap();
    assert_eq!(assert_rbac(&state, &ctx), denied(GONE, "policy-unavailable"));
    state.policies.update(text(SHARED), &policy(Some(vec![web(ALLOW)]))).unwrap();
    assert_eq!(assert_rbac(&state, &ctx), Ok(()));

    // Its own policy comes first.
    let own = policy(Some(vec![web(DENY)]));
    state.sandboxes.update("sandbox-a", refer(Some(own))).unwrap();
    assert_eq!(assert_rbac(&state, &ctx), denied("inline", "rule-0"));
    let own = policy(Some(vec![web(ALLOW)]));
    state.sandboxes.update("sandbox-a", refer(Some(own))).unwrap();
    state.policies.update(text(SHARED), &policy(Some(vec![web(DENY)]))).unwrap();
    assert_eq!(assert_rbac(&state, &ctx), Ok(()));

    // Where it does not decide, the next one does.
    let own = policy(Some(vec![ports_rule(ALLOW, vec![port(TCP, Some(80), None)])]));
    state.sandboxes.update("sandbox-a", refer(Some(own))).unwrap();
    assert_eq!(assert_rbac(&state, &ctx), denied(SHARED, "rule-0"));

    // A workload that refers to a missing policy is refused in any case.
    state.sandboxes.update("sandbox-a", sandbox("sandbox-a", None)).unwrap();
    let refs = Workload { traffic_policy_refs: vec![text(GONE)], ..workload(&[]) };
    state.workloads.insert(refs);
    assert_eq!(assert_rbac(&state, &ctx), denied(GONE, "policy-unavailable"));
}

#[test]
fn of_two_workloads_that_fit_the_first_is_taken() {
    let second = Workload { uid: text("second-uid"), ..workload(&["shared"]) };
    let mut state = fixture(&[]);
    state.workloads.insert(second);
    assert_eq!(state.workloads.find_by_info(&info()).unwrap().uid, "workload-uid");
    let (rules, hash) = resolve_workload_firewall(&state, &info(), None).unwrap();
    assert_eq!(rules, RuleSet::default());
    assert!(resolve_workload_firewall(&state, &info(), Some(hash)).is_none());
    let again = resolve_workload_firewall(&state, &info(), Some(hash.wrapping_add(1)));
    assert_eq!(again, Some((rules, hash)));

    // One that is put again stands behind the others.
    state.workloads.insert(workload(&[]));
    assert_eq!(state.workloads.find_by_info(&info()).unwrap().uid, "second-uid");
    let (rules, other) = resolve_workload_firewall(&state, &info(), Some(hash)).unwrap();
    assert_ne!(other, hash);
    assert!(rules.rules.iter().all(|rule| rule.action == RuleAction::Deny));
    state.workloads.remove(&text("second-uid"));
    assert_eq!(state.workloads.find_by_info(&info()).unwrap().uid, "workload-uid");
    state.workloads.remove(&text("workload-uid"));
    assert!(state.workloads.find_by_info(&info()).is_none());
    assert!(resolve_workload_firewall(&state, &info(), None).is_none());
}
