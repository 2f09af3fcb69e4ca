use ztunnel::extensions::extensions::{EgressPolicies, EgressPolicy, EgressPolicyAction};
use ztunnel::firewall::types::PortRange;
use ztunnel::net::{IpAddr, SocketAddr};
use ztunnel::rbac::authorize::{assert_rbac, ProxyRbacContext};
use ztunnel::rbac::chain::TrafficPolicy;
use ztunnel::rbac::policy::{PolicyRule, PortMatch, Protocol, Rule, RuleError};
use ztunnel::rbac::store::StoreError;
use ztunnel::rbac::{AuthorizationRejectionError, Connection, Direction, RbacAction};
use ztunnel::sandbox::discovery::{Sandbox, SandboxError};
use ztunnel::state::service::Service;
use ztunnel::state::store::ProxyState;
use ztunnel::state::workload::{
    Destination, HealthStatus, Identity, NamespacedHostname, NetworkAddress, Workload,
};
use ztunnel::xds::local::{LocalClient, LocalConfig, LocalWorkload};
use ztunnel::xds::status::{display_status, Error, StatusReport};
use ztunnel::xds::{
    handle_addresses, AddressMessage, CertAction, ProxyStateUpdateMutator, ProxyStateUpdater,
    UpdateError, WorkloadMessage, XdsUpdate,
};

const POLICY: &str = "namespaces/default/trafficPolicies/local-egress";

fn text(s: &str) -> String {
    s.to_string()
}

fn v4(a: u8, b: u8, c: u8, d: u8, port: u16) -> SocketAddr {
    SocketAddr::new(IpAddr::V4(u32::from_be_bytes([a, b, c, d])), port)
}

fn workload(name: &str) -> Workload {
    Workload {
        uid: format!("cluster1//v1/Pod/default/{name}"),
        name: text(name),
        namespace: text("default"),
        network: text(""),
        node: text("node"),
        trust_domain: text("cluster.local"),
        service_account: text(name),
        workload_ips: vec![],
        status: HealthStatus::Healthy,
        egress_policies: None,
        sni_policy: None,
        encoded_labels: None,
        traffic_policy_refs: vec![],
    }
}

fn service(name: &str) -> Service {
    Service { namespace: text("default"), hostname: text(name), includes_unhealthy: false }
}

fn hostname(name: &str) -> NamespacedHostname {
    NamespacedHostname { namespace: text("default"), hostname: text(name) }
}

fn tcp_rule(action: RbacAction, start: u16, end: u16) -> Rule {
    Rule {
        action,
        source_ips: vec![],
        destination_ips: vec![],
        ports: vec![PortMatch {
            protocol: Protocol::Tcp,
            range: Some(PortRange { start, end }),
        }],
    }
}

fn egress(rules: Vec<Rule>) -> TrafficPolicy {
    TrafficPolicy { ingress: None, egress: Some(PolicyRule { rules }) }
}

fn config() -> LocalConfig {
    LocalConfig {
        workloads: vec![LocalWorkload {
            workload: workload("local"),
            services: vec![(text("default/web"), vec![(80, 8080)])],
        }],
        services: vec![service("web")],
        sandboxes: vec![Sandbox {
            uid: text("workload:local"),
            workload_uid: Some(text("cluster1//v1/Pod/default/local")),
            egress_routing: None,
            traffic_policy: Some(egress(vec![tcp_rule(RbacAction::Allow, 8080, 8080)])),
            traffic_policy_refs: vec![text(POLICY)],
            sni_policy: None,
        }],
        policies: vec![(
            text(POLICY),
            egress(vec![
                tcp_rule(RbacAction::Deny, 9999, 9999),
                tcp_rule(RbacAction::Allow, 8081, 8081),
            ]),
        )],
    }
}

fn client() -> LocalClient {
    LocalClient { state: ProxyState::new(), fetches: true }
}

/// Loads a valid configuration, and says whether those who apply policies are told.
fn load(client: &mut LocalClient, config: LocalConfig) -> bool {
    let loaded = client.load_config(config);
    loaded.result.unwrap();
    loaded.notify
}

fn authorize(client: &LocalClient, port: u16, direction: Direction) -> Result<
    (),
    AuthorizationRejectionError,
> {
    assert_rbac(
        &client.state,
        &ProxyRbacContext {
            conn: Connection {
                src: v4(127, 0, 0, 1, 1234),
                dst: v4(192, 0, 2, 1, port),
                src_identity: None,
                dst_network: text(""),
                direction,
            },
            workload: workload("local"),
            sandbox: None,
        },
    )
}

fn denied(policy: &str, rule: &str) -> Result<(), AuthorizationRejectionError> {
    Err(AuthorizationRejectionError::ExplicitlyDenied(text(policy), text(rule)))
}

fn snapshot(state: &ProxyState) -> (Vec<Workload>, Vec<Sandbox>, Vec<(String, TrafficPolicy)>, usize) {
    (
        state.workloads.entries().iter().map(|(_, w)| w.clone()).collect(),
        state.sandboxes.entries().iter().map(|(_, s)| s.clone()).collect(),
        state.policies.entries().clone(),
        state.services.endpoints().len(),
    )
}

#[test]
fn local_file_loads_sandbox_inline_and_shared_policies() {
    let mut client = client();
    let loaded = client.load_config(config());
    assert_eq!(loaded.result, Ok(()));
    assert_eq!(
        loaded.prefetch,
        vec![Identity {
            trust_domain: text("cluster.local"),
            namespace: text("default"),
            service_account: text("local"),
        }]
    );
    let uid = text("cluster1//v1/Pod/default/local");
    let sandbox = client.state.sandboxes.fetch_sandbox(&uid).unwrap();
    assert_eq!(sandbox.uid, "workload:local");
    assert_eq!(sandbox.traffic_policy_refs, vec![text(POLICY)]);
    assert_eq!(client.state.services.endpoints().len(), 1);
    assert_eq!(authorize(&client, 8080, Direction::Outbound), Ok(()));
    assert_eq!(authorize(&client, 8081, Direction::Outbound), Ok(()));
    assert_eq!(authorize(&client, 9999, Direction::Outbound), denied(POLICY, "rule-0"));
    assert_eq!(authorize(&client, 9999, Direction::Inbound), Ok(()));
}

#[test]
fn local_reload_replaces_resources_and_keeps_policy_subscribers() {
    let mut client = client();
    assert!(load(&mut client, config()));
    let mut changed = config();
    changed.policies[0].1.egress.as_mut().unwrap().rules[1].action = RbacAction::Deny;
    assert!(load(&mut client, changed.clone()));
    assert_eq!(authorize(&client, 8081, Direction::Outbound), denied(POLICY, "rule-1"));
    // The sandbox's own policy allows it before the shared one is asked.
    assert_eq!(authorize(&client, 8080, Direction::Outbound), Ok(()));

    changed.policies.clear();
    assert!(load(&mut client, changed.clone()));
    assert!(client.state.policies.get(&text(POLICY)).is_none());
    assert_eq!(
        authorize(&client, 8081, Direction::Outbound),
        denied(POLICY, "policy-unavailable")
    );
    assert_eq!(authorize(&client, 8080, Direction::Outbound), Ok(()));

    changed.sandboxes.clear();
    assert!(load(&mut client, changed));
    let uid = text("cluster1//v1/Pod/default/local");
    assert!(client.state.sandboxes.get_by_workload(&uid).is_empty());
    assert_eq!(authorize(&client, 8081, Direction::Outbound), Ok(()));
    assert!(load(&mut client, LocalConfig::default()));
    assert!(client.state.workloads.find_uid(&uid).is_none());
    assert!(client.state.services.endpoints().is_empty());
}

#[test]
fn invalid_local_resources_preserve_the_previous_snapshot() {
    let mut client = client();
    client.load_config(config()).result.unwrap();
    let before = snapshot(&client.state);
    let mut cases: Vec<(&str, LocalConfig, UpdateError)> = vec![];
    let mut c = config();
    let inline = c.sandboxes[0].traffic_policy.as_mut().unwrap();
    inline.egress.as_mut().unwrap().rules[0].ports[0].range.as_mut().unwrap().start = 0;
    cases.push((
        "zero inline port",
        c,
        UpdateError::Sandbox(SandboxError::InvalidPolicy(RuleError::Port(0))),
    ));
    let mut c = config();
    c.policies[0].1.egress.as_mut().unwrap().rules[0].ports[0].range.as_mut().unwrap().end = 1;
    cases.push((
        "reversed shared port range",
        c,
        UpdateError::InvalidPolicy(RuleError::ReversedRange),
    ));
    let mut c = config();
    c.policies[0].1.egress.as_mut().unwrap().rules[0].ports[0].protocol = Protocol::Icmp;
    cases.push((
        "ICMP port constraint",
        c,
        UpdateError::InvalidPolicy(RuleError::PortOfIcmp),
    ));
    let mut c = config();
    c.sandboxes[0].uid = text("");
    cases.push(("empty Sandbox uid", c, UpdateError::Sandbox(SandboxError::InvalidUid)));
    let mut c = config();
    c.sandboxes[0].workload_uid = Some(text(""));
    cases.push(("empty Workload uid", c, UpdateError::Sandbox(SandboxError::EmptyWorkloadUid)));
    let mut c = config();
    c.sandboxes[0].traffic_policy_refs.push(text(POLICY));
    cases.push((
        "duplicate policy reference",
        c,
        UpdateError::Sandbox(SandboxError::InvalidReference(text(POLICY))),
    ));
    let mut c = config();
    c.sandboxes[0].traffic_policy_refs[0] = text("*");
    cases.push((
        "wildcard policy reference",
        c,
        UpdateError::Sandbox(SandboxError::InvalidReference(text("*"))),
    ));
    let mut c = config();
    let again = c.sandboxes[0].clone();
    c.sandboxes.push(again);
    cases.push((
        "duplicate Sandbox",
        c,
        UpdateError::DuplicateSandbox(text("workload:local")),
    ));
    let mut c = config();
    let policy = c.policies[0].1.clone();
    c.policies.push((text(""), policy));
    cases.push(("empty policy name", c, UpdateError::Policy(StoreError::EmptyName)));
    let mut c = config();
    c.sandboxes[0].egress_routing = Some(EgressPolicies {
        policies: vec![EgressPolicy {
            namespaces: vec![],
            match_cidrs: vec![],
            match_ports: vec![],
            policy: EgressPolicyAction::Gateway,
            gateway: None,
        }],
    });
    cases.push(("missing gateway", c, UpdateError::Sandbox(SandboxError::MissingGateway)));
    let mut c = config();
    c.workloads[0].services[0].0 = text("no-namespace");
    cases.push(("service name", c, UpdateError::ServiceName(text("no-namespace"))));
    for (name, invalid, error) in cases {
        let loaded = client.load_config(invalid);
        assert_eq!(loaded.result, Err(error), "{name}");
        assert_eq!(snapshot(&client.state), before, "{name}");
        assert!(!loaded.notify, "{name}");
    }
}

#[test]
fn addresses_bring_workloads_and_services() {
    let mut updater = ProxyStateUpdater::new(ProxyState::new());
    let mutator = updater.updater;
    let state = &mut updater.state;
    let web = text("default/web");
    let add = XdsUpdate::Update {
        name: text("a"),
        resource: AddressMessage::Workload(WorkloadMessage {
            workload: workload("a"),
            services: vec![(web.clone(), vec![(80, 8080)])],
        }),
    };
    let serve = XdsUpdate::Update {
        name: web.clone(),
        resource: AddressMessage::Service(service("web")),
    };
    let unknown = XdsUpdate::Update { name: text("x"), resource: AddressMessage::Unknown };
    let handled = handle_addresses(&mutator, state, vec![add, serve, unknown]);
    assert_eq!(handled.handled.rejected.len(), 1);
    assert_eq!(handled.handled.rejected[0].reason, UpdateError::UnknownAddress);
    assert!(matches!(&handled.certs[0], CertAction::Prefetch(id) if id.service_account == "a"));
    assert!(state.services.get_by_namespaced_host(&hostname("web")).is_some());
    assert_eq!(state.services.endpoints().len(), 1);
    assert_eq!(state.services.endpoints()[0].port, vec![(80, 8080)]);

    let uid = workload("a").uid;
    let handled = handle_addresses(&mutator, state, vec![XdsUpdate::Remove(uid.clone())]);
    assert!(matches!(&handled.certs[0], CertAction::Clear(id) if id.service_account == "a"));
    assert!(state.workloads.find_uid(&uid).is_none());
    assert!(state.services.endpoints().is_empty());
    handle_addresses(&mutator, state, vec![XdsUpdate::Remove(web)]);
    assert!(state.services.get_by_namespaced_host(&hostname("web")).is_none());
}

#[test]
fn a_service_name_needs_a_namespace() {
    let mutator = ProxyStateUpdateMutator::new();
    let mut state = ProxyState::new();
    let message = WorkloadMessage {
        workload: workload("a"),
        services: vec![(text("web"), vec![])],
    };
    let outcome = mutator.insert_workload(&mut state, message);
    assert_eq!(outcome.result, Err(UpdateError::ServiceName(text("web"))));
}

#[test]
fn no_certificates_without_a_fetcher() {
    let mutator = ProxyStateUpdateMutator::new_no_fetch();
    let mut state = ProxyState::new();
    let message = || WorkloadMessage { workload: workload("a"), services: vec![] };
    let outcome = mutator.insert_workload(&mut state, message());
    assert_eq!(outcome.result, Ok(()));
    assert_eq!(outcome.prefetch, None);
    let fetching = ProxyStateUpdateMutator::new();
    assert!(fetching.insert_workload(&mut state, message()).prefetch.is_some());
}

#[test]
fn statuses_in_words() {
    let mut status = StatusReport {
        code: text("Unavailable"),
        message: text("authentication failure"),
        quoted_message: text("\"authentication failure\""),
        details: Some(text("")),
        source: None,
    };
    assert_eq!(
        display_status(&status),
        "status: Unavailable, message: \"authentication failure\" \
         (hint: check the control plane logs for more information)"
    );
    status.message = text("other");
    status.quoted_message = text("\"other\"");
    status.details = Some(text("more"));
    status.source = Some(text("Temporary failure in name resolution"));
    assert_eq!(
        display_status(&status),
        "status: Unavailable, message: \"other\", details: more, \
         source: Temporary failure in name resolution (hint: is the DNS server reachable?)"
    );
    status.details = None;
    status.source = None;
    assert_eq!(
        Error::GrpcStatus(status.clone()).message(),
        "gRPC error status: Unavailable, message: \"other\""
    );
    assert_eq!(
        Error::Connection(text("xds:15012"), status).message(),
        "gRPC connection error connecting to xds:15012: status: Unavailable, message: \"other\""
    );
    assert_eq!(Error::RequestFailure(text("closed")).message(), "closed");
    assert_eq!(Error::OnDemandSend.message(), "failed to send on demand resource");
    assert_eq!(Error::TLSError(text("bad")).message(), "TLS Error: bad");
}

#[test]
fn a_gateway_is_found_by_address_or_by_name() {
    let name = NamespacedHostname::parse("net/192.0.2.7").unwrap();
    let address = IpAddr::V4(u32::from_be_bytes([192, 0, 2, 7]));
    assert_eq!(
        Destination::new(name.clone(), Some(address)),
        Destination::Address(NetworkAddress { network: text("net"), address })
    );
    assert_eq!(Destination::new(name.clone(), None), Destination::Hostname(name));
}
