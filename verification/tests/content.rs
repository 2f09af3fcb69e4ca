use std::collections::hash_map::DefaultHasher;
use std::hash::Hasher;

use ztunnel::firewall::backend::ipt::chunk_ports;
use ztunnel::firewall::content::firewall_number;
use ztunnel::firewall::inpod::{AddStep, InitOutcome, InpodFirewallController};
use ztunnel::firewall::types::PortRange;
use ztunnel::inpod::WorkloadUid;
use ztunnel::net::IpNet;
use ztunnel::rbac::chain::{Attached, TrafficPolicy};
use ztunnel::rbac::policy::{PolicyRule, PortMatch, Protocol, Rule};
use ztunnel::rbac::store::StoreError;
use ztunnel::rbac::RbacAction;
use ztunnel::state::store::ProxyState;
use ztunnel::state::workload::{HealthStatus, Workload, WorkloadInfo};
use ztunnel::xds::{
    handle_addresses, handle_policies, AddressMessage, ProxyStateUpdateMutator, UpdateError,
    WorkloadMessage, XdsUpdate,
};

fn text(s: &str) -> String {
    s.to_string()
}

fn number_of(words: &[u64]) -> u64 {
    let mut hasher = DefaultHasher::new();
    for word in words {
        hasher.write(&word.to_le_bytes());
    }
    hasher.finish()
}

fn policy(action: RbacAction) -> TrafficPolicy {
    TrafficPolicy {
        ingress: None,
        egress: Some(PolicyRule {
            rules: vec![Rule {
                action,
                source_ips: vec![],
                destination_ips: vec![IpNet::parse("10.0.0.0/8").unwrap()],
                ports: vec![PortMatch {
                    protocol: Protocol::Udp,
                    range: Some(PortRange { start: 53, end: 54 }),
                }],
            }],
        }),
    }
}

fn workload(refs: &[&str]) -> Workload {
    Workload {
        uid: text("pod"),
        name: text("name"),
        namespace: text("ns"),
        network: text(""),
        node: text("node"),
        trust_domain: text("cluster.local"),
        service_account: text("default"),
        workload_ips: vec![],
        status: HealthStatus::Healthy,
        egress_policies: None,
        sni_policy: None,
        encoded_labels: None,
        traffic_policy_refs: refs.iter().map(|s| text(s)).collect(),
    }
}

#[test]
fn the_number_is_that_of_all_words() {
    assert_eq!(firewall_number("u", &vec![], None), number_of(&[118, 0, 0, 0]));
    let allow = policy(RbacAction::Allow);
    let chain = vec![
        Attached { name: "a", policy: Some(&allow) },
        Attached { name: "b", policy: None },
    ];
    let words = [
        118, 0, // the workload
        1, 98, 0, 1, 0, 1, // the first policy, with rules for one direction
        1, 0, // a rule that allows
        0, // from anywhere
        1, 4, 0x0a00_0000, 8, 0, // to one network
        1, 2, 1, 53, 54, 0, // on UDP ports
        0, // no more rules
        1, 99, 0, 0, // the second policy, which is not there
        0, // no more policies
        1, 116, 0, 0, // the sandbox, without a policy
    ];
    assert_eq!(firewall_number("u", &chain, Some(("s", None))), number_of(&words));
}

#[test]
fn every_change_changes_the_number() {
    let allow = policy(RbacAction::Allow);
    let deny = policy(RbacAction::Deny);
    let a = || Attached { name: "a", policy: Some(&allow) };
    let b = || Attached { name: "b", policy: Some(&deny) };
    let numbers = [
        firewall_number("u", &vec![], None),
        firewall_number("v", &vec![], None),
        firewall_number("u", &vec![a()], None),
        firewall_number("u", &vec![a(), b()], None),
        firewall_number("u", &vec![b(), a()], None),
        firewall_number("u", &vec![Attached { name: "a", policy: None }], None),
        firewall_number("u", &vec![Attached { name: "a", policy: Some(&deny) }], None),
        firewall_number("u", &vec![], Some(("s", None))),
        firewall_number("u", &vec![], Some(("s", Some(&allow)))),
        firewall_number("u", &vec![], Some(("s", Some(&deny)))),
    ];
    for (i, n) in numbers.iter().enumerate() {
        for m in &numbers[i + 1..] {
            assert_ne!(n, m);
        }
    }
}

#[test]
fn pods_follow_their_policies() {
    let uid = || WorkloadUid::new(text("pod"));
    let info = WorkloadInfo {
        name: text("name"),
        namespace: text("ns"),
        service_account: text("default"),
    };
    let mut state = ProxyState::new();
    state.workloads.insert(workload(&["p"]));
    let mut pods = InpodFirewallController::new();
    assert!(matches!(pods.handle_add_pod(&uid(), 1), AddStep::Init { replaced: None }));
    pods.pod_initialized(uid(), info, 1, InitOutcome::UnknownWorkload);

    let missing = pods.rebuild_pending_workload_pods(&state);
    assert_eq!(missing.len(), 1);
    pods.rules_applied(&uid(), missing[0].hash, true);
    assert!(pods.rebuild_all_pods(&state).is_empty());

    assert_eq!(state.policies.insert(text("p"), policy(RbacAction::Allow)), Ok(true));
    let allowed = pods.rebuild_all_pods(&state);
    assert_eq!(allowed.len(), 1);
    assert_ne!(allowed[0].hash, missing[0].hash);
    pods.rules_applied(&uid(), allowed[0].hash, true);
    assert!(pods.rebuild_all_pods(&state).is_empty());

    assert_eq!(state.policies.insert(text("p"), policy(RbacAction::Deny)), Ok(true));
    assert_eq!(pods.rebuild_all_pods(&state).len(), 1);
    assert_eq!(state.policies.insert(text("p"), policy(RbacAction::Allow)), Ok(true));
    assert!(pods.rebuild_all_pods(&state).is_empty());
}

#[test]
fn ports_take_as_few_groups_as_can_be() {
    let single = |port: u16| PortRange { start: port, end: port };
    let range = |port: u16| PortRange { start: port, end: port + 1 };
    let ports: Vec<PortRange> = (0..8).map(|i| range(10 * i + 1)).collect();
    let groups = chunk_ports(&ports);
    assert_eq!(groups.iter().map(|g| g.len()).collect::<Vec<_>>(), vec![7, 1]);
    let ports: Vec<PortRange> = (1..31).map(single).collect();
    assert_eq!(chunk_ports(&ports).len(), 2);
}

#[test]
fn refused_updates_say_why() {
    let mutator = ProxyStateUpdateMutator::new_no_fetch();
    let mut state = ProxyState::new();
    let message = |refs: &[&str], services: &[&str]| {
        AddressMessage::Workload(WorkloadMessage {
            workload: workload(refs),
            services: services.iter().map(|s| (text(s), vec![(80, 8080)])).collect(),
        })
    };
    let outcome = mutator.insert_address(&mut state, message(&["*"], &[]));
    assert_eq!(outcome.result, Err(UpdateError::PolicyReference(text("*"))));
    let outcome = mutator.insert_address(&mut state, message(&[], &["no-slash"]));
    assert_eq!(outcome.result, Err(UpdateError::ServiceName(text("no-slash"))));
    let outcome = mutator.insert_address(&mut state, AddressMessage::Unknown);
    assert_eq!(outcome.result, Err(UpdateError::UnknownAddress));

    let updates = vec![
        XdsUpdate::Update { name: text("w1"), resource: message(&["p", "p"], &[]) },
        XdsUpdate::Update { name: text("w2"), resource: message(&[], &["ns/host"]) },
        XdsUpdate::Update { name: text("w3"), resource: AddressMessage::Unknown },
    ];
    let rejected = handle_addresses(&mutator, &mut state, updates).handled.rejected;
    assert_eq!(rejected.len(), 2);
    assert_eq!(rejected[0].name, "w1");
    assert_eq!(rejected[0].reason, UpdateError::PolicyReference(text("p")));
    assert_eq!(rejected[1].name, "w3");
    assert_eq!(rejected[1].reason, UpdateError::UnknownAddress);

    let empty = ztunnel::rbac::chain::TrafficPolicyMessage { ingress: None, egress: None };
    let updates = vec![XdsUpdate::Update { name: text(""), resource: empty }];
    let rejected = handle_policies(&mut state, updates).rejected;
    assert_eq!(rejected[0].reason, UpdateError::Policy(StoreError::EmptyName));
}
