use ztunnel::firewall::backend::Backend;
use ztunnel::firewall::dedicated::{
    wait_for_policy_debounce, Action, DebounceEvent, DebounceResult, Event, FirewallController,
    Phase, DEFAULT_FIREWALL_DEBOUNCE_INTERVAL, DEFAULT_FIREWALL_MAX_DEBOUNCE_TIME,
};
use ztunnel::firewall::detect::FirewallBackend;
use ztunnel::firewall::inpod::{
    is_init_failed, make_backend_for_netns, netns_path, AddStep, FirewallEvent, InitOutcome,
    InpodFirewallController, LoopEvent, LoopStep, PodState, MAX_INIT_RETRIES,
};
use ztunnel::inpod::{pod_firewalls, Error, WorkloadUid};
use ztunnel::rbac::chain::TrafficPolicyMessage;
use ztunnel::rbac::policy::{MatchMessage, PolicyRuleMessage, RuleMessage};
use ztunnel::state::store::ProxyState;
use ztunnel::state::workload::{HealthStatus, Workload, WorkloadInfo};
use ztunnel::time::Debouncer;

const MILLI: u64 = 1_000_000;

fn text(s: &str) -> String {
    s.to_string()
}

fn info(name: &str) -> WorkloadInfo {
    WorkloadInfo { name: text(name), namespace: text("default"), service_account: text("default") }
}

fn workload(name: &str) -> Workload {
    Workload {
        uid: format!("uid-{name}"),
        name: text(name),
        namespace: text("default"),
        network: text(""),
        node: text("node"),
        trust_domain: text("cluster.local"),
        service_account: text("default"),
        workload_ips: vec![],
        status: HealthStatus::Healthy,
        egress_policies: None,
        sni_policy: None,
        encoded_labels: None,
        traffic_policy_refs: vec![text("policy")],
    }
}

fn deny_all() -> TrafficPolicyMessage {
    TrafficPolicyMessage {
        ingress: None,
        egress: Some(PolicyRuleMessage {
            rules: vec![RuleMessage {
                action: 1,
                matches: Some(MatchMessage {
                    source_ips: vec![],
                    destination_ips: vec![],
                    ports: vec![],
                }),
            }],
        }),
    }
}

fn uid(s: &str) -> WorkloadUid {
    WorkloadUid::new(text(s))
}

fn pods(list: &[(&str, PodState)]) -> InpodFirewallController {
    let mut pods = InpodFirewallController::new();
    for (name, state) in list {
        match pods.handle_add_pod(&uid(name), 1) {
            AddStep::Init { replaced: None } => {}
            other => panic!("unexpected {other:?}"),
        }
        let outcome = match state {
            PodState::Enrolled => InitOutcome::Wrote(7),
            PodState::PendingWorkload => InitOutcome::UnknownWorkload,
            PodState::InitFailed { .. } => InitOutcome::Failed,
        };
        pods.pod_initialized(uid(name), info(name), 1, outcome);
        if let PodState::InitFailed { retries } = state {
            for _ in 0..*retries {
                pods.retry_finished(&uid(name), InitOutcome::Failed);
            }
        }
    }
    pods
}

fn state_of(pods: &InpodFirewallController, name: &str) -> PodState {
    pods.entries().iter().find(|(id, _)| *id == uid(name)).unwrap().1.state
}

fn any_failed(pods: &InpodFirewallController) -> bool {
    pods.entries().iter().any(|(_, pod)| is_init_failed(pod.state))
}

#[test]
fn has_failed_pods_detects_init_failed() {
    assert!(any_failed(&pods(&[("uid-1", PodState::InitFailed { retries: 0 })])));
}

#[test]
fn has_failed_pods_false_when_all_enrolled() {
    assert!(!any_failed(&pods(&[("uid-1", PodState::Enrolled)])));
}

#[test]
fn has_failed_pods_empty() {
    let pods = InpodFirewallController::new();
    assert!(!any_failed(&pods));
    assert!(!pods.has_retryable_pods());
}

#[test]
fn pending_workload_not_counted_as_failed() {
    assert!(!any_failed(&pods(&[("uid-1", PodState::PendingWorkload)])));
}

#[test]
fn pod_state_variants() {
    let all = pods(&[
        ("a", PodState::InitFailed { retries: 0 }),
        ("b", PodState::PendingWorkload),
        ("c", PodState::Enrolled),
    ]);
    assert!(matches!(state_of(&all, "a"), PodState::InitFailed { retries: 0 }));
    assert!(matches!(state_of(&all, "b"), PodState::PendingWorkload));
    assert!(matches!(state_of(&all, "c"), PodState::Enrolled));
}

#[test]
fn rebuild_skips_init_failed_pods() {
    let all = pods(&[
        ("enrolled", PodState::Enrolled),
        ("init-fail", PodState::InitFailed { retries: 0 }),
    ]);
    let counts = all.sync_pod_metrics();
    assert_eq!(counts.enrolled, 1);
    assert_eq!(counts.init_failed, 1);

    let mut state = ProxyState::new();
    state.workloads.insert(workload("enrolled"));
    state.workloads.insert(workload("init-fail"));
    let tasks = all.rebuild_all_pods(&state);
    assert_eq!(tasks.len(), 1);
    assert_eq!(tasks[0].uid.copy().into_string(), "enrolled");
}

#[test]
fn retry_selects_correct_pods() {
    let all = pods(&[
        ("ok", PodState::Enrolled),
        ("init-fail", PodState::InitFailed { retries: 0 }),
        ("pending", PodState::PendingWorkload),
    ]);
    let failed = all.retryable_pods();
    assert_eq!(failed.len(), 1);
    assert_eq!(failed[0].copy().into_string(), "init-fail");
}

#[test]
fn pending_workload_selects_correct_pods() {
    let all = pods(&[
        ("ok", PodState::Enrolled),
        ("pending", PodState::PendingWorkload),
        ("init-fail", PodState::InitFailed { retries: 0 }),
    ]);
    let mut state = ProxyState::new();
    assert!(all.rebuild_pending_workload_pods(&state).is_empty());
    for name in ["ok", "pending", "init-fail"] {
        state.workloads.insert(workload(name));
    }
    let pending = all.rebuild_pending_workload_pods(&state);
    assert_eq!(pending.len(), 1);
    assert_eq!(pending[0].uid.copy().into_string(), "pending");
}

#[test]
fn retry_skips_maxed_out_pods() {
    let all = pods(&[
        ("retryable", PodState::InitFailed { retries: 2 }),
        ("maxed-out", PodState::InitFailed { retries: MAX_INIT_RETRIES }),
    ]);
    let retryable = all.retryable_pods();
    assert_eq!(retryable.len(), 1);
    assert_eq!(retryable[0].copy().into_string(), "retryable");
}

#[test]
fn retries_end_after_the_last() {
    let mut all = pods(&[("a", PodState::InitFailed { retries: MAX_INIT_RETRIES })]);
    all.retry_finished(&uid("a"), InitOutcome::Wrote(3));
    assert_eq!(state_of(&all, "a"), PodState::InitFailed { retries: MAX_INIT_RETRIES });
    assert!(matches!(all.run(LoopEvent::Tick), LoopStep::Nothing));

    let mut all = pods(&[("a", PodState::InitFailed { retries: 1 })]);
    assert!(matches!(all.run(LoopEvent::Tick), LoopStep::Retry));
    all.retry_finished(&uid("a"), InitOutcome::Wrote(3));
    assert_eq!(state_of(&all, "a"), PodState::Enrolled);
    assert_eq!(all.entries()[0].1.applied_hash, Some(3));
}

#[test]
fn a_pod_in_the_same_namespace_is_left_alone() {
    let mut all = pods(&[("a", PodState::Enrolled)]);
    assert!(matches!(all.handle_add_pod(&uid("a"), 1), AddStep::Skip));
    match all.handle_add_pod(&uid("a"), 2) {
        AddStep::Init { replaced: Some(old) } => assert_eq!(old.netns, 1),
        other => panic!("unexpected {other:?}"),
    }
    assert!(all.entries().is_empty());
    all.pod_initialized(uid("a"), info("a"), 2, InitOutcome::NotWritten);
    assert_eq!(state_of(&all, "a"), PodState::InitFailed { retries: 0 });
    assert_eq!(all.handle_remove_pod(&uid("a")).unwrap().netns, 2);
    assert!(all.handle_remove_pod(&uid("a")).is_none());
}

#[test]
fn rules_in_force_are_not_written_again() {
    let mut all = pods(&[("a", PodState::PendingWorkload)]);
    let mut state = ProxyState::new();
    state.workloads.insert(workload("a"));
    state.policies.update(text("policy"), &deny_all()).unwrap();
    let tasks = all.rebuild_all_pods(&state);
    assert_eq!(tasks.len(), 1);
    assert_eq!(tasks[0].ruleset.rules[0].name, "policy/rule-0");
    let hash = tasks[0].hash;
    all.rules_applied(&uid("a"), hash, false);
    assert_eq!(state_of(&all, "a"), PodState::PendingWorkload);
    all.rules_applied(&uid("a"), hash, true);
    all.rules_applied(&uid("gone"), hash, true);
    assert_eq!(all.entries().len(), 1);
    assert_eq!(state_of(&all, "a"), PodState::Enrolled);
    assert!(all.rebuild_all_pods(&state).is_empty());

    state.policies.remove(&text("policy"));
    assert_eq!(all.debounce_and_rebuild(&state, DebounceResult::Ready).len(), 1);
    assert!(all.debounce_and_rebuild(&state, DebounceResult::Draining).is_empty());
    assert!(all.debounce_and_rebuild(&state, DebounceResult::Closed).is_empty());
}

#[test]
fn the_loop_follows_events() {
    let all = pods(&[]);
    assert!(matches!(all.run(LoopEvent::Drain), LoopStep::Stop));
    assert!(matches!(all.run(LoopEvent::Pod(None)), LoopStep::Stop));
    let add = FirewallEvent::AddPod { uid: uid("a"), info: info("a"), netns: 4 };
    match all.run(LoopEvent::Pod(Some(add))) {
        LoopStep::Add { uid: id, netns, .. } => {
            assert_eq!(id, uid("a"));
            assert_eq!(netns, 4);
        }
        other => panic!("unexpected {other:?}"),
    }
    let remove = FirewallEvent::RemovePod { uid: uid("a") };
    assert!(matches!(all.run(LoopEvent::Pod(Some(remove))), LoopStep::Remove { .. }));
    assert!(matches!(all.run(LoopEvent::Policies { closed: false }), LoopStep::Debounce));
    assert!(matches!(all.run(LoopEvent::Policies { closed: true }), LoopStep::Stop));
    assert!(matches!(all.run(LoopEvent::Workloads), LoopStep::RebuildPending));
}

#[test]
fn pods_are_written_in_their_namespace() {
    assert_eq!(netns_path(42, 7), "/proc/42/fd/7");
    let backend =
        make_backend_for_netns(&FirewallBackend::Nftables, netns_path(42, 7), 1337, true, &info("a"));
    match backend {
        Backend::Nft(b) => {
            assert_eq!(
                b.apply_command(),
                vec!["/usr/bin/nsenter", "--net=/proc/42/fd/7", "--", "nft", "-f", "-"]
            );
            assert_eq!(b.workload_label(), "default/a");
        }
        Backend::Ipt(_) => panic!("expected nftables"),
    }
}

#[test]
fn pods_get_firewalls_where_tools_are_there() {
    let found = || Ok(FirewallBackend::Nftables);
    let set_up = pod_firewalls(true, true, found(), None, true).unwrap();
    assert_eq!(set_up.proxy_mark, 1337);
    assert!(set_up.dns_proxy);
    assert_eq!(pod_firewalls(true, true, found(), Some(5), true).unwrap().proxy_mark, 5);
    assert!(pod_firewalls(false, true, found(), None, true).is_none());
    assert!(pod_firewalls(true, false, found(), None, true).is_none());
    assert!(pod_firewalls(true, true, Err(text("none")), None, true).is_none());
}

#[test]
fn pod_errors_in_words() {
    assert_eq!(
        Error::ProxyError(text("a"), text("no port")).message(),
        "error creating proxy a: no port"
    );
    assert_eq!(
        Error::ReceiveMessageError(text("x")).message(),
        "error receiving message: x"
    );
    assert_eq!(Error::SendAckError(text("x")).message(), "error sending ack: x");
    assert_eq!(Error::SendNackError(text("x")).message(), "error sending nack: x");
    assert_eq!(Error::ProtocolError(text("x")).message(), "protocol error: x");
    assert_eq!(Error::AnnounceError(text("x")).message(), "announce error: x");
}

#[test]
fn debounce_waits_for_quiet_interval_after_last_change() {
    let mut debouncer = Debouncer::new(0, 100 * MILLI, 1_000 * MILLI);
    assert!(99 * MILLI < debouncer.deadline());
    let changed = DebounceEvent::Changed { now: 99 * MILLI };
    assert_eq!(wait_for_policy_debounce(&mut debouncer, changed), None);
    assert!(198 * MILLI < debouncer.deadline());
    assert_eq!(debouncer.deadline(), 199 * MILLI);
    assert_eq!(
        wait_for_policy_debounce(&mut debouncer, DebounceEvent::Deadline),
        Some(DebounceResult::Ready)
    );
}

#[test]
fn debounce_never_waits_past_max_time() {
    let mut debouncer = Debouncer::new(0, 100 * MILLI, 250 * MILLI);
    for i in 1..=3 {
        let now = 80 * i * MILLI;
        assert!(now < debouncer.deadline());
        let changed = DebounceEvent::Changed { now };
        assert_eq!(wait_for_policy_debounce(&mut debouncer, changed), None);
    }
    assert!(240 * MILLI < debouncer.deadline());
    assert_eq!(debouncer.deadline(), 250 * MILLI);
    assert_eq!(
        wait_for_policy_debounce(&mut debouncer, DebounceEvent::Deadline),
        Some(DebounceResult::Ready)
    );
    assert_eq!(
        wait_for_policy_debounce(&mut debouncer, DebounceEvent::Drain),
        Some(DebounceResult::Draining)
    );
    assert_eq!(
        wait_for_policy_debounce(&mut debouncer, DebounceEvent::Closed),
        Some(DebounceResult::Closed)
    );
}

#[test]
fn the_controller_writes_what_changed() {
    let mut state = ProxyState::new();
    state.workloads.insert(workload("pod"));
    let mut controller = FirewallController::new(FirewallBackend::Nftables, info("pod"));
    assert!(matches!(controller.phase(), Phase::Starting));
    assert!(matches!(controller.backend(), Backend::Nft(_)));

    // The policy that the workload refers to is not there: all is refused.
    match controller.run(&state, Event::Initialized { success: true }) {
        Action::Apply(rules) => assert_eq!(rules.rules.len(), 2),
        other => panic!("unexpected {other:?}"),
    }
    assert!(matches!(controller.run(&state, Event::Applied { success: true }), Action::Wait));

    state.policies.update(text("policy"), &deny_all()).unwrap();
    match controller.run(&state, Event::Policy(DebounceEvent::Changed { now: 0 })) {
        Action::WaitUntil(deadline) => assert_eq!(deadline, DEFAULT_FIREWALL_DEBOUNCE_INTERVAL),
        other => panic!("unexpected {other:?}"),
    }
    let late = DEFAULT_FIREWALL_MAX_DEBOUNCE_TIME - 1;
    match controller.run(&state, Event::Policy(DebounceEvent::Changed { now: late })) {
        Action::WaitUntil(deadline) => assert_eq!(deadline, DEFAULT_FIREWALL_MAX_DEBOUNCE_TIME),
        other => panic!("unexpected {other:?}"),
    }
    match controller.run(&state, Event::Policy(DebounceEvent::Deadline)) {
        Action::Apply(rules) => assert_eq!(rules.rules[0].name, "policy/rule-0"),
        other => panic!("unexpected {other:?}"),
    }
    // Rules that were not written are written at the next change.
    assert!(matches!(controller.run(&state, Event::Applied { success: false }), Action::Wait));
    controller.run(&state, Event::Policy(DebounceEvent::Changed { now: 5 }));
    assert!(matches!(
        controller.run(&state, Event::Policy(DebounceEvent::Deadline)),
        Action::Apply(_)
    ));
    controller.run(&state, Event::Applied { success: true });
    controller.run(&state, Event::Policy(DebounceEvent::Changed { now: 9 }));
    assert!(matches!(
        controller.run(&state, Event::Policy(DebounceEvent::Deadline)),
        Action::Wait
    ));
    assert!(matches!(
        controller.run(&state, Event::Policy(DebounceEvent::Drain)),
        Action::Cleanup
    ));
    assert!(matches!(
        controller.run(&state, Event::Policy(DebounceEvent::Changed { now: 9 })),
        Action::Stop
    ));
}

#[test]
fn the_controller_stops() {
    let state = ProxyState::new();
    let mut controller =
        FirewallController::new_with_debounce(FirewallBackend::Nftables, info("pod"), 10, 20);
    assert!(matches!(
        controller.run(&state, Event::Initialized { success: false }),
        Action::Stop
    ));
    let mut controller =
        FirewallController::new_with_debounce(FirewallBackend::Nftables, info("pod"), 10, 20);
    assert!(matches!(
        controller.run(&state, Event::Initialized { success: true }),
        Action::Wait
    ));
    assert!(matches!(
        controller.run(&state, Event::Policy(DebounceEvent::Changed { now: 100 })),
        Action::WaitUntil(110)
    ));
    assert!(matches!(
        controller.run(&state, Event::Policy(DebounceEvent::Closed)),
        Action::Stop
    ));
    assert!(matches!(controller.phase(), Phase::Stopped));
}
