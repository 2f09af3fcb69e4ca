//! The firewalls of pods: which pods have their rules, which wait, which failed, and
//! what to write next.

use vstd::prelude::*;

use super::backend::{built, Backend, BackendBuilder, BuilderModel};
use super::convert::{are_rules_for, is_known, is_up_to_date, resolve_workload_firewall};
use super::dedicated::DebounceResult;
use super::detect::FirewallBackend;
use super::metrics::PodCounts;
use super::types::RuleSet;
use crate::inpod::WorkloadUid;
use crate::state::store::ProxyState;
use crate::state::workload::WorkloadInfo;
use crate::text::{
    decimal, law_decimal_reads_back, law_split_of_one, law_split_of_two, push_decimal,
    signed_decimal, signed_decimal_text, split,
};
use crate::table::{lists, Table, TableKey};

verus! {

/// How many pods are written to at once.
pub const MAX_CONCURRENT_APPLIES: usize = 16;

/// How often a pod that failed is tried again.
pub const MAX_INIT_RETRIES: u8 = 5;

/// How many seconds lie between the times at which pods that failed are tried again.
pub const RETRY_INIT_INTERVAL_SECONDS: u64 = 5;

/// A pod comes or goes. Its network namespace goes by a number.
#[derive(Debug)]
pub enum FirewallEvent {
    AddPod { uid: WorkloadUid, info: WorkloadInfo, netns: u64 },
    RemovePod { uid: WorkloadUid },
}

/// The path under which a process finds a network namespace that it holds open.
pub open spec fn netns_path_text(pid: u32, fd: i32) -> Seq<char> {
    "/proc/"@ + decimal(pid as nat) + "/fd/"@ + signed_decimal(fd as int)
}

/// The path under which a process finds a network namespace that it holds open.
pub fn netns_path(pid: u32, fd: i32) -> (r: String)
    ensures
        r@ == netns_path_text(pid, fd),
{
    let mut out: String = "/proc/".to_owned();
    push_decimal(&mut out, pid as u64);
    out.append("/fd/");
    let number: String = signed_decimal_text(fd);
    out.append(number.as_str());
    out
}

/// What writes the rules of a pod, in its network namespace.
pub fn make_backend_for_netns(
    kind: &FirewallBackend,
    netns_path: String,
    proxy_mark: u32,
    dns_proxy: bool,
    info: &WorkloadInfo,
) -> (r: Backend)
    ensures
        r@ == built(
            (BuilderModel {
                detected: *kind,
                netns_path: Some(netns_path@),
                proxy_mark: Some(proxy_mark),
                dns_proxy,
                workload: Some(info@),
            }),
        ),
{
    BackendBuilder::new(kind.copy()).in_netns(netns_path).skip_proxy_mark(
        proxy_mark,
    ).dns_proxy_enabled(dns_proxy).with_workload_info(info).build()
}

/// What happens to the controller.
#[derive(Debug)]
pub enum LoopEvent {
    /// The proxy stops.
    Drain,
    /// A pod comes or goes; none where no more will.
    Pod(Option<FirewallEvent>),
    /// Policies changed, or will not change any more.
    Policies { closed: bool },
    /// Workloads changed.
    Workloads,
    /// It is time to try again what failed.
    Tick,
}

/// What the controller does next.
#[derive(Debug)]
pub enum LoopStep {
    Stop,
    Add { uid: WorkloadUid, info: WorkloadInfo, netns: u64 },
    Remove { uid: WorkloadUid },
    /// Wait until policies are quiet, and replace the rules of all pods.
    Debounce,
    /// Write the rules of the pods that waited for their workload.
    RebuildPending,
    /// Try again what failed.
    Retry,
    Nothing,
}

/// What the controller does next after an event.
pub open spec fn next_step(event: LoopEvent, retryable: bool) -> LoopStep {
    match event {
        LoopEvent::Drain => LoopStep::Stop,
        LoopEvent::Pod(None) => LoopStep::Stop,
        LoopEvent::Pod(Some(FirewallEvent::AddPod { uid, info, netns })) => LoopStep::Add {
            uid,
            info,
            netns,
        },
        LoopEvent::Pod(Some(FirewallEvent::RemovePod { uid })) => LoopStep::Remove { uid },
        LoopEvent::Policies { closed } => if closed {
            LoopStep::Stop
        } else {
            LoopStep::Debounce
        },
        LoopEvent::Workloads => LoopStep::RebuildPending,
        LoopEvent::Tick => if retryable {
            LoopStep::Retry
        } else {
            LoopStep::Nothing
        },
    }
}

/// What is known of a pod's firewall.
#[derive(Clone, Copy, Debug, PartialEq, Eq, Structural)]
pub enum PodState {
    /// The pod has its rules.
    Enrolled,
    /// The pod's workload is not known yet.
    PendingWorkload,
    /// The firewall could not be set up, and was tried again so many times.
    InitFailed { retries: u8 },
}

/// A pod and its firewall.
#[derive(Debug)]
pub struct PodFirewallState {
    pub netns: u64,
    pub workload_info: WorkloadInfo,
    /// The number of the rules in force.
    pub applied_hash: Option<u64>,
    pub state: PodState,
}

/// Rules to write for a pod.
#[derive(Debug)]
pub struct ApplyTask {
    pub uid: WorkloadUid,
    pub netns: u64,
    pub info: WorkloadInfo,
    pub ruleset: RuleSet,
    pub hash: u64,
}

/// What came of setting up a pod's firewall: it failed, the workload is not known,
/// or its rules, by their number, were written or not.
#[derive(Clone, Copy, Debug, PartialEq, Eq, Structural)]
pub enum InitOutcome {
    Failed,
    UnknownWorkload,
    Wrote(u64),
    NotWritten,
}

/// A pod's state after its firewall was set up, and the number of the rules in force.
pub open spec fn after_init(outcome: InitOutcome) -> (PodState, Option<u64>) {
    match outcome {
        InitOutcome::Failed => (PodState::InitFailed { retries: 0 }, None),
        InitOutcome::UnknownWorkload => (PodState::PendingWorkload, None),
        InitOutcome::Wrote(hash) => (PodState::Enrolled, Some(hash)),
        InitOutcome::NotWritten => (PodState::InitFailed { retries: 0 }, None),
    }
}

/// A pod's state after its firewall was set up.
pub fn try_init_and_apply(outcome: InitOutcome) -> (r: (PodState, Option<u64>))
    ensures
        r == after_init(outcome),
{
    match outcome {
        InitOutcome::Failed => (PodState::InitFailed { retries: 0 }, None),
        InitOutcome::UnknownWorkload => (PodState::PendingWorkload, None),
        InitOutcome::Wrote(hash) => (PodState::Enrolled, Some(hash)),
        InitOutcome::NotWritten => (PodState::InitFailed { retries: 0 }, None),
    }
}

/// What to do about a pod that comes.
#[derive(Debug)]
pub enum AddStep {
    /// Nothing: it is known, with the same network namespace.
    Skip,
    /// Set up its firewall; a pod that was recreated has its old one cleaned up
    /// first.
    Init { replaced: Option<PodFirewallState> },
}

/// Whether the pod is tried again.
pub open spec fn is_retryable(state: PodState) -> bool {
    state matches PodState::InitFailed { retries } && retries < MAX_INIT_RETRIES
}

/// Whether the pod is tried again.
pub fn retryable_state(state: PodState) -> (r: bool)
    ensures
        r == is_retryable(state),
{
    match state {
        PodState::InitFailed { retries } => retries < MAX_INIT_RETRIES,
        _ => false,
    }
}

/// Whether the pod's firewall could not be set up.
pub fn is_init_failed(state: PodState) -> (r: bool)
    ensures
        r == (state is InitFailed),
{
    match state {
        PodState::InitFailed { .. } => true,
        _ => false,
    }
}

/// How many of the pods are in each state.
pub open spec fn counted(entries: Seq<(WorkloadUid, PodFirewallState)>) -> (nat, nat, nat)
    decreases entries.len(),
{
    if entries.len() == 0 {
        (0, 0, 0)
    } else {
        let before = counted(entries.drop_last());
        match entries.last().1.state {
            PodState::Enrolled => (before.0 + 1, before.1, before.2),
            PodState::PendingWorkload => (before.0, before.1 + 1, before.2),
            PodState::InitFailed { .. } => (before.0, before.1, before.2 + 1),
        }
    }
}

/// The task writes the rules of the pod's workload, with their number, for the pod.
pub open spec fn task_is_for(task: ApplyTask, pod: PodFirewallState, state: ProxyState) -> bool {
    &&& task.netns == pod.netns
    &&& task.info@ == pod.workload_info@
    &&& are_rules_for(task.ruleset, task.hash, state, pod.workload_info)
}

/// Whether the pod is written to with what the proxy knows: its workload is known, and
/// the rules in force are not the workload's. A pod that waited for its workload has
/// no rules in force.
pub open spec fn is_due(pod: PodFirewallState, pending_only: bool, state: ProxyState) -> bool {
    &&& wants_rules(pod.state, pending_only)
    &&& is_known(state, pod.workload_info)
    &&& pending_only || !is_up_to_date(state, pod.workload_info, pod.applied_hash)
}

/// Each task is for a pod that is to be written to, and no pod has two.
pub open spec fn tasks_are_for(
    tasks: Seq<ApplyTask>,
    pods: Map<Seq<char>, PodFirewallState>,
    pending_only: bool,
    state: ProxyState,
) -> bool {
    &&& forall|i: int|
        0 <= i < tasks.len() ==> pods.dom().contains((#[trigger] tasks[i]).uid@) && {
            let pod = pods[tasks[i].uid@];
            &&& wants_rules(pod.state, pending_only)
            &&& task_is_for(tasks[i], pod, state)
            &&& !pending_only ==> pod.applied_hash != Some(tasks[i].hash)
        }
    &&& forall|i: int, j: int|
        #![trigger tasks[i], tasks[j]]
        0 <= i < j < tasks.len() ==> tasks[i].uid@ != tasks[j].uid@
}

/// Whether the pod is written to: a pod that failed is left to be tried again.
pub open spec fn wants_rules(state: PodState, pending_only: bool) -> bool {
    if pending_only {
        state is PendingWorkload
    } else {
        state !is InitFailed
    }
}

/// Whether the tasks hold one for the pod.
pub open spec fn has_task(tasks: Seq<ApplyTask>, uid: Seq<char>) -> bool {
    exists|i: int| 0 <= i < tasks.len() && (#[trigger] tasks[i]).uid@ == uid
}

/// The pods once rules were written, or could not be.
pub open spec fn after_writing(
    pods: Map<Seq<char>, PodFirewallState>,
    uid: Seq<char>,
    hash: u64,
    success: bool,
) -> Map<Seq<char>, PodFirewallState> {
    if success && pods.dom().contains(uid) {
        pods.insert(
            uid,
            PodFirewallState {
                applied_hash: Some(hash),
                state: PodState::Enrolled,
                ..pods[uid]
            },
        )
    } else {
        pods
    }
}

/// What a pod that is announced makes of the pods, and what to do about it.
pub open spec fn is_added(
    pods: Map<Seq<char>, PodFirewallState>,
    uid: Seq<char>,
    netns: u64,
    after: Map<Seq<char>, PodFirewallState>,
    step: AddStep,
) -> bool {
    match step {
        AddStep::Skip => pods.dom().contains(uid) && pods[uid].netns == netns && after == pods,
        AddStep::Init { replaced } => after == pods.remove(uid) && replaced == (
        if pods.dom().contains(uid) {
            Some(pods[uid])
        } else {
            None
        }) && (replaced matches Some(pod) ==> pod.netns != netns),
    }
}

/// The pods once one was tried again.
pub open spec fn after_retrying(
    pods: Map<Seq<char>, PodFirewallState>,
    uid: Seq<char>,
    outcome: InitOutcome,
) -> Map<Seq<char>, PodFirewallState> {
    if pods.dom().contains(uid) && is_retryable(pods[uid].state) {
        pods.insert(uid, after_retry(pods[uid], outcome))
    } else {
        pods
    }
}

/// The pods once one was set up, or could not be.
pub open spec fn after_setting_up(
    pods: Map<Seq<char>, PodFirewallState>,
    uid: Seq<char>,
    info: WorkloadInfo,
    netns: u64,
    outcome: InitOutcome,
) -> Map<Seq<char>, PodFirewallState> {
    pods.insert(
        uid,
        PodFirewallState {
            netns,
            workload_info: info,
            applied_hash: after_init(outcome).1,
            state: after_init(outcome).0,
        },
    )
}

/// The pods and their firewalls.
pub struct InpodFirewallController {
    pods: Table<WorkloadUid, PodFirewallState>,
}

impl View for InpodFirewallController {
    type V = Map<Seq<char>, PodFirewallState>;

    closed spec fn view(&self) -> Map<Seq<char>, PodFirewallState> {
        self.pods@
    }
}

impl InpodFirewallController {
    /// No pods yet.
    pub fn new() -> (r: InpodFirewallController)
        ensures
            r@ == Map::<Seq<char>, PodFirewallState>::empty(),
    {
        InpodFirewallController { pods: Table::new() }
    }

    /// What to do next after an event.
    pub fn run(&self, event: LoopEvent) -> (r: LoopStep)
        ensures
            r == next_step(
                event,
                exists|uid: Seq<char>| #[trigger]
                    self@.dom().contains(uid) && is_retryable(self@[uid].state),
            ),
    {
        match event {
            LoopEvent::Drain => LoopStep::Stop,
            LoopEvent::Pod(None) => LoopStep::Stop,
            LoopEvent::Pod(Some(FirewallEvent::AddPod { uid, info, netns })) => LoopStep::Add {
                uid,
                info,
                netns,
            },
            LoopEvent::Pod(Some(FirewallEvent::RemovePod { uid })) => LoopStep::Remove { uid },
            LoopEvent::Policies { closed } => if closed {
                LoopStep::Stop
            } else {
                LoopStep::Debounce
            },
            LoopEvent::Workloads => LoopStep::RebuildPending,
            LoopEvent::Tick => if self.has_retryable_pods() {
                LoopStep::Retry
            } else {
                LoopStep::Nothing
            },
        }
    }

    /// All pods, each with its identifier.
    pub fn entries(&self) -> (r: &Vec<(WorkloadUid, PodFirewallState)>)
        ensures
            lists(r@, self@),
    {
        self.pods.entries()
    }

    /// A pod comes: whether its firewall is set up, and which old one is cleaned up
    /// first.
    pub fn handle_add_pod(&mut self, uid: &WorkloadUid, netns: u64) -> (r: AddStep)
        ensures
            is_added(old(self)@, uid@, netns, final(self)@, r),
    {
        if let Some(known) = self.pods.get(uid) {
            if known.netns == netns {
                return AddStep::Skip;
            }
        }
        AddStep::Init { replaced: self.pods.remove(uid) }
    }

    /// The firewall of a pod that came was set up, with this outcome.
    pub fn pod_initialized(
        &mut self,
        uid: WorkloadUid,
        info: WorkloadInfo,
        netns: u64,
        outcome: InitOutcome,
    )
        ensures
            final(self)@ == after_setting_up(old(self)@, uid@, info, netns, outcome),
    {
        let (state, applied_hash): (PodState, Option<u64>) = try_init_and_apply(outcome);
        self.pods.insert(
            uid,
            PodFirewallState { netns, workload_info: info, applied_hash, state },
        );
    }

    /// A pod goes: its firewall is cleaned up, where it was known.
    pub fn handle_remove_pod(&mut self, uid: &WorkloadUid) -> (r: Option<PodFirewallState>)
        ensures
            final(self)@ == old(self)@.remove(uid@),
            r == (if old(self)@.dom().contains(uid@) {
                Some(old(self)@[uid@])
            } else {
                None
            }),
    {
        self.pods.remove(uid)
    }

    fn tasks(&self, state: &ProxyState, pending_only: bool) -> (r: Vec<ApplyTask>)
        ensures
            tasks_are_for(r@, self@, pending_only, *state),
            forall|uid: Seq<char>| #[trigger]
                self@.dom().contains(uid) && is_due(self@[uid], pending_only, *state) ==> has_task(
                    r@,
                    uid,
                ),
    {
        let all: &Vec<(WorkloadUid, PodFirewallState)> = self.pods.entries();
        let mut out: Vec<ApplyTask> = Vec::new();
        let mut i: usize = 0;
        while i < all.len()
            invariant
                i <= all@.len(),
                lists(all@, self@),
                tasks_are_for(out@, self@, pending_only, *state),
                forall|k: int| #![trigger out@[k]] 0 <= k < out@.len() ==> exists|n: int|
                    0 <= n < i && (#[trigger] all@[n]).0@ == out@[k].uid@,
                forall|n: int|
                    0 <= n < i && is_due((#[trigger] all@[n]).1, pending_only, *state) ==> has_task(
                        out@,
                        all@[n].0@,
                    ),
            decreases all@.len() - i,
        {
            let pod: &PodFirewallState = &all[i].1;
            let ghost before = out@;
            let wanted: bool = if pending_only {
                match pod.state {
                    PodState::PendingWorkload => true,
                    _ => false,
                }
            } else {
                !is_init_failed(pod.state)
            };
            if wanted {
                let applied: Option<u64> = if pending_only {
                    None
                } else {
                    pod.applied_hash
                };
                if let Some((ruleset, hash)) = resolve_workload_firewall(
                    state,
                    &pod.workload_info,
                    applied,
                ) {
                    let task: ApplyTask = ApplyTask {
                        uid: all[i].0.copy(),
                        netns: pod.netns,
                        info: pod.workload_info.copy(),
                        ruleset,
                        hash,
                    };
                    out.push(task);
                    proof {
                        assert(self@.dom().contains(all@[i as int].0@));
                        assert(task_is_for(task, self@[task.uid@], *state));
                        assert forall|a: int, b: int|
                            #![trigger out@[a], out@[b]]
                            0 <= a < b < out@.len() implies out@[a].uid@ != out@[b].uid@ by {
                            assert(out@[a] == before[a]);
                            if b == before.len() {
                                let n = choose|n: int|
                                    0 <= n < i && (#[trigger] all@[n]).0@ == before[a].uid@;
                                assert(all@[n].0.key() != all@[i as int].0.key());
                            } else {
                                assert(out@[b] == before[b]);
                            }
                        }
                        assert forall|k: int| #![trigger out@[k]] 0 <= k < out@.len() implies exists|
                            n: int,
                        |
                            0 <= n < i + 1 && (#[trigger] all@[n]).0@ == out@[k].uid@ by {
                            if k == before.len() {
                                assert(all@[i as int].0@ == out@[k].uid@);
                            } else {
                                assert(out@[k] == before[k]);
                                let n = choose|n: int|
                                    0 <= n < i && (#[trigger] all@[n]).0@ == before[k].uid@;
                                assert(all@[n].0@ == out@[k].uid@);
                            }
                        }
                        assert(out@[before.len() as int].uid@ == all@[i as int].0@);
                        assert forall|n: int|
                            0 <= n < i + 1 && is_due(
                                (#[trigger] all@[n]).1,
                                pending_only,
                                *state,
                            ) implies has_task(out@, all@[n].0@) by {
                            if n < i {
                                let k = choose|k: int|
                                    0 <= k < before.len() && (#[trigger] before[k]).uid@
                                        == all@[n].0@;
                                assert(out@[k] == before[k]);
                            }
                        }
                    }
                }
            }
            i = i + 1;
        }
        assert forall|uid: Seq<char>| #[trigger]
            self@.dom().contains(uid) && is_due(self@[uid], pending_only, *state) implies has_task(
            out@,
            uid,
        ) by {
            let n = choose|n: int| 0 <= n < all@.len() && (#[trigger] all@[n]).0.key() == uid;
            assert(all@[n].0@ == uid);
        }
        out
    }

    /// What to write after policies changed: the rules of every pod whose firewall
    /// works, whose workload is known, and whose rules are not those in force.
    pub fn rebuild_all_pods(&self, state: &ProxyState) -> (r: Vec<ApplyTask>)
        ensures
            tasks_are_for(r@, self@, false, *state),
            forall|uid: Seq<char>| #[trigger]
                self@.dom().contains(uid) && is_due(self@[uid], false, *state) ==> has_task(r@, uid),
    {
        self.tasks(state, false)
    }

    /// What to write after workloads changed: the rules of every pod that waited for
    /// its workload and whose workload is known now.
    pub fn rebuild_pending_workload_pods(&self, state: &ProxyState) -> (r: Vec<ApplyTask>)
        ensures
            tasks_are_for(r@, self@, true, *state),
            forall|uid: Seq<char>| #[trigger]
                self@.dom().contains(uid) && is_due(self@[uid], true, *state) ==> has_task(r@, uid),
    {
        self.tasks(state, true)
    }

    /// What to write once the wait for quiet policies has ended: what
    /// `rebuild_all_pods` says, unless the proxy stops.
    pub fn debounce_and_rebuild(&self, state: &ProxyState, waited: DebounceResult) -> (r: Vec<
        ApplyTask,
    >)
        ensures
            tasks_are_for(r@, self@, false, *state),
            waited != DebounceResult::Ready ==> r@.len() == 0,
            waited == DebounceResult::Ready ==> forall|uid: Seq<char>| #[trigger]
                self@.dom().contains(uid) && is_due(self@[uid], false, *state) ==> has_task(r@, uid),
    {
        match waited {
            DebounceResult::Ready => self.rebuild_all_pods(state),
            _ => Vec::new(),
        }
    }

    /// The rules with this number were written for a pod, or not. A pod that is gone
    /// stays gone, and one whose rules were not written stays as it was.
    pub fn rules_applied(&mut self, uid: &WorkloadUid, hash: u64, success: bool)
        ensures
            final(self)@ == after_writing(old(self)@, uid@, hash, success),
    {
        if !success {
            return;
        }
        let ghost start = self.pods@;
        if let Some(pod) = self.pods.remove(uid) {
            let next: PodFirewallState = PodFirewallState {
                netns: pod.netns,
                workload_info: pod.workload_info,
                applied_hash: Some(hash),
                state: PodState::Enrolled,
            };
            self.pods.insert(uid.copy(), next);
            assert(start.remove(uid@).insert(uid@, next) =~= start.insert(uid@, next));
        } else {
            assert(start.remove(uid@) =~= start);
        }
    }

    /// Whether any pod is tried again.
    pub fn has_retryable_pods(&self) -> (r: bool)
        ensures
            r == exists|uid: Seq<char>| #[trigger]
                self@.dom().contains(uid) && is_retryable(self@[uid].state),
    {
        let all: &Vec<(WorkloadUid, PodFirewallState)> = self.pods.entries();
        let mut i: usize = 0;
        while i < all.len()
            invariant
                i <= all@.len(),
                lists(all@, self@),
                forall|k: int| 0 <= k < i ==> !is_retryable((#[trigger] all@[k]).1.state),
            decreases all@.len() - i,
        {
            if retryable_state(all[i].1.state) {
                assert(self@.dom().contains(all@[i as int].0@));
                return true;
            }
            i = i + 1;
        }
        proof {
            if exists|uid: Seq<char>| #[trigger]
                self@.dom().contains(uid) && is_retryable(self@[uid].state) {
                let uid = choose|uid: Seq<char>| #[trigger]
                    self@.dom().contains(uid) && is_retryable(self@[uid].state);
                let k = choose|k: int| 0 <= k < all@.len() && (#[trigger] all@[k]).0.key() == uid;
                assert(!is_retryable(all@[k].1.state));
            }
        }
        false
    }

    /// Which pods are tried again.
    pub fn retryable_pods(&self) -> (r: Vec<WorkloadUid>)
        ensures
            forall|uid: Seq<char>| #[trigger]
                self@.dom().contains(uid) && is_retryable(self@[uid].state) ==> exists|i: int|
                    0 <= i < r@.len() && (#[trigger] r@[i])@ == uid,
            forall|i: int|
                0 <= i < r@.len() ==> self@.dom().contains((#[trigger] r@[i])@) && is_retryable(
                    self@[r@[i]@].state,
                ),
            forall|i: int, j: int|
                #![trigger r@[i], r@[j]]
                0 <= i < j < r@.len() ==> r@[i]@ != r@[j]@,
    {
        let all: &Vec<(WorkloadUid, PodFirewallState)> = self.pods.entries();
        let mut out: Vec<WorkloadUid> = Vec::new();
        let mut i: usize = 0;
        while i < all.len()
            invariant
                i <= all@.len(),
                lists(all@, self@),
                forall|n: int|
                    0 <= n < i && is_retryable((#[trigger] all@[n]).1.state) ==> exists|k: int|
                        0 <= k < out@.len() && (#[trigger] out@[k])@ == all@[n].0@,
                forall|k: int|
                    0 <= k < out@.len() ==> self@.dom().contains((#[trigger] out@[k])@)
                        && is_retryable(self@[out@[k]@].state),
                forall|k: int| #![trigger out@[k]] 0 <= k < out@.len() ==> exists|n: int|
                    0 <= n < i && (#[trigger] all@[n]).0@ == out@[k]@,
                forall|a: int, b: int|
                    #![trigger out@[a], out@[b]]
                    0 <= a < b < out@.len() ==> out@[a]@ != out@[b]@,
            decreases all@.len() - i,
        {
            if retryable_state(all[i].1.state) {
                let ghost before = out@;
                out.push(all[i].0.copy());
                proof {
                    assert(self@.dom().contains(all@[i as int].0@));
                    assert(out@[before.len() as int]@ == all@[i as int].0@);
                    assert forall|k: int| #![trigger out@[k]] 0 <= k < out@.len() implies exists|
                        n: int,
                    |
                        0 <= n < i + 1 && (#[trigger] all@[n]).0@ == out@[k]@ by {
                        if k == before.len() {
                            assert(all@[i as int].0@ == out@[k]@);
                        } else {
                            assert(out@[k] == before[k]);
                            let n = choose|n: int|
                                0 <= n < i && (#[trigger] all@[n]).0@ == before[k]@;
                            assert(all@[n].0@ == out@[k]@);
                        }
                    }
                    assert forall|a: int, b: int|
                        #![trigger out@[a], out@[b]]
                        0 <= a < b < out@.len() implies out@[a]@ != out@[b]@ by {
                        assert(out@[a] == before[a]);
                        if b == before.len() {
                            let n = choose|n: int|
                                0 <= n < i && (#[trigger] all@[n]).0@ == before[a]@;
                            assert(all@[n].0.key() != all@[i as int].0.key());
                        } else {
                            assert(out@[b] == before[b]);
                        }
                    }
                    assert forall|n: int|
                        0 <= n < i + 1 && is_retryable((#[trigger] all@[n]).1.state) implies exists|
                        k: int,
                    |
                        0 <= k < out@.len() && (#[trigger] out@[k])@ == all@[n].0@ by {
                        if n < i {
                            let k = choose|k: int|
                                0 <= k < before.len() && (#[trigger] before[k])@ == all@[n].0@;
                            assert(out@[k] == before[k]);
                        }
                    }
                }
            }
            i = i + 1;
        }
        assert forall|uid: Seq<char>| #[trigger]
            self@.dom().contains(uid) && is_retryable(self@[uid].state) implies exists|k: int|
            0 <= k < out@.len() && (#[trigger] out@[k])@ == uid by {
            let n = choose|n: int| 0 <= n < all@.len() && (#[trigger] all@[n]).0.key() == uid;
            assert(all@[n].0@ == uid);
        }
        out
    }

    /// A pod that failed was tried again, with this outcome. One that failed again is
    /// counted; a pod that is gone, or no longer failed, is left as it is.
    pub fn retry_finished(&mut self, uid: &WorkloadUid, outcome: InitOutcome)
        ensures
            final(self)@ == after_retrying(old(self)@, uid@, outcome),
    {
        let retries: u8 = match self.pods.get(uid) {
            Some(pod) => match pod.state {
                PodState::InitFailed { retries } => retries,
                _ => MAX_INIT_RETRIES,
            },
            None => MAX_INIT_RETRIES,
        };
        if retries >= MAX_INIT_RETRIES {
            return;
        }
        let ghost start = self.pods@;
        if let Some(pod) = self.pods.remove(uid) {
            let (state, hash): (PodState, Option<u64>) = try_init_and_apply(outcome);
            let next: PodFirewallState = match state {
                PodState::InitFailed { .. } => PodFirewallState {
                    netns: pod.netns,
                    workload_info: pod.workload_info,
                    applied_hash: pod.applied_hash,
                    state: PodState::InitFailed { retries: retries + 1 },
                },
                _ => PodFirewallState {
                    netns: pod.netns,
                    workload_info: pod.workload_info,
                    applied_hash: hash,
                    state,
                },
            };
            self.pods.insert(uid.copy(), next);
            assert(start.remove(uid@).insert(uid@, next) =~= start.insert(uid@, next));
        }
    }

    /// How many pods are in each state.
    pub fn sync_pod_metrics(&self) -> (r: PodCounts)
        ensures
            exists|entries: Seq<(WorkloadUid, PodFirewallState)>| #[trigger]
                lists(entries, self@) && counted(entries) == (
                    r.enrolled as nat,
                    r.pending as nat,
                    r.init_failed as nat,
                ),
    {
        let all: &Vec<(WorkloadUid, PodFirewallState)> = self.pods.entries();
        let mut enrolled: usize = 0;
        let mut pending: usize = 0;
        let mut init_failed: usize = 0;
        let mut i: usize = 0;
        assert(all@.take(0) =~= Seq::empty());
        while i < all.len()
            invariant
                i <= all@.len(),
                enrolled + pending + init_failed == i,
                counted(all@.take(i as int)) == (
                    enrolled as nat,
                    pending as nat,
                    init_failed as nat,
                ),
            decreases all@.len() - i,
        {
            assert(all@.take(i + 1).drop_last() =~= all@.take(i as int));
            match all[i].1.state {
                PodState::Enrolled => {
                    enrolled = enrolled + 1;
                },
                PodState::PendingWorkload => {
                    pending = pending + 1;
                },
                PodState::InitFailed { .. } => {
                    init_failed = init_failed + 1;
                },
            }
            i = i + 1;
        }
        assert(all@.take(i as int) =~= all@);
        assert(lists(all@, self@));
        PodCounts { enrolled, pending, init_failed }
    }
}

/// A pod that failed, after it was tried again.
pub open spec fn after_retry(pod: PodFirewallState, outcome: InitOutcome) -> PodFirewallState {
    match after_init(outcome).0 {
        PodState::InitFailed { .. } => PodFirewallState {
            state: PodState::InitFailed {
                retries: (pod.state->retries + 1) as u8,
            },
            ..pod
        },
        state => PodFirewallState { applied_hash: after_init(outcome).1, state, ..pod },
    }
}

/// A pod that keeps failing is tried again at most so many times.
pub proof fn law_retries_end(pod: PodFirewallState, outcome: InitOutcome)
    requires
        is_retryable(pod.state),
        after_init(outcome).0 is InitFailed,
    ensures
        after_retry(pod, outcome).state matches PodState::InitFailed { retries } && retries
            == pod.state->retries + 1 && retries <= MAX_INIT_RETRIES && (
        pod.state->retries == MAX_INIT_RETRIES - 1 ==> !is_retryable(
            after_retry(pod, outcome).state,
        )),
{
}

proof fn lemma_count_sums(entries: Seq<(WorkloadUid, PodFirewallState)>)
    ensures
        counted(entries).0 + counted(entries).1 + counted(entries).2 == entries.len(),
    decreases entries.len(),
{
    if entries.len() > 0 {
        lemma_count_sums(entries.drop_last());
    }
}

/// Every pod is counted once.
pub proof fn law_every_pod_is_counted(
    entries: Seq<(WorkloadUid, PodFirewallState)>,
    pods: Map<Seq<char>, PodFirewallState>,
)
    requires
        lists(entries, pods),
    ensures
        counted(entries).0 + counted(entries).1 + counted(entries).2 == pods.dom().len(),
{
    lemma_count_sums(entries);
}

/// The controller stops exactly where the proxy does, or where no more pods or no more
/// news of policies will come.
pub proof fn law_controller_stops_with_the_proxy(event: LoopEvent, retryable: bool)
    ensures
        next_step(event, retryable) is Stop <==> {
            ||| event is Drain
            ||| event == LoopEvent::Pod(None)
            ||| event == (LoopEvent::Policies { closed: true })
        },
{
}

/// A pod that comes is added and one that goes is removed, under its own identifier.
/// Changed policies are waited for, changed workloads have the pods written that waited
/// for them, and what failed is tried again in time, where there is any.
pub proof fn law_events_are_acted_on(event: LoopEvent, retryable: bool)
    ensures
        match event {
            LoopEvent::Pod(Some(FirewallEvent::AddPod { uid, info, netns })) => next_step(
                event,
                retryable,
            ) matches LoopStep::Add { uid: u, info: i, netns: n } && u == uid && i == info && n
                == netns,
            LoopEvent::Pod(Some(FirewallEvent::RemovePod { uid })) => next_step(event, retryable)
                matches LoopStep::Remove { uid: u } && u == uid,
            _ => next_step(event, retryable) !is Add && next_step(event, retryable) !is Remove,
        },
        next_step(event, retryable) is Debounce <==> event == (LoopEvent::Policies {
            closed: false,
        }),
        next_step(event, retryable) is RebuildPending <==> event is Workloads,
        next_step(event, retryable) is Retry <==> event is Tick && retryable,
        next_step(event, retryable) is Nothing <==> event is Tick && !retryable,
{
}

/// A pod has its rules exactly where they were written, and by their number only then;
/// it waits where its workload is not known, and failed otherwise.
pub proof fn law_pod_has_what_was_written(outcome: InitOutcome)
    ensures
        after_init(outcome).0 is Enrolled <==> outcome is Wrote,
        after_init(outcome).0 is PendingWorkload <==> outcome is UnknownWorkload,
        after_init(outcome).0 is InitFailed <==> outcome is Failed || outcome is NotWritten,
        after_init(outcome).1 == (match outcome {
            InitOutcome::Wrote(hash) => Some(hash),
            _ => None,
        }),
        after_init(outcome).0 matches PodState::InitFailed { retries } ==> retries == 0,
{
}

/// A pod is tried again exactly where it failed and was tried again fewer than five
/// times. The trial keeps the pod and its network namespace: one more failure is
/// counted and leaves the rules in force, and a success is as for a pod that comes.
pub proof fn law_failed_pods_are_tried_again(pod: PodFirewallState, outcome: InitOutcome)
    ensures
        is_retryable(pod.state) <==> pod.state is InitFailed && pod.state->retries < 5,
        is_retryable(pod.state) ==> {
            let after = after_retry(pod, outcome);
            &&& after.netns == pod.netns
            &&& after.workload_info == pod.workload_info
            &&& outcome is Failed || outcome is NotWritten ==> after.applied_hash
                == pod.applied_hash && after.state is InitFailed && after.state->retries
                == pod.state->retries + 1
            &&& outcome matches InitOutcome::Wrote(hash) ==> after.state is Enrolled
                && after.applied_hash == Some(hash)
            &&& outcome is UnknownWorkload ==> after.state is PendingWorkload
                && after.applied_hash is None
        },
{
}

/// When policies change, all pods are written to but those that failed; when workloads
/// change, those alone that waited for theirs.
pub proof fn law_which_pods_are_written_to(state: PodState)
    ensures
        wants_rules(state, false) <==> state is Enrolled || state is PendingWorkload,
        wants_rules(state, true) <==> state is PendingWorkload,
{
}

/// The pods in each state are counted by it: one more pod in a state is one more there
/// and as many elsewhere.
pub proof fn law_pods_are_counted_by_state(
    entries: Seq<(WorkloadUid, PodFirewallState)>,
    one: (WorkloadUid, PodFirewallState),
)
    ensures
        ({
            let a = counted(entries);
            let b = counted(entries.push(one));
            &&& b.0 == a.0 + if one.1.state is Enrolled {
                1nat
            } else {
                0
            }
            &&& b.1 == a.1 + if one.1.state is PendingWorkload {
                1nat
            } else {
                0
            }
            &&& b.2 == a.2 + if one.1.state is InitFailed {
                1nat
            } else {
                0
            }
        }),
        counted(Seq::<(WorkloadUid, PodFirewallState)>::empty()) == (0nat, 0nat, 0nat),
{
    assert(entries.push(one).drop_last() =~= entries);
}

/// The path names the process and the network namespace by their numbers, each behind
/// the word for it.
pub proof fn law_path_of_a_namespace(pid: u32, fd: i32)
    requires
        fd >= 0,
    ensures
        split(netns_path_text(pid, fd), '/') == seq![
            ""@,
            "proc"@,
            decimal(pid as nat),
            "fd"@,
            decimal(fd as nat),
        ],
{
    reveal_strlit("");
    reveal_strlit("/proc/");
    reveal_strlit("proc");
    reveal_strlit("/fd/");
    reveal_strlit("fd");
    let slash = seq!['/'];
    let p = decimal(pid as nat);
    let n = decimal(fd as nat);
    law_decimal_reads_back(pid as nat);
    law_decimal_reads_back(fd as nat);
    assert(!p.contains('/'));
    assert(!n.contains('/'));
    let b = ""@ + slash + "proc"@;
    let c = b + slash + p;
    let d = c + slash + "fd"@;
    let e = d + slash + n;
    assert(e =~= netns_path_text(pid, fd));
    law_split_of_one(""@, '/');
    law_split_of_one("proc"@, '/');
    law_split_of_one(p, '/');
    law_split_of_one("fd"@, '/');
    law_split_of_one(n, '/');
    law_split_of_two(""@, "proc"@, '/');
    law_split_of_two(b, p, '/');
    law_split_of_two(c, "fd"@, '/');
    law_split_of_two(d, n, '/');
    assert(split(e, '/') =~= seq![""@, "proc"@, p, "fd"@, n]);
}

/// Rules that were written are on record for the pod that they were written to, which is
/// enrolled from then on; rules that could not be written, or whose pod is gone, change
/// nothing. No other pod has a part in it, and the pod keeps its namespace and workload.
pub proof fn law_written_rules_are_on_record(
    pods: Map<Seq<char>, PodFirewallState>,
    uid: Seq<char>,
    hash: u64,
    success: bool,
    other: Seq<char>,
)
    ensures
        ({
            let after = after_writing(pods, uid, hash, success);
            &&& after.dom() == pods.dom()
            &&& other != uid ==> after[other] == pods[other]
            &&& !success ==> after == pods
            &&& success && pods.dom().contains(uid) ==> {
                &&& after[uid].applied_hash == Some(hash)
                &&& after[uid].state is Enrolled
                &&& after[uid].netns == pods[uid].netns
                &&& after[uid].workload_info == pods[uid].workload_info
            }
        }),
{
    if success && pods.dom().contains(uid) {
        assert(after_writing(pods, uid, hash, success).dom() =~= pods.dom());
    }
}

/// A pod that is announced again in the namespace that it had is left as it is. Any other
/// is set up anew: what was known of it is handed back and forgotten, and all other pods
/// stay as they are.
pub proof fn law_announced_pods(
    pods: Map<Seq<char>, PodFirewallState>,
    uid: Seq<char>,
    netns: u64,
    after: Map<Seq<char>, PodFirewallState>,
    step: AddStep,
    other: Seq<char>,
)
    requires
        is_added(pods, uid, netns, after, step),
        other != uid,
    ensures
        step is Skip <==> pods.dom().contains(uid) && pods[uid].netns == netns,
        step is Skip ==> after == pods,
        step matches AddStep::Init { replaced } ==> {
            &&& !after.dom().contains(uid)
            &&& replaced is Some <==> pods.dom().contains(uid)
            &&& replaced matches Some(pod) ==> pod == pods[uid]
        },
        after.dom().contains(other) <==> pods.dom().contains(other),
        pods.dom().contains(other) ==> after[other] == pods[other],
{
}

/// Only a pod whose setting up failed, and that can be tried again, changes by being tried
/// again. A pod that is set up is known from then on, whatever came of it, with the
/// namespace and the workload that it was announced with. No other pod has a part in
/// either.
pub proof fn law_setting_up_is_on_record(
    pods: Map<Seq<char>, PodFirewallState>,
    uid: Seq<char>,
    info: WorkloadInfo,
    netns: u64,
    outcome: InitOutcome,
    other: Seq<char>,
)
    ensures
        ({
            let again = after_retrying(pods, uid, outcome);
            &&& again.dom() == pods.dom()
            &&& other != uid ==> again[other] == pods[other]
            &&& !pods.dom().contains(uid) || !is_retryable(pods[uid].state) ==> again == pods
            &&& pods.dom().contains(uid) && is_retryable(pods[uid].state) ==> again[uid]
                == after_retry(pods[uid], outcome)
        }),
        ({
            let after = after_setting_up(pods, uid, info, netns, outcome);
            &&& after.dom() == pods.dom().insert(uid)
            &&& other != uid ==> after[other] == pods[other]
            &&& after[uid].netns == netns
            &&& after[uid].workload_info == info
            &&& after[uid].state == after_init(outcome).0
            &&& after[uid].applied_hash == after_init(outcome).1
        }),
{
    assert(after_retrying(pods, uid, outcome).dom() =~= pods.dom());
}

} // verus!
