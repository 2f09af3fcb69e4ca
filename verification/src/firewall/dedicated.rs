//! The firewall of the one workload that the proxy serves: when its rules are put in
//! force, replaced and taken back.

use vstd::prelude::*;

use super::backend::{built, Backend, BackendBuilder, BackendConfig, BuilderModel};
use super::convert::{
    are_rules_for, is_known, is_resolution, is_up_to_date, resolve_workload_firewall,
};
use super::detect::FirewallBackend;
use super::types::RuleSet;
use crate::state::store::ProxyState;
use crate::state::workload::WorkloadInfo;
use crate::time::Debouncer;

verus! {

/// How many nanoseconds policies have to be quiet before rules are replaced: a tenth
/// of a second.
pub const DEFAULT_FIREWALL_DEBOUNCE_INTERVAL: u64 = 100_000_000;

/// How many nanoseconds the replacing of rules is put off at most: one second.
pub const DEFAULT_FIREWALL_MAX_DEBOUNCE_TIME: u64 = 1_000_000_000;

/// How a wait for quiet policies ended.
#[derive(Clone, Copy, Debug, PartialEq, Eq, Structural)]
pub enum DebounceResult {
    /// The time is up.
    Ready,
    /// The proxy stops.
    Draining,
    /// No more news of policies will come.
    Closed,
}

/// What happens during a wait for quiet policies. Times are numbers of nanoseconds
/// on one clock.
#[derive(Clone, Copy, Debug, PartialEq, Eq, Structural)]
pub enum DebounceEvent {
    Drain,
    Changed { now: u64 },
    Closed,
    Deadline,
}

/// How a wait for quiet policies ends, if this ends it.
pub open spec fn debounce_result(event: DebounceEvent) -> Option<DebounceResult> {
    match event {
        DebounceEvent::Drain => Some(DebounceResult::Draining),
        DebounceEvent::Changed { .. } => None,
        DebounceEvent::Closed => Some(DebounceResult::Closed),
        DebounceEvent::Deadline => Some(DebounceResult::Ready),
    }
}

/// Whether a change at this time can be waited after.
pub open spec fn in_time(event: DebounceEvent, interval: u64) -> bool {
    event matches DebounceEvent::Changed { now } ==> now + interval <= u64::MAX
}

/// Takes note of what happens during a wait for quiet policies, and says how the wait
/// ends, if it does. A change starts the quiet interval again.
pub fn wait_for_policy_debounce(debouncer: &mut Debouncer, event: DebounceEvent) -> (r: Option<
    DebounceResult,
>)
    requires
        in_time(event, old(debouncer).interval()),
    ensures
        r == debounce_result(event),
        match event {
            DebounceEvent::Changed { now } => old(debouncer).extended(now, *final(debouncer)),
            _ => *final(debouncer) == *old(debouncer),
        },
{
    match event {
        DebounceEvent::Drain => Some(DebounceResult::Draining),
        DebounceEvent::Changed { now } => {
            debouncer.extend(now);
            None
        },
        DebounceEvent::Closed => Some(DebounceResult::Closed),
        DebounceEvent::Deadline => Some(DebounceResult::Ready),
    }
}

/// What the controller waits for.
#[derive(Clone, Copy, Debug)]
pub enum Phase {
    /// The backend is set up.
    Starting,
    /// Rules with this number are written.
    Applying { hash: u64 },
    /// Policies change.
    Idle,
    /// Policies are quiet.
    Debouncing(Debouncer),
    /// Nothing: it has stopped.
    Stopped,
}

/// What happens to the controller.
#[derive(Clone, Copy, Debug, PartialEq, Eq, Structural)]
pub enum Event {
    /// The backend was set up, or not.
    Initialized { success: bool },
    /// The rules were written, or not.
    Applied { success: bool },
    /// The proxy stops, policies change or will not change any more, or the time is
    /// up.
    Policy(DebounceEvent),
}

/// What the controller asks for.
#[derive(Debug)]
pub enum Action {
    /// These rules are to be written.
    Apply(RuleSet),
    /// The next event, whenever it comes.
    Wait,
    /// The next event, or the end of the time.
    WaitUntil(u64),
    /// All rules are to be taken back; it has stopped.
    Cleanup,
    /// Nothing: it has stopped.
    Stop,
}

/// The controller of the firewall of one workload.
pub struct FirewallController {
    backend: Backend,
    workload_info: WorkloadInfo,
    debounce_interval: u64,
    max_debounce_time: u64,
    applied_hash: Option<u64>,
    phase: Phase,
}

/// What the controller knows.
pub struct ControllerModel {
    pub backend: BackendConfig,
    pub workload_info: WorkloadInfo,
    pub debounce_interval: u64,
    pub max_debounce_time: u64,
    /// The number of the rules in force.
    pub applied_hash: Option<u64>,
    pub phase: Phase,
}

impl View for FirewallController {
    type V = ControllerModel;

    closed spec fn view(&self) -> ControllerModel {
        ControllerModel {
            backend: self.backend@,
            workload_info: self.workload_info,
            debounce_interval: self.debounce_interval,
            max_debounce_time: self.max_debounce_time,
            applied_hash: self.applied_hash,
            phase: self.phase,
        }
    }
}

/// Whether rules are looked up for the event.
pub open spec fn looks_up(phase: Phase, event: Event) -> bool {
    match (phase, event) {
        (Phase::Starting, Event::Initialized { success }) => success,
        (Phase::Debouncing(_), Event::Policy(DebounceEvent::Deadline)) => true,
        _ => false,
    }
}

/// Whether the clock can tell the times that the event leads to.
pub open spec fn clock_fits(model: ControllerModel, event: Event) -> bool {
    event matches Event::Policy(DebounceEvent::Changed { now }) ==> {
        &&& now + model.debounce_interval <= u64::MAX
        &&& now + model.max_debounce_time <= u64::MAX
        &&& model.phase matches Phase::Debouncing(d) ==> now + d.interval() <= u64::MAX
    }
}

/// The controller once rules were looked up.
pub open spec fn with_rules(model: ControllerModel, found: Option<(RuleSet, u64)>) -> (
    ControllerModel,
    Action,
) {
    match found {
        Some((rules, hash)) => (
            ControllerModel { phase: Phase::Applying { hash }, ..model },
            Action::Apply(rules),
        ),
        None => (ControllerModel { phase: Phase::Idle, ..model }, Action::Wait),
    }
}

/// Whether this is how the controller goes on after an event, with the rules that
/// were looked up for it. An event that it does not wait for changes nothing.
pub open spec fn goes_on(
    before: ControllerModel,
    event: Event,
    found: Option<(RuleSet, u64)>,
    after: ControllerModel,
    action: Action,
) -> bool {
    match (before.phase, event) {
        (Phase::Starting, Event::Initialized { success }) => if success {
            (after, action) == with_rules(before, found)
        } else {
            after == (ControllerModel { phase: Phase::Stopped, ..before }) && action == Action::Stop
        },
        (Phase::Applying { hash }, Event::Applied { success }) => {
            &&& after == (ControllerModel {
                phase: Phase::Idle,
                applied_hash: if success {
                    Some(hash)
                } else {
                    before.applied_hash
                },
                ..before
            })
            &&& action == Action::Wait
        },
        (Phase::Idle, Event::Policy(DebounceEvent::Drain)) | (
            Phase::Debouncing(_),
            Event::Policy(DebounceEvent::Drain),
        ) => after == (ControllerModel { phase: Phase::Stopped, ..before }) && action
            == Action::Cleanup,
        (Phase::Idle, Event::Policy(DebounceEvent::Closed)) | (
            Phase::Debouncing(_),
            Event::Policy(DebounceEvent::Closed),
        ) => after == (ControllerModel { phase: Phase::Stopped, ..before }) && action
            == Action::Stop,
        (Phase::Idle, Event::Policy(DebounceEvent::Changed { now })) => {
            &&& after.phase matches Phase::Debouncing(d) && d.started(
                now,
                before.debounce_interval,
                before.max_debounce_time,
            ) && action == Action::WaitUntil(d.spec_deadline())
            &&& after == (ControllerModel { phase: after.phase, ..before })
        },
        (Phase::Debouncing(d), Event::Policy(DebounceEvent::Changed { now })) => {
            &&& after.phase matches Phase::Debouncing(e) && d.extended(now, e) && action
                == Action::WaitUntil(e.spec_deadline())
            &&& after == (ControllerModel { phase: after.phase, ..before })
        },
        (Phase::Debouncing(_), Event::Policy(DebounceEvent::Deadline)) => (after, action)
            == with_rules(before, found),
        (Phase::Debouncing(d), _) => after == before && action == Action::WaitUntil(
            d.spec_deadline(),
        ),
        (Phase::Stopped, _) => after == before && action == Action::Stop,
        _ => after == before && action == Action::Wait,
    }
}

impl FirewallController {
    /// The controller of the workload, with the usual times.
    pub fn new(detected: FirewallBackend, workload_info: WorkloadInfo) -> (r: Self)
        ensures
            r@.backend == built(
                (BuilderModel {
                    detected,
                    netns_path: None,
                    proxy_mark: None,
                    dns_proxy: false,
                    workload: Some(workload_info@),
                }),
            ),
            r@.workload_info == workload_info,
            r@.debounce_interval == DEFAULT_FIREWALL_DEBOUNCE_INTERVAL,
            r@.max_debounce_time == DEFAULT_FIREWALL_MAX_DEBOUNCE_TIME,
            r@.debounce_interval == 100_000_000 && r@.max_debounce_time == 1_000_000_000,
            r@.applied_hash is None,
            r@.phase == Phase::Starting,
    {
        Self::new_with_debounce(
            detected,
            workload_info,
            DEFAULT_FIREWALL_DEBOUNCE_INTERVAL,
            DEFAULT_FIREWALL_MAX_DEBOUNCE_TIME,
        )
    }

    /// The controller of the workload, with these times.
    pub fn new_with_debounce(
        detected: FirewallBackend,
        workload_info: WorkloadInfo,
        debounce_interval: u64,
        max_debounce_time: u64,
    ) -> (r: Self)
        ensures
            r@.backend == built(
                (BuilderModel {
                    detected,
                    netns_path: None,
                    proxy_mark: None,
                    dns_proxy: false,
                    workload: Some(workload_info@),
                }),
            ),
            r@.workload_info == workload_info,
            r@.debounce_interval == debounce_interval,
            r@.max_debounce_time == max_debounce_time,
            r@.applied_hash is None,
            r@.phase == Phase::Starting,
    {
        let backend: Backend = BackendBuilder::new(detected).with_workload_info(
            &workload_info,
        ).build();
        FirewallController {
            backend,
            workload_info,
            debounce_interval,
            max_debounce_time,
            applied_hash: None,
            phase: Phase::Starting,
        }
    }

    /// What writes the rules.
    pub fn backend(&self) -> (r: &Backend)
        ensures
            r@ == self@.backend,
    {
        &self.backend
    }

    /// What the controller waits for.
    pub fn phase(&self) -> (r: Phase)
        ensures
            r == self@.phase,
    {
        self.phase
    }

    fn take_rules(&mut self, found: Option<(RuleSet, u64)>) -> (r: Action)
        ensures
            (final(self)@, r) == with_rules(old(self)@, found),
    {
        match found {
            Some((rules, hash)) => {
                self.phase = Phase::Applying { hash };
                Action::Apply(rules)
            },
            None => {
                self.phase = Phase::Idle;
                Action::Wait
            },
        }
    }

    /// How the controller goes on after an event, with the rules that were looked up
    /// for it.
    pub fn advance(&mut self, event: Event, found: Option<(RuleSet, u64)>) -> (r: Action)
        requires
            clock_fits(old(self)@, event),
        ensures
            goes_on(old(self)@, event, found, final(self)@, r),
    {
        match (self.phase, event) {
            (Phase::Starting, Event::Initialized { success }) => if success {
                self.take_rules(found)
            } else {
                self.phase = Phase::Stopped;
                Action::Stop
            },
            (Phase::Applying { hash }, Event::Applied { success }) => {
                if success {
                    self.applied_hash = Some(hash);
                }
                self.phase = Phase::Idle;
                Action::Wait
            },
            (Phase::Idle, Event::Policy(event)) => match event {
                DebounceEvent::Drain => {
                    self.phase = Phase::Stopped;
                    Action::Cleanup
                },
                DebounceEvent::Closed => {
                    self.phase = Phase::Stopped;
                    Action::Stop
                },
                DebounceEvent::Changed { now } => {
                    let debouncer: Debouncer = Debouncer::new(
                        now,
                        self.debounce_interval,
                        self.max_debounce_time,
                    );
                    self.phase = Phase::Debouncing(debouncer);
                    Action::WaitUntil(debouncer.deadline())
                },
                DebounceEvent::Deadline => Action::Wait,
            },
            (Phase::Debouncing(debouncer), Event::Policy(event)) => {
                let mut debouncer: Debouncer = debouncer;
                match wait_for_policy_debounce(&mut debouncer, event) {
                    None => {
                        self.phase = Phase::Debouncing(debouncer);
                        Action::WaitUntil(debouncer.deadline())
                    },
                    Some(DebounceResult::Ready) => self.take_rules(found),
                    Some(DebounceResult::Draining) => {
                        self.phase = Phase::Stopped;
                        Action::Cleanup
                    },
                    Some(DebounceResult::Closed) => {
                        self.phase = Phase::Stopped;
                        Action::Stop
                    },
                }
            },
            (Phase::Debouncing(debouncer), _) => Action::WaitUntil(debouncer.deadline()),
            (Phase::Stopped, _) => Action::Stop,
            _ => Action::Wait,
        }
    }

    /// How the controller goes on after an event, by what the proxy knows. Rules are
    /// looked up when the backend was set up and when policies have been quiet; they
    /// are written only where they are not those in force.
    pub fn run(&mut self, state: &ProxyState, event: Event) -> (r: Action)
        requires
            clock_fits(old(self)@, event),
        ensures
            exists|found: Option<(RuleSet, u64)>|
                {
                    &&& #[trigger] goes_on(old(self)@, event, found, final(self)@, r)
                    &&& looks_up(old(self)@.phase, event) ==> is_resolution(
                        found,
                        *state,
                        old(self)@.workload_info,
                        old(self)@.applied_hash,
                    )
                },
    {
        let needed: bool = match (self.phase, event) {
            (Phase::Starting, Event::Initialized { success }) => success,
            (Phase::Debouncing(_), Event::Policy(DebounceEvent::Deadline)) => true,
            _ => false,
        };
        let found: Option<(RuleSet, u64)> = if needed {
            resolve_workload_firewall(state, &self.workload_info, self.applied_hash)
        } else {
            None
        };
        let ghost looked_up = found;
        let action: Action = self.advance(event, found);
        assert(goes_on(old(self)@, event, looked_up, self@, action));
        action
    }
}

/// A controller that has stopped stays so.
pub proof fn law_stopped_is_final(
    before: ControllerModel,
    event: Event,
    found: Option<(RuleSet, u64)>,
    after: ControllerModel,
    action: Action,
)
    requires
        before.phase is Stopped,
        goes_on(before, event, found, after, action),
    ensures
        after == before,
        action == Action::Stop,
{
}

/// The rules in force are forgotten only for others: the number of the rules in force
/// changes only when rules were written, and then to theirs.
pub proof fn law_only_written_rules_are_in_force(
    before: ControllerModel,
    event: Event,
    found: Option<(RuleSet, u64)>,
    after: ControllerModel,
    action: Action,
)
    requires
        goes_on(before, event, found, after, action),
    ensures
        after.applied_hash != before.applied_hash ==> {
            &&& event == (Event::Applied { success: true })
            &&& before.phase matches Phase::Applying { hash } && after.applied_hash == Some(hash)
        },
{
}

/// Policies that changed are enforced: once they have been quiet, the rules of the
/// workload are written, unless they are those in force.
pub proof fn law_changed_rules_are_written(
    before: ControllerModel,
    event: Event,
    found: Option<(RuleSet, u64)>,
    after: ControllerModel,
    action: Action,
    state: ProxyState,
)
    requires
        goes_on(before, event, found, after, action),
        looks_up(before.phase, event),
        is_resolution(found, state, before.workload_info, before.applied_hash),
        is_known(state, before.workload_info),
        !is_up_to_date(state, before.workload_info, before.applied_hash),
    ensures
        action matches Action::Apply(rules) && after.phase matches Phase::Applying { hash }
            && are_rules_for(rules, hash, state, before.workload_info),
{
}

/// Rules that are in force already are not written again.
pub proof fn law_rules_in_force_are_not_rewritten(
    before: ControllerModel,
    event: Event,
    found: Option<(RuleSet, u64)>,
    after: ControllerModel,
    action: Action,
    state: ProxyState,
)
    requires
        goes_on(before, event, found, after, action),
        looks_up(before.phase, event) ==> is_resolution(
            found,
            state,
            before.workload_info,
            before.applied_hash,
        ),
        action is Apply,
    ensures
        looks_up(before.phase, event),
        after.phase matches Phase::Applying { hash } && before.applied_hash != Some(hash),
{
}

/// However often policies change, a wait for quiet policies ends no later than at its
/// first deadline.
pub proof fn law_waits_are_bounded(
    before: ControllerModel,
    event: Event,
    found: Option<(RuleSet, u64)>,
    after: ControllerModel,
    action: Action,
    d: Debouncer,
    e: Debouncer,
)
    requires
        before.phase == Phase::Debouncing(d),
        after.phase == Phase::Debouncing(e),
        goes_on(before, event, found, after, action),
    ensures
        e.spec_max_deadline() == d.spec_max_deadline(),
        action matches Action::WaitUntil(time) && time <= d.spec_max_deadline(),
{
    crate::time::law_deadline_is_bounded(e);
}

/// Nothing that happens changes the workload, what writes its rules, or the times.
pub proof fn law_settings_stay(
    before: ControllerModel,
    event: Event,
    found: Option<(RuleSet, u64)>,
    after: ControllerModel,
    action: Action,
)
    requires
        goes_on(before, event, found, after, action),
    ensures
        after.backend == before.backend,
        after.workload_info == before.workload_info,
        after.debounce_interval == before.debounce_interval,
        after.max_debounce_time == before.max_debounce_time,
{
}

/// Rules are taken back exactly where the proxy stops while policies are in force or
/// waited for, and the controller stops with it. Where no more news of policies will
/// come it stops and the rules stay, and a backend that was not set up stops it too.
pub proof fn law_rules_are_taken_back_when_the_proxy_stops(
    before: ControllerModel,
    event: Event,
    found: Option<(RuleSet, u64)>,
    after: ControllerModel,
    action: Action,
)
    requires
        goes_on(before, event, found, after, action),
    ensures
        action is Cleanup <==> event == Event::Policy(DebounceEvent::Drain) && (before.phase is Idle
            || before.phase is Debouncing),
        event == Event::Policy(DebounceEvent::Closed) && (before.phase is Idle || before.phase
            is Debouncing) ==> action is Stop,
        before.phase is Starting && event == (Event::Initialized { success: false }) ==> action
            is Stop,
        action is Cleanup || action is Stop ==> after.phase is Stopped,
        after.phase is Stopped ==> action is Cleanup || action is Stop,
{
}

/// Rules that were written are in force by their number from there on, and those that
/// were not leave what was in force; either way policies are watched again.
pub proof fn law_written_rules_are_in_force(
    before: ControllerModel,
    hash: u64,
    success: bool,
    found: Option<(RuleSet, u64)>,
    after: ControllerModel,
    action: Action,
)
    requires
        before.phase == (Phase::Applying { hash }),
        goes_on(before, (Event::Applied { success }), found, after, action),
    ensures
        success ==> after.applied_hash == Some(hash),
        !success ==> after.applied_hash == before.applied_hash,
        after.phase is Idle,
        action is Wait,
{
}

/// Rules are looked up when the backend was set up and when policies have been quiet for
/// long enough, and at no other time; what was found is written, and where nothing was
/// found policies are watched.
pub proof fn law_rules_are_looked_up_in_time(
    before: ControllerModel,
    event: Event,
    found: Option<(RuleSet, u64)>,
    after: ControllerModel,
    action: Action,
)
    requires
        goes_on(before, event, found, after, action),
    ensures
        looks_up(before.phase, event) <==> {
            ||| before.phase is Starting && event == (Event::Initialized { success: true })
            ||| before.phase is Debouncing && event == Event::Policy(DebounceEvent::Deadline)
        },
        looks_up(before.phase, event) && found is Some ==> action == Action::Apply(
            found.unwrap().0,
        ) && after.phase == (Phase::Applying { hash: found.unwrap().1 }),
        looks_up(before.phase, event) && found is None ==> action is Wait && after.phase is Idle,
        action is Apply ==> looks_up(before.phase, event) && found is Some,
{
}

/// Policies that change are waited for: until they have been quiet for the interval or
/// the longest time has passed, counted from the first change.
pub proof fn law_changes_are_waited_for(
    before: ControllerModel,
    now: u64,
    found: Option<(RuleSet, u64)>,
    after: ControllerModel,
    action: Action,
)
    requires
        goes_on(before, Event::Policy(DebounceEvent::Changed { now }), found, after, action),
        before.phase is Idle,
    ensures
        after.phase matches Phase::Debouncing(d) && d.spec_max_deadline() == now
            + before.max_debounce_time && d.interval() == before.debounce_interval,
        action matches Action::WaitUntil(time) && time <= now + before.debounce_interval && time
            <= now + before.max_debounce_time && (time == now + before.debounce_interval || time
            == now + before.max_debounce_time),
{
}

/// A change during a wait starts the quiet interval again, under the same last deadline.
pub proof fn law_changes_prolong_the_wait(
    before: ControllerModel,
    d: Debouncer,
    now: u64,
    found: Option<(RuleSet, u64)>,
    after: ControllerModel,
    action: Action,
)
    requires
        goes_on(before, Event::Policy(DebounceEvent::Changed { now }), found, after, action),
        before.phase == Phase::Debouncing(d),
    ensures
        after.phase is Debouncing,
        action matches Action::WaitUntil(time) && time <= now + d.interval() && time
            <= d.spec_max_deadline() && (time == now + d.interval() || time
            == d.spec_max_deadline()),
{
}

/// A wait for quiet policies ends where the time is up, the proxy stops or no more news
/// will come, and says which; a change does not end it.
pub proof fn law_ends_of_a_wait(event: DebounceEvent)
    ensures
        debounce_result(event) == Some(DebounceResult::Ready) <==> event is Deadline,
        debounce_result(event) == Some(DebounceResult::Draining) <==> event is Drain,
        debounce_result(event) == Some(DebounceResult::Closed) <==> event is Closed,
        debounce_result(event) is None <==> event is Changed,
{
}

} // verus!
