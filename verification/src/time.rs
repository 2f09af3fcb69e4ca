//! Points in time as numbers of nanoseconds.

use vstd::prelude::*;

verus! {

/// The first point in time that can be told.
pub const MIN_NANOS: i128 = -9223372036854775808000000000;

/// The last point in time that can be told.
pub const MAX_NANOS: i128 = 9223372036854775807999999999;

/// Whether the point in time can be told.
pub open spec fn can_tell(nanos: int) -> bool {
    MIN_NANOS <= nanos <= MAX_NANOS
}

/// A point on the clock that never goes back.
#[derive(Clone, Copy, Debug, PartialEq, Eq, PartialOrd, Ord, Hash, Structural)]
pub struct Instant {
    nanos: i128,
}

/// A point on the clock that shows the time of day; zero is its epoch.
#[derive(Clone, Copy, Debug, PartialEq, Eq, PartialOrd, Ord, Hash, Structural)]
pub struct SystemTime {
    nanos: i128,
}

impl Instant {
    #[verifier::type_invariant]
    spec fn well_formed(self) -> bool {
        can_tell(self.nanos as int)
    }

    /// The point as a number.
    pub closed spec fn at(self) -> int {
        self.nanos as int
    }

    /// The point at this number, where it can be told.
    pub fn from_nanos(nanos: i128) -> (r: Option<Instant>)
        ensures
            r.is_some() == can_tell(nanos as int),
            r matches Some(t) ==> t.at() == nanos,
    {
        if MIN_NANOS <= nanos && nanos <= MAX_NANOS {
            Some(Instant { nanos })
        } else {
            None
        }
    }

    /// The point as a number.
    pub fn nanos(&self) -> (r: i128)
        ensures
            r == self.at(),
            can_tell(r as int),
    {
        proof {
            use_type_invariant(self);
        }
        self.nanos
    }
}

impl SystemTime {
    #[verifier::type_invariant]
    spec fn well_formed(self) -> bool {
        can_tell(self.nanos as int)
    }

    /// The point as a number.
    pub closed spec fn at(self) -> int {
        self.nanos as int
    }

    /// The point at this number, where it can be told.
    pub fn from_nanos(nanos: i128) -> (r: Option<SystemTime>)
        ensures
            r.is_some() == can_tell(nanos as int),
            r matches Some(t) ==> t.at() == nanos,
    {
        if MIN_NANOS <= nanos && nanos <= MAX_NANOS {
            Some(SystemTime { nanos })
        } else {
            None
        }
    }

    /// The point as a number.
    pub fn nanos(&self) -> (r: i128)
        ensures
            r == self.at(),
            can_tell(r as int),
    {
        proof {
            use_type_invariant(self);
        }
        self.nanos
    }
}

/// What both clocks show at one moment.
#[derive(Clone, Copy, Debug)]
pub struct Clock {
    pub now: Instant,
    pub sys_now: SystemTime,
}

/// Takes points on one clock to points on the other, by what both showed at one
/// moment.
#[derive(Clone, Copy, Debug)]
pub struct Converter {
    now: Instant,
    sys_now: SystemTime,
}

impl Converter {
    /// What the steady clock showed.
    pub closed spec fn base(self) -> int {
        self.now.at()
    }

    /// What the clock with the time of day showed.
    pub closed spec fn sys_base(self) -> int {
        self.sys_now.at()
    }

    /// The point on the steady clock at this time of day.
    pub open spec fn instant_at(self, sys: int) -> int {
        self.base() + (sys - self.sys_base())
    }

    /// The time of day at this point on the steady clock.
    pub open spec fn system_at(self, instant: int) -> int {
        self.sys_base() + (instant - self.base())
    }

    /// By what both clocks show.
    pub fn new(clock: Clock) -> (r: Converter)
        ensures
            r.base() == clock.now.at(),
            r.sys_base() == clock.sys_now.at(),
    {
        Self::new_at(clock.sys_now, clock.now)
    }

    /// By what the steady clock shows at this time of day.
    pub fn new_at(sys_now: SystemTime, now: Instant) -> (r: Converter)
        ensures
            r.base() == now.at(),
            r.sys_base() == sys_now.at(),
    {
        Converter { now, sys_now }
    }

    /// The point on the steady clock, where it can be told. A point so late that the
    /// steady clock cannot show it has none to go to.
    pub fn system_time_to_instant(&self, t: SystemTime) -> (r: Option<Instant>)
        requires
            self.instant_at(t.at()) <= MAX_NANOS,
        ensures
            r.is_some() == can_tell(self.instant_at(t.at())),
            r matches Some(i) ==> i.at() == self.instant_at(t.at()),
    {
        Instant::from_nanos(self.now.nanos() + (t.nanos() - self.sys_now.nanos()))
    }

    /// The point on the clock with the time of day, where it can be told.
    pub fn instant_to_system_time(&self, t: Instant) -> (r: Option<SystemTime>)
        ensures
            r.is_some() == can_tell(self.system_at(t.at())),
            r matches Some(s) ==> s.at() == self.system_at(t.at()),
    {
        SystemTime::from_nanos(self.sys_now.nanos() + (t.nanos() - self.now.nanos()))
    }

    /// How many nanoseconds have passed; none for an earlier point.
    pub fn elapsed_nanos(&self, now: Instant) -> (r: u128)
        ensures
            r == (if now.at() > self.base() {
                now.at() - self.base()
            } else {
                0
            }),
    {
        let t: i128 = now.nanos();
        let base: i128 = self.now.nanos();
        if t > base {
            (t - base) as u128
        } else {
            0
        }
    }

    /// How many nanoseconds the time of day is past a full second. A time before the
    /// epoch has none.
    pub fn subsec_nanos(&self) -> (r: u32)
        requires
            self.sys_base() >= 0,
        ensures
            r == self.sys_base() % 1_000_000_000,
    {
        (self.sys_now.nanos() % 1_000_000_000) as u32
    }
}

/// A point taken to the other clock and moved by some time comes back moved by as
/// much.
pub proof fn law_conversion_keeps_distances(converter: Converter, t: int, delay: int)
    ensures
        converter.instant_at(converter.system_at(t) + delay) == t + delay,
        converter.system_at(converter.instant_at(t) + delay) == t + delay,
{
}

/// Waits until things have been quiet for an interval, but not past a deadline.
/// Times are numbers of nanoseconds on one clock.
#[derive(Clone, Copy, Debug)]
pub struct Debouncer {
    quiet_deadline: u64,
    max_deadline: u64,
    debounce_interval: u64,
}

impl Debouncer {
    /// Until when it waits at most.
    pub closed spec fn spec_max_deadline(self) -> u64 {
        self.max_deadline
    }

    /// How long things have to be quiet.
    pub closed spec fn interval(self) -> u64 {
        self.debounce_interval
    }

    /// Until when it waits if nothing more happens.
    pub closed spec fn spec_deadline(self) -> u64 {
        if self.quiet_deadline <= self.max_deadline {
            self.quiet_deadline
        } else {
            self.max_deadline
        }
    }

    /// Whether it has just started to wait.
    pub open spec fn started(self, now: u64, interval: u64, max_time: u64) -> bool {
        &&& self.interval() == interval
        &&& self.spec_max_deadline() == now + max_time
        &&& self.spec_deadline() == (if interval <= max_time {
            now + interval
        } else {
            now + max_time
        })
    }

    /// Whether the other is this one after something happened: the interval starts
    /// again, the last deadline stays.
    pub open spec fn extended(self, now: u64, after: Debouncer) -> bool {
        &&& after.interval() == self.interval()
        &&& after.spec_max_deadline() == self.spec_max_deadline()
        &&& after.spec_deadline() == (if now + self.interval() <= self.spec_max_deadline() {
            now + self.interval()
        } else {
            self.spec_max_deadline() as int
        })
    }

    /// Starts to wait.
    pub fn new(now: u64, debounce_interval: u64, max_debounce_time: u64) -> (r: Debouncer)
        requires
            now + debounce_interval <= u64::MAX,
            now + max_debounce_time <= u64::MAX,
        ensures
            r.started(now, debounce_interval, max_debounce_time),
    {
        Debouncer {
            quiet_deadline: now + debounce_interval,
            max_deadline: now + max_debounce_time,
            debounce_interval,
        }
    }

    /// Something happened: the interval starts again, the last deadline stays.
    pub fn extend(&mut self, now: u64)
        requires
            now + old(self).interval() <= u64::MAX,
        ensures
            old(self).extended(now, *final(self)),
    {
        self.quiet_deadline = now + self.debounce_interval;
    }

    /// Until when to wait.
    pub fn deadline(&self) -> (r: u64)
        ensures
            r == self.spec_deadline(),
            r <= self.spec_max_deadline(),
    {
        if self.quiet_deadline <= self.max_deadline {
            self.quiet_deadline
        } else {
            self.max_deadline
        }
    }
}

/// No wait goes past its last deadline.
pub proof fn law_deadline_is_bounded(debouncer: Debouncer)
    ensures
        debouncer.spec_deadline() <= debouncer.spec_max_deadline(),
{
}

/// At the moment of the reading both clocks agree, and a later point on one of them is
/// as much later on the other.
pub proof fn law_clocks_run_alike(converter: Converter, delay: int)
    ensures
        converter.instant_at(converter.sys_base() + delay) == converter.base() + delay,
        converter.system_at(converter.base() + delay) == converter.sys_base() + delay,
{
}

/// A wait that starts ends when things have been quiet for the interval or the longest
/// time has passed, whichever comes first.
pub proof fn law_wait_ends_when_it_is_quiet(
    debouncer: Debouncer,
    now: u64,
    interval: u64,
    max_time: u64,
)
    requires
        debouncer.started(now, interval, max_time),
    ensures
        debouncer.spec_deadline() <= now + interval,
        debouncer.spec_deadline() <= now + max_time,
        debouncer.spec_deadline() == now + interval || debouncer.spec_deadline() == now + max_time,
        debouncer.spec_max_deadline() == now + max_time,
{
}

/// What happens during a wait makes it go on until things have been quiet for the
/// interval again, but not past the last deadline, and never makes it shorter.
pub proof fn law_events_prolong_the_wait(
    debouncer: Debouncer,
    first: u64,
    once: Debouncer,
    second: u64,
    twice: Debouncer,
)
    requires
        first <= second,
        debouncer.extended(first, once),
        once.extended(second, twice),
    ensures
        once.spec_deadline() <= first + debouncer.interval(),
        once.spec_deadline() == first + debouncer.interval() || once.spec_deadline()
            == debouncer.spec_max_deadline(),
        once.spec_deadline() <= twice.spec_deadline() <= second + debouncer.interval(),
        twice.spec_deadline() <= debouncer.spec_max_deadline(),
        twice.spec_deadline() == second + debouncer.interval() || twice.spec_deadline()
            == debouncer.spec_max_deadline(),
{
}

} // verus!
