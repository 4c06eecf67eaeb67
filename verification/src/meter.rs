//! Clocks, and the integer bookkeeping of a rate meter: its event count, its start time, and
//! when its moving averages are due to tick.
//!
//! The moving averages themselves are floating point and live outside this library; a meter
//! asks `MeterState` how many ticks are due and how many events they take in.
use vstd::prelude::*;
use vstd::wrapping::usize_specs;

verus! {

/// Microseconds per second.
pub const NUM_MICROS_PER_SEC: i64 = 1_000_000;

/// Nanoseconds per second.
pub const NUM_NANOS_PER_SEC: i64 = 1_000_000_000;

/// Nanoseconds per microsecond.
pub const NUM_NANOS_PER_MICRO: i64 = 1_000;

/// Seconds between two ticks of a meter's moving averages.
pub const TICK_INTERVAL_SECS: i64 = 5;

/// A point in time: seconds since the epoch, and nanoseconds past that second.
#[derive(Clone, Copy, Debug)]
pub struct Timespec {
    pub sec: i64,
    pub nsec: i32,
}

impl Timespec {
    /// The time `sec` seconds and `nsec` nanoseconds after the epoch.
    pub fn new(sec: i64, nsec: i32) -> (t: Timespec)
        requires
            0 <= nsec < NUM_NANOS_PER_SEC,
        ensures
            t.sec == sec,
            t.nsec == nsec,
    {
        Timespec { sec: sec, nsec: nsec }
    }
}

/// `t` in nanoseconds since the epoch.
pub open spec fn nanos_of(t: Timespec) -> int {
    t.sec * NUM_NANOS_PER_SEC + t.nsec
}

/// `nsec` nanoseconds in whole microseconds, rounded toward zero.
pub open spec fn micros_part(nsec: i32) -> int {
    let n = nsec as int;
    if n >= 0 {
        n / 1000
    } else {
        -((-n) / 1000)
    }
}

/// `t` in microseconds since the epoch (the nanoseconds rounded toward zero).
pub open spec fn micros_of(t: Timespec) -> int {
    t.sec * NUM_MICROS_PER_SEC + micros_part(t.nsec)
}

/// `t` can be counted in nanoseconds within an `i64`.
pub open spec fn nanos_fit(t: Timespec) -> bool {
    &&& i64::MIN <= t.sec * NUM_NANOS_PER_SEC <= i64::MAX
    &&& i64::MIN <= nanos_of(t) <= i64::MAX
}

/// `t` can be counted in microseconds within an `i64`.
pub open spec fn micros_fit(t: Timespec) -> bool {
    &&& i64::MIN <= t.sec * NUM_MICROS_PER_SEC <= i64::MAX
    &&& i64::MIN <= micros_of(t) <= i64::MAX
}

/// `t` in nanoseconds since the epoch.
fn nanos(t: &Timespec) -> (n: i64)
    requires
        nanos_fit(*t),
    ensures
        n == nanos_of(*t),
{
    t.sec * NUM_NANOS_PER_SEC + t.nsec as i64
}

/// `t` in microseconds since the epoch.
fn micros(t: &Timespec) -> (n: i64)
    requires
        micros_fit(*t),
    ensures
        n == micros_of(*t),
{
    t.sec * NUM_MICROS_PER_SEC + (t.nsec as i64 / NUM_NANOS_PER_MICRO)
}

/// A source of the current time.
pub trait Clock {
    /// Whether the clock can give a reading now.
    spec fn can_read(&self) -> bool;

    /// Whether the clock can give a reading now.
    fn ready(&self) -> (r: bool)
        ensures
            r == self.can_read(),
    ;

    /// The current time.
    fn get_time(&mut self) -> (t: Timespec)
        requires
            old(self).can_read(),
    ;
}

/// The system's wall clock.
///
/// Calls `time::get_time()`. Trusted: the nanoseconds are in `[0, 1_000_000_000)`, which
/// `time::Timespec::new` asserts on every reading; the reading itself is whatever the system
/// clock says.
#[verifier::external_body]
fn wall_clock_now() -> (t: Timespec)
    ensures
        0 <= t.nsec < NUM_NANOS_PER_SEC,
{
    let now = time::get_time();
    Timespec { sec: now.sec, nsec: now.nsec }
}

/// The system's real-time clock.
pub struct RealtimeClock {}

impl RealtimeClock {
    /// The real-time clock.
    pub fn new() -> (clock: RealtimeClock) {
        RealtimeClock {  }
    }
}

impl Clock for RealtimeClock {
    open spec fn can_read(&self) -> bool {
        true
    }

    fn ready(&self) -> (r: bool) {
        true
    }

    fn get_time(&mut self) -> (t: Timespec)
        ensures
            0 <= t.nsec < NUM_NANOS_PER_SEC,
    {
        wall_clock_now()
    }
}

/// A clock that gives back prepared readings, last one first.
pub struct ManualClock {
    time: Vec<Timespec>,
}

impl ManualClock {
    /// The readings still to come, the next one last.
    pub closed spec fn readings(&self) -> Seq<Timespec> {
        self.time@
    }

    /// A clock that reads `times` from the back.
    pub fn new(times: Vec<Timespec>) -> (clock: ManualClock)
        ensures
            clock.readings() == times@,
    {
        ManualClock { time: times }
    }
}

impl Clock for ManualClock {
    open spec fn can_read(&self) -> bool {
        self.readings().len() > 0
    }

    fn ready(&self) -> (r: bool) {
        self.time.len() > 0
    }

    fn get_time(&mut self) -> (t: Timespec)
        ensures
            t == old(self).readings().last(),
            final(self).readings() == old(self).readings().drop_last(),
    {
        match self.time.pop() {
            Some(t) => t,
            None => {
                assert(false);
                Timespec { sec: 0, nsec: 0 }
            },
        }
    }
}

/// The integer state of a rate meter: when it started, when its moving averages last ticked
/// (in nanoseconds), how many events it has counted, and how many events the moving averages
/// have not taken in yet.
pub struct MeterState {
    start_time: Timespec,
    last_tick: i64,
    count: usize,
    uncounted: usize,
}

impl MeterState {
    /// When the meter started counting.
    pub closed spec fn start_time(&self) -> Timespec {
        self.start_time
    }

    /// When the moving averages last ticked, in nanoseconds.
    pub closed spec fn last_tick(&self) -> i64 {
        self.last_tick
    }

    /// Events counted since the start.
    pub closed spec fn count(&self) -> usize {
        self.count
    }

    /// Events the moving averages have not taken in yet.
    pub closed spec fn uncounted(&self) -> usize {
        self.uncounted
    }

    /// When the meter started counting.
    pub fn start(&self) -> (t: Timespec)
        ensures
            t == self.start_time(),
    {
        self.start_time
    }

    /// When the moving averages last ticked, in nanoseconds.
    pub fn last_tick_nanos(&self) -> (t: i64)
        ensures
            t == self.last_tick(),
    {
        self.last_tick
    }

    /// A meter started at `now`, with nothing counted.
    pub fn new(now: Timespec) -> (meter: MeterState)
        requires
            nanos_fit(now),
        ensures
            meter.start_time() == now,
            meter.last_tick() == nanos_of(now),
            meter.count() == 0,
            meter.uncounted() == 0,
    {
        let last = nanos(&now);
        MeterState { start_time: now, last_tick: last, count: 0, uncounted: 0 }
    }

    /// Counts `num` events, wrapping around on overflow.
    pub fn mark(&mut self, num: usize)
        ensures
            final(self).start_time() == old(self).start_time(),
            final(self).last_tick() == old(self).last_tick(),
            final(self).count() == usize_specs::wrapping_add(old(self).count(), num),
            final(self).uncounted() == usize_specs::wrapping_add(old(self).uncounted(), num),
    {
        self.count = self.count.wrapping_add(num);
        self.uncounted = self.uncounted.wrapping_add(num);
    }

    /// Decides the ticks due at `now`: when more than one tick interval has passed since the
    /// last tick, as many ticks as whole intervals have passed, the last tick moved forward by
    /// that many intervals, and the uncounted events handed to the first of them. Returns the
    /// number of ticks and the events they take in.
    pub fn tick_if_necessary(&mut self, now: Timespec) -> (due: (i64, usize))
        requires
            nanos_fit(now),
            i64::MIN <= nanos_of(now) - old(self).last_tick() <= i64::MAX,
        ensures
            final(self).start_time() == old(self).start_time(),
            final(self).count() == old(self).count(),
            ({
                let since = nanos_of(now) - old(self).last_tick();
                let interval = TICK_INTERVAL_SECS * NUM_NANOS_PER_SEC;
                if since > interval {
                    &&& due.0 == since / interval
                    &&& due.1 == old(self).uncounted()
                    &&& final(self).uncounted() == 0
                    &&& final(self).last_tick() == nanos_of(now) - since % interval
                    &&& final(self).last_tick() == old(self).last_tick() + due.0 * interval
                    &&& due.0 >= 1
                    &&& final(self).last_tick() <= nanos_of(now) < final(self).last_tick()
                        + interval
                } else {
                    &&& due == (0i64, 0usize)
                    &&& final(self).uncounted() == old(self).uncounted()
                    &&& final(self).last_tick() == old(self).last_tick()
                }
            }),
    {
        let curr_nanos = nanos(&now);
        let last_tick_nanos = self.last_tick;
        let time_since_tick = curr_nanos - last_tick_nanos;
        let tick_interval_nanos = TICK_INTERVAL_SECS * NUM_NANOS_PER_SEC;
        if time_since_tick > tick_interval_nanos {
            let rem = time_since_tick % tick_interval_nanos;
            let num_ticks = time_since_tick / tick_interval_nanos;
            proof {
                let since = time_since_tick as int;
                let interval = tick_interval_nanos as int;
                assert(since == num_ticks * interval + rem) by (nonlinear_arith)
                    requires
                        interval > 0,
                        since >= 0,
                        num_ticks == since / interval,
                        rem == since % interval,
                ;
                assert(num_ticks >= 1) by (nonlinear_arith)
                    requires
                        interval > 0,
                        since > interval,
                        num_ticks == since / interval,
                ;
            }
            self.last_tick = curr_nanos - rem;
            let events = self.uncounted;
            self.uncounted = 0;
            (num_ticks, events)
        } else {
            (0, 0)
        }
    }

    /// The events counted since the start, and the microseconds elapsed from the start to
    /// `now`: the rate since the start is their quotient.
    pub fn rate_span(&self, now: Timespec) -> (span: (usize, i64))
        requires
            micros_fit(now),
            micros_fit(self.start_time()),
            i64::MIN <= micros_of(now) - micros_of(self.start_time()) <= i64::MAX,
        ensures
            span.0 == self.count(),
            span.1 == micros_of(now) - micros_of(self.start_time()),
    {
        let cur_micros = micros(&now);
        let start_micros = micros(&self.start_time);
        (self.count, cur_micros - start_micros)
    }

    /// Restarts counting at `now`.
    pub fn clear(&mut self, now: Timespec)
        ensures
            final(self).start_time() == now,
            final(self).count() == 0,
            final(self).last_tick() == old(self).last_tick(),
            final(self).uncounted() == old(self).uncounted(),
    {
        self.start_time = now;
        self.count = 0;
    }
}

} // verus!
