use vstd::prelude::*;

verus! {

/// A clock that drives data streams. While it is running it reports the
/// current time; once it has run out it reports `None`. Each `cycle` moves it
/// one step forward.
pub trait Timer: Sized {
    /// What `get_time` reports in this state. Implementations in this
    /// library define it (and the two below); for others they are left
    /// unspecified.
    closed spec fn now(&self) -> Option<u64> {
        arbitrary()
    }

    /// Whether one more step can be taken.
    closed spec fn can_cycle(&self) -> bool {
        arbitrary()
    }

    /// The state after one step.
    closed spec fn cycled(&self) -> Self {
        arbitrary()
    }

    /// Moves the timer one step forward.
    fn cycle(&mut self)
        requires
            old(self).can_cycle(),
        ensures
            *final(self) == old(self).cycled(),
    ;

    /// The current time, or `None` once the timer has run out.
    fn get_time(&self) -> (t: Option<u64>)
        ensures
            t == self.now(),
    ;
}

/// A timer that starts at `start_ts`, moves forward by `delta` per cycle, and
/// runs out once its time has passed `end_ts`.
pub struct DeltaTimer {
    start_ts: u64,
    end_ts: u64,
    current_ts: u64,
    delta: u64,
}

impl DeltaTimer {
    /// The time the timer started at.
    pub closed spec fn start(&self) -> u64 {
        self.start_ts
    }

    /// The last time the timer reports.
    pub closed spec fn end(&self) -> u64 {
        self.end_ts
    }

    /// The timer's current time (also once it has run out).
    pub closed spec fn current(&self) -> u64 {
        self.current_ts
    }

    /// How far one cycle moves the time.
    pub closed spec fn step(&self) -> u64 {
        self.delta
    }

    /// Whether one more `cycle` fits (the time does not overflow).
    pub fn cycle_in_range(&self) -> (r: bool)
        ensures
            r == self.can_cycle(),
    {
        self.current_ts <= u64::MAX - self.delta
    }

    /// A timer whose current time is `start_ts`.
    pub fn new(start_ts: u64, end_ts: u64, delta: u64) -> (timer: Self)
        ensures
            timer.start() == start_ts,
            timer.end() == end_ts,
            timer.current() == start_ts,
            timer.step() == delta,
    {
        DeltaTimer { start_ts: start_ts, end_ts: end_ts, current_ts: start_ts, delta: delta }
    }
}

/// One step moves a `DeltaTimer`'s time forward by its step and keeps its
/// start, end and step.
pub proof fn lemma_delta_timer_step(timer: DeltaTimer)
    requires
        timer.can_cycle(),
    ensures
        timer.cycled().current() == timer.current() + timer.step(),
        timer.cycled().start() == timer.start(),
        timer.cycled().end() == timer.end(),
        timer.cycled().step() == timer.step(),
{
}

impl Timer for DeltaTimer {
    open spec fn now(&self) -> Option<u64> {
        if self.current() <= self.end() {
            Some(self.current())
        } else {
            None
        }
    }

    open spec fn can_cycle(&self) -> bool {
        self.current() + self.step() <= u64::MAX
    }

    closed spec fn cycled(&self) -> Self {
        DeltaTimer { current_ts: (self.current_ts + self.delta) as u64, ..*self }
    }

    /// Moves the current time forward by `delta`.
    fn cycle(&mut self)
        ensures
            final(self).current() == old(self).current() + old(self).step(),
            final(self).start() == old(self).start(),
            final(self).end() == old(self).end(),
            final(self).step() == old(self).step(),
    {
        self.current_ts = self.current_ts + self.delta;
    }

    /// The current time while it is at most `end_ts`.
    fn get_time(&self) -> (t: Option<u64>) {
        if self.current_ts <= self.end_ts {
            Some(self.current_ts)
        } else {
            None
        }
    }
}

/// The state of `timer` after `k` cycles.
pub open spec fn cycles<T: Timer>(timer: T, k: nat) -> T
    decreases k,
{
    if k == 0 {
        timer
    } else {
        cycles(timer, (k - 1) as nat).cycled()
    }
}

/// Each cycle adds exactly the step to a `DeltaTimer`'s time: as long as the
/// sum fits in a `u64`, `k` cycles can be taken one after another, after them
/// the time is the old time plus `k` steps (start, end and step unchanged),
/// and the timer reports that time exactly when it is at most the end.
pub proof fn lemma_delta_timer_cycles(timer: DeltaTimer, k: nat)
    requires
        timer.current() + k * timer.step() <= u64::MAX,
    ensures
        forall|j: nat| j < k ==> #[trigger] cycles(timer, j).can_cycle(),
        cycles(timer, k).current() == timer.current() + k * timer.step(),
        cycles(timer, k).start() == timer.start(),
        cycles(timer, k).end() == timer.end(),
        cycles(timer, k).step() == timer.step(),
        cycles(timer, k).now() == (if timer.current() + k * timer.step() <= timer.end() {
            Some((timer.current() + k * timer.step()) as u64)
        } else {
            None
        }),
    decreases k,
{
    if k > 0 {
        let k1 = (k - 1) as nat;
        let step = timer.step();
        assert(k1 * step + step == k * step && k1 * step <= k * step) by (nonlinear_arith)
            requires
                k1 + 1 == k,
                step >= 0,
        ;
        lemma_delta_timer_cycles(timer, k1);
        lemma_delta_timer_step(cycles(timer, k1));
        assert forall|j: nat| j < k implies #[trigger] cycles(timer, j).can_cycle() by {
            if j < k1 {
                assert(cycles(timer, j).can_cycle());
            }
        }
    } else {
        let step = timer.step();
        assert(k * step == 0) by (nonlinear_arith)
            requires
                k == 0,
        ;
    }
}

/// A `DeltaTimer` that has run out stays run out: no number of further
/// cycles (that keep its time within a `u64`) brings its time back.
pub proof fn lemma_expired_stays_expired(timer: DeltaTimer, k: nat)
    requires
        timer.now() is None,
        timer.current() + k * timer.step() <= u64::MAX,
    ensures
        cycles(timer, k).now() is None,
{
    let step = timer.step();
    assert(k * step >= 0) by (nonlinear_arith)
        requires
            step >= 0,
    ;
    lemma_delta_timer_cycles(timer, k);
}

} // verus!
