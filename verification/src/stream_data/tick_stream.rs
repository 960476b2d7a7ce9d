use vstd::prelude::*;

use crate::data_models::tick::{tick_stamps, Tick};
use crate::read_data::data_types::stamps_sorted;
use crate::stream_data::timers::Timer;

verus! {

/// Where a stream that has handed out its data up to `start` stops at time
/// `now`: it takes every following item while the item's timestamp is at or
/// before `now`, and stops at the first later one (or at the end).
pub open spec fn ready_end(ts: Seq<u64>, start: int, now: u64) -> int
    decreases ts.len() - start,
{
    if start < 0 || start >= ts.len() || ts[start] > now {
        start
    } else {
        ready_end(ts, start + 1, now)
    }
}

/// The stop never lies before the start.
pub proof fn lemma_ready_end_not_before(ts: Seq<u64>, start: int, now: u64)
    ensures
        start <= ready_end(ts, start, now),
    decreases ts.len() - start,
{
    if !(start < 0 || start >= ts.len() || ts[start] > now) {
        lemma_ready_end_not_before(ts, start + 1, now);
    }
}

/// The stop lies between the start and the end of the data, every item
/// taken is ready at `now`, and the item at the stop (if any) is not.
pub proof fn lemma_ready_end(ts: Seq<u64>, start: int, now: u64)
    requires
        0 <= start <= ts.len(),
    ensures
        start <= ready_end(ts, start, now) <= ts.len(),
        forall|k: int| start <= k < ready_end(ts, start, now) ==> ts[k] <= now,
        ready_end(ts, start, now) < ts.len() ==> ts[ready_end(ts, start, now)] > now,
    decreases ts.len() - start,
{
    if start < ts.len() && ts[start] <= now {
        lemma_ready_end(ts, start + 1, now);
    }
}

/// Asking again at the same time hands out nothing more: once a stream has
/// stopped at time `now`, it stops at the same place at `now`.
pub proof fn lemma_ready_end_idempotent(ts: Seq<u64>, start: int, now: u64)
    requires
        0 <= start <= ts.len(),
    ensures
        ready_end(ts, ready_end(ts, start, now), now) == ready_end(ts, start, now),
{
    lemma_ready_end(ts, start, now);
}

/// Successive hand-outs are adjacent pieces of the data: what two calls hand
/// out, one after the other, is exactly the data between where the first
/// started and where the second stopped.
pub proof fn lemma_handouts_adjacent(ts: Seq<u64>, start: int, t1: u64, t2: u64)
    requires
        0 <= start <= ts.len(),
    ensures
        ts.subrange(start, ready_end(ts, start, t1)) + ts.subrange(
            ready_end(ts, start, t1),
            ready_end(ts, ready_end(ts, start, t1), t2),
        ) == ts.subrange(start, ready_end(ts, ready_end(ts, start, t1), t2)),
{
    lemma_ready_end(ts, start, t1);
    lemma_ready_end(ts, ready_end(ts, start, t1), t2);
    assert(ts.subrange(start, ready_end(ts, start, t1)) + ts.subrange(
        ready_end(ts, start, t1),
        ready_end(ts, ready_end(ts, start, t1), t2),
    ) =~= ts.subrange(start, ready_end(ts, ready_end(ts, start, t1), t2)));
}

/// With timestamps in order, every item a stream has not handed out at time
/// `now` lies strictly after `now`.
pub proof fn lemma_sorted_rest_not_ready(ts: Seq<u64>, start: int, now: u64)
    requires
        0 <= start <= ts.len(),
        stamps_sorted(ts),
    ensures
        forall|k: int| ready_end(ts, start, now) <= k < ts.len() ==> ts[k] > now,
{
    lemma_ready_end(ts, start, now);
    let e = ready_end(ts, start, now);
    assert forall|k: int| e <= k < ts.len() implies ts[k] > now by {
        assert(ts[e] <= ts[k]);
    }
}

/// Once the time has reached every remaining timestamp, one call hands out
/// the rest of the data and the stream is exhausted.
pub proof fn lemma_all_ready_exhausts(ts: Seq<u64>, start: int, now: u64)
    requires
        0 <= start <= ts.len(),
        forall|k: int| start <= k < ts.len() ==> ts[k] <= now,
    ensures
        ready_end(ts, start, now) == ts.len(),
{
    lemma_ready_end(ts, start, now);
}

/// Where a stream over timestamps `ts` that stands at `start` stands after it
/// has been asked for its new items at each of `times` in turn (`None`: asked
/// while the timer had run out).
pub open spec fn run_end(ts: Seq<u64>, start: int, times: Seq<Option<u64>>) -> int
    decreases times.len(),
{
    if times.len() == 0 {
        start
    } else {
        let before = run_end(ts, start, times.drop_last());
        match times.last() {
            Some(t) => ready_end(ts, before, t),
            None => before,
        }
    }
}

/// What such a stream over `items` (with timestamps `ts`) hands out over
/// those calls: the results of the calls, one after another.
pub open spec fn run_handouts<A>(items: Seq<A>, ts: Seq<u64>, start: int, times: Seq<Option<u64>>) -> Seq<A>
    decreases times.len(),
{
    if times.len() == 0 {
        Seq::empty()
    } else {
        let before = run_end(ts, start, times.drop_last());
        let earlier = run_handouts(items, ts, start, times.drop_last());
        match times.last() {
            Some(t) => earlier + items.subrange(before, ready_end(ts, before, t)),
            None => earlier,
        }
    }
}

/// Over any sequence of calls, a stream hands out each item of its data once
/// and in order, skipping none: all the results together are exactly the
/// data from where it started to where it stands, and it never stands past
/// the end of the data.
pub proof fn lemma_run_hands_out_in_order<A>(
    items: Seq<A>,
    ts: Seq<u64>,
    start: int,
    times: Seq<Option<u64>>,
)
    requires
        ts.len() == items.len(),
        0 <= start <= ts.len(),
    ensures
        start <= run_end(ts, start, times) <= ts.len(),
        run_handouts(items, ts, start, times) == items.subrange(start, run_end(ts, start, times)),
    decreases times.len(),
{
    if times.len() > 0 {
        let rest = times.drop_last();
        lemma_run_hands_out_in_order(items, ts, start, rest);
        let before = run_end(ts, start, rest);
        if let Some(t) = times.last() {
            lemma_ready_end(ts, before, t);
            assert(items.subrange(start, before) + items.subrange(before, ready_end(ts, before, t))
                =~= items.subrange(start, ready_end(ts, before, t)));
        }
    } else {
        assert(items.subrange(start, start) =~= Seq::<A>::empty());
    }
}

/// The type-erased hand-out and the typed one agree. From the same position
/// at the same time both move a stream to the same place (`ready_end` over the
/// items' timestamps), and the timestamps the type-erased call hands out are
/// exactly those of the items the typed call hands out. So in a run that
/// mixes the two kinds of call, each call hands out the next piece of the data
/// (as items, or as their timestamps), and the pieces together are the data
/// in order (`lemma_run_hands_out_in_order` with `ts == tick_stamps(items)`).
pub proof fn lemma_erased_handout_stamps<D: Tick>(items: Seq<D>, start: int, now: u64)
    requires
        0 <= start <= items.len(),
    ensures
        tick_stamps(items).subrange(start, ready_end(tick_stamps(items), start, now))
            == tick_stamps(items.subrange(start, ready_end(tick_stamps(items), start, now))),
{
    lemma_ready_end(tick_stamps(items), start, now);
    assert(tick_stamps(items).subrange(start, ready_end(tick_stamps(items), start, now))
        =~= tick_stamps(items.subrange(start, ready_end(tick_stamps(items), start, now))));
}

/// A stream as seen without its item type: the timestamps of its data and
/// how many items it has handed out so far.
pub trait DataStream {
    /// Timestamps of all the stream's data, in order. Implementations in
    /// this library define it (and `position`); for others both are left
    /// unspecified.
    closed spec fn timestamps(&self) -> Seq<u64> {
        arbitrary()
    }

    /// How many items have been handed out.
    closed spec fn position(&self) -> nat {
        arbitrary()
    }

    /// At time `current_time`, hands out the timestamps of the items that
    /// have not been handed out yet and are ready (see `ready_end`).
    /// `None` when there is no current time (the timer has run out).
    fn iter_new(&mut self, current_time: Option<u64>) -> (r: Option<Vec<u64>>)
        ensures
            final(self).timestamps() == old(self).timestamps(),
            match current_time {
                None => r is None && final(self).position() == old(self).position(),
                Some(t) => {
                    &&& final(self).position() == ready_end(
                        old(self).timestamps(),
                        old(self).position() as int,
                        t,
                    )
                    &&& r matches Some(v) && v@ == old(self).timestamps().subrange(
                        old(self).position() as int,
                        final(self).position() as int,
                    )
                },
            },
    ;

    /// How many items have been handed out.
    fn current_index(&self) -> (r: usize)
        ensures
            r == self.position(),
    ;

    /// Whether every item has been handed out.
    fn is_exhausted(&self) -> (r: bool)
        ensures
            r == (self.position() >= self.timestamps().len()),
    ;

    /// How many items the stream holds in all.
    fn len(&self) -> (r: usize)
        ensures
            r == self.timestamps().len(),
    ;
}

/// A boxed stream of any item type is read through the stream it holds.
impl<'a> DataStream for Box<dyn DataStream + 'a> {
    open spec fn timestamps(&self) -> Seq<u64> {
        (**self).timestamps()
    }

    open spec fn position(&self) -> nat {
        (**self).position()
    }

    fn iter_new(&mut self, current_time: Option<u64>) -> (r: Option<Vec<u64>>) {
        (**self).iter_new(current_time)
    }

    fn current_index(&self) -> (r: usize) {
        (**self).current_index()
    }

    fn is_exhausted(&self) -> (r: bool) {
        (**self).is_exhausted()
    }

    fn len(&self) -> (r: usize) {
        (**self).len()
    }
}

/// Hands out the items of `data` as they become ready: an item is ready once
/// the timer's current time has reached its timestamp. Each item is handed
/// out once, in order.
pub struct TickStream<'a, D: Tick> {
    data: &'a [D],
    current_index: usize,
}

impl<'a, D: Tick> TickStream<'a, D> {
    #[verifier::type_invariant]
    closed spec fn index_in_bounds(&self) -> bool {
        self.current_index <= self.data@.len()
    }

    /// The stream's data.
    pub closed spec fn items(&self) -> Seq<D> {
        self.data@
    }

    /// How many items have been handed out.
    pub closed spec fn index(&self) -> nat {
        self.current_index as nat
    }

    /// A stream over `data` that has handed out nothing yet.
    pub fn new(data: &'a [D]) -> (r: Self)
        ensures
            r.items() == data@,
            r.index() == 0,
    {
        TickStream { data, current_index: 0 }
    }

    /// Hands out the items that have not been handed out yet and whose
    /// timestamp is at or before the timer's current time; stops at the first
    /// item that is not ready yet. `None`, and nothing handed out, when the
    /// timer has run out.
    pub fn iter_new_typed<T: Timer>(&mut self, timer: &T) -> (r: Option<&'a [D]>)
        ensures
            final(self).items() == old(self).items(),
            final(self).index() <= final(self).items().len(),
            match timer.now() {
                None => r is None && final(self).index() == old(self).index(),
                Some(t) => {
                    &&& final(self).index() == ready_end(
                        tick_stamps(old(self).items()),
                        old(self).index() as int,
                        t,
                    )
                    &&& r matches Some(s) && s@ == old(self).items().subrange(
                        old(self).index() as int,
                        final(self).index() as int,
                    )
                },
            },
    {
        proof {
            use_type_invariant(&*self);
        }
        let current_time = match timer.get_time() {
            Some(t) => t,
            None => return None,
        };
        let start_index = self.current_index;
        let end_index = self.ready_end_at(current_time);
        self.current_index = end_index;
        Some(vstd::slice::slice_subrange(self.data, start_index, end_index))
    }

    /// The index at which the ready items from the current position stop.
    fn ready_end_at(&self, current_time: u64) -> (end_index: usize)
        ensures
            end_index == ready_end(tick_stamps(self.items()), self.index() as int, current_time),
            self.index() <= end_index <= self.items().len(),
    {
        proof {
            use_type_invariant(self);
        }
        let ghost ts = tick_stamps(self.data@);
        let mut end_index = self.current_index;
        while end_index < self.data.len() && self.data[end_index].ts() <= current_time
            invariant
                ts == tick_stamps(self.data@),
                self.current_index <= end_index <= self.data@.len(),
                ready_end(ts, self.current_index as int, current_time) == ready_end(
                    ts,
                    end_index as int,
                    current_time,
                ),
            decreases self.data@.len() - end_index,
        {
            end_index += 1;
        }
        end_index
    }

    /// Moves the timer one step forward.
    pub fn cycle<T: Timer>(&self, timer: &mut T)
        requires
            old(timer).can_cycle(),
        ensures
            *final(timer) == old(timer).cycled(),
    {
        timer.cycle();
    }

    /// The timer's current time, while it is running.
    pub fn get_time<T: Timer>(&self, timer: &T) -> (t: Option<u64>)
        ensures
            t == timer.now(),
    {
        timer.get_time()
    }
}

impl<'a, D: Tick> DataStream for TickStream<'a, D> {
    open spec fn timestamps(&self) -> Seq<u64> {
        tick_stamps(self.items())
    }

    open spec fn position(&self) -> nat {
        self.index()
    }

    fn iter_new(&mut self, current_time: Option<u64>) -> (r: Option<Vec<u64>>) {
        proof {
            use_type_invariant(&*self);
        }
        let current_time = match current_time {
            Some(t) => t,
            None => return None,
        };
        let start_index = self.current_index;
        let end_index = self.ready_end_at(current_time);
        self.current_index = end_index;
        let ghost ts = tick_stamps(self.data@);
        let mut items: Vec<u64> = Vec::new();
        let mut k = start_index;
        while k < end_index
            invariant
                ts == tick_stamps(self.data@),
                start_index <= k <= end_index <= self.data@.len(),
                items@ == ts.subrange(start_index as int, k as int),
            decreases end_index - k,
        {
            items.push(self.data[k].ts());
            k += 1;
        }
        Some(items)
    }

    fn current_index(&self) -> (r: usize) {
        self.current_index
    }

    fn is_exhausted(&self) -> (r: bool) {
        self.current_index >= self.data.len()
    }

    fn len(&self) -> (r: usize) {
        self.data.len()
    }
}

} // verus!
