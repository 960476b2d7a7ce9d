use vstd::prelude::*;

use crate::stream_data::tick_stream::{lemma_ready_end_not_before, ready_end, DataStream};
use crate::stream_data::timers::Timer;

verus! {

/// The state of a stream after it is asked for new items at time `t`.
pub open spec fn advanced(state: (Seq<u64>, nat), t: u64) -> (Seq<u64>, nat) {
    (state.0, ready_end(state.0, state.1 as int, t) as nat)
}

/// The timestamps a stream in `state` hands out at time `t`.
pub open spec fn handed_out(state: (Seq<u64>, nat), t: u64) -> Seq<u64> {
    state.0.subrange(state.1 as int, ready_end(state.0, state.1 as int, t))
}

/// What asking all streams in `states` at time `t` lists: in order, each
/// stream that still has items to hand out, by its index, with what it hands
/// out.
pub open spec fn listed(states: Seq<(Seq<u64>, nat)>, t: u64) -> Seq<(int, Seq<u64>)>
    decreases states.len(),
{
    if states.len() == 0 {
        Seq::empty()
    } else {
        let last = states.last();
        let rest = listed(states.drop_last(), t);
        if last.1 < last.0.len() {
            rest.push((states.len() - 1, handed_out(last, t)))
        } else {
            rest
        }
    }
}

/// A listing of stream indices and timestamps, read as plain values.
pub open spec fn listing_view(v: Seq<(usize, Vec<u64>)>) -> Seq<(int, Seq<u64>)> {
    v.map_values(|p: (usize, Vec<u64>)| (p.0 as int, p.1@))
}

/// A listing names, in increasing order of index, exactly the streams that
/// still have items to hand out, each once and with what it hands out: a
/// stream that has run out is not named.
pub proof fn lemma_listed_streams(states: Seq<(Seq<u64>, nat)>, t: u64)
    ensures
        forall|i: int|
            0 <= i < listed(states, t).len() ==> {
                let k = (#[trigger] listed(states, t)[i]).0;
                &&& 0 <= k < states.len()
                &&& states[k].1 < states[k].0.len()
                &&& listed(states, t)[i].1 == handed_out(states[k], t)
            },
        forall|k: int|
            0 <= k < states.len() && (#[trigger] states[k]).1 < states[k].0.len() ==> exists|i: int|
                0 <= i < listed(states, t).len() && (#[trigger] listed(states, t)[i]).0 == k,
        forall|i: int, j: int|
            0 <= i < j < listed(states, t).len() ==> (#[trigger] listed(states, t)[i]).0 < (
            #[trigger] listed(states, t)[j]).0,
    decreases states.len(),
{
    if states.len() > 0 {
        let rest = states.drop_last();
        lemma_listed_streams(rest, t);
        let lr = listed(rest, t);
        let l = listed(states, t);
        let n = states.len() - 1;
        assert forall|k: int|
            0 <= k < states.len() && (#[trigger] states[k]).1 < states[k].0.len() implies exists|i: int|
                0 <= i < l.len() && (#[trigger] l[i]).0 == k by {
            if k < n {
                assert(rest[k] == states[k]);
                let i = choose|i: int| 0 <= i < lr.len() && (#[trigger] lr[i]).0 == k;
                assert(l[i] == lr[i]);
            } else {
                assert(l[l.len() - 1].0 == k);
            }
        }
    }
}

/// The streams of a collection whose streams were `base` after the streams
/// `added` are added to it one by one.
pub open spec fn after_adding(
    base: Seq<(Seq<u64>, nat)>,
    added: Seq<(Seq<u64>, nat)>,
) -> Seq<(Seq<u64>, nat)>
    decreases added.len(),
{
    if added.len() == 0 {
        base
    } else {
        after_adding(base, added.drop_last()).push(added.last())
    }
}

/// Adding `k` streams one by one to a new, empty collection leaves exactly
/// those `k` streams, in the order they were added, and the `j`-th addition
/// (counting from 0) is given index `j`: it found `j` streams there.
pub proof fn lemma_adding_streams(added: Seq<(Seq<u64>, nat)>)
    ensures
        after_adding(Seq::empty(), added) == added,
        after_adding(Seq::empty(), added).len() == added.len(),
        forall|j: int|
            0 <= j < added.len() ==> (#[trigger] after_adding(Seq::empty(), added.take(j))).len()
                == j,
    decreases added.len(),
{
    if added.len() > 0 {
        let rest = added.drop_last();
        lemma_adding_streams(rest);
        assert(rest.push(added.last()) =~= added);
        assert forall|j: int| 0 <= j < added.len() implies (#[trigger] after_adding(
            Seq::empty(),
            added.take(j),
        )).len() == j by {
            lemma_adding_streams(added.take(j));
        }
    } else {
        assert(Seq::<(Seq<u64>, nat)>::empty() =~= added);
    }
}

/// A collection of data streams that are read against one shared timer.
/// With `S = Box<dyn DataStream>` the streams may be over different item
/// types.
pub struct TickMultiStream<S: DataStream> {
    streams: Vec<S>,
}

impl<S: DataStream> View for TickMultiStream<S> {
    type V = Seq<(Seq<u64>, nat)>;

    /// Each stream's timestamps and how many items it has handed out.
    closed spec fn view(&self) -> Seq<(Seq<u64>, nat)> {
        self.streams@.map_values(|s: S| (s.timestamps(), s.position()))
    }
}

impl<S: DataStream> TickMultiStream<S> {
    /// An empty collection.
    pub fn new() -> (r: Self)
        ensures
            r@ == Seq::<(Seq<u64>, nat)>::empty(),
    {
        let r = TickMultiStream { streams: Vec::new() };
        assert(r@ =~= Seq::<(Seq<u64>, nat)>::empty());
        r
    }

    /// Adds a stream to the collection and returns its index.
    pub fn add_stream(&mut self, stream: S) -> (idx: usize)
        ensures
            idx == old(self)@.len(),
            final(self)@ == old(self)@.push((stream.timestamps(), stream.position())),
    {
        let idx = self.streams.len();
        let ghost s = stream;
        self.streams.push(stream);
        assert(self@ =~= old(self)@.push((s.timestamps(), s.position())));
        idx
    }

    /// Asks every stream, in order, for its new items at the timer's current
    /// time, and pairs each stream's index with the timestamps it handed out.
    /// A stream that had already handed out all its items before the call is
    /// left out of the result. `None`, and nothing handed out, when the timer
    /// has run out.
    pub fn iter_all_new<T: Timer>(&mut self, timer: &T) -> (r: Option<Vec<(usize, Vec<u64>)>>)
        ensures
            match timer.now() {
                None => r is None && final(self)@ == old(self)@,
                Some(t) => {
                    &&& final(self)@ == old(self)@.map_values(|s: (Seq<u64>, nat)| advanced(s, t))
                    &&& r matches Some(v) && listing_view(v@) == listed(old(self)@, t)
                },
            },
    {
        let current_time = match timer.get_time() {
            Some(t) => t,
            None => return None,
        };
        let ghost old_view = self@;
        let ghost old_streams = self.streams@;
        let n = self.streams.len();
        let mut results: Vec<(usize, Vec<u64>)> = Vec::new();
        assert(old_view.take(0) =~= Seq::<(Seq<u64>, nat)>::empty());
        assert(listing_view(results@) =~= Seq::<(int, Seq<u64>)>::empty());
        for i in 0..n
            invariant
                n == self.streams@.len(),
                n == old_streams.len(),
                old_view.len() == n,
                forall|j: int| 0 <= j < n ==> old_view[j] == (#[trigger] old_streams[j].timestamps(), old_streams[j].position()),
                forall|j: int| i <= j < n ==> self.streams@[j] == old_streams[j],
                forall|j: int|
                    0 <= j < i ==> (#[trigger] self.streams@[j].timestamps(), self.streams@[j].position()) == advanced(
                        old_view[j],
                        current_time,
                    ),
                listing_view(results@) == listed(old_view.take(i as int), current_time),
        {
            let ghost before = self.streams@;
            let ghost before_results = results@;
            assert(old_view.take(i + 1).drop_last() =~= old_view.take(i as int));
            assert(old_view.take(i + 1).last() == old_view[i as int]);
            assert(before[i as int] == old_streams[i as int]);
            assert(old_view[i as int] == (before[i as int].timestamps(), before[i as int].position()));
            if self.streams[i].is_exhausted() {
                assert(advanced(old_view[i as int], current_time) == old_view[i as int]);
            } else {
                proof {
                    lemma_ready_end_not_before(old_view[i as int].0, old_view[i as int].1 as int, current_time);
                }
                let items = self.streams[i].iter_new(Some(current_time));
                assert(self.streams@ == before.update(i as int, self.streams@[i as int]));
                assert((self.streams@[i as int].timestamps(), self.streams@[i as int].position())
                    == advanced(old_view[i as int], current_time));
                match items {
                    Some(items) => {
                        results.push((i, items));
                        assert(listing_view(results@) =~= listing_view(before_results).push(
                            (i as int, handed_out(old_view[i as int], current_time)),
                        ));
                    },
                    None => {},
                }
            }
        }
        assert(old_view.take(n as int) =~= old_view);
        assert(self@ =~= old_view.map_values(|s: (Seq<u64>, nat)| advanced(s, current_time)));
        Some(results)
    }

    /// The new items of one stream at the timer's current time. `None` when
    /// the timer has run out or there is no stream `stream_idx`.
    pub fn iter_new_for_stream<T: Timer>(&mut self, stream_idx: usize, timer: &T) -> (r: Option<
        Vec<u64>,
    >)
        ensures
            stream_idx < old(self)@.len() && timer.now() is Some ==> {
                let t = timer.now().unwrap();
                &&& final(self)@ == old(self)@.update(
                    stream_idx as int,
                    advanced(old(self)@[stream_idx as int], t),
                )
                &&& r matches Some(v) && v@ == handed_out(old(self)@[stream_idx as int], t)
            },
            !(stream_idx < old(self)@.len() && timer.now() is Some) ==> r is None && final(self)@
                == old(self)@,
    {
        if stream_idx >= self.streams.len() {
            return None;
        }
        let ghost old_view = self@;
        let r = self.streams[stream_idx].iter_new(timer.get_time());
        assert(self@ =~= match timer.now() {
            Some(t) => old_view.update(stream_idx as int, advanced(old_view[stream_idx as int], t)),
            None => old_view,
        });
        r
    }

    /// Moves the timer one step forward.
    pub fn cycle<T: Timer>(&self, timer: &mut T)
        requires
            old(timer).can_cycle(),
        ensures
            *final(timer) == old(timer).cycled(),
    {
        timer.cycle();
    }

    /// The timer's current time, while it is running.
    pub fn get_time<T: Timer>(&self, timer: &T) -> (t: Option<u64>)
        ensures
            t == timer.now(),
    {
        timer.get_time()
    }

    /// The number of streams.
    pub fn num_streams(&self) -> (n: usize)
        ensures
            n == self@.len(),
    {
        self.streams.len()
    }

    /// How many items stream `stream_idx` has handed out; `None` when there
    /// is no such stream.
    pub fn current_index(&self, stream_idx: usize) -> (r: Option<usize>)
        ensures
            r == (if stream_idx < self@.len() {
                Some(self@[stream_idx as int].1 as usize)
            } else {
                None
            }),
    {
        if stream_idx < self.streams.len() {
            Some(self.streams[stream_idx].current_index())
        } else {
            None
        }
    }

    /// Whether every stream has handed out all its items.
    pub fn all_exhausted(&self) -> (r: bool)
        ensures
            r == forall|i: int| 0 <= i < self@.len() ==> #[trigger] self@[i].1 >= self@[i].0.len(),
    {
        let n = self.streams.len();
        let mut i: usize = 0;
        while i < n
            invariant
                n == self@.len(),
                i <= n,
                forall|j: int| 0 <= j < i ==> #[trigger] self@[j].1 >= self@[j].0.len(),
            decreases n - i,
        {
            if !self.streams[i].is_exhausted() {
                assert(self@[i as int] == (self.streams@[i as int].timestamps(), self.streams@[i as int].position()));
                assert(self@[i as int].1 < self@[i as int].0.len());
                return false;
            }
            assert(self@[i as int] == (self.streams@[i as int].timestamps(), self.streams@[i as int].position()));
            i += 1;
        }
        true
    }

    /// Whether all streams are exhausted: the same answer as
    /// `all_exhausted` (so `true` for an empty collection).
    pub fn any_exhausted(&self) -> (r: bool)
        ensures
            r == forall|i: int| 0 <= i < self@.len() ==> #[trigger] self@[i].1 >= self@[i].0.len(),
    {
        self.all_exhausted()
    }

    /// Whether stream `stream_idx` has handed out all its items; a missing
    /// stream counts as exhausted.
    pub fn is_stream_exhausted(&self, stream_idx: usize) -> (r: bool)
        ensures
            r == (stream_idx >= self@.len() || self@[stream_idx as int].1
                >= self@[stream_idx as int].0.len()),
    {
        if stream_idx < self.streams.len() {
            self.streams[stream_idx].is_exhausted()
        } else {
            true
        }
    }
}

} // verus!
