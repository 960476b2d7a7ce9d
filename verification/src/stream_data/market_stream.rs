use vstd::prelude::*;

use crate::read_data::data_types::{
    brackets, coinbase_stamps, kalshi_stamps, lemma_bracket_unique, stamps_sorted, CoinbaseRecord,
    KalshiDataset, KalshiRecord,
};
use crate::stream_data::timers::{DeltaTimer, Timer};

verus! {

/// The first `i` at or after `from` with `ts[i] <= t < ts[i + 1]`, scanning
/// forward; `None` when no interval from `from` on holds `t`.
pub open spec fn first_bracket_from(ts: Seq<u64>, from: int, t: u64) -> Option<int>
    decreases ts.len() - from,
{
    if from < 0 || from >= ts.len() - 1 {
        None
    } else if ts[from] <= t && t < ts[from + 1] {
        Some(from)
    } else {
        first_bracket_from(ts, from + 1, t)
    }
}

/// A found interval really holds `t`, and lies at or after `from`.
pub proof fn lemma_first_bracket_found(ts: Seq<u64>, from: int, t: u64)
    requires
        first_bracket_from(ts, from, t) is Some,
    ensures
        from <= first_bracket_from(ts, from, t).unwrap() < ts.len() - 1,
        ts[first_bracket_from(ts, from, t).unwrap()] <= t,
        t < ts[first_bracket_from(ts, from, t).unwrap() + 1],
    decreases ts.len() - from,
{
    if from < 0 || from >= ts.len() - 1 {
    } else if ts[from] <= t && t < ts[from + 1] {
    } else {
        lemma_first_bracket_found(ts, from + 1, t);
    }
}

/// On time-ordered data, scanning forward from any index at or before the
/// interval that holds `t` finds exactly that interval: the update lands on
/// the same record that `KalshiDataset::find_idx` finds for `t`.
pub proof fn lemma_scan_finds_the_bracket(ts: Seq<u64>, from: int, k: int, t: u64)
    requires
        stamps_sorted(ts),
        brackets(ts, k, t),
        0 <= from <= k,
    ensures
        first_bracket_from(ts, from, t) == Some(k),
    decreases k - from,
{
    if from < k {
        if ts[from] <= t && t < ts[from + 1] {
            lemma_bracket_unique(ts, from, k, t);
        }
        lemma_scan_finds_the_bracket(ts, from + 1, k, t);
    }
}

/// After a successful update at time `t`, the underlying record and the
/// contract quote the indices point at are the ones in force at `t`: each
/// starts an interval that holds `t`. Neither index moves backward.
pub proof fn lemma_update_brackets_time(
    under: Seq<CoinbaseRecord>,
    deriv: Seq<KalshiRecord>,
    t: u64,
    u: usize,
    d: usize,
)
    requires
        PairMarketStream::next_indices(under, deriv, Some(t), Some(u), Some(d)) is Some,
    ensures
        ({
            let (nu, nd) = PairMarketStream::next_indices(
                under,
                deriv,
                Some(t),
                Some(u),
                Some(d),
            ).unwrap();
            &&& brackets(coinbase_stamps(under), nu, t)
            &&& brackets(kalshi_stamps(deriv), nd, t)
            &&& u <= nu
            &&& d <= nd
        }),
{
    lemma_first_bracket_found(coinbase_stamps(under), u as int, t);
    lemma_first_bracket_found(kalshi_stamps(deriv), d as int, t);
}

/// On time-ordered data, an update at time `t` finds the record in force:
/// whenever the underlying series has an interval `[ts[ku], ts[ku + 1])`
/// holding `t` at or after index `u`, and the quotes have one `[ts[kd],
/// ts[kd + 1])` at or after index `d`, the update succeeds and moves the
/// indices to exactly `ku` and `kd`, however far ahead they lie and whether or
/// not either index moves.
pub proof fn lemma_update_moves_to_the_intervals(
    under: Seq<CoinbaseRecord>,
    deriv: Seq<KalshiRecord>,
    t: u64,
    u: usize,
    d: usize,
    ku: int,
    kd: int,
)
    requires
        forall|i: int, j: int| 0 <= i <= j < under.len() ==> under[i].ts <= under[j].ts,
        forall|i: int, j: int| 0 <= i <= j < deriv.len() ==> deriv[i].ts <= deriv[j].ts,
        u <= ku,
        ku + 1 < under.len(),
        under[ku].ts <= t < under[ku + 1].ts,
        d <= kd,
        kd + 1 < deriv.len(),
        deriv[kd].ts <= t < deriv[kd + 1].ts,
    ensures
        PairMarketStream::next_indices(under, deriv, Some(t), Some(u), Some(d)) == Some((ku, kd)),
{
    let uts = coinbase_stamps(under);
    let dts = kalshi_stamps(deriv);
    assert(stamps_sorted(uts)) by {
        assert forall|i: int, j: int| 0 <= i <= j < uts.len() implies uts[i] <= uts[j] by {
            assert(uts[i] == under[i].ts && uts[j] == under[j].ts);
        }
    }
    assert(stamps_sorted(dts)) by {
        assert forall|i: int, j: int| 0 <= i <= j < dts.len() implies dts[i] <= dts[j] by {
            assert(dts[i] == deriv[i].ts && dts[j] == deriv[j].ts);
        }
    }
    assert(brackets(uts, ku, t));
    assert(brackets(dts, kd, t));
    lemma_scan_finds_the_bracket(uts, u as int, ku, t);
    lemma_scan_finds_the_bracket(dts, d as int, kd, t);
}

/// An update never lands anywhere else: when it succeeds, each index moves
/// forward (or stays) to an interval of its series that holds the time.
pub proof fn lemma_update_lands_on_intervals(
    under: Seq<CoinbaseRecord>,
    deriv: Seq<KalshiRecord>,
    t: u64,
    u: usize,
    d: usize,
)
    requires
        PairMarketStream::next_indices(under, deriv, Some(t), Some(u), Some(d)) is Some,
    ensures
        ({
            let (nu, nd) = PairMarketStream::next_indices(
                under,
                deriv,
                Some(t),
                Some(u),
                Some(d),
            ).unwrap();
            &&& u <= nu && nu + 1 < under.len() && under[nu].ts <= t < under[nu + 1].ts
            &&& d <= nd && nd + 1 < deriv.len() && deriv[nd].ts <= t < deriv[nd + 1].ts
        }),
{
    lemma_update_brackets_time(under, deriv, t, u, d);
    let (nu, nd) = PairMarketStream::next_indices(under, deriv, Some(t), Some(u), Some(d)).unwrap();
    assert(coinbase_stamps(under)[nu] == under[nu].ts);
    assert(coinbase_stamps(under)[nu + 1] == under[nu + 1].ts);
    assert(kalshi_stamps(deriv)[nd] == deriv[nd].ts);
    assert(kalshi_stamps(deriv)[nd + 1] == deriv[nd + 1].ts);
}

/// The underlying and contract indices after updates at each of `times` in
/// turn, starting from `u` and `d` (as `new`, `cycle` and `update_indices`
/// leave them: see `PairMarketStream::indices_after_update`).
pub open spec fn run_indices(
    under: Seq<CoinbaseRecord>,
    deriv: Seq<KalshiRecord>,
    u: Option<usize>,
    d: Option<usize>,
    times: Seq<Option<u64>>,
) -> (Option<usize>, Option<usize>)
    decreases times.len(),
{
    if times.len() == 0 {
        (u, d)
    } else {
        let before = run_indices(under, deriv, u, d, times.drop_last());
        match PairMarketStream::next_indices(under, deriv, times.last(), before.0, before.1) {
            Some((nu, nd)) => (Some(nu as usize), Some(nd as usize)),
            None => before,
        }
    }
}

/// One update moves indices inside the data to indices inside the data, and
/// never backward.
proof fn lemma_update_step_in_bounds(
    under: Seq<CoinbaseRecord>,
    deriv: Seq<KalshiRecord>,
    u: usize,
    d: usize,
    now: Option<u64>,
)
    requires
        u < under.len() <= usize::MAX,
        d < deriv.len() <= usize::MAX,
    ensures
        ({
            let next = match PairMarketStream::next_indices(under, deriv, now, Some(u), Some(d)) {
                Some((nu, nd)) => (Some(nu as usize), Some(nd as usize)),
                None => (Some(u), Some(d)),
            };
            next matches (Some(nu), Some(nd)) && u <= nu < under.len() && d <= nd < deriv.len()
        }),
{
    if let Some(t) = now {
        if PairMarketStream::next_indices(under, deriv, now, Some(u), Some(d)) is Some {
            lemma_first_bracket_found(coinbase_stamps(under), u as int, t);
            lemma_first_bracket_found(kalshi_stamps(deriv), d as int, t);
        }
    }
}

/// Indices that start inside the data stay present and inside the data over
/// any run of updates, and end at or after where they started.
proof fn lemma_run_indices_bounds(
    under: Seq<CoinbaseRecord>,
    deriv: Seq<KalshiRecord>,
    u: usize,
    d: usize,
    times: Seq<Option<u64>>,
)
    requires
        u < under.len() <= usize::MAX,
        d < deriv.len() <= usize::MAX,
    ensures
        run_indices(under, deriv, Some(u), Some(d), times) matches (Some(nu), Some(nd)) && u <= nu
            < under.len() && d <= nd < deriv.len(),
    decreases times.len(),
{
    if times.len() > 0 {
        let rest = times.drop_last();
        lemma_run_indices_bounds(under, deriv, u, d, rest);
        let before = run_indices(under, deriv, Some(u), Some(d), rest);
        lemma_update_step_in_bounds(under, deriv, before.0.unwrap(), before.1.unwrap(), times.last());
    }
}

/// Over any run of updates, indices that start inside the data stay present
/// and inside the data (so `get_records` always finds both records), and
/// they never move backward from one update to the next.
pub proof fn lemma_run_indices_in_bounds(
    under: Seq<CoinbaseRecord>,
    deriv: Seq<KalshiRecord>,
    u: usize,
    d: usize,
    times: Seq<Option<u64>>,
)
    requires
        u < under.len() <= usize::MAX,
        d < deriv.len() <= usize::MAX,
    ensures
        run_indices(under, deriv, Some(u), Some(d), times) matches (Some(nu), Some(nd)) && u <= nu
            < under.len() && d <= nd < deriv.len(),
        forall|i: int|
            0 <= i < times.len() ==> {
                let a = #[trigger] run_indices(under, deriv, Some(u), Some(d), times.take(i));
                let b = run_indices(under, deriv, Some(u), Some(d), times.take(i + 1));
                a.0.unwrap() <= b.0.unwrap() && a.1.unwrap() <= b.1.unwrap()
            },
{
    lemma_run_indices_bounds(under, deriv, u, d, times);
    assert forall|i: int| 0 <= i < times.len() implies {
        let a = #[trigger] run_indices(under, deriv, Some(u), Some(d), times.take(i));
        let b = run_indices(under, deriv, Some(u), Some(d), times.take(i + 1));
        a.0.unwrap() <= b.0.unwrap() && a.1.unwrap() <= b.1.unwrap()
    } by {
        lemma_run_indices_bounds(under, deriv, u, d, times.take(i));
        let a = run_indices(under, deriv, Some(u), Some(d), times.take(i));
        assert(times.take(i + 1).drop_last() =~= times.take(i));
        lemma_update_step_in_bounds(under, deriv, a.0.unwrap(), a.1.unwrap(), times.take(i + 1).last());
    }
}

/// Pairs the underlying asset's records with one contract's quotes, and walks
/// both forward in time together, one timer step at a time.
pub struct PairMarketStream<'a> {
    pub under_data: &'a [CoinbaseRecord],
    pub deriv_data: KalshiDataset,
    pub timer: DeltaTimer,
    pub under_current_index: Option<usize>,
    pub deriv_current_index: Option<usize>,
}

impl<'a> PairMarketStream<'a> {
    /// Each index that is present points into its data.
    pub open spec fn indices_in_bounds(&self) -> bool {
        &&& (self.under_current_index matches Some(i) ==> i < self.under_data@.len())
        &&& (self.deriv_current_index matches Some(j) ==> j < self.deriv_data.records@.len())
    }

    /// Searching for new indices at time `self.timer.now()` reads both data
    /// sets' last elements, which requires them to be non-empty.
    pub open spec fn can_search(&self) -> bool {
        self.timer.now() is Some && self.under_current_index is Some
            && self.deriv_current_index is Some ==> self.under_data@.len() > 0
            && self.deriv_data.records@.len() > 0
    }

    /// Where `update_indices` moves the indices `u` and `d` at time `now`:
    /// each to the first interval, at or after where it stands, that holds
    /// `now`. `None` when the timer has run out, an index is missing, or
    /// either data set has no such interval; then nothing moves.
    pub open spec fn next_indices(
        under: Seq<CoinbaseRecord>,
        deriv: Seq<KalshiRecord>,
        now: Option<u64>,
        u: Option<usize>,
        d: Option<usize>,
    ) -> Option<(int, int)> {
        match (now, u, d) {
            (Some(t), Some(u), Some(d)) => match (
                first_bracket_from(coinbase_stamps(under), u as int, t),
                first_bracket_from(kalshi_stamps(deriv), d as int, t),
            ) {
                (Some(nu), Some(nd)) => Some((nu, nd)),
                _ => None,
            },
            _ => None,
        }
    }

    /// The indices of `self` are what an update from `u` and `d` at time
    /// `now` leaves.
    pub open spec fn indices_after_update(&self, now: Option<u64>, u: Option<usize>, d: Option<usize>) -> bool {
        match Self::next_indices(self.under_data@, self.deriv_data.records@, now, u, d) {
            Some((nu, nd)) => self.under_current_index == Some(nu as usize)
                && self.deriv_current_index == Some(nd as usize),
            None => self.under_current_index == u && self.deriv_current_index == d,
        }
    }

    /// A stream whose timer runs from the contract's start to its expiry in
    /// steps of `delta`, with both indices placed for the start time.
    pub fn new(under_data: &'a [CoinbaseRecord], deriv_data: KalshiDataset, delta: u64) -> (r:
        Self)
        requires
            deriv_data.start_ts <= deriv_data.expir_ts ==> under_data@.len() > 0
                && deriv_data.records@.len() > 0,
        ensures
            r.under_data == under_data,
            r.deriv_data == deriv_data,
            r.timer.start() == deriv_data.start_ts,
            r.timer.end() == deriv_data.expir_ts,
            r.timer.current() == deriv_data.start_ts,
            r.timer.step() == delta,
            r.indices_after_update(r.timer.now(), Some(0), Some(0)),
            under_data@.len() > 0 && deriv_data.records@.len() > 0 ==> r.indices_in_bounds(),
    {
        let timer = DeltaTimer::new(deriv_data.start_ts, deriv_data.expir_ts, delta);
        let mut stream = PairMarketStream {
            under_data: under_data,
            deriv_data: deriv_data,
            timer: timer,
            under_current_index: Some(0),
            deriv_current_index: Some(0),
        };
        stream.update_indices();
        stream
    }

    /// Moves both indices forward to the intervals that hold the current
    /// time. Returns `Some(())` when both were found.
    pub fn update_indices(&mut self) -> (r: Option<()>)
        requires
            old(self).can_search(),
        ensures
            final(self).under_data == old(self).under_data,
            final(self).deriv_data == old(self).deriv_data,
            final(self).timer == old(self).timer,
            final(self).indices_after_update(
                old(self).timer.now(),
                old(self).under_current_index,
                old(self).deriv_current_index,
            ),
            r is Some <==> Self::next_indices(
                old(self).under_data@,
                old(self).deriv_data.records@,
                old(self).timer.now(),
                old(self).under_current_index,
                old(self).deriv_current_index,
            ) is Some,
            old(self).indices_in_bounds() ==> final(self).indices_in_bounds(),
            r is None ==> final(self).under_current_index == old(self).under_current_index
                && final(self).deriv_current_index == old(self).deriv_current_index,
            r is Some ==> ({
                let under = old(self).under_data@;
                let deriv = old(self).deriv_data.records@;
                &&& old(self).timer.now() matches Some(t)
                &&& old(self).under_current_index matches Some(u)
                &&& old(self).deriv_current_index matches Some(d)
                &&& final(self).under_current_index matches Some(nu)
                &&& final(self).deriv_current_index matches Some(nd)
                &&& u <= nu && nu + 1 < under.len() && under[nu as int].ts <= t < under[nu + 1].ts
                &&& d <= nd && nd + 1 < deriv.len() && deriv[nd as int].ts <= t < deriv[nd + 1].ts
            }),
    {
        let curr_time = match self.timer.get_time() {
            Some(t) => t,
            None => return None,
        };
        let search_start = match self.under_current_index {
            Some(i) => i,
            None => return None,
        };
        if self.deriv_current_index.is_none() {
            return None;
        }
        // Underlying index update

        let ghost uts = coinbase_stamps(self.under_data@);
        let under_last = self.under_data.len() - 1;
        let mut new_under_index: Option<usize> = None;
        let mut i = search_start;
        while i < under_last
            invariant_except_break
                new_under_index is None,
            invariant
                under_last == self.under_data@.len() - 1,
                uts == coinbase_stamps(self.under_data@),
                i >= search_start,
                first_bracket_from(uts, search_start as int, curr_time)
                    == first_bracket_from(uts, i as int, curr_time),
            ensures
                match new_under_index {
                    Some(k) => first_bracket_from(uts, search_start as int, curr_time) == Some(
                        k as int,
                    ),
                    None => first_bracket_from(uts, search_start as int, curr_time) is None,
                },
            decreases under_last - i,
        {
            if self.under_data[i].ts <= curr_time && self.under_data[i + 1].ts > curr_time {
                new_under_index = Some(i);
                break;
            }
            i = i + 1;
        }
        // Derivative index update

        let search_start_d = match self.deriv_current_index {
            Some(j) => j,
            None => return None,
        };
        let ghost dts = kalshi_stamps(self.deriv_data.records@);
        let deriv_last = self.deriv_data.records.len() - 1;
        let mut new_deriv_index: Option<usize> = None;
        let mut j = search_start_d;
        while j < deriv_last
            invariant_except_break
                new_deriv_index is None,
            invariant
                deriv_last == self.deriv_data.records@.len() - 1,
                dts == kalshi_stamps(self.deriv_data.records@),
                j >= search_start_d,
                first_bracket_from(dts, search_start_d as int, curr_time) == first_bracket_from(
                    dts,
                    j as int,
                    curr_time,
                ),
            ensures
                match new_deriv_index {
                    Some(k) => first_bracket_from(dts, search_start_d as int, curr_time) == Some(
                        k as int,
                    ),
                    None => first_bracket_from(dts, search_start_d as int, curr_time) is None,
                },
            decreases deriv_last - j,
        {
            if self.deriv_data.records[j].ts <= curr_time && self.deriv_data.records[j + 1].ts
                > curr_time {
                new_deriv_index = Some(j);
                break;
            }
            j = j + 1;
        }
        match (new_under_index, new_deriv_index) {
            (Some(under_index), Some(deriv_index)) => {
                proof {
                    lemma_first_bracket_found(uts, search_start as int, curr_time);
                    lemma_first_bracket_found(dts, search_start_d as int, curr_time);
                    lemma_update_lands_on_intervals(
                        self.under_data@,
                        self.deriv_data.records@,
                        curr_time,
                        search_start,
                        search_start_d,
                    );
                }
                self.under_current_index = Some(under_index);
                self.deriv_current_index = Some(deriv_index);
                Some(())
            },
            _ => None,
        }
    }

    /// Advances the timer one step and moves the indices to the new time.
    pub fn cycle(&mut self)
        requires
            old(self).timer.can_cycle(),
            old(self).timer.current() + old(self).timer.step() <= old(self).timer.end()
                && old(self).under_current_index is Some && old(self).deriv_current_index is Some
                ==> old(self).under_data@.len() > 0 && old(self).deriv_data.records@.len() > 0,
        ensures
            final(self).under_data == old(self).under_data,
            final(self).deriv_data == old(self).deriv_data,
            final(self).timer.current() == old(self).timer.current() + old(self).timer.step(),
            final(self).timer.start() == old(self).timer.start(),
            final(self).timer.end() == old(self).timer.end(),
            final(self).timer.step() == old(self).timer.step(),
            final(self).indices_after_update(
                final(self).timer.now(),
                old(self).under_current_index,
                old(self).deriv_current_index,
            ),
            old(self).indices_in_bounds() ==> final(self).indices_in_bounds(),
    {
        self.timer.cycle();
        self.update_indices();
    }

    /// The current time, while the timer is running.
    pub fn get_time(&self) -> (t: Option<u64>)
        ensures
            t == self.timer.now(),
    {
        self.timer.get_time()
    }

    /// The current underlying and contract indices.
    pub fn get_indices(&self) -> (r: (Option<usize>, Option<usize>))
        ensures
            r == (self.under_current_index, self.deriv_current_index),
    {
        let return_under_index = match self.under_current_index {
            Some(val) => Some(val),
            _ => None,
        };
        let return_deriv_index = match self.deriv_current_index {
            Some(val) => Some(val),
            _ => None,
        };
        (return_under_index, return_deriv_index)
    }

    /// The underlying record and the contract quote the indices point at.
    pub fn get_records<'b>(&'b self) -> (r: Option<(&'b CoinbaseRecord, &'b KalshiRecord)>)
        requires
            self.indices_in_bounds(),
        ensures
            r is Some <==> self.under_current_index is Some && self.deriv_current_index is Some,
            r matches Some((c, k)) ==> *c == self.under_data@[self.under_current_index.unwrap() as int]
                && *k == self.deriv_data.records@[self.deriv_current_index.unwrap() as int],
    {
        let coinbase_index = match self.under_current_index {
            Some(val) => val,
            _ => return None,
        };
        let return_coinbase = &self.under_data[coinbase_index];
        let deriv_index = match self.deriv_current_index {
            Some(val) => val,
            _ => return None,
        };
        let return_kalshi = &self.deriv_data.records[deriv_index];
        Some((return_coinbase, return_kalshi))
    }
}

} // verus!
