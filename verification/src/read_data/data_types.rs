use vstd::prelude::*;

verus! {

/// One observation of a derivative contract's quote.
///
/// `tte` (hours to expiry) is a double-precision value carried as its IEEE-754
/// bit pattern; the library only moves it around.
#[derive(Debug)]
pub struct KalshiRecord {
    pub ts: u64,
    pub tte: u64,
    pub bid: u8,
    pub ask: u8,
}

impl KalshiRecord {
    pub fn new(ts: u64, tte: u64, bid: u8, ask: u8) -> (r: Self)
        ensures
            r == (KalshiRecord { ts, tte, bid, ask }),
    {
        KalshiRecord { ts, tte, bid, ask }
    }
}

/// All recorded quotes of one contract, with its strike and lifetime.
///
/// `strike` is a double-precision value carried as its IEEE-754 bit pattern.
pub struct KalshiDataset {
    pub records: Vec<KalshiRecord>,
    pub strike: u64,
    pub start_ts: u64,
    pub expir_ts: u64,
}

/// One minute of the underlying asset.
///
/// `price`, `mu` and `sigma` are double-precision values carried as their
/// IEEE-754 bit patterns; the library only moves them around.
#[derive(Debug)]
pub struct CoinbaseRecord {
    pub ts: u64,
    pub price: u64,
    pub mu: u64,
    pub sigma: u64,
}

impl CoinbaseRecord {
    pub fn new(ts: u64, price: u64, mu: u64, sigma: u64) -> (r: Self)
        ensures
            r == (CoinbaseRecord { ts, price, mu, sigma }),
    {
        CoinbaseRecord { ts, price, mu, sigma }
    }
}

/// The timestamps of a run of underlying records, in order.
pub open spec fn coinbase_stamps(data: Seq<CoinbaseRecord>) -> Seq<u64> {
    data.map_values(|r: CoinbaseRecord| r.ts)
}

/// The timestamps of a run of contract quotes, in order.
pub open spec fn kalshi_stamps(data: Seq<KalshiRecord>) -> Seq<u64> {
    data.map_values(|r: KalshiRecord| r.ts)
}

/// Timestamps that never decrease.
pub open spec fn stamps_sorted(ts: Seq<u64>) -> bool {
    forall|i: int, j: int| 0 <= i <= j < ts.len() ==> ts[i] <= ts[j]
}

/// `t` falls in the interval that starts at `ts[i]` and ends before `ts[i + 1]`.
pub open spec fn brackets(ts: Seq<u64>, i: int, t: u64) -> bool {
    0 <= i < ts.len() - 1 && ts[i] <= t && t < ts[i + 1]
}

/// `t` lies at or after the first timestamp and before the last one.
pub open spec fn covers(ts: Seq<u64>, t: u64) -> bool {
    ts.len() > 0 && ts[0] <= t && t < ts[ts.len() - 1]
}

/// In sorted timestamps at most one interval holds a given time.
pub proof fn lemma_bracket_unique(ts: Seq<u64>, i: int, j: int, t: u64)
    requires
        stamps_sorted(ts),
        brackets(ts, i, t),
        brackets(ts, j, t),
    ensures
        i == j,
{
    if i < j {
        assert(ts[i + 1] <= ts[j]);
    } else if j < i {
        assert(ts[j + 1] <= ts[i]);
    }
}

/// In sorted timestamps, a later time never falls in an earlier interval.
pub proof fn lemma_bracket_monotone(ts: Seq<u64>, i: int, j: int, t1: u64, t2: u64)
    requires
        stamps_sorted(ts),
        brackets(ts, i, t1),
        brackets(ts, j, t2),
        t1 <= t2,
    ensures
        i <= j,
{
    if j < i {
        assert(ts[j + 1] <= ts[i]);
    }
}

impl KalshiDataset {
    pub fn new(records: Vec<KalshiRecord>, strike: u64, start_ts: u64, expir_ts: u64) -> (r: Self)
        ensures
            r.records@ == records@,
            r.strike == strike,
            r.start_ts == start_ts,
            r.expir_ts == expir_ts,
    {
        KalshiDataset { records, strike, start_ts, expir_ts }
    }

    /// Finds the record with the largest index whose timestamp is still at or
    /// before `timestamp`. A `timestamp` before the first record or at or after
    /// the last one has no such record strictly inside the data, and gives
    /// `None`. The search assumes the records are in time order; on records
    /// out of order it still returns an interval that holds `timestamp`.
    pub fn find_idx(timestamp: u64, underlying_data: &Vec<CoinbaseRecord>) -> (r: Option<usize>)
        ensures
            r is Some <==> covers(coinbase_stamps(underlying_data@), timestamp),
            r matches Some(i) ==> brackets(coinbase_stamps(underlying_data@), i as int, timestamp),
            r matches Some(i) ==> stamps_sorted(coinbase_stamps(underlying_data@)) ==> forall|k: int|
                i < k < underlying_data@.len() ==> timestamp < #[trigger] underlying_data@[k].ts,
    {
        let ghost ts = coinbase_stamps(underlying_data@);
        let len = underlying_data.len();
        if len == 0 {
            return None;
        }
        let first_ts = underlying_data[0].ts;
        let last_ts = underlying_data[len - 1].ts;
        if timestamp < first_ts || timestamp >= last_ts {
            return None;
        }
        // The answer lies in [range_start, range_end): the record at
        // range_start is not after `timestamp`, the one at range_end is.

        let mut range_start: usize = 0;
        let mut range_end: usize = len - 1;
        let mut idx: usize = range_end / 2;
        loop
            invariant
                len == underlying_data@.len(),
                ts == coinbase_stamps(underlying_data@),
                range_start <= idx < range_end < len,
                idx == range_start + (range_end - range_start) / 2,
                underlying_data@[range_start as int].ts <= timestamp,
                timestamp < underlying_data@[range_end as int].ts,
                covers(ts, timestamp),
            decreases range_end - range_start,
        {
            let idx_ts = underlying_data[idx].ts;
            let next_idx_ts = underlying_data[idx + 1].ts;
            if idx_ts <= timestamp && next_idx_ts > timestamp {
                proof {
                    if stamps_sorted(ts) {
                        assert forall|k: int| idx < k < underlying_data@.len() implies timestamp
                            < #[trigger] underlying_data@[k].ts by {
                            assert(ts[idx + 1] <= ts[k]);
                        }
                    }
                }
                return Some(idx);
            }
            if idx_ts <= timestamp {
                range_start = idx;
            } else {
                range_end = idx;
            }
            idx = range_start + (range_end - range_start) / 2;
        }
    }

    /// The underlying records that cover this contract's lifetime: from the
    /// record in force at `start_ts` through the one in force at `expir_ts`.
    /// `None` when either time is not strictly inside the data.
    pub fn relevant_slice<'a>(&self, underlying_data: &'a Vec<CoinbaseRecord>) -> (r: Option<
        &'a [CoinbaseRecord],
    >)
        requires
            stamps_sorted(coinbase_stamps(underlying_data@)),
            forall|i: int, j: int|
                brackets(coinbase_stamps(underlying_data@), i, self.start_ts) && brackets(
                    coinbase_stamps(underlying_data@),
                    j,
                    self.expir_ts,
                ) ==> i < j,
        ensures
            r is Some <==> covers(coinbase_stamps(underlying_data@), self.start_ts) && covers(
                coinbase_stamps(underlying_data@),
                self.expir_ts,
            ),
            r matches Some(s) ==> forall|i: int, j: int|
                brackets(coinbase_stamps(underlying_data@), i, self.start_ts) && brackets(
                    coinbase_stamps(underlying_data@),
                    j,
                    self.expir_ts,
                ) ==> s@ == underlying_data@.subrange(i, j + 1),
    {
        let slice_start = match Self::find_idx(self.start_ts, underlying_data) {
            Some(i) => i,
            None => return None,
        };
        let slice_end = match Self::find_idx(self.expir_ts, underlying_data) {
            Some(i) => i,
            None => return None,
        };
        let ghost ts = coinbase_stamps(underlying_data@);
        assert(brackets(ts, slice_start as int, self.start_ts));
        assert(brackets(ts, slice_end as int, self.expir_ts));
        let n = underlying_data.len();
        assert(ts.len() == n);
        let s = vstd::slice::slice_subrange(underlying_data.as_slice(), slice_start, slice_end + 1);
        assert forall|i: int, j: int|
            brackets(ts, i, self.start_ts) && brackets(ts, j, self.expir_ts) implies s@
            == underlying_data@.subrange(i, j + 1) by {
            lemma_bracket_unique(ts, i, slice_start as int, self.start_ts);
            lemma_bracket_unique(ts, j, slice_end as int, self.expir_ts);
        }
        Some(s)
    }
}

} // verus!
