use vstd::prelude::*;

use crate::data_models::tick::Tick;

verus! {

/// One minute of the underlying asset: its timestamp and opening price.
///
/// `price` is a double-precision value carried as its IEEE-754 bit pattern;
/// the library only moves it around.
#[derive(Debug)]
pub struct CoinbaseRecord {
    pub ts: u64,
    pub price: u64,
}

impl CoinbaseRecord {
    pub fn new(ts: u64, price: u64) -> (r: Self)
        ensures
            r == (CoinbaseRecord { ts, price }),
    {
        Self { ts, price }
    }
}

impl Tick for CoinbaseRecord {
    open spec fn timestamp(&self) -> u64 {
        self.ts
    }

    fn ts(&self) -> (r: u64) {
        self.ts
    }
}

} // verus!
