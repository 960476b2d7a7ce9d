use vstd::prelude::*;

use crate::data_models::fixed_point::{
    all_digits, digits_value, lemma_fixed_point_fraction, lemma_fixed_point_whole, parse_fixed_point,
    parse_fixed_point_bytes, pow10,
};
use crate::data_models::tick::Tick;
use vstd::string::StringSliceAdditionalSpecFns;

verus! {

/// One change of an order book level.
#[derive(Debug)]
pub struct KalshiOrderbookUpdate {
    /// Unix timestamp (seconds).
    pub ts: u64,
    /// Price level, in hundredths of a cent.
    pub price: u64,
    /// Change in the number of contracts at that level.
    pub delta: i64,
}

/// Why an order book message could not be turned into an update.
#[derive(Debug, Clone, Copy, PartialEq, Eq)]
pub enum UpdateConversionError {
    /// The timestamp is not an RFC 3339 date-time.
    InvalidTimestamp,
    /// The price is not a non-negative decimal number of dollars with at most
    /// four places, or it is too large.
    InvalidPrice,
    /// The size change is not a whole decimal number of contracts, or it is
    /// too large.
    InvalidDelta,
}

/// The unix time (seconds) that RFC 3339 date-time text names, when the
/// text is one.
pub uninterp spec fn rfc3339_unix_seconds(text: Seq<char>) -> Option<i64>;

/// Calls chrono's `DateTime::parse_from_rfc3339` on `text` and takes the
/// parsed value's `timestamp()`. Trusted: the result is `None` exactly when
/// chrono rejects the text, and otherwise the seconds since the unix epoch;
/// which texts chrono accepts, and the seconds it computes, are named by
/// `rfc3339_unix_seconds` and not spelled out.
#[verifier::external_body]
fn parse_rfc3339_seconds(text: &str) -> (r: Option<i64>)
    ensures
        r == rfc3339_unix_seconds(text@),
{
    chrono::DateTime::parse_from_rfc3339(text).ok().map(|dt| dt.timestamp())
}

/// The update that a message with timestamp text `ts`, price text `price`
/// and size-change text `delta` describes: the time the RFC 3339 `ts` names
/// (stored unsigned, as a two's complement reinterpretation), the price
/// counted in hundredths of a cent (a dollar amount with at most four
/// places, not negative), and the size change counted in whole contracts.
/// The first text that does not qualify gives the error.
pub open spec fn converted_update(ts: Seq<char>, price: Seq<u8>, delta: Seq<u8>) -> Result<
    KalshiOrderbookUpdate,
    UpdateConversionError,
> {
    match rfc3339_unix_seconds(ts) {
        None => Err(UpdateConversionError::InvalidTimestamp),
        Some(seconds) => match parse_fixed_point(price, 4) {
            Some(p) if p >= 0 => match parse_fixed_point(delta, 0) {
                Some(d) => Ok(KalshiOrderbookUpdate { ts: seconds as u64, price: p as u64, delta: d as i64 }),
                None => Err(UpdateConversionError::InvalidDelta),
            },
            _ => Err(UpdateConversionError::InvalidPrice),
        },
    }
}

/// A message with an RFC 3339 time, a price of `a.f` dollars (at most four
/// decimal places) and a whole size change `[-]g` converts to the update at
/// that time whose price is the dollar amount counted in hundredths of a cent
/// (`a` times 10000 plus `f` scaled to four places) and whose size change is
/// `g`, negated after a minus sign: every such price is accepted, not only
/// whole cents.
pub proof fn lemma_converts_valid_texts(
    ts: Seq<char>,
    a: Seq<u8>,
    f: Seq<u8>,
    neg: bool,
    g: Seq<u8>,
)
    requires
        rfc3339_unix_seconds(ts) is Some,
        a.len() > 0,
        all_digits(a),
        0 < f.len() <= 4,
        all_digits(f),
        digits_value(a) * 10000 + digits_value(f) * pow10((4 - f.len()) as nat) <= i64::MAX,
        g.len() > 0,
        all_digits(g),
        digits_value(g) <= i64::MAX,
    ensures
        converted_update(
            ts,
            a + seq![46u8] + f,
            (if neg {
                seq![45u8]
            } else {
                Seq::empty()
            }) + g,
        ) == Ok::<KalshiOrderbookUpdate, UpdateConversionError>(
            KalshiOrderbookUpdate {
                ts: rfc3339_unix_seconds(ts).unwrap() as u64,
                price: (digits_value(a) * 10000 + digits_value(f) * pow10((4 - f.len()) as nat)) as u64,
                delta: (if neg {
                    -digits_value(g)
                } else {
                    digits_value(g) as int
                }) as i64,
            },
        ),
{
    assert(pow10(4) == 10000) by {
        reveal_with_fuel(pow10, 5);
    }
    assert(pow10(0) == 1);
    lemma_fixed_point_fraction(false, a, f, 4);
    assert(Seq::<u8>::empty() + a =~= a);
    lemma_fixed_point_whole(neg, g, 0);
    let x = digits_value(g);
    assert(x * 1 == x) by (nonlinear_arith);
}

/// A price of whole dollars `a` (no decimal point) is counted as `a` times
/// 10000 hundredths of a cent.
pub proof fn lemma_converts_whole_dollars(ts: Seq<char>, a: Seq<u8>, g: Seq<u8>)
    requires
        rfc3339_unix_seconds(ts) is Some,
        a.len() > 0,
        all_digits(a),
        digits_value(a) * 10000 <= i64::MAX,
        g.len() > 0,
        all_digits(g),
        digits_value(g) <= i64::MAX,
    ensures
        converted_update(ts, a, g) == Ok::<KalshiOrderbookUpdate, UpdateConversionError>(
            KalshiOrderbookUpdate {
                ts: rfc3339_unix_seconds(ts).unwrap() as u64,
                price: (digits_value(a) * 10000) as u64,
                delta: digits_value(g) as i64,
            },
        ),
{
    assert(pow10(4) == 10000) by {
        reveal_with_fuel(pow10, 5);
    }
    assert(pow10(0) == 1);
    assert(Seq::<u8>::empty() + a =~= a);
    assert(Seq::<u8>::empty() + g =~= g);
    lemma_fixed_point_whole(false, a, 4);
    lemma_fixed_point_whole(false, g, 0);
    let x = digits_value(g);
    assert(x * 1 == x) by (nonlinear_arith);
}

/// A time that is not RFC 3339 is refused as such, whatever the other
/// texts; with a valid time, a price below zero is refused as a price.
pub proof fn lemma_conversion_errors(ts: Seq<char>, price: Seq<u8>, delta: Seq<u8>, a: Seq<u8>)
    requires
        a.len() > 0,
        all_digits(a),
        0 < digits_value(a),
        digits_value(a) * 10000 <= i64::MAX,
    ensures
        rfc3339_unix_seconds(ts) is None ==> converted_update(ts, price, delta) == Err::<
            KalshiOrderbookUpdate,
            UpdateConversionError,
        >(UpdateConversionError::InvalidTimestamp),
        rfc3339_unix_seconds(ts) is Some ==> converted_update(ts, seq![45u8] + a, delta) == Err::<
            KalshiOrderbookUpdate,
            UpdateConversionError,
        >(UpdateConversionError::InvalidPrice),
{
    assert(pow10(4) == 10000) by {
        reveal_with_fuel(pow10, 5);
    }
    lemma_fixed_point_whole(true, a, 4);
}

impl KalshiOrderbookUpdate {
    pub fn new(ts: u64, price: u64, delta: i64) -> (r: Self)
        ensures
            r == (KalshiOrderbookUpdate { ts, price, delta }),
    {
        KalshiOrderbookUpdate { ts, price, delta }
    }

    /// The update that an order book delta message with these texts
    /// describes (its `ts`, `price_dollars` and `delta_fp` fields): the time
    /// the RFC 3339 `ts` names, the price in `price_dollars` counted in
    /// hundredths of a cent, and the size change in `delta_fp` counted in
    /// whole contracts.
    pub fn from_message_texts(ts: &str, price_dollars: &str, delta_fp: &str) -> (r: Result<
        Self,
        UpdateConversionError,
    >)
        ensures
            r == converted_update(ts@, price_dollars.spec_bytes(), delta_fp.spec_bytes()),
    {
        let seconds = match parse_rfc3339_seconds(ts) {
            Some(s) => s,
            None => return Err(UpdateConversionError::InvalidTimestamp),
        };
        let price = match parse_fixed_point_bytes(price_dollars.as_bytes(), 4) {
            Some(p) => {
                if p < 0 {
                    return Err(UpdateConversionError::InvalidPrice);
                }
                p as u64
            },
            None => return Err(UpdateConversionError::InvalidPrice),
        };
        let delta = match parse_fixed_point_bytes(delta_fp.as_bytes(), 0) {
            Some(d) => d,
            None => return Err(UpdateConversionError::InvalidDelta),
        };
        Ok(KalshiOrderbookUpdate { ts: seconds as u64, price, delta })
    }
}

impl Tick for KalshiOrderbookUpdate {
    open spec fn timestamp(&self) -> u64 {
        self.ts
    }

    fn ts(&self) -> (r: u64) {
        self.ts
    }
}

} // verus!
