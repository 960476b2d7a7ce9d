use vstd::prelude::*;

use crate::read_data::data_types::KalshiRecord;

verus! {

/// A quote the hedge trusts: a spread of at most five cents, and a bid and
/// ask away from the ends of the price range (bid at least 5, ask at most
/// 95).
pub open spec fn quote_is_valid(kl_record: KalshiRecord) -> bool {
    kl_record.ask - kl_record.bid <= 5 && kl_record.ask <= 95 && kl_record.bid >= 5
}

/// Whether the hedge should act on this quote (see `quote_is_valid`). The
/// spread is computed in 8 bits, so the ask must not be below the bid.
pub fn validate_data(kl_record: &KalshiRecord) -> (r: bool)
    requires
        kl_record.bid <= kl_record.ask,
    ensures
        r == quote_is_valid(*kl_record),
        r == (kl_record.ask - kl_record.bid <= 5 && kl_record.ask <= 95 && kl_record.bid >= 5),
{
    if (kl_record.ask - kl_record.bid) > 5 {
        return false;
    } else if (kl_record.ask > 95) || (kl_record.bid < 5) {
        return false;
    }
    true
}

/// The hedge acts on a quote exactly when its spread (ask minus bid) is at
/// most 5, its ask is at most 95 and its bid is at least 5; nothing else
/// rules a quote out.
pub proof fn lemma_quote_validity(q: KalshiRecord)
    ensures
        quote_is_valid(q) <==> (q.ask as int - q.bid as int <= 5 && q.ask as int <= 95
            && q.bid as int >= 5),
{
}

} // verus!
