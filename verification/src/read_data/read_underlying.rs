use vstd::prelude::*;

use crate::read_data::record_chunks::{regex_find_all, RecordChunker};

verus! {

/// Cuts a dump of underlying records into the texts of its records: the
/// pieces of `text` that `re` matches, in order.
pub fn chunk_coinbase_records(text: &str, re: &RecordChunker) -> (r: Vec<String>)
    ensures
        r@.map_values(|s: String| s@) == regex_find_all(re.pattern(), text@),
{
    re.chunks(text)
}

} // verus!
