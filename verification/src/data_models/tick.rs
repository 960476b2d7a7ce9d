use vstd::prelude::*;

verus! {

/// A market update that carries the time at which it happened.
pub trait Tick {
    /// The update's timestamp (unix seconds). Implementations in this
    /// library define it; for others it is left unspecified.
    closed spec fn timestamp(&self) -> u64 {
        arbitrary()
    }

    fn ts(&self) -> (r: u64)
        ensures
            r == self.timestamp(),
    ;
}

/// The timestamps of a run of updates, in order.
pub open spec fn tick_stamps<D: Tick>(data: Seq<D>) -> Seq<u64> {
    data.map_values(|d: D| d.timestamp())
}

} // verus!
