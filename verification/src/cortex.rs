use crate::errors::UorResult;
use crate::manifold::Manifold;
use vstd::prelude::*;

verus! {

/// Number of reference slots in a `MemoryCortex`; fixed at construction and
/// never changed afterwards.
pub const CORTEX_SLOTS: usize = 144;

/// One addressable reference slot: a positional index and an optional
/// numeric payload. Index assignment is positional, not content-derived.
#[derive(Debug, Clone, Copy)]
pub struct PrimeReference {
    pub prime_index: usize,
    pub data: Option<i64>,
}

/// Fixed-capacity memory store tied to one pipeline stack: exactly
/// `CORTEX_SLOTS` reference slots, created fully populated with empty slots
/// and never resized. Only the embedding stage writes slot payloads.
#[derive(Debug)]
pub struct MemoryCortex {
    pub references: Vec<PrimeReference>,
}

impl MemoryCortex {
    /// The store's fixed shape: exactly `CORTEX_SLOTS` slots, each carrying
    /// its own position as its index.
    pub open spec fn wf(self) -> bool {
        self.references@.len() == CORTEX_SLOTS && forall|i: int|
            0 <= i < self.references@.len() ==> (#[trigger] self.references@[i]).prime_index == i
    }

    /// No slot currently holds a payload.
    pub open spec fn all_empty(self) -> bool {
        forall|i: int|
            0 <= i < self.references@.len() ==> (#[trigger] self.references@[i]).data is None
    }

    /// Initializes the store with `CORTEX_SLOTS` empty reference slots.
    pub fn new_144() -> (r: Self)
        ensures
            r.wf(),
            r.all_empty(),
    {
        let mut refs: Vec<PrimeReference> = Vec::new();
        let mut i: usize = 0;
        while i < CORTEX_SLOTS
            invariant
                i <= CORTEX_SLOTS,
                refs@.len() == i,
                forall|j: int|
                    0 <= j < i ==> (#[trigger] refs@[j]).prime_index == j && refs@[j].data
                        is None,
            decreases CORTEX_SLOTS - i,
        {
            refs.push(PrimeReference { prime_index: i, data: None });
            i = i + 1;
        }
        MemoryCortex { references: refs }
    }

    /// Associates the given graph with the reference slots. The concrete
    /// association is an embedding strategy's concern; this stub succeeds
    /// and leaves the store unchanged.
    pub fn link_manifold(&mut self, _manifold: &Manifold) -> (r: UorResult<()>)
        ensures
            r is Ok,
            *final(self) == *old(self),
    {
        Ok(())
    }
}

impl Default for MemoryCortex {
    fn default() -> (r: Self)
        ensures
            r.wf(),
            r.all_empty(),
    {
        MemoryCortex::new_144()
    }
}

} // verus!
