use crate::cortex::MemoryCortex;
use crate::errors::UorResult;
use crate::manifold::Manifold;
use vstd::prelude::*;

verus! {

/// A basic quaternion: a four-component numeric tuple, the output unit of
/// an embedding pass.
#[derive(Debug, Clone, Copy, PartialEq, Eq, Structural)]
pub struct Quaternion {
    pub w: i64,
    pub x: i64,
    pub y: i64,
    pub z: i64,
}

/// Capability interface for embedding a graph into quaternion space. This
/// is the only interface with write access to the cortex: an implementation
/// may fill any slot's payload, but may neither resize the store nor move a
/// slot's positional index.
pub trait QuaternionEmbedding {
    /// Embeds the graph, possibly writing slot payloads into the cortex,
    /// and returns the resulting quaternion sequence.
    fn embed_manifold(&self, manifold: &Manifold, cortex: &mut MemoryCortex) -> (r: UorResult<
        Vec<Quaternion>,
    >)
        requires
            manifold.wf(),
        ensures
            final(cortex).references@.len() == old(cortex).references@.len(),
            forall|i: int|
                0 <= i < old(cortex).references@.len() ==> (
                #[trigger] final(cortex).references@[i]).prime_index == old(
                    cortex,
                ).references@[i].prime_index,
    ;
}

/// Embedding strategy stub: it writes nothing into the cortex and returns
/// the single identity quaternion.
pub struct DefaultQuaternionEmbedding;

impl Default for DefaultQuaternionEmbedding {
    fn default() -> (r: Self)
        ensures
            r == DefaultQuaternionEmbedding,
    {
        DefaultQuaternionEmbedding
    }
}

impl QuaternionEmbedding for DefaultQuaternionEmbedding {
    fn embed_manifold(&self, _manifold: &Manifold, cortex: &mut MemoryCortex) -> (r: UorResult<
        Vec<Quaternion>,
    >)
        ensures
            *final(cortex) == *old(cortex),
            r matches Ok(qs) && qs@ == seq![(Quaternion { w: 1, x: 0, y: 0, z: 0 })],
    {
        let mut qs: Vec<Quaternion> = Vec::new();
        qs.push(Quaternion { w: 1, x: 0, y: 0, z: 0 });
        proof {
            assert(qs@ =~= seq![(Quaternion { w: 1, x: 0, y: 0, z: 0 })]);
        }
        Ok(qs)
    }
}

} // verus!
