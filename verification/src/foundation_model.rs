use crate::errors::UorResult;
use crate::manifold::Manifold;
use vstd::prelude::*;

verus! {

/// Capability interface for a domain-transform stage: it receives a read
/// reference to the current graph and returns the graph that flows onward.
/// Separate stages have no ordering dependency beyond the sequence position
/// the stack assigns them.
pub trait FoundationModel {
    /// Transforms the input graph. Implementations must keep the graph
    /// well-formed; whether and how the value changes is the strategy's
    /// choice.
    fn process_manifold(&mut self, input: &Manifold) -> (r: UorResult<Manifold>)
        requires
            input.wf(),
        ensures
            r matches Ok(m) ==> m.wf(),
    ;
}

/// Domain-transform stage that performs no transformation: it always
/// succeeds and hands back a graph with the same value.
pub struct NullFoundationModel;

impl Default for NullFoundationModel {
    fn default() -> (r: Self)
        ensures
            r == NullFoundationModel,
    {
        NullFoundationModel
    }
}

impl FoundationModel for NullFoundationModel {
    fn process_manifold(&mut self, input: &Manifold) -> (r: UorResult<Manifold>)
        ensures
            r matches Ok(m) && m@ == input@,
    {
        Ok(input.clone())
    }
}

} // verus!
