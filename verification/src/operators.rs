use crate::errors::UorResult;
use crate::manifold::Manifold;
use vstd::prelude::*;

verus! {

/// Capability interface for a numeric/structural rewrite stage, applied
/// after scheduling. It has the same transform shape as a domain transform
/// but is kept distinct so a stack can swap numeric backends independently
/// of domain logic.
pub trait HpcOperator {
    /// Rewrites the graph. Implementations must keep the graph well-formed.
    fn apply(&self, manifold: &Manifold) -> (r: UorResult<Manifold>)
        requires
            manifold.wf(),
        ensures
            r matches Ok(m) ==> m.wf(),
    ;
}

/// Operator stub: it always succeeds and hands back a graph with the same
/// value.
pub struct ExampleOperator;

impl Default for ExampleOperator {
    fn default() -> (r: Self)
        ensures
            r == ExampleOperator,
    {
        ExampleOperator
    }
}

impl HpcOperator for ExampleOperator {
    fn apply(&self, manifold: &Manifold) -> (r: UorResult<Manifold>)
        ensures
            r matches Ok(m) && m@ == manifold@,
    {
        Ok(manifold.clone())
    }
}

} // verus!
