use crate::errors::UorResult;
use crate::foundation_model::FoundationModel;
use crate::manifold::Manifold;
use vstd::prelude::*;

verus! {

/// A coordinating domain-transform stage intended for a distinguished
/// position in the stage list. It satisfies the same interface as any other
/// stage and receives no special treatment from the orchestrator; this stub
/// carries no parameters and passes the graph through unchanged.
pub struct UorKernel {}

impl UorKernel {
    /// Creates a kernel stage in its default configuration.
    pub fn new() -> (r: Self)
        ensures
            r == (UorKernel {  }),
    {
        UorKernel {  }
    }
}

impl Default for UorKernel {
    fn default() -> (r: Self)
        ensures
            r == (UorKernel {  }),
    {
        UorKernel {  }
    }
}

impl FoundationModel for UorKernel {
    fn process_manifold(&mut self, input: &Manifold) -> (r: UorResult<Manifold>)
        ensures
            r matches Ok(m) && m@ == input@,
    {
        Ok(input.clone())
    }
}

} // verus!
