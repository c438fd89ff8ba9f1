use crate::errors::UorResult;
use crate::manifold::Manifold;
use vstd::prelude::*;

verus! {

/// Capability interface for concurrency scheduling: dispatch of work units
/// derived from the graph onto a concurrency substrate. The stage only
/// observes the graph (it receives a shared reference, so it cannot mutate
/// it); its return signals that all dispatched work has completed or been
/// durably handed off.
pub trait Scheduler {
    /// Dispatches work derived from the graph; side-effecting only.
    fn schedule(&mut self, manifold: &Manifold) -> (r: UorResult<()>)
        requires
            manifold.wf(),
    ;
}

/// Round-robin scheduler stub: it accepts every graph and dispatches no
/// actual work.
pub struct RoundRobinScheduler;

impl Default for RoundRobinScheduler {
    fn default() -> (r: Self)
        ensures
            r == RoundRobinScheduler,
    {
        RoundRobinScheduler
    }
}

impl Scheduler for RoundRobinScheduler {
    fn schedule(&mut self, _manifold: &Manifold) -> (r: UorResult<()>)
        ensures
            r is Ok,
    {
        Ok(())
    }
}

} // verus!
