//! Pipeline orchestration engine built around a directed-graph data model.
//!
//! The library provides the `Manifold` graph structure, a fixed-capacity
//! memory store (`MemoryCortex`), four pluggable capability interfaces
//! (domain transform, scheduler, numeric operator, embedding), and the
//! `CognitiveStack` orchestrator that pushes a graph through an ordered
//! sequence of stages with fail-fast error propagation.

pub mod chart;
pub mod cognitive_stack;
pub mod concurrency;
pub mod cortex;
pub mod embedding;
pub mod errors;
pub mod foundation_model;
pub mod kernel;
pub mod manifold;
pub mod operators;

pub use chart::Chart;
pub use cognitive_stack::{CognitiveStack, StageEvent};
pub use concurrency::{RoundRobinScheduler, Scheduler};
pub use cortex::{MemoryCortex, PrimeReference};
pub use embedding::{DefaultQuaternionEmbedding, Quaternion, QuaternionEmbedding};
pub use errors::{UorError, UorResult};
pub use foundation_model::{FoundationModel, NullFoundationModel};
pub use kernel::UorKernel;
pub use manifold::{Manifold, ManifoldNode};
pub use operators::{ExampleOperator, HpcOperator};
