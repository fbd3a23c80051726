//! The transformer execution engine: the plan that maps manifest entries to
//! weight roles, and the strictly ordered steps of a forward pass.

pub mod engine;
pub mod error;
pub mod layer_name;
pub mod plan;
pub mod program;
pub mod steps;
pub mod workspace;

pub use engine::ModelState;
pub use error::Error;
pub use layer_name::{parse_layer_entry, LayerField};
pub use plan::{LayerPlan, LayerSpec, PartialLayer};
