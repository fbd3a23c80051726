//! Shape of the model and access to its tensors.

pub mod config;
pub mod dims;
pub mod infer_dims;
pub mod meta;
pub mod names;
pub mod stream;
