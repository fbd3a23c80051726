//! Where single rows of the embedding and of the output head lie.

pub mod decoder;
pub mod embedding;
