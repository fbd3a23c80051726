//! Streaming a byte range of the cartridge through a pair of buffers.

pub mod burst;
pub mod prefetch;
pub mod streamer;
