//! Weight-streaming storage layer and transformer execution planning for a
//! machine with a few megabytes of RAM and a read-only cartridge.

pub mod config;
pub mod diag;
pub mod display;
pub mod infer;
pub mod inference_engine;
pub mod io;
pub mod ipl3;
pub mod keyboard;
pub mod manifest;
pub mod manifest_codec;
pub mod memory_manager;
pub mod model;
pub mod n64_sys;
pub mod platform;
pub mod stream;
pub mod tokenizer;
pub mod util;
pub mod weights;
pub mod weights_manifest;
pub mod weights_manifest_find;
