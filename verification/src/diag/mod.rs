//! Diagnostics: what is measured and judged. Reporting the findings is left
//! to the program around the library, and none of them alters control flow.

pub mod decode_once;
pub mod emu_smoke;
pub mod manifest_check;
pub mod rom_probe;
pub mod stream_bench;
pub mod stream_crc;
pub mod weights_info;
