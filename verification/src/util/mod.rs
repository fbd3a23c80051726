//! Checksums and small text helpers.

pub mod adler32;
pub mod bytes;
pub mod crc32;
pub mod text;
