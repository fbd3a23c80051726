//! Reading the cartridge.

pub mod dbuf;
pub mod rom_reader;
