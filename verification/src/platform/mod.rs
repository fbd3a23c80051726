//! What the library needs from the machine: the cartridge bus and the cycle
//! counter.

pub mod cart;
pub mod host_cart;
pub mod pi;
pub mod time;
