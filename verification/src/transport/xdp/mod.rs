//! The path around the kernel's network stack.

pub use in_flight::InFlight;

pub mod frame;
pub mod in_flight;
pub mod loader;
pub mod parse;
pub mod receiver;
pub mod sender;
pub mod socket;
pub mod umem;
pub mod worker;
