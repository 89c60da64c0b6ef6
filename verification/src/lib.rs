//! Logs progress through a program on a handful of output pins: every named
//! log point gets a number, and that number is shown in binary on the pins,
//! least significant bit on the first pin.

pub mod encoding;
pub mod names;
pub mod internal;
pub mod simple;
pub mod test_pin;
