//! A value sent to every device, many times a second, and what arrives of it.

pub mod chan;
pub mod flood;
pub mod stats;
