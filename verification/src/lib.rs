//! The measuring and driving logic of a mesh of lights that share one clock.
//!
//! Nothing here opens a socket, reads a clock or touches a pin. Every function
//! takes the bytes and the times it works on and hands back what to do, so that
//! what it does can be stated and proved.

pub mod device;
pub mod dual_core;
pub mod le;
pub mod modular;
pub mod multicast;
pub mod net;
pub mod order;
pub mod sender;
pub mod tally;
pub mod text;
pub mod throughput;
pub mod time_sync;
