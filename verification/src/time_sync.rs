//! Time sync between two boards, and the distribution of its error.

pub mod stats;
pub mod sync;
