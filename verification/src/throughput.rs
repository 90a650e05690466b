//! How fast a device renders, and what each instruction costs.

pub mod figures;
pub mod histo;
pub mod opcost;
pub mod probes;
