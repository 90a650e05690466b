//! The other end: a desktop that tells a device what to render, and that can be
//! a node of the mesh itself.

pub mod args;
pub mod desk;
pub mod http;
pub mod peer;
pub mod provision;
