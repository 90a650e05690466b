//! A whole device: its clock, its strip, its place in the mesh, and what it does
//! with the messages it is sent.

pub mod clock;
pub mod device_loop;
pub mod mesh;
pub mod node;
pub mod self_test;
pub mod shell;
pub mod strip;
pub mod strip_dma;
