//! Workspace colour families: the integer and structural logic behind a
//! terminal client's per-workspace tab colours, with its contracts.
pub mod rng;
pub mod allocator;
pub mod repair;
pub mod colour;
pub mod paint;
pub mod world;
