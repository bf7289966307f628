//! Register diversion tracking for a register allocator.
//!
//! After register allocation has assigned every value a permanent location,
//! instruction constraints can still force a value to live somewhere else for a
//! short stretch of code. This crate records those temporary relocations in a
//! small side table, keeps the table minimal by collapsing move chains, and
//! answers the question "where does this value live right now?".

pub mod ir;
pub mod isa;
pub mod text;
pub mod tracker;

pub use tracker::Diversion;
pub use tracker::DisplayDiversions;
pub use tracker::RegDiversions;
