//! Core of a sampling stack profiler.
//!
//! Given a raw instruction pointer and stack pointer captured at an
//! arbitrary interrupt point, the library reconstructs the caller chain
//! from a precompiled table of per-address unwind rules, using strictly
//! bounded control flow and a fixed-size trace, and counts occurrences
//! of identical traces in a capacity-bounded aggregation table.

pub mod aggregate;
pub mod flags;
pub mod interp;
pub mod memory;
pub mod table;
pub mod walker;
