//! Applies a network tuning profile: hardware queue counts, set through the
//! device tool, and interrupt CPU affinity lists, written to the kernel's
//! per-interrupt control files.
//!
//! The library decides everything that can be decided without touching the
//! system: which profile applies, the exact argument list of the device tool,
//! which affinity lists are sound and where each goes, and when a failing
//! write is retried or given up. The program around it performs the actions.

pub mod affinity;
pub mod config;
pub mod queues;
