//! A verified core for a synthetic data-center metrics producer.
//!
//! The library generates per-server metric records zone by zone, routes each
//! record to a stable partition of the destination topic, and decides whether
//! a provisioning round lets a run start. Everything here is executable logic
//! with proved contracts; the surrounding process owns the clock, the wire
//! and the terminal, and hands plain values in and out.
pub mod digits;
pub mod endpoints;
pub mod hash;
pub mod metrics;
pub mod partition;
pub mod provision;
pub mod scheduler;
