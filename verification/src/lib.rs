//! Client-side state reconciliation for a networked simulation.
//!
//! The crate keeps a predictive replica convergent with an authoritative
//! server: a logical command-frame clock with adaptive drift correction, a
//! bidirectional identity allocator, a registry of component descriptors
//! operating on deterministically encoded payload bytes, a per-frame command
//! history with a resimulation queue, and the per-tick reconciliation engine
//! that turns a received world-state message into world mutations and repairs
//! mispredictions. Transport and value encoding live outside; the engine works
//! on plain bytes and integers.

pub mod buffer;
pub mod client;
pub mod clock;
pub mod engine;
pub mod error;
pub mod keys;
pub mod message;
pub mod postbox;
pub mod registry;
pub mod uid;
pub mod world;
