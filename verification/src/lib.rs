//! Room-scoped overlay manager: per-room peer-to-peer overlay instances,
//! a shared room registry, and the control surface that an HTTP layer calls.
//!
//! The overlay sub-protocols (local-network discovery and flood pub/sub)
//! reach this library as plain events and leave it as plain actions and
//! deliveries; the network loop that produces and performs them lives with
//! the caller.

pub mod manager;
pub mod overlay;
pub mod registry;
