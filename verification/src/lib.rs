//! A minimal TCP-layer load balancer core: a health registry that tracks the
//! liveness of configured backend targets, and the per-session relay logic
//! that forwards fixed-size chunks of bytes between a client and the backend
//! chosen for the session.
//!
//! All socket work (probing, listening, relaying) is left to the surrounding
//! program; this crate holds the decisions: how the configured target list is
//! parsed, how a probe sweep updates every target's status, how a live target
//! is selected, and which bytes one relay cycle carries.

pub mod parse;
pub mod registry;
pub mod relay;
