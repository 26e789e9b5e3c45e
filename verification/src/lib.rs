//! Live scoring sessions for timed team competitions.
//!
//! The crate provides a length-prefixed binary wire codec with typed packet
//! catalogs for each role (host, user, viewer), a registry of live sessions
//! that enforces game-state transition rules, per-session broadcast channels
//! that fan events out to each role, and the per-connection decision logic
//! that ties wire packets, channel events and registry mutations together.

pub mod channel;
pub mod game;
pub mod host;
pub mod packet;
pub mod protocol;
pub mod session_manager;
pub mod user;
pub mod viewer;
