//! Channels.
pub mod mpmc;
