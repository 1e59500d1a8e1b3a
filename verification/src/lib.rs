//! Verified state machines and data structures for concurrent programs.
pub mod any_ref;
pub mod anyref;
pub mod arw;
pub mod atomic;
pub mod channels;
pub mod collections;
pub mod mutex;
pub mod primitives;
