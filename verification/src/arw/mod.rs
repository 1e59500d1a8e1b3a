//! Counted references to a value that can be changed.
pub mod strong;
pub mod weak;
