//! Counted references to values whose type is known only at run time.
pub mod inner;
pub mod strong;
pub mod weak;
