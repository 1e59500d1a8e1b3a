//! Containers whose operations are atomic steps.
pub mod array;
pub mod buffer;
pub mod cell;
pub mod hashmap;
pub mod list;
pub mod val;
pub mod vec;
