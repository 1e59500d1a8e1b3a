//! Hash maps and a queue that handles share.
pub mod atomic_hashmap;
pub mod atomic_vec;
pub mod hasher;
pub mod table;
