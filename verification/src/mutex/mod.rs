//! Locks, barriers and the guards that stand for a held lock.
pub mod atomic_vec;
pub mod barrier;
pub mod grutex;
pub mod guards;
pub mod mutex;
pub mod rwlock;
pub mod thread;
