//! Building blocks that the locks and containers share.
pub mod attempt;
pub mod backoff;
pub mod chain;
pub mod counted;
pub mod smutex;
pub mod splcell;
pub mod thread;
