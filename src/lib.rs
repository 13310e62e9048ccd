//! A fixed-size worker pool whose scheduling decisions are verified, and the
//! request parsing and routing of a small HTTP server built on it.
//!
//! The pool's threads, locking and sockets live with the program that drives
//! the library; the library decides what each worker does next, when the pool
//! may stop, what a request means and how it is answered.
pub mod error;
pub mod parsers;
pub mod pool;
pub mod response;
pub mod text;

pub use error::ThreadPoolError;
pub use pool::{Message, Phase, PoolCore, Step, WorkerState, MAX_POOL_SIZE, MIN_POOL_SIZE};
