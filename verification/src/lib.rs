//! A fixed-size worker pool, as a verified state machine.
//!
//! Jobs are opaque values that the pool never looks into. They wait in one
//! first-in, first-out channel and are handed out, one at a time, to a fixed
//! set of workers. The pool decides who gets which job and keeps the books;
//! running a job, and the threads that do so, belong to the caller.
pub mod bookkeeping;
pub mod channel;
pub mod laws;
pub mod model;
pub mod pool;
pub mod worker;

pub use channel::ChannelState;
pub use channel::JobChannel;
pub use model::PoolState;
pub use pool::ThreadPool;
pub use worker::Activity;
pub use worker::Worker;
pub use worker::WorkerState;
