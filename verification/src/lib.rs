//! Coalescing dispatch to a background worker, with generation counters that
//! let the caller reject stale results.
//!
//! The dispatcher (`Coalescer`) numbers each submitted request and keeps only
//! the newest response when polled. The worker thread's decisions are the
//! transition function `worker_loop`: within a round of queued requests only
//! the newest is processed.
pub mod channel;
pub mod coalescer;
pub mod output;
pub mod round;
pub mod worker;

pub use channel::{ChannelReceiver, ChannelSender};
pub use coalescer::Coalescer;
pub use output::{newest, Output};
pub use worker::{worker_loop, Msg, Worker, WorkerAction, WorkerEvent, WorkerState};
