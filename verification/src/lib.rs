//! A verified model of a fixed-size worker pool and of a sentinel-terminated
//! producer/consumer pipeline.
//!
//! The crate holds the protocol: the FIFO channel, the messages, the workers'
//! receive step, the pool's life cycle and the pipeline's termination rule.
//! Every function is sequential and returns without waiting, so a scheduler (a
//! single thread, or a runtime that puts the pool behind a lock and gives each
//! worker a thread of its own) decides who moves next, and the contracts say
//! what each move does. `schedule` proves what holds whatever that order is.
//!
//! `numbers`, `text` and `lazy` are small helpers of the kind that jobs are made
//! of.

pub mod channel;
pub mod lazy;
pub mod message;
pub mod model;
pub mod numbers;
pub mod pipeline;
pub mod pool;
pub mod schedule;
pub mod text;
pub mod worker;
