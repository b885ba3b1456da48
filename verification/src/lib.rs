//! Verified core of a webhook job processor.
//!
//! The crate models the scheduling engine of a webhook receiver: a bounded
//! worker pool fed by a single event loop, an overflow queue with FIFO
//! dequeueing, a health snapshot, and a graceful-shutdown protocol.  The
//! event loop itself performs blocking channel reads and therefore lives in
//! the unverified shell around this library; every decision it takes is a
//! call into [`processor::Processor::handle`], whose effect is specified and
//! proved here.  The scheduling laws (bounded concurrency, FIFO dispatch,
//! accounting of in-flight work, idempotent shutdown) are stated and proved
//! in [`schedule`].

pub mod errors;
pub mod hooks;
pub mod jobs;
pub mod options;
pub mod processor;
pub mod providers;
pub mod requests;
pub mod schedule;
pub mod text;
