//! Request-multiplexing core of a paravirtualized block-storage driver.
//!
//! The driver bridges a block device with a non-blocking
//! submit/complete interface to a client that speaks a shared-memory
//! queueing protocol: it accepts read requests, translates
//! client-relative buffer addresses into local ranges over a shared
//! DMA region, tracks each in-flight operation under the token the
//! device assigned it, enforces a hard limit on outstanding
//! operations, and returns completions to the client.
//!
//! This crate holds the verified bookkeeping: address translation, the
//! pending table, the submission and completion paths, and the
//! level-triggered event loop that drains both. The device transport,
//! the shared ring queues, and the kernel plumbing around them stay
//! outside; they hand these functions plain values and take plain
//! values back.

pub mod block_io;
pub mod dma;
pub mod driver;
pub mod error;
pub mod event_loop;
pub mod pending;
pub mod timer_protocol;
