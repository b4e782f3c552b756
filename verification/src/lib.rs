//! A live process-execution monitor library.
//!
//! A privileged capture agent observes `execve` entries and reports process
//! identity over a bounded lock-free transport to a userspace consumer, which
//! keeps a bounded rolling window of recent executions and drives a terminal
//! dashboard.  This crate holds the verified core: the binary event schema,
//! the bounded extraction algorithm of the capture agent, the transport, the
//! frame decoder, the text-line backend parser, the live event store and the
//! update loop that merges the event sources.

pub mod app;
pub mod capture;
pub mod codec;
pub mod datetime;
pub mod digits;
pub mod process_service;
pub mod schema;
pub mod store;
pub mod textline;
pub mod transport;
