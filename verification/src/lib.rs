//! An embedded, single-node message broker with SQS-compatible semantics.
//!
//! The queue engine — message state machine, visibility leasing, FIFO
//! ordering, deduplication, dead-letter routing, redrive and retention
//! cleanup — lives here, verified. Time never comes from a clock inside the
//! engine: every operation takes the current instant (milliseconds) as an
//! argument, so each contract pins down exactly what the operation does at
//! that instant.

pub mod config;
pub mod laws;
pub mod message;
pub mod outside;
pub mod service;
pub mod store;
pub mod strutil;
pub mod sqs_types;
pub mod ui;
