//! Reactor core of an asynchronous I/O runtime built on a kernel completion
//! ring.
//!
//! The core tracks every in-flight operation in a stable-index registry,
//! keeps the entries that did not yet fit into the kernel's submission ring,
//! and decides, step by step, how pending work is flushed and how completion
//! events are dispatched. The ring itself is driven by the embedding program:
//! this crate takes what the ring reported as plain values and answers with
//! the next thing to do.

pub mod error;
pub mod completion;
pub mod lifecycle;
pub mod ops;
pub mod inner;
pub mod laws;
