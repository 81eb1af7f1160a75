//! Hot-pluggable aggregation of keyboard events.
//!
//! The crate holds the decisions of an engine that follows every
//! keyboard-class input device of a host: which directory entries are
//! keyboards, which raw events become messages, when a reader ends, and which
//! devices the discovery scan and the directory watcher open. The callers do
//! the blocking work (listing a directory, opening a device, waiting for the
//! next batch of events or the next notification) and hand the outcome to the
//! functions here.

pub mod attach;
pub mod bytes;
pub mod discovery;
pub mod event;
pub mod filter;
pub mod reader;
pub mod registry;
pub mod watcher;
