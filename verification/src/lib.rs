//! A resumable, budget-metered migration driver for child-bounty records.
//!
//! The driver walks a fixed sequence of stages, each either a one-shot
//! action or an ordered iteration over a keyed record collection.  Work is
//! charged against a per-invocation budget; between invocations the sole
//! piece of persisted state is a cursor naming the stage and the last
//! visited key.  Emitted messages are flushed to a chunking channel in the
//! exact order the records were consumed.

pub mod budget;
pub mod channel;
pub mod keys;
pub mod laws;
pub mod messages;
pub mod migrator;
pub mod model;
pub mod ordered_map;
pub mod stage;
pub mod store;
