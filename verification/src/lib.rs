//! A feed-polling pipeline: cadence-driven scheduling, duplicate
//! suppression shared across poll cycles, and hand-off of new items to a
//! publish sink with commit-on-success semantics.
//!
//! The library owns the decision logic only: which cadence strings are
//! accepted, when a job fires, which fetched items are new, and when the
//! dedup store is updated. Fetching and sending are capabilities
//! ([`pipeline::FeedSource`], [`pipeline::Publisher`]) supplied by the
//! hosting process.

pub mod cadence;
pub mod dedup;
pub mod errors;
pub mod feed;
pub mod pipeline;
pub mod scheduler;
