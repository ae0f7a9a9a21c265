use vstd::prelude::*;

verus! {

/// Where a feed lives and how often it is polled. Immutable after
/// creation; the scheduler keeps one per registered job.
#[derive(Clone, Debug)]
pub struct FeedDescriptor {
    /// Feed address. It doubles as the feed's identity: the dedup store
    /// partitions by it and the scheduler refuses a second job with the
    /// same address.
    pub url: String,
    /// Human-readable name, for reporting only.
    pub name: String,
    /// Cadence expression in the five/six-field grammar of [`crate::cadence`].
    pub schedule: String,
}

/// One content unit fetched from a feed.
#[derive(Clone, Debug)]
pub struct Item {
    /// Stable identity key (a link or a content hash): the handle the
    /// dedup store tracks.
    pub key: String,
    /// Text handed to the publish sink.
    pub payload: String,
}

} // verus!
