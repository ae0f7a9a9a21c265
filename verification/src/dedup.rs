//! The shared record of which items have already been published.
//!
//! The store is the single source of truth for "has this item of this
//! feed been announced"; poll cycles consult it before publishing and
//! commit to it only after the sink confirms success. Keys are
//! partitioned by feed identity: the same item key under two feeds is
//! two independent entries.

use vstd::prelude::*;

verus! {

/// One committed publish: a feed identity together with an item key.
struct DedupEntry {
    feed_id: String,
    item_key: String,
}

/// In-memory mapping from feed identity to the set of item keys whose
/// publish has been confirmed. Held once per process and shared by all
/// poll jobs; it does not survive a restart.
pub struct DedupStore {
    entries: Vec<DedupEntry>,
}

impl DedupStore {
    /// Whether a confirmed publish of `key` under `feed` is recorded.
    pub closed spec fn has(self, feed: Seq<char>, key: Seq<char>) -> bool {
        exists|i: int|
            0 <= i < self.entries@.len() && (#[trigger] self.entries@[i]).feed_id@ == feed
                && self.entries@[i].item_key@ == key
    }

    /// The set of keys recorded under `feed`.
    pub open spec fn keys_of(self, feed: Seq<char>) -> Set<Seq<char>> {
        Set::new(|k: Seq<char>| self.has(feed, k))
    }

    /// No (feed, key) pair is stored twice.
    pub closed spec fn wf(self) -> bool {
        forall|i: int, j: int|
            0 <= i < j < self.entries@.len() ==> !((#[trigger] self.entries@[i]).feed_id@
                == (#[trigger] self.entries@[j]).feed_id@ && self.entries@[i].item_key@
                == self.entries@[j].item_key@)
    }

    /// An empty store: nothing has been published yet.
    pub fn new() -> (s: DedupStore)
        ensures
            s.wf(),
            forall|f: Seq<char>, k: Seq<char>| !s.has(f, k),
    {
        DedupStore { entries: Vec::new() }
    }

    /// Point lookup; never fails.
    pub fn contains(&self, feed_id: &String, key: &String) -> (r: bool)
        ensures
            r == self.has(feed_id@, key@),
    {
        let n = self.entries.len();
        let mut i: usize = 0;
        while i < n
            invariant
                i <= n,
                n == self.entries@.len(),
                forall|t: int|
                    0 <= t < i ==> !((#[trigger] self.entries@[t]).feed_id@ == feed_id@
                        && self.entries@[t].item_key@ == key@),
            decreases n - i,
        {
            if self.entries[i].feed_id == *feed_id && self.entries[i].item_key == *key {
                return true;
            }
            i += 1;
        }
        false
    }

    /// Commits a confirmed publish. Idempotent: recording a present key
    /// changes nothing, and no other feed's entries are touched.
    pub fn record(&mut self, feed_id: &String, key: &String)
        requires
            old(self).wf(),
        ensures
            final(self).wf(),
            forall|f: Seq<char>, k: Seq<char>|
                #[trigger] final(self).has(f, k) <==> (old(self).has(f, k) || (f == feed_id@ && k
                    == key@)),
    {
        if !self.contains(feed_id, key) {
            let ghost before = self.entries@;
            self.entries.push(DedupEntry { feed_id: feed_id.clone(), item_key: key.clone() });
            proof {
                assert forall|f: Seq<char>, k: Seq<char>| #[trigger]
                    self.has(f, k) <==> (old(self).has(f, k) || (f == feed_id@ && k
                        == key@)) by {
                    if old(self).has(f, k) {
                        let w = choose|i: int|
                            0 <= i < before.len() && (#[trigger] before[i]).feed_id@ == f
                                && before[i].item_key@ == k;
                        assert(self.entries@[w].feed_id@ == f && self.entries@[w].item_key@ == k);
                    }
                    if f == feed_id@ && k == key@ {
                        assert(self.entries@[before.len() as int].feed_id@ == f
                            && self.entries@[before.len() as int].item_key@ == k);
                    }
                }
            }
        }
    }
}

} // verus!
