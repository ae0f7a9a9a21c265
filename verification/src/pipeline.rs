//! One poll-filter-publish cycle for one feed.
//!
//! A cycle walks the fetched items in order, skips every item whose key
//! is already recorded or was already handled earlier in the same cycle,
//! and hands each surviving item to the publish sink. The dedup store is
//! updated only after the sink confirms success, so a failed send leaves
//! the item unrecorded and the next cycle retries it; one failing item
//! never blocks its siblings.

use crate::dedup::DedupStore;
use crate::errors::{FetchError, PublishError};
use crate::feed::{FeedDescriptor, Item};
use vstd::prelude::*;

verus! {

/// The outbound send capability: one shared connection behind a single
/// chokepoint. Supplied by the hosting process; nothing is assumed of
/// the outcome of a send.
pub trait Publisher {
    /// Attempts to send one item's payload downstream.
    fn send(&mut self, payload: &String) -> Result<(), PublishError>;
}

/// The fetch capability: returns the feed's current items in
/// item-generation order, best effort. Supplied by the hosting process.
pub trait FeedSource {
    /// Fetches the current items of the described feed.
    fn fetch(&mut self, descriptor: &FeedDescriptor) -> Result<Vec<Item>, FetchError>;
}

/// One publish attempt of a cycle: the item key and whether the sink
/// confirmed the send.
pub struct Attempt {
    pub key: String,
    pub delivered: bool,
}

/// Overall outcome of one completed cycle.
#[derive(Clone, Copy, Debug, PartialEq, Eq, Structural)]
pub enum CycleStatus {
    /// Every attempted item was delivered (trivially so with no new items).
    Success,
    /// At least one publish attempt failed; those items stay unrecorded.
    Partial,
}

/// What one cycle did: every publish attempt, in feed order, and the
/// overall status.
pub struct CycleReport {
    pub attempts: Vec<Attempt>,
    pub status: CycleStatus,
}

/// The keys of a list of attempts, in order.
pub open spec fn attempt_keys(att: Seq<Attempt>) -> Seq<Seq<char>> {
    att.map_values(|a: Attempt| a.key@)
}

/// The keys a cycle attempts, in order: first occurrences of keys that
/// are not in `seen`, walking `items` left to right while accumulating
/// what has been handled.
pub open spec fn fresh_keys(items: Seq<Item>, seen: Set<Seq<char>>) -> Seq<Seq<char>>
    decreases items.len(),
{
    if items.len() == 0 {
        Seq::empty()
    } else {
        let k = items[0].key@;
        if seen.contains(k) {
            fresh_keys(items.skip(1), seen)
        } else {
            seq![k].add(fresh_keys(items.skip(1), seen.insert(k)))
        }
    }
}

/// The keys handled so far in a cycle: everything recorded before the
/// cycle began, plus every key already attempted in it.
pub open spec fn handled(store0: DedupStore, feed: Seq<char>, att: Seq<Attempt>) -> Set<Seq<char>> {
    Set::new(|k: Seq<char>| store0.has(feed, k) || attempt_keys(att).contains(k))
}

/// What [`fresh_keys`] holds: exactly the keys that occur among the
/// items and were not seen before the cycle.
pub proof fn lemma_fresh_keys_membership(items: Seq<Item>, seen: Set<Seq<char>>, k: Seq<char>)
    ensures
        fresh_keys(items, seen).contains(k) <==> (!seen.contains(k) && exists|i: int|
            0 <= i < items.len() && (#[trigger] items[i]).key@ == k),
    decreases items.len(),
{
    if items.len() == 0 {
    } else {
        let k0 = items[0].key@;
        let tail = items.skip(1);
        assert(forall|j: int| 0 <= j < tail.len() ==> #[trigger] tail[j] == items[j + 1]);
        if seen.contains(k0) {
            lemma_fresh_keys_membership(tail, seen, k);
            if !seen.contains(k) && (exists|i: int|
                0 <= i < items.len() && (#[trigger] items[i]).key@ == k) {
                let i = choose|i: int| 0 <= i < items.len() && (#[trigger] items[i]).key@ == k;
                assert(i != 0);
                assert(tail[i - 1].key@ == k);
            }
            if fresh_keys(items, seen).contains(k) {
                let j = choose|j: int| 0 <= j < tail.len() && (#[trigger] tail[j]).key@ == k;
                assert(items[j + 1].key@ == k);
            }
        } else {
            lemma_fresh_keys_membership(tail, seen.insert(k0), k);
            let fk = fresh_keys(items, seen);
            let rest = fresh_keys(tail, seen.insert(k0));
            assert(fk == seq![k0].add(rest));
            if k == k0 {
                assert(fk[0] == k0);
                assert(items[0].key@ == k);
            } else {
                if rest.contains(k) {
                    let t = choose|t: int| 0 <= t < rest.len() && rest[t] == k;
                    assert(fk[t + 1] == k);
                    let j = choose|j: int| 0 <= j < tail.len() && (#[trigger] tail[j]).key@ == k;
                    assert(items[j + 1].key@ == k);
                }
                if fk.contains(k) {
                    let t = choose|t: int| 0 <= t < fk.len() && fk[t] == k;
                    assert(t != 0);
                    assert(rest[t - 1] == k);
                }
                if !seen.contains(k) && (exists|i: int|
                    0 <= i < items.len() && (#[trigger] items[i]).key@ == k) {
                    let i = choose|i: int| 0 <= i < items.len() && (#[trigger] items[i]).key@ == k;
                    assert(i != 0);
                    assert(tail[i - 1].key@ == k);
                    assert(rest.contains(k));
                }
            }
        }
    }
}

/// A cycle never attempts the same key twice: the fresh keys of a fetch
/// are pairwise distinct, however often a key repeats among the items.
pub proof fn lemma_fresh_keys_distinct(items: Seq<Item>, seen: Set<Seq<char>>)
    ensures
        forall|i: int, j: int|
            0 <= i < j < fresh_keys(items, seen).len() ==> fresh_keys(items, seen)[i]
                != fresh_keys(items, seen)[j],
    decreases items.len(),
{
    if items.len() == 0 {
    } else {
        let k0 = items[0].key@;
        let tail = items.skip(1);
        if seen.contains(k0) {
            lemma_fresh_keys_distinct(tail, seen);
            assert(fresh_keys(items, seen) == fresh_keys(tail, seen));
        } else {
            lemma_fresh_keys_distinct(tail, seen.insert(k0));
            lemma_fresh_keys_membership(tail, seen.insert(k0), k0);
            let fk = fresh_keys(items, seen);
            let rest = fresh_keys(tail, seen.insert(k0));
            assert(fk == seq![k0].add(rest));
            assert forall|i: int, j: int| 0 <= i < j < fk.len() implies fk[i] != fk[j] by {
                if i == 0 {
                    assert(fk[j] == rest[j - 1]);
                    if rest[j - 1] == k0 {
                        assert(rest.contains(k0));
                    }
                } else {
                    assert(fk[i] == rest[i - 1]);
                    assert(fk[j] == rest[j - 1]);
                }
            }
        }
    }
}

/// A key not yet recorded that occurs among the fetched items is
/// attempted exactly once in the cycle: it is among the cycle's fresh
/// keys, and the fresh keys never repeat. Together with the contract of
/// [`run_cycle`], a delivered attempt for it is recorded exactly once.
pub proof fn lemma_unseen_item_attempted_once(items: Seq<Item>, seen: Set<Seq<char>>, k: Seq<char>)
    requires
        !seen.contains(k),
        exists|i: int| 0 <= i < items.len() && (#[trigger] items[i]).key@ == k,
    ensures
        fresh_keys(items, seen).contains(k),
        forall|i: int, j: int|
            0 <= i < j < fresh_keys(items, seen).len() ==> fresh_keys(items, seen)[i]
                != fresh_keys(items, seen)[j],
{
    lemma_fresh_keys_membership(items, seen, k);
    lemma_fresh_keys_distinct(items, seen);
}

/// A key already recorded before the cycle begins is never attempted in
/// it: no publish call is made for it, however often it is fetched.
pub proof fn lemma_recorded_item_skipped(items: Seq<Item>, seen: Set<Seq<char>>, k: Seq<char>)
    requires
        seen.contains(k),
    ensures
        !fresh_keys(items, seen).contains(k),
{
    lemma_fresh_keys_membership(items, seen, k);
}

/// Linear search among the attempts made so far in this cycle.
fn attempts_contain(att: &Vec<Attempt>, key: &String) -> (r: bool)
    ensures
        r == attempt_keys(att@).contains(key@),
{
    let n = att.len();
    let mut i: usize = 0;
    while i < n
        invariant
            i <= n,
            n == att@.len(),
            forall|t: int| 0 <= t < i ==> (#[trigger] att@[t]).key@ != key@,
        decreases n - i,
    {
        if att[i].key == *key {
            assert(attempt_keys(att@)[i as int] == key@);
            return true;
        }
        i += 1;
    }
    assert forall|t: int| 0 <= t < att@.len() implies #[trigger] attempt_keys(att@)[t]
        != key@ by {
        assert(attempt_keys(att@)[t] == att@[t].key@);
    }
    false
}

/// One end-to-end cycle over already-fetched items.
///
/// The attempts are exactly the fresh keys of the fetch, in feed order;
/// the store gains exactly the delivered keys, under this feed; a failed
/// key is left unrecorded; the status is `Success` iff nothing failed.
pub fn run_cycle<P: Publisher>(
    feed_id: &String,
    items: &Vec<Item>,
    store: &mut DedupStore,
    sink: &mut P,
) -> (rep: CycleReport)
    requires
        old(store).wf(),
    ensures
        final(store).wf(),
        attempt_keys(rep.attempts@) == fresh_keys(items@, old(store).keys_of(feed_id@)),
        forall|f: Seq<char>, k: Seq<char>|
            #[trigger] final(store).has(f, k) <==> (old(store).has(f, k) || (f == feed_id@
                && exists|i: int|
                0 <= i < rep.attempts@.len() && (#[trigger] rep.attempts@[i]).delivered
                    && rep.attempts@[i].key@ == k)),
        forall|i: int|
            0 <= i < rep.attempts@.len() && !(#[trigger] rep.attempts@[i]).delivered
                ==> !final(store).has(feed_id@, rep.attempts@[i].key@),
        forall|i: int|
            0 <= i < rep.attempts@.len() && (#[trigger] rep.attempts@[i]).delivered
                ==> final(store).has(feed_id@, rep.attempts@[i].key@),
        forall|f: Seq<char>, k: Seq<char>|
            f != feed_id@ ==> (#[trigger] final(store).has(f, k) == old(store).has(f, k)),
        (rep.status == CycleStatus::Success) <==> (forall|i: int|
            0 <= i < rep.attempts@.len() ==> (#[trigger] rep.attempts@[i]).delivered),
{
    let ghost store0 = *old(store);
    let ghost feed = feed_id@;
    let mut attempts: Vec<Attempt> = Vec::new();
    let mut all_ok = true;
    let n = items.len();
    let mut idx: usize = 0;
    proof {
        assert(handled(store0, feed, attempts@) =~= store0.keys_of(feed));
        assert(items@.skip(0) =~= items@);
        assert(attempt_keys(attempts@).add(
            fresh_keys(items@.skip(0), handled(store0, feed, attempts@)),
        ) =~= fresh_keys(items@, store0.keys_of(feed)));
    }
    #[verifier::loop_isolation(false)]
    while idx < n
        invariant
            idx <= n,
            store.wf(),
            attempt_keys(attempts@).add(
                fresh_keys(items@.skip(idx as int), handled(store0, feed, attempts@)),
            ) == fresh_keys(items@, store0.keys_of(feed)),
            forall|f: Seq<char>, k: Seq<char>|
                #[trigger] store.has(f, k) <==> (store0.has(f, k) || (f == feed
                    && exists|i: int|
                    0 <= i < attempts@.len() && (#[trigger] attempts@[i]).delivered
                        && attempts@[i].key@ == k)),
            forall|i: int, j: int|
                0 <= i < j < attempts@.len() ==> (#[trigger] attempts@[i]).key@
                    != (#[trigger] attempts@[j]).key@,
            forall|i: int|
                0 <= i < attempts@.len() ==> !store0.has(feed, (#[trigger] attempts@[i]).key@),
            all_ok <==> (forall|i: int|
                0 <= i < attempts@.len() ==> (#[trigger] attempts@[i]).delivered),
        decreases n - idx,
    {
        let item = &items[idx];
        let ghost k = item.key@;
        let ghost att0 = attempts@;
        let ghost h0 = handled(store0, feed, att0);
        proof {
            assert(items@.skip(idx as int)[0] == items@[idx as int]);
            assert(items@.skip(idx as int).skip(1) =~= items@.skip(idx as int + 1));
        }
        let in_store = store.contains(feed_id, &item.key);
        let in_cycle = attempts_contain(&attempts, &item.key);
        if !in_store && !in_cycle {
            proof {
                assert(!store.has(feed, k));
                assert(!store0.has(feed, k));
                assert(!h0.contains(k));
                assert forall|i: int| 0 <= i < att0.len() implies (#[trigger] att0[i]).key@
                    != k by {
                    assert(attempt_keys(att0)[i] == att0[i].key@);
                }
                assert(fresh_keys(items@.skip(idx as int), h0) == seq![k].add(
                    fresh_keys(items@.skip(idx as int + 1), h0.insert(k)),
                ));
            }
            let ghost ok0 = all_ok;
            let delivered = match sink.send(&item.payload) {
                Ok(()) => {
                    store.record(feed_id, &item.key);
                    true
                },
                Err(_) => {
                    all_ok = false;
                    false
                },
            };
            attempts.push(Attempt { key: item.key.clone(), delivered });
            proof {
                assert(attempt_keys(attempts@) =~= attempt_keys(att0).push(k));
                assert forall|kk: Seq<char>|
                    handled(store0, feed, attempts@).contains(kk) == h0.insert(k).contains(
                        kk,
                    ) by {
                    if attempt_keys(attempts@).contains(kk) {
                        let t = choose|t: int|
                            0 <= t < attempt_keys(attempts@).len() && attempt_keys(attempts@)[t]
                                == kk;
                        if t < att0.len() {
                            assert(attempt_keys(att0)[t] == kk);
                        } else {
                            assert(kk == k);
                        }
                    }
                    if attempt_keys(att0).contains(kk) {
                        let t = choose|t: int|
                            0 <= t < attempt_keys(att0).len() && attempt_keys(att0)[t] == kk;
                        assert(attempt_keys(attempts@)[t] == kk);
                    }
                    if kk == k {
                        assert(attempt_keys(attempts@)[att0.len() as int] == k);
                    }
                }
                assert(handled(store0, feed, attempts@) =~= h0.insert(k));
                assert(attempt_keys(attempts@).add(
                    fresh_keys(items@.skip(idx as int + 1), handled(store0, feed, attempts@)),
                ) =~= attempt_keys(att0).add(fresh_keys(items@.skip(idx as int), h0)));
                assert forall|f: Seq<char>, kk: Seq<char>| #[trigger]
                    store.has(f, kk) <==> (store0.has(f, kk) || (f == feed
                        && exists|i: int|
                        0 <= i < attempts@.len() && (#[trigger] attempts@[i]).delivered
                            && attempts@[i].key@ == kk)) by {
                    if f == feed {
                        if exists|i: int|
                            0 <= i < att0.len() && (#[trigger] att0[i]).delivered && att0[i].key@
                                == kk {
                            let w = choose|i: int|
                                0 <= i < att0.len() && (#[trigger] att0[i]).delivered
                                    && att0[i].key@ == kk;
                            assert(attempts@[w].delivered && attempts@[w].key@ == kk);
                        }
                        if delivered && kk == k {
                            assert(attempts@[att0.len() as int].delivered
                                && attempts@[att0.len() as int].key@ == kk);
                        }
                    }
                }
                assert(all_ok == (ok0 && delivered));
                if ok0 && delivered {
                    assert forall|i: int|
                        0 <= i < attempts@.len() implies (#[trigger] attempts@[i]).delivered by {
                        if i < att0.len() {
                            assert(att0[i].delivered);
                        }
                    }
                } else {
                    if !ok0 {
                        let w = choose|i: int| 0 <= i < att0.len() && !(#[trigger] att0[i]).delivered;
                        assert(!attempts@[w].delivered);
                    } else {
                        assert(!attempts@[att0.len() as int].delivered);
                    }
                }
            }
        } else {
            proof {
                if in_store {
                    assert(store.has(feed, k));
                    if !store0.has(feed, k) {
                        let w = choose|i: int|
                            0 <= i < att0.len() && (#[trigger] att0[i]).delivered && att0[i].key@
                                == k;
                        assert(attempt_keys(att0)[w] == k);
                    }
                }
                assert(h0.contains(k));
            }
        }
        idx += 1;
    }
    proof {
        assert(items@.skip(n as int) =~= Seq::<Item>::empty());
        assert(attempt_keys(attempts@).add(Seq::<Seq<char>>::empty()) =~= attempt_keys(attempts@));
        assert forall|i: int|
            0 <= i < attempts@.len() && !(#[trigger] attempts@[i]).delivered implies !store.has(
            feed,
            attempts@[i].key@,
        ) by {
            let kk = attempts@[i].key@;
            if store.has(feed, kk) {
                let w = choose|j: int|
                    0 <= j < attempts@.len() && (#[trigger] attempts@[j]).delivered
                        && attempts@[j].key@ == kk;
                assert(attempts@[w].key@ == attempts@[i].key@);
            }
        }
    }
    let status = if all_ok {
        CycleStatus::Success
    } else {
        CycleStatus::Partial
    };
    let rep = CycleReport { attempts, status };
    proof {
        assert(rep.attempts@ == attempts@);
        assert((rep.status == CycleStatus::Success) <==> (forall|i: int|
            0 <= i < rep.attempts@.len() ==> (#[trigger] rep.attempts@[i]).delivered));
    }
    rep
}

/// One scheduled execution of a poll job: fetch, then run the cycle.
///
/// A failed fetch abandons the execution and leaves the store exactly as
/// it was; the next scheduled fire retries naturally. On a successful
/// fetch the store gains exactly the delivered keys of the cycle, under
/// this feed.
pub fn poll_once<S: FeedSource, P: Publisher>(
    descriptor: &FeedDescriptor,
    store: &mut DedupStore,
    source: &mut S,
    sink: &mut P,
) -> (r: Result<CycleReport, FetchError>)
    requires
        old(store).wf(),
    ensures
        final(store).wf(),
        r matches Err(_) ==> *final(store) == *old(store),
        r matches Ok(rep) ==> {
            &&& forall|f: Seq<char>, k: Seq<char>|
                #[trigger] final(store).has(f, k) <==> (old(store).has(f, k) || (f
                    == descriptor.url@ && exists|i: int|
                    0 <= i < rep.attempts@.len() && (#[trigger] rep.attempts@[i]).delivered
                        && rep.attempts@[i].key@ == k))
            &&& forall|i: int|
                0 <= i < rep.attempts@.len() && !(#[trigger] rep.attempts@[i]).delivered
                    ==> !final(store).has(descriptor.url@, rep.attempts@[i].key@)
            &&& forall|i: int|
                0 <= i < rep.attempts@.len() && (#[trigger] rep.attempts@[i]).delivered
                    ==> final(store).has(descriptor.url@, rep.attempts@[i].key@)
            &&& forall|f: Seq<char>, k: Seq<char>|
                f != descriptor.url@ ==> (#[trigger] final(store).has(f, k) == old(store).has(
                    f,
                    k,
                ))
            &&& ((rep.status == CycleStatus::Success) <==> (forall|i: int|
                0 <= i < rep.attempts@.len() ==> (#[trigger] rep.attempts@[i]).delivered))
        },
{
    match source.fetch(descriptor) {
        Ok(items) => Ok(run_cycle(&descriptor.url, &items, store, sink)),
        Err(e) => Err(e),
    }
}

} // verus!
