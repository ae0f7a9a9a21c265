//! The dispatch authority: one entry per registered feed, each fired on
//! its own cadence.
//!
//! Registration parses the cadence once and fails fast; a duplicate feed
//! identity is refused. Dispatch marks due entries as running and hands
//! their job ids to the hosting process, which executes the poll cycles
//! and reports back with [`Scheduler::finish`]. An entry whose previous
//! execution is still running is skipped, never queued, so two firings
//! of the same job cannot overlap; entries never delay one another.

use crate::cadence::{cadence_ok, cadence_of, Cadence, WallTime};
use crate::errors::RegistrationError;
use crate::feed::FeedDescriptor;
use vstd::prelude::*;

verus! {

/// One registered feed: its descriptor, its parsed cadence, and whether
/// an execution of its job is currently in flight.
pub struct ScheduleEntry {
    pub descriptor: FeedDescriptor,
    pub cadence: Cadence,
    pub job_id: u64,
    pub running: bool,
}

/// Owns the set of schedule entries; nothing else may add or remove
/// jobs. Entries live until the process shuts down.
pub struct Scheduler {
    entries: Vec<ScheduleEntry>,
    started: bool,
}

impl Scheduler {
    /// The registered entries, in registration order.
    pub closed spec fn entries_view(self) -> Seq<ScheduleEntry> {
        self.entries@
    }

    /// Whether cadence-driven dispatch is on.
    pub closed spec fn is_started(self) -> bool {
        self.started
    }

    /// Job ids are the registration indices, cadences are well-formed
    /// and are exactly what each entry's schedule string denotes, and no
    /// feed identity is registered twice.
    pub open spec fn wf(self) -> bool {
        &&& forall|i: int|
            0 <= i < self.entries_view().len() ==> (#[trigger] self.entries_view()[i]).job_id
                == i
        &&& forall|i: int|
            0 <= i < self.entries_view().len() ==> (#[trigger] self.entries_view()[i]).cadence.wf()
        &&& forall|i: int|
            0 <= i < self.entries_view().len() ==> cadence_ok(
                (#[trigger] self.entries_view()[i]).descriptor.schedule@,
            ) && self.entries_view()[i].cadence == cadence_of(
                self.entries_view()[i].descriptor.schedule@,
            )
        &&& forall|i: int, j: int|
            0 <= i < j < self.entries_view().len() ==> (#[trigger] self.entries_view()[i]).descriptor.url@
                != (#[trigger] self.entries_view()[j]).descriptor.url@
    }

    /// Whether a job for the feed identity `url` is registered.
    pub open spec fn has_feed(self, url: Seq<char>) -> bool {
        exists|i: int|
            0 <= i < self.entries_view().len() && (#[trigger] self.entries_view()[i]).descriptor.url@
                == url
    }

    /// Whether entry `i` is due at `t`: dispatch is on, the cadence
    /// fires, and no execution of the job is still in flight.
    pub open spec fn spec_due(self, i: int, t: WallTime) -> bool {
        &&& self.is_started()
        &&& self.entries_view()[i].cadence.fires_at(t)
        &&& !self.entries_view()[i].running
    }

    /// The job ids due at `t` among the first `n` entries, in order.
    pub open spec fn due_ids_upto(self, t: WallTime, n: int) -> Seq<u64>
        decreases n,
    {
        if n <= 0 {
            Seq::empty()
        } else if self.spec_due(n - 1, t) {
            self.due_ids_upto(t, n - 1).push(self.entries_view()[n - 1].job_id)
        } else {
            self.due_ids_upto(t, n - 1)
        }
    }

    /// The job ids due at `t`, in registration order.
    pub open spec fn due_ids(self, t: WallTime) -> Seq<u64> {
        self.due_ids_upto(t, self.entries_view().len() as int)
    }

    /// A scheduler with no entries, not yet started.
    pub fn new() -> (s: Scheduler)
        ensures
            s.wf(),
            !s.is_started(),
            s.entries_view().len() == 0,
    {
        Scheduler { entries: Vec::new(), started: false }
    }

    /// Registers a job for `descriptor` under its cadence expression.
    ///
    /// The cadence is parsed here, once: a malformed expression is
    /// rejected with `InvalidScheduleExpression` before anything is
    /// registered, and never fails later at fire time. A feed identity
    /// that is already registered is rejected with `DuplicateJob`. On
    /// either error the scheduler is unchanged, so a bad feed never
    /// appears in the active set and other feeds are unaffected.
    pub fn add(&mut self, descriptor: FeedDescriptor) -> (r: Result<u64, RegistrationError>)
        requires
            old(self).wf(),
        ensures
            final(self).wf(),
            final(self).is_started() == old(self).is_started(),
            r is Ok <==> (cadence_ok(descriptor.schedule@) && !old(self).has_feed(
                descriptor.url@,
            )),
            r matches Err(e) ==> *final(self) == *old(self) && e == (if !cadence_ok(
                descriptor.schedule@,
            ) {
                RegistrationError::InvalidScheduleExpression
            } else {
                RegistrationError::DuplicateJob
            }),
            r matches Ok(id) ==> id == old(self).entries_view().len() && final(self).entries_view()
                == old(self).entries_view().push(
                (ScheduleEntry {
                    descriptor,
                    cadence: cadence_of(descriptor.schedule@),
                    job_id: id,
                    running: false,
                }),
            ),
    {
        let cadence = match Cadence::parse(descriptor.schedule.as_str()) {
            Ok(c) => c,
            Err(e) => {
                return Err(e);
            },
        };
        let n = self.entries.len();
        let mut i: usize = 0;
        #[verifier::loop_isolation(false)]
        while i < n
            invariant
                i <= n,
                forall|t: int|
                    0 <= t < i ==> (#[trigger] self.entries_view()[t]).descriptor.url@
                        != descriptor.url@,
            decreases n - i,
        {
            if self.entries[i].descriptor.url == descriptor.url {
                return Err(RegistrationError::DuplicateJob);
            }
            i += 1;
        }
        let id = n as u64;
        self.entries.push(ScheduleEntry { descriptor, cadence, job_id: id, running: false });
        Ok(id)
    }

    /// Turns cadence-driven dispatch on. Idempotent: a second call is a
    /// no-op, not an error.
    pub fn start(&mut self)
        requires
            old(self).wf(),
        ensures
            final(self).wf(),
            final(self).is_started(),
            final(self).entries_view() == old(self).entries_view(),
    {
        self.started = true;
    }

    /// Turns dispatch off: nothing is due afterwards, while in-flight
    /// executions keep their running mark until [`Scheduler::finish`].
    pub fn stop(&mut self)
        requires
            old(self).wf(),
        ensures
            final(self).wf(),
            !final(self).is_started(),
            final(self).entries_view() == old(self).entries_view(),
    {
        self.started = false;
    }

    /// One dispatch step at instant `t`: marks every due entry as
    /// running and returns their job ids, in registration order. An
    /// entry still running from a previous firing is not returned — the
    /// overlapping firing is skipped, not queued — and entries never
    /// block one another.
    pub fn begin_due(&mut self, t: &WallTime) -> (fired: Vec<u64>)
        requires
            old(self).wf(),
            t.wf(),
        ensures
            final(self).wf(),
            final(self).is_started() == old(self).is_started(),
            fired@ == old(self).due_ids(*t),
            final(self).entries_view().len() == old(self).entries_view().len(),
            forall|i: int|
                0 <= i < old(self).entries_view().len() ==> {
                    &&& (#[trigger] final(self).entries_view()[i]).descriptor == old(
                        self,
                    ).entries_view()[i].descriptor
                    &&& final(self).entries_view()[i].cadence == old(
                        self,
                    ).entries_view()[i].cadence
                    &&& final(self).entries_view()[i].job_id == old(self).entries_view()[i].job_id
                    &&& final(self).entries_view()[i].running == (old(
                        self,
                    ).entries_view()[i].running || old(self).spec_due(i, *t))
                },
    {
        let ghost init = *old(self);
        let mut fired: Vec<u64> = Vec::new();
        let n = self.entries.len();
        let mut i: usize = 0;
        #[verifier::loop_isolation(false)]
        while i < n
            invariant
                i <= n,
                self.started == init.is_started(),
                self.entries_view().len() == init.entries_view().len(),
                fired@ == init.due_ids_upto(*t, i as int),
                forall|j: int|
                    i <= j < n ==> #[trigger] self.entries_view()[j] == init.entries_view()[j],
                forall|j: int|
                    0 <= j < i ==> {
                        &&& (#[trigger] self.entries_view()[j]).descriptor
                            == init.entries_view()[j].descriptor
                        &&& self.entries_view()[j].cadence == init.entries_view()[j].cadence
                        &&& self.entries_view()[j].job_id == init.entries_view()[j].job_id
                        &&& self.entries_view()[j].running == (init.entries_view()[j].running
                            || init.spec_due(j, *t))
                    },
            decreases n - i,
        {
            let due = self.started && !self.entries[i].running && self.entries[i].cadence.is_due(
                t,
            );
            proof {
                assert(due == init.spec_due(i as int, *t));
            }
            if due {
                fired.push(self.entries[i].job_id);
                self.entries[i].running = true;
            }
            i += 1;
        }
        fired
    }

    /// Reports that the execution of job `job_id` has completed (in
    /// success or failure): its entry is free to fire again; every other
    /// entry is untouched. An unknown id is a no-op.
    pub fn finish(&mut self, job_id: u64)
        requires
            old(self).wf(),
        ensures
            final(self).wf(),
            final(self).is_started() == old(self).is_started(),
            final(self).entries_view().len() == old(self).entries_view().len(),
            forall|i: int|
                0 <= i < old(self).entries_view().len() ==> {
                    &&& (#[trigger] final(self).entries_view()[i]).descriptor == old(
                        self,
                    ).entries_view()[i].descriptor
                    &&& final(self).entries_view()[i].cadence == old(
                        self,
                    ).entries_view()[i].cadence
                    &&& final(self).entries_view()[i].job_id == old(self).entries_view()[i].job_id
                    &&& final(self).entries_view()[i].running == (old(
                        self,
                    ).entries_view()[i].running && old(self).entries_view()[i].job_id != job_id)
                },
    {
        if job_id < self.entries.len() as u64 {
            let i = job_id as usize;
            self.entries[i].running = false;
        }
    }

    /// How many jobs are registered.
    pub fn job_count(&self) -> (n: usize)
        ensures
            n == self.entries_view().len(),
    {
        self.entries.len()
    }

    /// Whether a job for the feed identity `url` is in the active set.
    pub fn contains_feed(&self, url: &String) -> (r: bool)
        ensures
            r == self.has_feed(url@),
    {
        let n = self.entries.len();
        let mut i: usize = 0;
        #[verifier::loop_isolation(false)]
        while i < n
            invariant
                i <= n,
                forall|t: int|
                    0 <= t < i ==> (#[trigger] self.entries_view()[t]).descriptor.url@ != url@,
            decreases n - i,
        {
            if self.entries[i].descriptor.url == *url {
                return true;
            }
            i += 1;
        }
        false
    }
}

/// Membership in the due list: an id is dispatched exactly when its
/// entry is due.
proof fn lemma_due_ids_upto_member(s: Scheduler, t: WallTime, n: int, id: u64)
    requires
        s.wf(),
        0 <= n <= s.entries_view().len(),
    ensures
        s.due_ids_upto(t, n).contains(id) <==> exists|j: int|
            0 <= j < n && s.spec_due(j, t) && (#[trigger] s.entries_view()[j]).job_id == id,
    decreases n,
{
    if n > 0 {
        lemma_due_ids_upto_member(s, t, n - 1, id);
        let prev = s.due_ids_upto(t, n - 1);
        if s.spec_due(n - 1, t) {
            let cur = prev.push(s.entries_view()[n - 1].job_id);
            if cur.contains(id) {
                let w = choose|w: int| 0 <= w < cur.len() && cur[w] == id;
                if w < prev.len() {
                    assert(prev[w] == id);
                }
            }
            if exists|j: int|
                0 <= j < n && s.spec_due(j, t) && (#[trigger] s.entries_view()[j]).job_id == id {
                let j = choose|j: int|
                    0 <= j < n && s.spec_due(j, t) && (#[trigger] s.entries_view()[j]).job_id
                        == id;
                if j == n - 1 {
                    assert(cur[cur.len() - 1] == id);
                } else {
                    assert(prev.contains(id));
                    let w = choose|w: int| 0 <= w < prev.len() && prev[w] == id;
                    assert(cur[w] == id);
                }
            }
        } else {
            if exists|j: int|
                0 <= j < n && s.spec_due(j, t) && (#[trigger] s.entries_view()[j]).job_id == id {
                let j = choose|j: int|
                    0 <= j < n && s.spec_due(j, t) && (#[trigger] s.entries_view()[j]).job_id
                        == id;
                assert(j != n - 1);
            }
        }
    }
}

/// An entry whose previous execution is still in flight is skipped by
/// dispatch at every instant: it is not due, and its job id is not in
/// the dispatched list — the overlapping firing is dropped, not queued.
pub proof fn lemma_overlap_is_skipped(s: Scheduler, t: WallTime, i: int)
    requires
        s.wf(),
        0 <= i < s.entries_view().len(),
        s.entries_view()[i].running,
    ensures
        !s.spec_due(i, t),
        !s.due_ids(t).contains(s.entries_view()[i].job_id),
{
    let id = s.entries_view()[i].job_id;
    lemma_due_ids_upto_member(s, t, s.entries_view().len() as int, id);
    if s.due_ids(t).contains(id) {
        let j = choose|j: int|
            0 <= j < s.entries_view().len() && s.spec_due(j, t)
                && (#[trigger] s.entries_view()[j]).job_id == id;
        assert(s.entries_view()[j].job_id == j);
        assert(j == i);
    }
}

} // verus!
