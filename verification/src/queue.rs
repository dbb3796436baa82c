//! Per-worker job queues.
use vstd::prelude::*;

use crate::process::{process_views, Process, ProcessView};

verus! {

/// The mathematical shape of a queue: its owner-only part and its
/// multi-producer inbox.
#[verifier::ext_equal]
pub struct QueueView {
    pub internal: Seq<ProcessView>,
    pub external: Seq<ProcessView>,
}

/// The queue owned by one worker.
///
/// The internal part is pushed and popped by the owning worker and popped
/// by stealing workers; a steal takes a whole job in one step, never
/// partial state. The external part is the inbox any thread may push into
/// to pin a job to this worker; the owner drains it, or in exclusive mode
/// pops from it one job at a time.
pub struct Queue {
    /// Owner-only jobs; the last element is popped first.
    internal: Vec<Process>,
    /// The inbox of pinned jobs; the first element is popped first.
    external: Vec<Process>,
}

impl View for Queue {
    type V = QueueView;

    closed spec fn view(&self) -> QueueView {
        QueueView {
            internal: process_views(self.internal@),
            external: process_views(self.external@),
        }
    }
}

impl Queue {
    /// An empty queue.
    pub fn new() -> (q: Queue)
        ensures
            q@.internal.len() == 0,
            q@.external.len() == 0,
    {
        Queue { internal: Vec::new(), external: Vec::new() }
    }

    /// Whether the owner-only part holds any job.
    pub fn has_local_jobs(&self) -> (r: bool)
        ensures
            r == (self@.internal.len() > 0),
    {
        self.internal.len() > 0
    }

    /// How many jobs the owner-only part holds.
    pub fn local_job_count(&self) -> (n: usize)
        ensures
            n == self@.internal.len(),
    {
        self.internal.len()
    }

    /// Whether the inbox holds any job.
    pub fn has_external_jobs(&self) -> (r: bool)
        ensures
            r == (self@.external.len() > 0),
    {
        self.external.len() > 0
    }

    /// Adds `job` to the owner-only part.
    pub fn push_internal(&mut self, job: Process)
        ensures
            final(self)@.internal == old(self)@.internal.push(job@),
            final(self)@.external == old(self)@.external,
    {
        self.internal.push(job);
        proof {
            assert(process_views(self.internal@) =~= process_views(old(self).internal@).push(
                job@,
            ));
        }
    }

    /// Takes the most recently pushed job from the owner-only part.
    pub fn pop(&mut self) -> (r: Option<Process>)
        ensures
            match r {
                Some(job) => old(self)@.internal.len() > 0 && job@ == old(
                    self,
                )@.internal.last() && final(self)@.internal == old(self)@.internal.drop_last()
                    && final(self)@.external == old(self)@.external,
                None => old(self)@.internal.len() == 0 && final(self)@ == old(self)@,
            },
    {
        let r = self.internal.pop();
        proof {
            if old(self).internal@.len() > 0 {
                assert(process_views(self.internal@) =~= process_views(
                    old(self).internal@,
                ).drop_last());
                assert(old(self)@.internal.last() == old(self).internal@.last()@);
            } else {
                assert(self@ =~= old(self)@);
            }
        }
        r
    }

    /// Pins `job` to this worker by adding it to the inbox.
    pub fn push_external(&mut self, job: Process)
        ensures
            final(self)@.external == old(self)@.external.push(job@),
            final(self)@.internal == old(self)@.internal,
    {
        self.external.push(job);
        proof {
            assert(process_views(self.external@) =~= process_views(old(self).external@).push(
                job@,
            ));
        }
    }

    /// Takes the oldest job from the inbox, without draining the rest.
    pub fn pop_external_job(&mut self) -> (r: Option<Process>)
        ensures
            match r {
                Some(job) => old(self)@.external.len() > 0 && job@ == old(
                    self,
                )@.external[0] && final(self)@.external == old(self)@.external.drop_first()
                    && final(self)@.internal == old(self)@.internal,
                None => old(self)@.external.len() == 0 && final(self)@ == old(self)@,
            },
    {
        if self.external.len() == 0 {
            proof {
                assert(self@ =~= old(self)@);
            }
            return None;
        }
        let job = self.external.remove(0);
        proof {
            assert(process_views(self.external@) =~= process_views(
                old(self).external@,
            ).drop_first());
            assert(old(self)@.external[0] == old(self).external@[0]@);
        }
        Some(job)
    }

    /// Drains the inbox into the owner-only part, keeping arrival order,
    /// and reports whether anything was moved.
    pub fn move_external_jobs(&mut self) -> (moved: bool)
        ensures
            final(self)@.internal == old(self)@.internal + old(self)@.external,
            final(self)@.external.len() == 0,
            moved == (old(self)@.external.len() > 0),
    {
        let moved = self.external.len() > 0;
        self.internal.append(&mut self.external);
        proof {
            assert(process_views(self.internal@) =~= process_views(old(self).internal@)
                + process_views(old(self).external@));
            assert(process_views(self.external@) =~= Seq::<ProcessView>::empty());
        }
        moved
    }
}

} // verus!
