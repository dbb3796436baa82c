//! Executing of lightweight processes on a single worker.
use vstd::prelude::*;

use vstd::multiset::Multiset;

use crate::machine::{Machine, RunOutcome};
use crate::pool_state::{
    lemma_account_balance, lemma_insert_shuffle, lemma_multiset_cancel, lemma_multiset_shift,
    lemma_pids_concat, lemma_pids_drop_first, lemma_pids_drop_last, lemma_pids_empty,
    lemma_pids_push, lemma_queues_jobs_update, pids_of, pool_jobs, queue_jobs, queues_jobs,
    PoolState,
};
use crate::process::{process_views, Process, ProcessView};
use crate::queue::QueueView;
use crate::tracer::TracerPool;

verus! {

/// The state a worker is in.
#[derive(Clone, Copy, PartialEq, Eq, Structural, Debug)]
pub enum Mode {
    /// The worker processes its own queue, steals, and drains normally.
    Normal,
    /// The worker only processes the one job pinned to it, and steals
    /// nothing.
    Exclusive,
}

/// A worker owned by one thread, executing jobs from a scheduler pool.
pub struct ProcessWorker {
    /// The unique id of this worker, indexing its queue in the pool; used
    /// for pinning jobs.
    pub id: usize,
    /// The mode this worker is in.
    pub mode: Mode,
    /// The thread pool used for tracing live objects during garbage
    /// collection.
    pub tracers: TracerPool,
    /// The state of the pool this worker belongs to.
    pub state: PoolState,
    /// The machine used for running code.
    pub machine: Machine,
    /// Jobs that spent their slice budget and await re-admission by the
    /// embedder.
    pub suspended: Vec<Process>,
    /// The ids of every job this worker has finished, ghost bookkeeping
    /// for work conservation.
    pub processed: Ghost<Multiset<usize>>,
    /// Where the next steal sweep starts, so sweeps do not always target
    /// the same victim first. Scheduling policy only; no contract depends
    /// on it.
    pub steal_cursor: usize,
}

/// Every job this worker accounts for: queued anywhere in its pool,
/// suspended awaiting re-admission, or finished. Scheduling moves jobs
/// between the three places and never duplicates or drops one.
pub open spec fn job_account(w: ProcessWorker) -> Multiset<usize> {
    pool_jobs(w.state@).add(pids_of(process_views(w.suspended@)).to_multiset()).add(w.processed@)
}

/// Whether the worker's id indexes a queue of its pool.
pub open spec fn worker_wf(w: ProcessWorker) -> bool {
    w.id < w.state@.queues.len()
}

/// One successful steal: the newest job of victim `j`'s queue moved, in
/// one step, into the thief's own queue, with nothing else of the pool
/// touched — the stolen job is never visible in both queues at once.
pub open spec fn stolen_from(pre: ProcessWorker, post: ProcessWorker, j: int) -> bool {
    let qs = pre.state@.queues;
    let id = pre.id as int;
    &&& 0 <= j < qs.len()
    &&& j != id
    &&& qs[j].internal.len() > 0
    &&& post.state@.queues == qs.update(
        j,
        QueueView { internal: qs[j].internal.drop_last(), ..qs[j] },
    ).update(
        id,
        QueueView { internal: qs[id].internal.push(qs[j].internal.last()), ..qs[id] },
    )
}

/// An iteration that found nothing to do: the pool, the set-aside jobs
/// and the processed log are untouched; only scheduling bookkeeping (the
/// steal cursor) may have moved.
pub open spec fn iteration_stutter(pre: ProcessWorker, post: ProcessWorker) -> bool {
    &&& post.state@ == pre.state@
    &&& post.suspended@ == pre.suspended@
    &&& post.processed@ == pre.processed@
}

/// What one iteration of the run loop may do: exactly one of the current
/// mode's cases, in their priority order, or nothing at all.
pub open spec fn iteration_transition(pre: ProcessWorker, post: ProcessWorker) -> bool {
    &&& post.id == pre.id
    &&& post.mode == pre.mode
    &&& post.tracers == pre.tracers
    &&& match pre.mode {
        Mode::Normal => iteration_stutter(pre, post) || popped_own_job(pre, post) || stole_job(
            pre,
            post,
        ) || drained_inbox(pre, post) || popped_global_job(pre, post),
        Mode::Exclusive => iteration_stutter(pre, post) || popped_own_job(pre, post)
            || popped_pinned_job(pre, post),
    }
}

/// `post` is reached from `pre` by a chain of `n` iteration transitions.
pub open spec fn runs_to(pre: ProcessWorker, post: ProcessWorker, n: nat) -> bool
    decreases n,
{
    if n == 0 {
        post == pre
    } else {
        exists|mid: ProcessWorker|
            runs_to(pre, mid, (n - 1) as nat) && #[trigger] iteration_transition(mid, post)
    }
}

/// Law: one successful steal moves exactly one job. The victim's queue
/// holds one job fewer and the thief's one more, the multiset of queued
/// job ids is unchanged — so the stolen job is neither duplicated into
/// both queues nor dropped — and every other queue is untouched.
pub proof fn lemma_steal_conservation(pre: ProcessWorker, post: ProcessWorker, j: int)
    requires
        worker_wf(pre),
        stolen_from(pre, post, j),
    ensures
        post.state@.queues[j].internal.len() == pre.state@.queues[j].internal.len() - 1,
        post.state@.queues[pre.id as int].internal.len() == pre.state@.queues[
            pre.id as int
        ].internal.len() + 1,
        queues_jobs(post.state@.queues) == queues_jobs(pre.state@.queues),
        forall|t: int|
            0 <= t < pre.state@.queues.len() && t != j && t != pre.id as int
                ==> post.state@.queues[t] == #[trigger] pre.state@.queues[t],
{
    broadcast use vstd::multiset::group_multiset_axioms;

    let qs = pre.state@.queues;
    let idd = pre.id as int;
    let jv = qs[j].internal.last();
    let p = jv.pid;
    let mid_qs = qs.update(j, QueueView { internal: qs[j].internal.drop_last(), ..qs[j] });
    lemma_pids_drop_last(qs[j].internal);
    lemma_pids_push(mid_qs[idd].internal, jv);
    assert(queue_jobs(mid_qs[j]).insert(p) =~= queue_jobs(qs[j]));
    assert(queue_jobs(post.state@.queues[idd]) =~= queue_jobs(mid_qs[idd]).insert(p));
    lemma_queues_jobs_update(qs, j, mid_qs[j]);
    lemma_multiset_shift(queues_jobs(mid_qs), queues_jobs(qs), queue_jobs(mid_qs[j]), p);
    lemma_queues_jobs_update(mid_qs, idd, post.state@.queues[idd]);
    lemma_insert_shuffle(queues_jobs(mid_qs), queue_jobs(mid_qs[idd]), p);
    lemma_multiset_cancel(
        queues_jobs(post.state@.queues),
        queues_jobs(mid_qs).insert(p),
        queue_jobs(mid_qs[idd]),
    );
}

/// The jobs this worker has set aside or finished, as a multiset of ids.
pub open spec fn settled_jobs(w: ProcessWorker) -> Multiset<usize> {
    w.processed@.add(pids_of(process_views(w.suspended@)).to_multiset())
}

/// One dequeued job ran for a slice and came to rest in exactly one new
/// place: retired into the processed log, or suspended for re-admission.
pub open spec fn job_settled(pre: ProcessWorker, post: ProcessWorker, pid: usize) -> bool {
    &&& settled_jobs(post) == settled_jobs(pre).insert(pid)
    &&& post.processed@.len() >= pre.processed@.len()
    &&& post.state@.alive ==> pre.state@.alive
}

/// The worker popped the newest job of its own queue and ran it; the
/// inbox, the global queue and every other queue were not touched.
pub open spec fn popped_own_job(pre: ProcessWorker, post: ProcessWorker) -> bool {
    let id = pre.id as int;
    let q = pre.state@.queues[id];
    &&& q.internal.len() > 0
    &&& post.state@.queues == pre.state@.queues.update(
        id,
        QueueView { internal: q.internal.drop_last(), ..q },
    )
    &&& post.state@.global == pre.state@.global
    &&& job_settled(pre, post, q.internal.last().pid)
}

/// The worker's own queue was empty and one job was stolen into it; no
/// job ran, and nothing else of the pool changed.
pub open spec fn stole_job(pre: ProcessWorker, post: ProcessWorker) -> bool {
    &&& pre.state@.queues[pre.id as int].internal.len() == 0
    &&& exists|j: int| #[trigger] stolen_from(pre, post, j)
    &&& post.state@.global == pre.state@.global
    &&& post.state@.alive == pre.state@.alive
    &&& post.suspended@ == pre.suspended@
    &&& post.processed@ == pre.processed@
}

/// The worker's own queue was empty and nothing was stealable; the whole
/// inbox moved into the own queue in arrival order, leaving the inbox
/// empty. No job ran, and nothing else of the pool changed.
pub open spec fn drained_inbox(pre: ProcessWorker, post: ProcessWorker) -> bool {
    let id = pre.id as int;
    let q = pre.state@.queues[id];
    &&& q.internal.len() == 0
    &&& forall|j: int|
        0 <= j < pre.state@.queues.len() && j != id ==> (
        #[trigger] pre.state@.queues[j]).internal.len() == 0
    &&& q.external.len() > 0
    &&& post.state@.queues == pre.state@.queues.update(
        id,
        QueueView { internal: q.internal + q.external, external: Seq::empty() },
    )
    &&& post.state@.global == pre.state@.global
    &&& post.state@.alive == pre.state@.alive
    &&& post.suspended@ == pre.suspended@
    &&& post.processed@ == pre.processed@
}

/// Every closer source was empty; the worker popped the oldest job of
/// the global queue and ran it; every worker queue was left untouched.
pub open spec fn popped_global_job(pre: ProcessWorker, post: ProcessWorker) -> bool {
    let id = pre.id as int;
    &&& pre.state@.queues[id].internal.len() == 0
    &&& forall|j: int|
        0 <= j < pre.state@.queues.len() && j != id ==> (
        #[trigger] pre.state@.queues[j]).internal.len() == 0
    &&& pre.state@.queues[id].external.len() == 0
    &&& pre.state@.global.len() > 0
    &&& post.state@.global == pre.state@.global.drop_first()
    &&& post.state@.queues == pre.state@.queues
    &&& job_settled(pre, post, pre.state@.global[0].pid)
}

/// The worker's own queue was empty; exactly the oldest pinned job was
/// popped from the inbox — the remaining pinned jobs stay put, never
/// drained into a stealable queue — and ran.
pub open spec fn popped_pinned_job(pre: ProcessWorker, post: ProcessWorker) -> bool {
    let id = pre.id as int;
    let q = pre.state@.queues[id];
    &&& q.internal.len() == 0
    &&& q.external.len() > 0
    &&& post.state@.queues == pre.state@.queues.update(
        id,
        QueueView { external: q.external.drop_first(), ..q },
    )
    &&& post.state@.global == pre.state@.global
    &&& job_settled(pre, post, q.external[0].pid)
}

/// The queue visited at step `k` of a steal sweep by worker `id` in a
/// pool of `n` queues: the ids after `id`, wrapping around.
pub open spec fn steal_victim(id: int, n: int, k: int) -> int {
    if k >= n - id {
        k - (n - id)
    } else {
        id + k
    }
}

/// What a worker in normal mode can see to do: a job in its own queue, a
/// stealable job in another worker's queue, a pinned job in its inbox, or
/// an unpinned job in the global queue. The park condition is the
/// negation: a worker parks only when none of these holds.
pub open spec fn normal_work_visible(w: ProcessWorker) -> bool {
    ||| w.state@.queues[w.id as int].internal.len() > 0
    ||| exists|j: int|
        0 <= j < w.state@.queues.len() && j != w.id as int && (
        #[trigger] w.state@.queues[j]).internal.len() > 0
    ||| w.state@.queues[w.id as int].external.len() > 0
    ||| w.state@.global.len() > 0
}

/// What a worker in exclusive mode can see to do: a job in its own queue
/// or inbox. It parks exactly when its inbox stays empty.
pub open spec fn exclusive_work_visible(w: ProcessWorker) -> bool {
    ||| w.state@.queues[w.id as int].internal.len() > 0
    ||| w.state@.queues[w.id as int].external.len() > 0
}

impl ProcessWorker {
    /// Starts a new worker operating in the normal mode, owning queue
    /// `id` of `state` and sizing its tracer pool from the machine's
    /// configuration.
    pub fn new(id: usize, state: PoolState, machine: Machine) -> (w: ProcessWorker)
        requires
            id < state@.queues.len(),
        ensures
            w.id == id,
            w.mode == Mode::Normal,
            w.state@ == state@,
            w.machine == machine,
            w.tracers.threads == machine.config.tracer_threads,
            w.suspended@.len() == 0,
            w.processed@ == Multiset::<usize>::empty(),
            worker_wf(w),
    {
        let tracers = TracerPool::new(machine.config.tracer_threads);
        ProcessWorker {
            id,
            mode: Mode::Normal,
            tracers,
            state,
            machine,
            suspended: Vec::new(),
            processed: Ghost(Multiset::empty()),
            steal_cursor: 1,
        }
    }

    /// Switches back to the normal mode; nothing else changes.
    pub fn leave_exclusive_mode(&mut self)
        ensures
            final(self).mode == Mode::Normal,
            final(self).id == old(self).id,
            final(self).tracers == old(self).tracers,
            final(self).machine == old(self).machine,
            final(self).state@ == old(self).state@,
            final(self).suspended@ == old(self).suspended@,
            final(self).processed@ == old(self).processed@,
    {
        self.mode = Mode::Normal;
    }

    /// Changes the worker state so it operates in exclusive mode.
    ///
    /// The inbox is drained and every job of the worker's own queue is
    /// relocated to the global queue, so that once exclusive the worker
    /// retains no stealable or pinned job except whichever single job is
    /// later pinned to it.
    pub fn enter_exclusive_mode(&mut self)
        requires
            worker_wf(*old(self)),
        ensures
            final(self).mode == Mode::Exclusive,
            final(self).id == old(self).id,
            final(self).tracers == old(self).tracers,
            final(self).machine == old(self).machine,
            final(self).suspended@ == old(self).suspended@,
            final(self).processed@ == old(self).processed@,
            final(self).state@.alive == old(self).state@.alive,
            final(self).state@.queues.len() == old(self).state@.queues.len(),
            final(self).state@.queues[old(self).id as int].internal.len() == 0,
            final(self).state@.queues[old(self).id as int].external.len() == 0,
            forall|j: int|
                0 <= j < old(self).state@.queues.len() && j != old(self).id as int
                    ==> final(self).state@.queues[j] == #[trigger] old(self).state@.queues[j],
            final(self).state@.global == old(self).state@.global + (old(self).state@.queues[
                old(self).id as int
            ].internal + old(self).state@.queues[old(self).id as int].external).reverse(),
            old(self).state@.queues[old(self).id as int].internal.len() == 0
                && old(self).state@.queues[old(self).id as int].external.len() == 0
                ==> final(self).state@.global == old(self).state@.global,
            pids_of(final(self).state@.global).to_multiset() == pids_of(
                old(self).state@.global,
            ).to_multiset().add(queue_jobs(old(self).state@.queues[old(self).id as int])),
            job_account(*final(self)) == job_account(*old(self)),
    {
        broadcast use vstd::multiset::group_multiset_axioms;

        let ghost pre = *self;
        let id = self.id;
        let ghost relocated = pre.state@.queues[id as int].internal + pre.state@.queues[
            id as int
        ].external;
        self.state.move_queue_external(id);
        proof {
            let q0 = pre.state@.queues[id as int];
            lemma_pids_concat(q0.internal, q0.external);
            lemma_pids_empty(self.state@.queues[id as int].external);
            lemma_queues_jobs_update(
                pre.state@.queues,
                id as int,
                self.state@.queues[id as int],
            );
            assert(queue_jobs(self.state@.queues[id as int]) =~= queue_jobs(q0));
            assert(queues_jobs(self.state@.queues).add(queue_jobs(q0)) == queues_jobs(
                pre.state@.queues,
            ).add(queue_jobs(q0)));
            lemma_multiset_cancel(
                queues_jobs(self.state@.queues),
                queues_jobs(pre.state@.queues),
                queue_jobs(q0),
            );
            let m = self.state@.queues[id as int].internal.len() as int;
            assert(self.state@.queues[id as int].internal =~= relocated.take(m));
            assert(relocated.skip(m) =~= Seq::<ProcessView>::empty());
            assert(self.state@.global =~= pre.state@.global + relocated.skip(m).reverse());
        }
        while self.state.queue_has_local(id)
            invariant
                self.id == pre.id,
                self.mode == pre.mode,
                self.tracers == pre.tracers,
                self.machine == pre.machine,
                self.suspended@ == pre.suspended@,
                self.processed@ == pre.processed@,
                self.state@.alive == pre.state@.alive,
                self.state@.queues.len() == pre.state@.queues.len(),
                id == pre.id,
                id < self.state@.queues.len(),
                self.state@.queues[id as int].external.len() == 0,
                forall|j: int|
                    0 <= j < pre.state@.queues.len() && j != id as int ==> self.state@.queues[j]
                        == #[trigger] pre.state@.queues[j],
                self.state@.queues[id as int].internal.len() <= relocated.len(),
                self.state@.queues[id as int].internal == relocated.take(
                    self.state@.queues[id as int].internal.len() as int,
                ),
                self.state@.global == pre.state@.global + relocated.skip(
                    self.state@.queues[id as int].internal.len() as int,
                ).reverse(),
                pids_of(self.state@.global).to_multiset().add(
                    queue_jobs(self.state@.queues[id as int]),
                ) == pids_of(pre.state@.global).to_multiset().add(
                    queue_jobs(pre.state@.queues[id as int]),
                ),
                queues_jobs(self.state@.queues).add(
                    pids_of(self.state@.global).to_multiset(),
                ) == queues_jobs(pre.state@.queues).add(
                    pids_of(pre.state@.global).to_multiset(),
                ),
            decreases self.state@.queues[id as int].internal.len(),
        {
            let ghost before = self.state@;
            let popped = self.state.pop_queue_internal(id);
            match popped {
                Some(job) => {
                    let ghost jv = job@;
                    let ghost mid = self.state@;
                    self.state.push_global(job);
                    proof {
                        lemma_pids_push(mid.global, jv);
                        lemma_pids_drop_last(before.queues[id as int].internal);
                        assert(queue_jobs(mid.queues[id as int]).insert(jv.pid) =~= queue_jobs(
                            before.queues[id as int],
                        ));
                        assert(pids_of(self.state@.global).to_multiset().add(
                            queue_jobs(self.state@.queues[id as int]),
                        ) =~= pids_of(before.global).to_multiset().add(
                            queue_jobs(before.queues[id as int]),
                        ));
                        lemma_queues_jobs_update(
                            before.queues,
                            id as int,
                            mid.queues[id as int],
                        );
                        assert(mid.queues =~= before.queues.update(
                            id as int,
                            mid.queues[id as int],
                        ));
                        assert(queues_jobs(mid.queues).add(
                            queue_jobs(mid.queues[id as int]).insert(jv.pid),
                        ) == queues_jobs(before.queues).add(queue_jobs(mid.queues[id as int])));
                        lemma_multiset_shift(
                            queues_jobs(mid.queues),
                            queues_jobs(before.queues),
                            queue_jobs(mid.queues[id as int]),
                            jv.pid,
                        );
                        assert(queues_jobs(self.state@.queues).add(
                            pids_of(self.state@.global).to_multiset(),
                        ) =~= queues_jobs(before.queues).add(
                            pids_of(before.global).to_multiset(),
                        ));
                        let m = before.queues[id as int].internal.len() as int;
                        assert(1 <= m <= relocated.len());
                        assert(before.queues[id as int].internal == relocated.take(m));
                        assert(relocated.take(m).last() == relocated[m - 1]);
                        assert(jv == relocated[m - 1]);
                        assert(self.state@.queues[id as int].internal =~= relocated.take(
                            m - 1,
                        ));
                        assert forall|i: int|
                            #![trigger relocated.skip(m - 1).reverse()[i]]
                            0 <= i < relocated.skip(m - 1).reverse().len()
                                implies relocated.skip(m - 1).reverse()[i] == relocated.skip(
                            m,
                        ).reverse().push(relocated[m - 1])[i] by {
                            assert(relocated.skip(m - 1)[relocated.len() - m - i]
                                == relocated[relocated.len() - 1 - i]);
                            if i < relocated.len() - m {
                                assert(relocated.skip(m)[relocated.len() - m - 1 - i]
                                    == relocated[relocated.len() - 1 - i]);
                            }
                        }
                        assert(relocated.skip(m - 1).reverse() =~= relocated.skip(
                            m,
                        ).reverse().push(relocated[m - 1]));
                        assert(self.state@.global =~= pre.state@.global + relocated.skip(
                            m - 1,
                        ).reverse());
                    }
                },
                None => {
                    proof {
                        assert(false);
                    }
                },
            }
        }
        self.mode = Mode::Exclusive;
        proof {
            lemma_pids_empty(self.state@.queues[id as int].internal);
            lemma_pids_empty(self.state@.queues[id as int].external);
            assert(queue_jobs(self.state@.queues[id as int]) =~= Multiset::<usize>::empty());
            assert(pids_of(self.state@.global).to_multiset() =~= pids_of(
                pre.state@.global,
            ).to_multiset().add(queue_jobs(pre.state@.queues[id as int])));
            assert forall|x: usize|
                pool_jobs(self.state@).count(x) == pool_jobs(pre.state@).count(x) by {
                assert(pids_of(self.state@.global).to_multiset().add(
                    queues_jobs(self.state@.queues),
                ).count(x) == pids_of(self.state@.global).to_multiset().count(x)
                    + queues_jobs(self.state@.queues).count(x));
                assert(pids_of(pre.state@.global).to_multiset().add(
                    queues_jobs(pre.state@.queues),
                ).count(x) == pids_of(pre.state@.global).to_multiset().count(x)
                    + queues_jobs(pre.state@.queues).count(x));
                assert(queues_jobs(self.state@.queues).add(
                    pids_of(self.state@.global).to_multiset(),
                ).count(x) == queues_jobs(self.state@.queues).count(x) + pids_of(
                    self.state@.global,
                ).to_multiset().count(x));
                assert(queues_jobs(pre.state@.queues).add(
                    pids_of(pre.state@.global).to_multiset(),
                ).count(x) == queues_jobs(pre.state@.queues).count(x) + pids_of(
                    pre.state@.global,
                ).to_multiset().count(x));
            }
            assert(pool_jobs(self.state@) =~= pool_jobs(pre.state@));
            assert(job_account(*self) =~= job_account(pre));
            assert(relocated.skip(0) =~= relocated);
            assert(self.state@.global == pre.state@.global + relocated.reverse());
            if relocated.len() == 0 {
                assert(self.state@.global =~= pre.state@.global);
            }
        }
    }

    /// Tries to move the newest job of `victim`'s queue into this
    /// worker's own queue.
    fn try_steal_from(&mut self, victim: usize) -> (stolen: bool)
        requires
            worker_wf(*old(self)),
            victim < old(self).state@.queues.len(),
            victim != old(self).id,
        ensures
            final(self).id == old(self).id,
            final(self).mode == old(self).mode,
            final(self).tracers == old(self).tracers,
            final(self).machine == old(self).machine,
            final(self).suspended@ == old(self).suspended@,
            final(self).processed@ == old(self).processed@,
            final(self).steal_cursor == old(self).steal_cursor,
            final(self).state@.alive == old(self).state@.alive,
            final(self).state@.global == old(self).state@.global,
            final(self).state@.queues.len() == old(self).state@.queues.len(),
            stolen == (old(self).state@.queues[victim as int].internal.len() > 0),
            stolen ==> stolen_from(*old(self), *final(self), victim as int),
            !stolen ==> final(self).state@ == old(self).state@,
    {
        let ghost pre = *self;
        if !self.state.queue_has_local(victim) {
            return false;
        }
        match self.state.pop_queue_internal(victim) {
            Some(job) => {
                self.state.push_queue_internal(self.id, job);
                proof {
                    let qs = pre.state@.queues;
                    let idd = pre.id as int;
                    let jj = victim as int;
                    assert(self.state@.queues =~= qs.update(
                        jj,
                        QueueView { internal: qs[jj].internal.drop_last(), ..qs[jj] },
                    ).update(
                        idd,
                        QueueView {
                            internal: qs[idd].internal.push(qs[jj].internal.last()),
                            ..qs[idd]
                        },
                    ));
                    assert(stolen_from(pre, *self, jj));
                }
                true
            },
            None => {
                proof {
                    assert(false);
                }
                false
            },
        }
    }

    /// Tries to steal one job from another worker's queue, moving it into
    /// this worker's own queue.
    ///
    /// Each sweep visits every other worker once, starting one further
    /// along than the last sweep did, so the worker does not always
    /// target the same victim first. A failed sweep only means no job was
    /// visible during it; victims can receive jobs again at any time.
    fn steal_from_other_queue(&mut self) -> (stolen: bool)
        requires
            worker_wf(*old(self)),
        ensures
            final(self).id == old(self).id,
            final(self).mode == old(self).mode,
            final(self).tracers == old(self).tracers,
            final(self).machine == old(self).machine,
            final(self).suspended@ == old(self).suspended@,
            final(self).processed@ == old(self).processed@,
            final(self).state@.alive == old(self).state@.alive,
            final(self).state@.global == old(self).state@.global,
            final(self).state@.queues.len() == old(self).state@.queues.len(),
            stolen ==> exists|j: int| #[trigger] stolen_from(*old(self), *final(self), j),
            stolen ==> queues_jobs(final(self).state@.queues) == queues_jobs(
                old(self).state@.queues,
            ),
            stolen ==> final(self).state@.queues[old(self).id as int].internal.len() == old(
                self,
            ).state@.queues[old(self).id as int].internal.len() + 1,
            !stolen ==> final(self).state@ == old(self).state@ && forall|j: int|
                0 <= j < old(self).state@.queues.len() && j != old(self).id as int ==> (
                #[trigger] old(self).state@.queues[j]).internal.len() == 0,
    {
        let n = self.state.queue_count();
        let start = if 1 <= self.steal_cursor && self.steal_cursor < n {
            self.steal_cursor
        } else {
            1
        };
        self.steal_cursor = if start + 1 < n {
            start + 1
        } else {
            1
        };
        let ghost pre = *self;
        let mut t = start;
        while t < n
            invariant
                self.id == pre.id,
                self.mode == pre.mode,
                self.tracers == pre.tracers,
                self.machine == pre.machine,
                self.suspended@ == pre.suspended@,
                self.processed@ == pre.processed@,
                self.state@ == pre.state@,
                n == pre.state@.queues.len(),
                self.id < n,
                1 <= start,
                start <= t,
                forall|o: int|
                    start <= o < t ==> pre.state@.queues[steal_victim(
                        pre.id as int,
                        n as int,
                        o,
                    )].internal.len() == 0,
            decreases n - t,
        {
            let victim = if t >= n - self.id {
                t - (n - self.id)
            } else {
                self.id + t
            };
            proof {
                assert(victim as int == steal_victim(pre.id as int, n as int, t as int));
                assert(victim < n && victim != self.id);
            }
            if self.try_steal_from(victim) {
                proof {
                    assert(stolen_from(pre, *self, victim as int));
                    lemma_steal_conservation(pre, *self, victim as int);
                    assert(stolen_from(*old(self), *self, victim as int));
                }
                return true;
            }
            t = t + 1;
        }
        let mut u: usize = 1;
        while u < start
            invariant
                self.id == pre.id,
                self.mode == pre.mode,
                self.tracers == pre.tracers,
                self.machine == pre.machine,
                self.suspended@ == pre.suspended@,
                self.processed@ == pre.processed@,
                self.state@ == pre.state@,
                n == pre.state@.queues.len(),
                self.id < n,
                1 <= start,
                start <= n || n <= 1,
                1 <= u,
                u <= start,
                forall|o: int|
                    start <= o < n ==> pre.state@.queues[steal_victim(
                        pre.id as int,
                        n as int,
                        o,
                    )].internal.len() == 0,
                forall|o: int|
                    1 <= o < u ==> pre.state@.queues[steal_victim(
                        pre.id as int,
                        n as int,
                        o,
                    )].internal.len() == 0,
            decreases start - u,
        {
            let victim = if u >= n - self.id {
                u - (n - self.id)
            } else {
                self.id + u
            };
            proof {
                assert(victim as int == steal_victim(pre.id as int, n as int, u as int));
                assert(victim < n && victim != self.id);
            }
            if self.try_steal_from(victim) {
                proof {
                    assert(stolen_from(pre, *self, victim as int));
                    lemma_steal_conservation(pre, *self, victim as int);
                    assert(stolen_from(*old(self), *self, victim as int));
                }
                return true;
            }
            u = u + 1;
        }
        proof {
            assert forall|j: int|
                0 <= j < pre.state@.queues.len() && j != pre.id as int implies (
            #[trigger] pre.state@.queues[j]).internal.len() == 0 by {
                let idd = pre.id as int;
                let nn = n as int;
                let o = if j > idd {
                    j - idd
                } else {
                    j + nn - idd
                };
                assert(1 <= o < nn);
                assert(steal_victim(idd, nn, o) == j);
                assert(pre.state@.queues[steal_victim(idd, nn, o)].internal.len() == 0);
            }
        }
        false
    }

    /// Performs a single iteration of the normal work loop, trying in
    /// order, first success short-circuiting: take the newest job of the
    /// own queue, else steal one job into it, else drain the inbox into
    /// it, else take the oldest global job. The iteration reports
    /// progress exactly when any of those sources was non-empty;
    /// otherwise the worker may park.
    pub fn normal_iteration(&mut self) -> (progressed: bool)
        requires
            worker_wf(*old(self)),
        ensures
            final(self).id == old(self).id,
            final(self).mode == old(self).mode,
            final(self).tracers == old(self).tracers,
            final(self).machine.config == old(self).machine.config,
            final(self).state@.queues.len() == old(self).state@.queues.len(),
            final(self).state@.alive ==> old(self).state@.alive,
            final(self).processed@.len() >= old(self).processed@.len(),
            old(self).state@.alive && !final(self).state@.alive ==> final(self).processed@.len()
                > old(self).processed@.len(),
            job_account(*final(self)) == job_account(*old(self)),
            progressed == normal_work_visible(*old(self)),
            progressed ==> popped_own_job(*old(self), *final(self)) || stole_job(
                *old(self),
                *final(self),
            ) || drained_inbox(*old(self), *final(self)) || popped_global_job(
                *old(self),
                *final(self),
            ),
            !progressed ==> final(self).state@ == old(self).state@ && final(self).suspended@
                == old(self).suspended@ && final(self).processed@ == old(self).processed@,
            progressed ==> pool_jobs(final(self).state@).len() < pool_jobs(
                old(self).state@,
            ).len() || (pool_jobs(final(self).state@).len() == pool_jobs(
                old(self).state@,
            ).len() && old(self).state@.queues[old(self).id as int].internal.len() == 0
                && final(self).state@.queues[old(self).id as int].internal.len() > 0),
    {
        broadcast use vstd::multiset::group_multiset_axioms;

        let ghost pre = *self;
        let id = self.id;
        match self.state.pop_queue_internal(id) {
            Some(job) => {
                let ghost jp = job@.pid;
                proof {
                    self.lemma_own_pop_accounting(pre, job@);
                }
                let ghost mid = *self;
                self.process_job(job);
                proof {
                    assert(pool_jobs(self.state@) == pool_jobs(mid.state@));
                    self.lemma_settled_account(pre, jp);
                    assert(popped_own_job(pre, *self));
                }
                return true;
            },
            None => {},
        }
        let ghost before_steal = *self;
        if self.steal_from_other_queue() {
            proof {
                let j = choose|j: int| stolen_from(before_steal, *self, j);
                assert(stolen_from(pre, *self, j));
                assert(pool_jobs(self.state@) =~= pool_jobs(pre.state@));
                assert(job_account(*self) =~= job_account(pre));
                assert(stole_job(pre, *self));
            }
            return true;
        }
        if self.state.queue_has_external(id) {
            self.state.move_queue_external(id);
            proof {
                let q0 = pre.state@.queues[id as int];
                lemma_pids_concat(q0.internal, q0.external);
                lemma_pids_empty(self.state@.queues[id as int].external);
                lemma_queues_jobs_update(
                    pre.state@.queues,
                    id as int,
                    self.state@.queues[id as int],
                );
                assert(queue_jobs(self.state@.queues[id as int]) =~= queue_jobs(q0));
                lemma_multiset_cancel(
                    queues_jobs(self.state@.queues),
                    queues_jobs(pre.state@.queues),
                    queue_jobs(q0),
                );
                assert(pool_jobs(self.state@) =~= pool_jobs(pre.state@));
                assert(job_account(*self) =~= job_account(pre));
                assert(drained_inbox(pre, *self));
            }
            return true;
        }
        match self.state.pop_global() {
            Some(job) => {
                let ghost jp = job@.pid;
                proof {
                    lemma_pids_drop_first(pre.state@.global);
                    assert(pool_jobs(self.state@).insert(jp) =~= pool_jobs(pre.state@));
                }
                let ghost mid = *self;
                self.process_job(job);
                proof {
                    assert(pool_jobs(self.state@) == pool_jobs(mid.state@));
                    self.lemma_settled_account(pre, jp);
                    assert(popped_global_job(pre, *self));
                }
                return true;
            },
            None => {},
        }
        false
    }

    /// Lays out the accounting for popping the newest job of the worker's
    /// own queue: the pool holds exactly that job less.
    proof fn lemma_own_pop_accounting(&self, pre: ProcessWorker, jv: ProcessView)
        requires
            worker_wf(pre),
            self.state@.queues.len() == pre.state@.queues.len(),
            self.state@.global == pre.state@.global,
            self.state@.alive == pre.state@.alive,
            pre.state@.queues[pre.id as int].internal.len() > 0,
            jv == pre.state@.queues[pre.id as int].internal.last(),
            self.state@.queues == pre.state@.queues.update(
                pre.id as int,
                QueueView {
                    internal: pre.state@.queues[pre.id as int].internal.drop_last(),
                    ..pre.state@.queues[pre.id as int]
                },
            ),
        ensures
            pool_jobs(self.state@).insert(jv.pid) == pool_jobs(pre.state@),
    {
        broadcast use vstd::multiset::group_multiset_axioms;

        let qs = pre.state@.queues;
        let idd = pre.id as int;
        lemma_pids_drop_last(qs[idd].internal);
        assert(queue_jobs(self.state@.queues[idd]).insert(jv.pid) =~= queue_jobs(qs[idd]));
        lemma_queues_jobs_update(qs, idd, self.state@.queues[idd]);
        lemma_multiset_shift(
            queues_jobs(self.state@.queues),
            queues_jobs(qs),
            queue_jobs(self.state@.queues[idd]),
            jv.pid,
        );
        assert(pool_jobs(self.state@).insert(jv.pid) =~= pool_jobs(pre.state@));
    }

    /// Settling a job the pool just gave up keeps the worker's account.
    proof fn lemma_settled_account(&self, pre: ProcessWorker, pid: usize)
        requires
            pool_jobs(self.state@).insert(pid) == pool_jobs(pre.state@),
            settled_jobs(*self) == settled_jobs(pre).insert(pid),
        ensures
            job_account(*self) == job_account(pre),
    {
        lemma_account_balance(
            pool_jobs(self.state@),
            pids_of(process_views(self.suspended@)).to_multiset(),
            self.processed@,
            pool_jobs(pre.state@),
            pids_of(process_views(pre.suspended@)).to_multiset(),
            pre.processed@,
            pid,
        );
    }

    /// Performs a single iteration of the exclusive work loop: take a job
    /// from the own queue, else take exactly one pinned job from the
    /// inbox — never draining it, so no other worker can steal a pinned
    /// job before this worker claims it. Nothing outside this worker's
    /// own queue is touched.
    pub fn exclusive_iteration(&mut self) -> (progressed: bool)
        requires
            worker_wf(*old(self)),
        ensures
            final(self).id == old(self).id,
            final(self).mode == old(self).mode,
            final(self).tracers == old(self).tracers,
            final(self).machine.config == old(self).machine.config,
            final(self).state@.queues.len() == old(self).state@.queues.len(),
            final(self).state@.alive ==> old(self).state@.alive,
            final(self).state@.global == old(self).state@.global,
            forall|j: int|
                0 <= j < old(self).state@.queues.len() && j != old(self).id as int
                    ==> final(self).state@.queues[j] == #[trigger] old(self).state@.queues[j],
            final(self).processed@.len() >= old(self).processed@.len(),
            old(self).state@.alive && !final(self).state@.alive ==> final(self).processed@.len()
                > old(self).processed@.len(),
            job_account(*final(self)) == job_account(*old(self)),
            progressed == exclusive_work_visible(*old(self)),
            progressed ==> popped_own_job(*old(self), *final(self)) || popped_pinned_job(
                *old(self),
                *final(self),
            ),
            !progressed ==> final(self).state@ == old(self).state@ && final(self).suspended@
                == old(self).suspended@ && final(self).processed@ == old(self).processed@,
            progressed ==> pool_jobs(final(self).state@).len() < pool_jobs(
                old(self).state@,
            ).len(),
    {
        broadcast use vstd::multiset::group_multiset_axioms;

        let ghost pre = *self;
        let id = self.id;
        match self.state.pop_queue_internal(id) {
            Some(job) => {
                let ghost jp = job@.pid;
                proof {
                    self.lemma_own_pop_accounting(pre, job@);
                }
                let ghost mid = *self;
                self.process_job(job);
                proof {
                    assert(pool_jobs(self.state@) == pool_jobs(mid.state@));
                    self.lemma_settled_account(pre, jp);
                    assert(popped_own_job(pre, *self));
                }
                return true;
            },
            None => {},
        }
        match self.state.pop_queue_external(id) {
            Some(job) => {
                let ghost jp = job@.pid;
                proof {
                    let qs = pre.state@.queues;
                    let idd = pre.id as int;
                    lemma_pids_drop_first(qs[idd].external);
                    assert(queue_jobs(self.state@.queues[idd]).insert(jp) =~= queue_jobs(
                        qs[idd],
                    ));
                    lemma_queues_jobs_update(qs, idd, self.state@.queues[idd]);
                    lemma_multiset_shift(
                        queues_jobs(self.state@.queues),
                        queues_jobs(qs),
                        queue_jobs(self.state@.queues[idd]),
                        jp,
                    );
                    assert(pool_jobs(self.state@).insert(jp) =~= pool_jobs(pre.state@));
                }
                let ghost mid = *self;
                self.process_job(job);
                proof {
                    assert(pool_jobs(self.state@) == pool_jobs(mid.state@));
                    self.lemma_settled_account(pre, jp);
                    assert(popped_pinned_job(pre, *self));
                }
                return true;
            },
            None => {},
        }
        false
    }

    /// Keeps taking iterations of the current mode's work loop until the
    /// pool shuts down or no work is visible — the point where the
    /// running system would park this worker until the wake condition
    /// (work in the global queue or this worker's inbox) holds again.
    ///
    /// Work is conserved: every job the loop takes out of the pool's
    /// queues ends up finished or suspended, exactly once, and no queued
    /// job is duplicated or dropped. The final state is reached by a
    /// chain of the per-iteration transitions, and the pool is only ever
    /// shut down by retiring a job — here, by the main job finishing.
    pub fn run(&mut self)
        requires
            worker_wf(*old(self)),
        ensures
            final(self).id == old(self).id,
            final(self).mode == old(self).mode,
            final(self).tracers == old(self).tracers,
            final(self).machine.config == old(self).machine.config,
            job_account(*final(self)) == job_account(*old(self)),
            final(self).state@.alive ==> old(self).state@.alive,
            old(self).state@.alive && !final(self).state@.alive ==> final(self).processed@.len()
                > old(self).processed@.len(),
            !final(self).state@.alive || (final(self).mode == Mode::Normal
                && !normal_work_visible(*final(self))) || (final(self).mode == Mode::Exclusive
                && !exclusive_work_visible(*final(self))),
            exists|n: nat| #[trigger] runs_to(*old(self), *final(self), n),
            old(self).mode == Mode::Exclusive ==> final(self).state@.global == old(
                self,
            ).state@.global && forall|j: int|
                0 <= j < old(self).state@.queues.len() && j != old(self).id as int
                    ==> final(self).state@.queues[j] == #[trigger] old(self).state@.queues[j],
    {
        proof {
            assert(runs_to(*old(self), *self, 0));
        }
        while self.state.is_alive()
            invariant
                worker_wf(*self),
                self.id == old(self).id,
                self.mode == old(self).mode,
                self.tracers == old(self).tracers,
                self.machine.config == old(self).machine.config,
                job_account(*self) == job_account(*old(self)),
                self.state@.alive ==> old(self).state@.alive,
                self.processed@.len() >= old(self).processed@.len(),
                old(self).state@.alive && !self.state@.alive ==> self.processed@.len() > old(
                    self,
                ).processed@.len(),
                exists|n: nat| #[trigger] runs_to(*old(self), *self, n),
                self.state@.queues.len() == old(self).state@.queues.len(),
                old(self).mode == Mode::Exclusive ==> self.state@.global == old(
                    self,
                ).state@.global && forall|j: int|
                    0 <= j < old(self).state@.queues.len() && j != old(self).id as int
                        ==> self.state@.queues[j] == #[trigger] old(self).state@.queues[j],
            decreases
                    pool_jobs(self.state@).len(),
                    (if self.state@.queues[self.id as int].internal.len() > 0 {
                        0int
                    } else {
                        1int
                    }),
        {
            let ghost head = *self;
            let progressed = match self.mode {
                Mode::Normal => self.normal_iteration(),
                Mode::Exclusive => self.exclusive_iteration(),
            };
            proof {
                let n = choose|n: nat| runs_to(*old(self), head, n);
                assert(iteration_transition(head, *self));
                assert(runs_to(*old(self), *self, n + 1));
            }
            if !progressed {
                return;
            }
        }
    }

    /// Runs one dequeued job for one slice and settles where it goes:
    /// finished jobs are retired into the processed log, jobs that spent
    /// their budget are set aside for re-admission, and finishing the main
    /// job shuts the pool down.
    fn process_job(&mut self, job: Process)
        ensures
            final(self).id == old(self).id,
            final(self).mode == old(self).mode,
            final(self).tracers == old(self).tracers,
            final(self).machine.config == old(self).machine.config,
            final(self).state@.global == old(self).state@.global,
            final(self).state@.queues == old(self).state@.queues,
            final(self).state@.alive ==> old(self).state@.alive,
            !job@.main ==> final(self).state@.alive == old(self).state@.alive,
            settled_jobs(*final(self)) == settled_jobs(*old(self)).insert(job@.pid),
            final(self).processed@.len() >= old(self).processed@.len(),
            old(self).state@.alive && !final(self).state@.alive ==> final(self).processed@.len()
                == old(self).processed@.len() + 1,
    {
        let ghost jpid = job@.pid;
        let mut job = job;
        let outcome = self.machine.run(&mut job);
        match outcome {
            RunOutcome::Yielded => {
                let ghost pre_suspended = process_views(self.suspended@);
                let ghost jv = job@;
                self.suspended.push(job);
                proof {
                    broadcast use vstd::multiset::group_multiset_axioms;

                    assert(process_views(self.suspended@) =~= pre_suspended.push(jv));
                    lemma_pids_push(pre_suspended, jv);
                }
            },
            _ => {
                let is_main = job.main;
                if is_main {
                    self.state.terminate();
                }
                proof {
                    broadcast use vstd::multiset::group_multiset_axioms;
                }
                self.processed = Ghost(self.processed@.insert(jpid));
                proof {
                    broadcast use vstd::multiset::group_multiset_axioms;

                    assert(self.processed@.len() == old(self).processed@.len() + 1);
                }
            },
        }
    }
}

} // verus!
