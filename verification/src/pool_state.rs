//! Pool-wide scheduler state.
use vstd::prelude::*;

use vstd::multiset::Multiset;
use vstd::seq_lib::lemma_multiset_commutative;
use vstd::seq_lib::group_to_multiset_ensures;

use crate::process::{process_views, Process, ProcessView};
use crate::queue::{Queue, QueueView};
use vstd::pervasive::VecAdditionalExecFns;

verus! {

/// The mathematical shape of the pool state.
#[verifier::ext_equal]
pub struct PoolStateView {
    pub alive: bool,
    pub global: Seq<ProcessView>,
    pub queues: Seq<QueueView>,
}

/// The views of a sequence of queues, in order.
pub open spec fn queue_views(s: Seq<Queue>) -> Seq<QueueView> {
    Seq::new(s.len(), |i: int| s[i]@)
}

/// The process ids of a sequence of jobs, in order.
pub open spec fn pids_of(s: Seq<ProcessView>) -> Seq<usize> {
    s.map_values(|p: ProcessView| p.pid)
}

/// The jobs held by one queue, as a multiset of process ids.
pub open spec fn queue_jobs(q: QueueView) -> Multiset<usize> {
    pids_of(q.internal).to_multiset().add(pids_of(q.external).to_multiset())
}

/// The jobs held by a sequence of queues, as a multiset of process ids.
pub open spec fn queues_jobs(qs: Seq<QueueView>) -> Multiset<usize>
    decreases qs.len(),
{
    if qs.len() == 0 {
        Multiset::empty()
    } else {
        queues_jobs(qs.drop_last()).add(queue_jobs(qs.last()))
    }
}

/// Every job queued anywhere in the pool, as a multiset of process ids.
pub open spec fn pool_jobs(p: PoolStateView) -> Multiset<usize> {
    pids_of(p.global).to_multiset().add(queues_jobs(p.queues))
}

/// Replacing one queue exchanges exactly that queue's jobs in the total.
pub proof fn lemma_queues_jobs_update(qs: Seq<QueueView>, i: int, q: QueueView)
    requires
        0 <= i < qs.len(),
    ensures
        queues_jobs(qs.update(i, q)).add(queue_jobs(qs[i])) == queues_jobs(qs).add(queue_jobs(q)),
    decreases qs.len(),
{
    broadcast use vstd::multiset::group_multiset_axioms;

    let updated = qs.update(i, q);
    if i == qs.len() - 1 {
        assert(updated.drop_last() =~= qs.drop_last());
        assert(updated.last() == q);
        assert(queues_jobs(updated).add(queue_jobs(qs[i])) =~= queues_jobs(qs).add(
            queue_jobs(q),
        ));
    } else {
        let dl = qs.drop_last();
        assert(updated.drop_last() =~= dl.update(i, q));
        assert(updated.last() == qs.last());
        lemma_queues_jobs_update(dl, i, q);
        assert(dl[i] == qs[i]);
        assert(queues_jobs(updated) == queues_jobs(dl.update(i, q)).add(queue_jobs(qs.last())));
        assert(queues_jobs(qs) == queues_jobs(dl).add(queue_jobs(qs.last())));
        assert(queues_jobs(dl.update(i, q)).add(queue_jobs(dl[i])) == queues_jobs(dl).add(
            queue_jobs(q),
        ));
        assert(queues_jobs(dl.update(i, q)).add(queue_jobs(qs.last())).add(queue_jobs(qs[i]))
            =~= queues_jobs(dl.update(i, q)).add(queue_jobs(qs[i])).add(queue_jobs(qs.last())));
        assert(queues_jobs(dl.update(i, q)).add(queue_jobs(qs[i])).add(queue_jobs(qs.last()))
            == queues_jobs(dl).add(queue_jobs(q)).add(queue_jobs(qs.last())));
        assert(queues_jobs(dl).add(queue_jobs(q)).add(queue_jobs(qs.last())) =~= queues_jobs(
            dl,
        ).add(queue_jobs(qs.last())).add(queue_jobs(q)));
        assert(queues_jobs(updated).add(queue_jobs(qs[i])) == queues_jobs(qs).add(
            queue_jobs(q),
        ));
    }
}

/// Pushing a job onto a sequence of jobs adds its id to the multiset.
pub proof fn lemma_pids_push(s: Seq<ProcessView>, p: ProcessView)
    ensures
        pids_of(s.push(p)).to_multiset() == pids_of(s).to_multiset().insert(p.pid),
    decreases s.len(),
{
    broadcast use group_to_multiset_ensures;

    assert(pids_of(s.push(p)) =~= pids_of(s).push(p.pid));
}

/// Dropping the last job removes its id from the multiset.
pub proof fn lemma_pids_drop_last(s: Seq<ProcessView>)
    requires
        s.len() > 0,
    ensures
        pids_of(s).to_multiset() == pids_of(s.drop_last()).to_multiset().insert(s.last().pid),
{
    broadcast use group_to_multiset_ensures;

    assert(pids_of(s.drop_last()).push(s.last().pid) =~= pids_of(s));
}

/// Dropping the first job removes its id from the multiset.
pub proof fn lemma_pids_drop_first(s: Seq<ProcessView>)
    requires
        s.len() > 0,
    ensures
        pids_of(s).to_multiset() == pids_of(s.drop_first()).to_multiset().insert(s[0].pid),
{
    broadcast use group_to_multiset_ensures;

    assert(pids_of(s) =~= seq![s[0].pid] + pids_of(s.drop_first()));
    lemma_multiset_commutative(seq![s[0].pid], pids_of(s.drop_first()));
    assert(seq![s[0].pid].to_multiset() =~= Multiset::empty().insert(s[0].pid));
    assert(pids_of(s).to_multiset() =~= pids_of(s.drop_first()).to_multiset().insert(s[0].pid));
}

/// Adding the same jobs to equal totals came from equal parts.
pub proof fn lemma_multiset_cancel(a: Multiset<usize>, b: Multiset<usize>, c: Multiset<usize>)
    requires
        a.add(c) == b.add(c),
    ensures
        a == b,
{
    broadcast use vstd::multiset::group_multiset_axioms;

    assert forall|x: usize| a.count(x) == b.count(x) by {
        assert(a.add(c).count(x) == a.count(x) + c.count(x));
        assert(b.add(c).count(x) == b.count(x) + c.count(x));
        assert(a.add(c).count(x) == b.add(c).count(x));
    }
    assert(a =~= b);
}

/// If one side carries an extra id inside the shared part, it is the
/// other side that holds it.
pub proof fn lemma_multiset_shift(
    a: Multiset<usize>,
    b: Multiset<usize>,
    c: Multiset<usize>,
    x: usize,
)
    requires
        a.add(c.insert(x)) == b.add(c),
    ensures
        a.insert(x) == b,
{
    broadcast use vstd::multiset::group_multiset_axioms;

    assert forall|y: usize| a.insert(x).count(y) == b.count(y) by {
        assert(a.add(c.insert(x)).count(y) == a.count(y) + c.insert(x).count(y));
        assert(c.insert(x).count(y) == c.count(y) + Multiset::singleton(x).count(y));
        assert(a.insert(x).count(y) == a.count(y) + Multiset::singleton(x).count(y));
        assert(b.add(c).count(y) == b.count(y) + c.count(y));
        assert(a.add(c.insert(x)).count(y) == b.add(c).count(y));
    }
    assert(a.insert(x) =~= b);
}

/// An id may be inserted on either side of an addition.
pub proof fn lemma_insert_shuffle(a: Multiset<usize>, c: Multiset<usize>, x: usize)
    ensures
        a.add(c.insert(x)) == a.insert(x).add(c),
{
    broadcast use vstd::multiset::group_multiset_axioms;

    assert forall|y: usize| a.add(c.insert(x)).count(y) == a.insert(x).add(c).count(y) by {
        assert(a.add(c.insert(x)).count(y) == a.count(y) + c.insert(x).count(y));
        assert(c.insert(x).count(y) == c.count(y) + Multiset::singleton(x).count(y));
        assert(a.insert(x).count(y) == a.count(y) + Multiset::singleton(x).count(y));
        assert(a.insert(x).add(c).count(y) == a.insert(x).count(y) + c.count(y));
    }
    assert(a.add(c.insert(x)) =~= a.insert(x).add(c));
}

/// Taking one job out of the queues and retiring or suspending it keeps
/// the overall account — queued, suspended, finished — unchanged.
pub proof fn lemma_account_balance(
    pj2: Multiset<usize>,
    s2: Multiset<usize>,
    r2: Multiset<usize>,
    pj1: Multiset<usize>,
    s1: Multiset<usize>,
    r1: Multiset<usize>,
    p: usize,
)
    requires
        pj2.insert(p) == pj1,
        r2.add(s2) == r1.add(s1).insert(p),
    ensures
        pj2.add(s2).add(r2) == pj1.add(s1).add(r1),
{
    broadcast use vstd::multiset::group_multiset_axioms;

    assert forall|x: usize| pj2.add(s2).add(r2).count(x) == pj1.add(s1).add(r1).count(x) by {
        assert(pj2.add(s2).add(r2).count(x) == pj2.add(s2).count(x) + r2.count(x));
        assert(pj2.add(s2).count(x) == pj2.count(x) + s2.count(x));
        assert(pj1.add(s1).add(r1).count(x) == pj1.add(s1).count(x) + r1.count(x));
        assert(pj1.add(s1).count(x) == pj1.count(x) + s1.count(x));
        assert(pj2.insert(p).count(x) == pj2.count(x) + Multiset::singleton(p).count(x));
        assert(r2.add(s2).count(x) == r2.count(x) + s2.count(x));
        assert(r1.add(s1).insert(p).count(x) == r1.add(s1).count(x) + Multiset::singleton(
            p,
        ).count(x));
        assert(r1.add(s1).count(x) == r1.count(x) + s1.count(x));
    }
    assert(pj2.add(s2).add(r2) =~= pj1.add(s1).add(r1));
}

/// A sequence without jobs contributes no ids.
pub proof fn lemma_pids_empty(s: Seq<ProcessView>)
    requires
        s.len() == 0,
    ensures
        pids_of(s).to_multiset() == Multiset::<usize>::empty(),
{
    broadcast use group_to_multiset_ensures;

    assert(pids_of(s).to_multiset() =~= Multiset::<usize>::empty());
}

/// Concatenating job sequences adds their multisets.
pub proof fn lemma_pids_concat(a: Seq<ProcessView>, b: Seq<ProcessView>)
    ensures
        pids_of(a + b).to_multiset() == pids_of(a).to_multiset().add(pids_of(b).to_multiset()),
{
    assert(pids_of(a + b) =~= pids_of(a) + pids_of(b));
    lemma_multiset_commutative(pids_of(a), pids_of(b));
}

/// The liveness flag, the global overflow queue, and every worker's queue.
///
/// In the running system one pool state is shared by all of a pool's
/// workers: the liveness flag is atomic, the queue handles are read-only
/// after construction, and the global queue is lock-guarded. This core
/// models the state as a value driven by one worker at a time; ownership
/// of a job still transfers only by enqueue and dequeue.
pub struct PoolState {
    alive: bool,
    global: Vec<Process>,
    /// One queue per worker, indexed by worker id.
    pub queues: Vec<Queue>,
}

impl View for PoolState {
    type V = PoolStateView;

    closed spec fn view(&self) -> PoolStateView {
        PoolStateView {
            alive: self.alive,
            global: process_views(self.global@),
            queues: queue_views(self.queues@),
        }
    }
}

impl PoolState {
    /// A live pool state with `workers` empty queues and an empty global
    /// queue.
    pub fn new(workers: usize) -> (state: PoolState)
        ensures
            state@.alive,
            state@.global.len() == 0,
            state@.queues.len() == workers,
            forall|i: int|
                0 <= i < workers ==> (#[trigger] state@.queues[i]).internal.len() == 0
                    && state@.queues[i].external.len() == 0,
    {
        let mut queues: Vec<Queue> = Vec::new();
        let mut i: usize = 0;
        while i < workers
            invariant
                i <= workers,
                queues@.len() == i,
                forall|j: int|
                    0 <= j < i ==> (#[trigger] queues@[j]@).internal.len() == 0
                        && queues@[j]@.external.len() == 0,
            decreases workers - i,
        {
            queues.push(Queue::new());
            i = i + 1;
        }
        PoolState { alive: true, global: Vec::new(), queues }
    }

    /// Whether the pool has been shut down.
    pub fn is_alive(&self) -> (r: bool)
        ensures
            r == self@.alive,
    {
        self.alive
    }

    /// Initiates cooperative shutdown: every worker's run loop stops at
    /// its next iteration. In-flight jobs are not drained first.
    pub fn terminate(&mut self)
        ensures
            final(self)@ == (PoolStateView { alive: false, ..old(self)@ }),
    {
        self.alive = false;
    }

    /// Whether the global queue holds any job.
    pub fn has_global_jobs(&self) -> (r: bool)
        ensures
            r == (self@.global.len() > 0),
    {
        self.global.len() > 0
    }

    /// How many jobs the global queue holds.
    pub fn global_job_count(&self) -> (n: usize)
        ensures
            n == self@.global.len(),
    {
        self.global.len()
    }

    /// Adds an unpinned job to the global queue.
    pub fn push_global(&mut self, job: Process)
        ensures
            final(self)@ == (PoolStateView {
                global: old(self)@.global.push(job@),
                ..old(self)@
            }),
    {
        self.global.push(job);
        proof {
            assert(process_views(self.global@) =~= process_views(old(self).global@).push(job@));
        }
    }

    /// Takes the oldest job from the global queue.
    pub fn pop_global(&mut self) -> (r: Option<Process>)
        ensures
            match r {
                Some(job) => old(self)@.global.len() > 0 && job@ == old(
                    self,
                )@.global[0] && final(self)@ == (PoolStateView {
                    global: old(self)@.global.drop_first(),
                    ..old(self)@
                }),
                None => old(self)@.global.len() == 0 && final(self)@ == old(self)@,
            },
    {
        if self.global.len() == 0 {
            proof {
                assert(self@ =~= old(self)@);
            }
            return None;
        }
        let job = self.global.remove(0);
        proof {
            assert(process_views(self.global@) =~= process_views(
                old(self).global@,
            ).drop_first());
            assert(old(self)@.global[0] == old(self).global@[0]@);
        }
        Some(job)
    }

    /// How many worker queues the pool has.
    pub fn queue_count(&self) -> (n: usize)
        ensures
            n == self@.queues.len(),
    {
        self.queues.len()
    }

    /// Whether queue `i`'s owner-only part holds any job.
    pub fn queue_has_local(&self, i: usize) -> (r: bool)
        requires
            i < self@.queues.len(),
        ensures
            r == (self@.queues[i as int].internal.len() > 0),
    {
        self.queues[i].has_local_jobs()
    }

    /// Whether queue `i`'s inbox holds any job.
    pub fn queue_has_external(&self, i: usize) -> (r: bool)
        requires
            i < self@.queues.len(),
        ensures
            r == (self@.queues[i as int].external.len() > 0),
    {
        self.queues[i].has_external_jobs()
    }

    /// Takes the most recently pushed job from queue `i`'s owner-only
    /// part.
    pub fn pop_queue_internal(&mut self, i: usize) -> (r: Option<Process>)
        requires
            i < old(self)@.queues.len(),
        ensures
            match r {
                Some(job) => {
                    let q = old(self)@.queues[i as int];
                    &&& q.internal.len() > 0
                    &&& job@ == q.internal.last()
                    &&& final(self)@ == (PoolStateView {
                        queues: old(self)@.queues.update(
                            i as int,
                            QueueView { internal: q.internal.drop_last(), ..q },
                        ),
                        ..old(self)@
                    })
                },
                None => old(self)@.queues[i as int].internal.len() == 0 && final(self)@ == old(
                    self,
                )@,
            },
    {
        let ghost pre = self@;
        let mut q = Queue::new();
        self.queues.set_and_swap(i, &mut q);
        let r = q.pop();
        let ghost qv = q@;
        self.queues.set_and_swap(i, &mut q);
        proof {
            assert(queue_views(self.queues@) =~= pre.queues.update(i as int, qv));
            if r is None {
                assert(pre.queues.update(i as int, qv) =~= pre.queues);
                assert(self@ =~= pre);
            } else {
                assert(qv =~= (QueueView {
                    internal: pre.queues[i as int].internal.drop_last(),
                    ..pre.queues[i as int]
                }));
            }
        }
        r
    }

    /// Adds `job` to queue `i`'s owner-only part.
    pub fn push_queue_internal(&mut self, i: usize, job: Process)
        requires
            i < old(self)@.queues.len(),
        ensures
            final(self)@ == (PoolStateView {
                queues: old(self)@.queues.update(
                    i as int,
                    QueueView {
                        internal: old(self)@.queues[i as int].internal.push(job@),
                        ..old(self)@.queues[i as int]
                    },
                ),
                ..old(self)@
            }),
    {
        let ghost pre = self@;
        let mut q = Queue::new();
        self.queues.set_and_swap(i, &mut q);
        q.push_internal(job);
        let ghost qv = q@;
        self.queues.set_and_swap(i, &mut q);
        proof {
            assert(queue_views(self.queues@) =~= pre.queues.update(i as int, qv));
            assert(qv =~= (QueueView {
                internal: pre.queues[i as int].internal.push(job@),
                ..pre.queues[i as int]
            }));
        }
    }

    /// Pins `job` to worker `i` by adding it to queue `i`'s inbox.
    pub fn push_queue_external(&mut self, i: usize, job: Process)
        requires
            i < old(self)@.queues.len(),
        ensures
            final(self)@ == (PoolStateView {
                queues: old(self)@.queues.update(
                    i as int,
                    QueueView {
                        external: old(self)@.queues[i as int].external.push(job@),
                        ..old(self)@.queues[i as int]
                    },
                ),
                ..old(self)@
            }),
    {
        let ghost pre = self@;
        let mut q = Queue::new();
        self.queues.set_and_swap(i, &mut q);
        q.push_external(job);
        let ghost qv = q@;
        self.queues.set_and_swap(i, &mut q);
        proof {
            assert(queue_views(self.queues@) =~= pre.queues.update(i as int, qv));
            assert(qv =~= (QueueView {
                external: pre.queues[i as int].external.push(job@),
                ..pre.queues[i as int]
            }));
        }
    }

    /// Takes the oldest job from queue `i`'s inbox, without draining the
    /// rest.
    pub fn pop_queue_external(&mut self, i: usize) -> (r: Option<Process>)
        requires
            i < old(self)@.queues.len(),
        ensures
            match r {
                Some(job) => {
                    let q = old(self)@.queues[i as int];
                    &&& q.external.len() > 0
                    &&& job@ == q.external[0]
                    &&& final(self)@ == (PoolStateView {
                        queues: old(self)@.queues.update(
                            i as int,
                            QueueView { external: q.external.drop_first(), ..q },
                        ),
                        ..old(self)@
                    })
                },
                None => old(self)@.queues[i as int].external.len() == 0 && final(self)@ == old(
                    self,
                )@,
            },
    {
        let ghost pre = self@;
        let mut q = Queue::new();
        self.queues.set_and_swap(i, &mut q);
        let r = q.pop_external_job();
        let ghost qv = q@;
        self.queues.set_and_swap(i, &mut q);
        proof {
            assert(queue_views(self.queues@) =~= pre.queues.update(i as int, qv));
            if r is None {
                assert(pre.queues.update(i as int, qv) =~= pre.queues);
                assert(self@ =~= pre);
            } else {
                assert(qv =~= (QueueView {
                    external: pre.queues[i as int].external.drop_first(),
                    ..pre.queues[i as int]
                }));
            }
        }
        r
    }

    /// Drains queue `i`'s inbox into its owner-only part, keeping arrival
    /// order, and reports whether anything was moved.
    pub fn move_queue_external(&mut self, i: usize) -> (moved: bool)
        requires
            i < old(self)@.queues.len(),
        ensures
            moved == (old(self)@.queues[i as int].external.len() > 0),
            final(self)@ == (PoolStateView {
                queues: old(self)@.queues.update(
                    i as int,
                    QueueView {
                        internal: old(self)@.queues[i as int].internal + old(
                            self,
                        )@.queues[i as int].external,
                        external: Seq::empty(),
                    },
                ),
                ..old(self)@
            }),
    {
        let ghost pre = self@;
        let mut q = Queue::new();
        self.queues.set_and_swap(i, &mut q);
        let moved = q.move_external_jobs();
        let ghost qv = q@;
        self.queues.set_and_swap(i, &mut q);
        proof {
            assert(queue_views(self.queues@) =~= pre.queues.update(i as int, qv));
            assert(qv =~= (QueueView {
                internal: pre.queues[i as int].internal + pre.queues[i as int].external,
                external: Seq::empty(),
            }));
        }
        moved
    }
}

} // verus!
