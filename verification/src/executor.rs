//! Cooperative task executor.
//!
//! A single-core scheduler that multiplexes independently progressing units
//! of work. Each task is an explicit state machine with a poll operation
//! returning a tri-state; a waker handle is the task's id, and waking means
//! pushing that id into the bounded ready queue. The executor drains the
//! ready queue, polls each task exactly once per drained id while holding
//! exclusive access to its continuation, erases completed tasks together
//! with their cached state, and tolerates stale ids of completed tasks as
//! no-ops.

use vstd::prelude::*;

use std::collections::BTreeMap;

use crossbeam_queue::ArrayQueue;

use crate::queue::{queue_contents, queue_capacity, queue_is_empty, queue_new, queue_pop, queue_push};

verus! {

/// Capacity of the ready queue, and with it the largest number of
/// simultaneously queued wake-ups.
pub const MAX_TASKS: usize = 128;

/// Result of polling a task once: finished, suspended until an external
/// wake, or suspended but already woken again (an explicit yield).
#[derive(Debug, Clone, Copy, PartialEq, Eq, Structural)]
pub enum TaskPoll {
    Ready,
    Pending,
    WokenPending,
}

/// A unit of asynchronous work: an explicit state machine advanced by
/// `poll`. The waker handle passed in is the task's own id; storing it
/// somewhere that later reaches `TaskExecutor::wake` is how the task
/// arranges to run again after returning `Pending`.
pub trait KernelTask<E> {
    /// What the task needs to hold of its environment around every poll.
    spec fn env_wf(env: E) -> bool;

    fn poll(&mut self, waker: u8, env: &mut E) -> (r: TaskPoll)
        requires
            Self::env_wf(*old(env)),
        ensures
            Self::env_wf(*final(env)),
    ;
}

/// What one executor step observed: an empty ready queue, a stale id whose
/// task has already completed, or one poll of a live task.
#[derive(Debug, Clone, Copy, PartialEq, Eq, Structural)]
pub enum StepOutcome {
    Idle,
    Stale(u8),
    Polled(u8, TaskPoll),
}

pub struct TaskExecutor<W> {
    tasks: BTreeMap<u8, W>,
    ready: ArrayQueue<u8>,
    next_id: u8,
}

/// Exactly what one `step` does to the executor, by observed outcome. Idle
/// leaves everything as it was; a stale id is popped and dropped; a live
/// task's id is popped and the task polled once, after which it is erased,
/// kept, or popped-and-re-queued according to the poll's tri-state result.
pub open spec fn step_transition<W>(
    pre: TaskExecutor<W>,
    post: TaskExecutor<W>,
    r: StepOutcome,
) -> bool {
    &&& pre.wf()
    &&& post.wf()
    &&& post.spec_next_id() == pre.spec_next_id()
    &&& match r {
        StepOutcome::Idle => {
            &&& pre.spec_ready().len() == 0
            &&& post == pre
        },
        StepOutcome::Stale(id) => {
            &&& pre.spec_ready().len() > 0
            &&& id == pre.spec_ready()[0]
            &&& !pre.spec_tasks().contains_key(id)
            &&& post.spec_tasks() == pre.spec_tasks()
            &&& post.spec_ready() == pre.spec_ready().subrange(1, pre.spec_ready().len() as int)
        },
        StepOutcome::Polled(id, poll) => {
            &&& pre.spec_ready().len() > 0
            &&& id == pre.spec_ready()[0]
            &&& pre.spec_tasks().contains_key(id)
            &&& (match poll {
                TaskPoll::Ready => {
                    &&& post.spec_tasks() == pre.spec_tasks().remove(id)
                    &&& post.spec_ready() == pre.spec_ready().subrange(
                        1,
                        pre.spec_ready().len() as int,
                    )
                },
                TaskPoll::Pending => {
                    &&& post.spec_tasks().dom() == pre.spec_tasks().dom()
                    &&& forall|k: u8|
                        k != id && pre.spec_tasks().contains_key(k) ==> post.spec_tasks()[k]
                            == pre.spec_tasks()[k]
                    &&& post.spec_ready() == pre.spec_ready().subrange(
                        1,
                        pre.spec_ready().len() as int,
                    )
                },
                TaskPoll::WokenPending => {
                    &&& post.spec_tasks().dom() == pre.spec_tasks().dom()
                    &&& forall|k: u8|
                        k != id && pre.spec_tasks().contains_key(k) ==> post.spec_tasks()[k]
                            == pre.spec_tasks()[k]
                    &&& post.spec_ready() == pre.spec_ready().subrange(
                        1,
                        pre.spec_ready().len() as int,
                    ).push(id)
                },
            })
        },
    }
}

/// One recorded step of a drain pass: the executor before and after, and
/// the outcome that step reported.
pub struct StepRecord<W> {
    pub pre: TaskExecutor<W>,
    pub post: TaskExecutor<W>,
    pub outcome: StepOutcome,
}

/// Whether `trace` chains `pre` to `post` through genuine executor steps:
/// the ends line up (an empty trace means nothing changed), consecutive
/// records meet, and every record satisfies the step transition.
pub open spec fn drain_trace_ok<W>(
    pre: TaskExecutor<W>,
    post: TaskExecutor<W>,
    trace: Seq<StepRecord<W>>,
) -> bool {
    &&& (if trace.len() == 0 {
        post == pre
    } else {
        trace[0].pre == pre && trace[trace.len() - 1].post == post
    })
    &&& forall|k: int|
        0 <= k < trace.len() ==> step_transition(
            (#[trigger] trace[k]).pre,
            trace[k].post,
            trace[k].outcome,
        )
    &&& forall|k: int| 0 <= k < trace.len() - 1 ==> (#[trigger] trace[k]).post == trace[k + 1].pre
}

impl<W> TaskExecutor<W> {
    /// The task table: the stored continuation of every live task id.
    pub closed spec fn spec_tasks(self) -> Map<u8, W> {
        self.tasks@
    }

    /// The ready queue's contents, front first.
    pub closed spec fn spec_ready(self) -> Seq<u8> {
        queue_contents(self.ready)
    }

    /// The id the next spawn will assign.
    pub closed spec fn spec_next_id(self) -> u8 {
        self.next_id
    }

    /// The ready queue keeps its fixed capacity and never overfills.
    pub closed spec fn wf(self) -> bool {
        &&& queue_capacity(self.ready) == MAX_TASKS
        &&& queue_contents(self.ready).len() <= MAX_TASKS
    }

    /// A fresh executor: no tasks, an empty ready queue, ids starting at 0.
    pub fn new() -> (ex: TaskExecutor<W>)
        ensures
            ex.wf(),
            ex.spec_tasks() == Map::<u8, W>::empty(),
            ex.spec_ready() == Seq::<u8>::empty(),
            ex.spec_next_id() == 0,
    {
        TaskExecutor { tasks: BTreeMap::new(), ready: queue_new(MAX_TASKS), next_id: 0 }
    }

    /// Whether a task with this id is currently stored.
    pub fn contains_task(&self, id: u8) -> (r: bool)
        ensures
            r == self.spec_tasks().contains_key(id),
    {
        self.tasks.contains_key(&id)
    }

    /// The id the next spawn will assign, for callers that must check it
    /// is not still in use before spawning.
    pub fn next_task_id(&self) -> (id: u8)
        ensures
            id == self.spec_next_id(),
    {
        self.next_id
    }

    /// Number of ids waiting in the ready queue.
    pub fn ready_len(&self) -> (n: usize)
        ensures
            n == self.spec_ready().len(),
    {
        crate::queue::queue_len(&self.ready)
    }

    /// Whether the ready queue is empty: the check the idle protocol makes
    /// with interrupts disabled before halting the core.
    pub fn ready_is_empty(&self) -> (r: bool)
        ensures
            r == (self.spec_ready().len() == 0),
    {
        queue_is_empty(&self.ready)
    }

    /// Assigns the next task id, stores the continuation, and queues the
    /// task for its first poll.
    ///
    /// A full ready queue or a still-live task under the assigned id means
    /// the scheduler itself is broken (or the narrow id space has wrapped
    /// onto a live task); both are precondition violations here, matching a
    /// fatal stop in the kernel.
    pub fn spawn(&mut self, task: W) -> (id: u8)
        requires
            old(self).wf(),
            !old(self).spec_tasks().contains_key(old(self).spec_next_id()),
            old(self).spec_ready().len() < MAX_TASKS,
        ensures
            final(self).wf(),
            id == old(self).spec_next_id(),
            final(self).spec_tasks() == old(self).spec_tasks().insert(id, task),
            final(self).spec_ready() == old(self).spec_ready().push(id),
            final(self).spec_next_id() == ((old(self).spec_next_id() + 1) % 256) as u8,
    {
        let id = self.next_id;
        self.next_id = self.next_id.wrapping_add(1);
        let previous = self.tasks.insert(id, task);
        let pushed = queue_push(&mut self.ready, id);
        proof {
            assert(previous is None);
            assert(pushed is Ok);
        }
        id
    }

    /// Wakes the task with this id: pushes it into the ready queue so the
    /// next drain polls it. Waking an id whose task no longer exists is
    /// harmless (dropped as stale on the next drain); waking an already
    /// queued task queues a duplicate poll, which the executor tolerates.
    ///
    /// In the kernel this is the one operation a waker performs, from task
    /// or interrupt context alike; a full ready queue is a fatal scheduler
    /// condition, excluded here.
    pub fn wake(&mut self, id: u8)
        requires
            old(self).wf(),
            old(self).spec_ready().len() < MAX_TASKS,
        ensures
            final(self).wf(),
            final(self).spec_ready() == old(self).spec_ready().push(id),
            final(self).spec_tasks() == old(self).spec_tasks(),
            final(self).spec_next_id() == old(self).spec_next_id(),
    {
        let pushed = queue_push(&mut self.ready, id);
        proof {
            assert(pushed is Ok);
        }
    }

    /// One executor step: pop the next id from the ready queue and, if its
    /// task still exists, poll that task exactly once with exclusive access
    /// to its continuation. A completed task is erased together with its
    /// cached state; a pending task keeps its (advanced) continuation and
    /// will only run again via an explicit wake; a woken-pending task is
    /// immediately re-queued.
    pub fn step<E>(&mut self, env: &mut E) -> (r: StepOutcome) where W: KernelTask<E>
        requires
            old(self).wf(),
            W::env_wf(*old(env)),
        ensures
            W::env_wf(*final(env)),
            step_transition(*old(self), *final(self), r),
            r matches StepOutcome::Idle ==> *final(env) == *old(env),
            r matches StepOutcome::Stale(id) ==> *final(env) == *old(env),
    {
        let id = match queue_pop(&mut self.ready) {
            None => {
                return StepOutcome::Idle;
            },
            Some(i) => i,
        };
        // exclusive mutable access to the continuation while polling: the
        // task is taken out of the table, so no path can poll it again
        // concurrently, and a wake delivered meanwhile only queues its id
        let mut task = match self.tasks.remove(&id) {
            None => {
                // the task completed earlier; its id in the queue is stale
                proof {
                    assert(self.spec_tasks() =~= old(self).spec_tasks());
                }
                return StepOutcome::Stale(id);
            },
            Some(t) => t,
        };
        let poll = task.poll(id, env);
        match poll {
            TaskPoll::Ready => {
                // completed: id, continuation and cached state are gone
                proof {
                    assert(final(self).spec_tasks() =~= old(self).spec_tasks().remove(id));
                }
            },
            TaskPoll::Pending => {
                let replaced = self.tasks.insert(id, task);
                proof {
                    assert(replaced is None);
                    assert(final(self).spec_tasks().dom() =~= old(self).spec_tasks().dom());
                }
            },
            TaskPoll::WokenPending => {
                let replaced = self.tasks.insert(id, task);
                let pushed = queue_push(&mut self.ready, id);
                proof {
                    assert(replaced is None);
                    assert(pushed is Ok);
                    assert(final(self).spec_tasks().dom() =~= old(self).spec_tasks().dom());
                }
            },
        }
        StepOutcome::Polled(id, poll)
    }

    /// Drains the ready queue: steps until a pop finds it empty, or until
    /// the step budget runs out. The budget makes every drain provably
    /// finite — a task set that keeps re-queueing itself exhausts it and is
    /// reported, where the kernel's drain would spin just as long. Returns
    /// whether the drain finished — true exactly when the ready queue is
    /// empty now — together with the trace of the steps taken: the final
    /// state is reached from the initial one by that chain of genuine
    /// `step` transitions, each polling the popped id at most once.
    pub fn run_ready_tasks<E>(&mut self, env: &mut E, max_steps: usize) -> (r: (
        bool,
        Ghost<Seq<StepRecord<W>>>,
    )) where W: KernelTask<E>
        requires
            old(self).wf(),
            W::env_wf(*old(env)),
        ensures
            final(self).wf(),
            W::env_wf(*final(env)),
            r.0 <==> final(self).spec_ready().len() == 0,
            drain_trace_ok(*old(self), *final(self), r.1@),
            r.1@.len() <= max_steps,
    {
        let ghost mut trace: Seq<StepRecord<W>> = Seq::empty();
        let mut steps: usize = 0;
        while steps < max_steps
            invariant
                self.wf(),
                W::env_wf(*env),
                steps <= max_steps,
                trace.len() == steps,
                drain_trace_ok(*old(self), *self, trace),
            decreases max_steps - steps,
        {
            let ghost pre = *self;
            let outcome = self.step(env);
            proof {
                let extended = trace.push(StepRecord { pre, post: *self, outcome });
                assert forall|k: int|
                    0 <= k < extended.len() - 1 implies (#[trigger] extended[k]).post == extended[
                    k + 1
                ].pre by {
                    if k < trace.len() - 1 {
                        assert(trace[k].post == trace[k + 1].pre);
                    }
                }
                trace = extended;
            }
            match outcome {
                StepOutcome::Idle => {
                    return (true, Ghost(trace));
                },
                _ => {},
            }
            steps = steps + 1;
        }
        let drained = self.ready_is_empty();
        (drained, Ghost(trace))
    }
}

/// A task with a fixed amount of work left: it reports pending a given
/// number of times — expecting an external wake after each — and completes
/// on the poll after the last. The simplest background worker, and the
/// yardstick for the executor's liveness behaviour.
pub struct CountdownTask {
    remaining: u32,
}

impl CountdownTask {
    /// How many pending rounds are left before completion.
    pub closed spec fn spec_remaining(self) -> u32 {
        self.remaining
    }

    /// A task that will report pending `pends` times before completing.
    pub fn new(pends: u32) -> (t: CountdownTask)
        ensures
            t.spec_remaining() == pends,
    {
        CountdownTask { remaining: pends }
    }
}

impl<E> KernelTask<E> for CountdownTask {
    /// The countdown needs nothing of its environment.
    open spec fn env_wf(env: E) -> bool {
        true
    }

    fn poll(&mut self, waker: u8, env: &mut E) -> (r: TaskPoll)
        ensures
            r == TaskPoll::Ready <==> old(self).spec_remaining() == 0,
            old(self).spec_remaining() == 0 ==> final(self).spec_remaining() == 0,
            old(self).spec_remaining() > 0 ==> r == TaskPoll::Pending
                && final(self).spec_remaining() == old(self).spec_remaining() - 1,
    {
        if self.remaining == 0 {
            TaskPoll::Ready
        } else {
            self.remaining = self.remaining - 1;
            TaskPoll::Pending
        }
    }
}

/// Executor liveness at the level of one step: a task whose poll reports
/// completion is removed by that very step — its id, continuation and
/// cached state all at once — and the rest of the table is untouched.
pub proof fn lemma_completed_task_removed<W>(pre: TaskExecutor<W>, post: TaskExecutor<W>, id: u8)
    requires
        pre.spec_tasks().contains_key(id),
        post.spec_tasks() == pre.spec_tasks().remove(id),
    ensures
        !post.spec_tasks().contains_key(id),
        forall|k: u8|
            k != id ==> post.spec_tasks().contains_key(k) == pre.spec_tasks().contains_key(k),
        forall|k: u8|
            k != id && pre.spec_tasks().contains_key(k) ==> post.spec_tasks()[k]
                == pre.spec_tasks()[k],
{
}

} // verus!
