//! The executor: the table of live tasks, the queue of task identities that are
//! ready to run, and the cache of wake handles.
//!
//! A task is resumed only when its identity comes out of the ready queue. It goes
//! in there when the task is spawned and whenever its wake handle is invoked. An
//! identity that comes out after its task has completed is skipped.
//!
//! Taking an identity from the ready queue is a step. A step that is not stale
//! is one resume of the task filed under the identity, with the task's own
//! wake handle: the step is `Completed` exactly if that resume reported
//! `Ready`, and `Pending` exactly if it reported `Pending` (`steps_to`).
//!
//! The executor runs for ever, in turns. A turn resumes one task, or finds the
//! ready queue empty and starts the idle phase, or ends the idle phase. Between
//! two turns the processor does what the turn has asked for: nothing, or it
//! turns interrupts off, or on, or halts. The loop that takes the turns and
//! drives the processor is the caller's.

use super::queue::BoundedQueue;
use super::{Context, Poll, Task, TaskId, WakeHandle};
use std::collections::BTreeMap;
use vstd::prelude::*;

verus! {

/// The number of identities that the ready queue of an executor made by
/// `Executor::new` holds.
pub const READY_QUEUE_CAPACITY: usize = 100;

/// What became of one identity taken from the ready queue.
#[derive(Debug, Clone, Copy, PartialEq, Eq, Structural)]
pub enum Outcome {
    /// No task of that identity was in the table; nothing was resumed.
    Stale,
    /// The task was resumed once, reported `Pending`, and waits to be woken.
    Pending,
    /// The task was resumed once, reported `Ready`, and was removed.
    Completed,
}

/// One step of the run-ready phase: the identity taken from the ready queue and
/// what became of it.
#[derive(Debug, Clone, Copy, PartialEq, Eq, Structural)]
pub struct Dispatch {
    pub id: TaskId,
    pub outcome: Outcome,
}

/// What the idle phase asks of the processor, decided while interrupts are off.
#[derive(Debug, Clone, Copy, PartialEq, Eq, Structural)]
pub enum IdleAction {
    /// Nothing is ready: turn interrupts on and halt, in one step.
    Halt,
    /// Something is ready: turn interrupts on and go back to running tasks.
    Resume,
}

/// The decision of the idle phase: halt only on an empty ready queue.
pub open spec fn idle_action(ready: Seq<TaskId>) -> IdleAction {
    if ready.len() == 0 {
        IdleAction::Halt
    } else {
        IdleAction::Resume
    }
}

/// The two phases between which the executor alternates for ever.
#[derive(Debug, Clone, Copy, PartialEq, Eq, Structural)]
pub enum Phase {
    /// Tasks are resumed as long as the ready queue holds an identity.
    RunReady,
    /// The ready queue was seen empty and interrupts have been turned off: the
    /// queue is looked at once more before the processor halts.
    Idle,
}

/// What the processor is to do after a turn of the executor, before the next.
#[derive(Debug, Clone, Copy, PartialEq, Eq, Structural)]
pub enum Directive {
    /// Nothing: go on with the next turn.
    Continue,
    /// Turn interrupts off.
    DisableInterrupts,
    /// Turn interrupts on.
    EnableInterrupts,
    /// Halt until the next interrupt and turn interrupts on, in one step.
    EnableInterruptsAndHalt,
}

/// One turn of the executor: what it did, what the processor is to do now,
/// and the phase of the next turn.
#[derive(Debug, Clone, Copy, PartialEq, Eq, Structural)]
pub struct Turn {
    /// The step of the run-ready phase that the turn took, if it took one.
    pub step: Option<Dispatch>,
    /// What the processor is to do before the next turn.
    pub directive: Directive,
    /// The phase of the next turn.
    pub next: Phase,
}

/// What the processor is to do after a turn in the given phase that found the
/// given ready queue: after a step nothing; when the run-ready phase finds
/// nothing, interrupts go off; the idle phase halts if it still finds nothing
/// and turns interrupts on either way.
pub open spec fn directive_of(phase: Phase, ready: Seq<TaskId>) -> Directive {
    match phase {
        Phase::RunReady => if ready.len() > 0 {
            Directive::Continue
        } else {
            Directive::DisableInterrupts
        },
        Phase::Idle => match idle_action(ready) {
            IdleAction::Halt => Directive::EnableInterruptsAndHalt,
            IdleAction::Resume => Directive::EnableInterrupts,
        },
    }
}

/// The phase that follows a turn in the given phase that found the given ready
/// queue: the idle phase is entered only from a run-ready phase that found the
/// ready queue empty, and lasts one turn.
pub open spec fn phase_after(phase: Phase, ready: Seq<TaskId>) -> Phase {
    if phase == Phase::RunReady && ready.len() == 0 {
        Phase::Idle
    } else {
        Phase::RunReady
    }
}

/// How often an identity stands in a queue.
pub open spec fn occurrences(queue: Seq<TaskId>, id: TaskId) -> nat
    decreases queue.len(),
{
    if queue.len() == 0 {
        0
    } else if queue.last() == id {
        occurrences(queue.drop_last(), id) + 1
    } else {
        occurrences(queue.drop_last(), id)
    }
}

/// The state of an executor.
pub struct ExecutorState {
    /// The identities of the tasks that were spawned and have not completed.
    pub tasks: Set<TaskId>,
    /// The ready queue, the front first. An identity may stand in it more than
    /// once, and may outlive its task.
    pub ready: Seq<TaskId>,
    /// The identities for which a wake handle is cached.
    pub wakers: Set<TaskId>,
    /// The number of identities that the ready queue holds at most.
    pub capacity: nat,
}

impl ExecutorState {
    /// The invariant of every executor: a finite table, a ready queue within its
    /// capacity, cached handles only for tasks in the table, and no task
    /// forgotten: a task without a cached handle has not run yet, and its
    /// identity still stands in the ready queue.
    pub open spec fn wf(self) -> bool {
        &&& self.tasks.finite()
        &&& self.ready.len() <= self.capacity
        &&& self.wakers.subset_of(self.tasks)
        &&& forall|id: TaskId|
            self.tasks.contains(id) && !self.wakers.contains(id) ==> #[trigger] self.ready.contains(id)
    }

    /// The executor with no task.
    pub open spec fn empty(capacity: nat) -> ExecutorState {
        ExecutorState { tasks: Set::empty(), ready: Seq::empty(), wakers: Set::empty(), capacity }
    }

    /// Whether the ready queue takes one more identity.
    pub open spec fn has_room(self) -> bool {
        self.ready.len() < self.capacity
    }

    /// The executor after a task of the given identity is spawned: the task is in
    /// the table and its identity is last in the ready queue.
    pub open spec fn spawn(self, id: TaskId) -> ExecutorState {
        ExecutorState { tasks: self.tasks.insert(id), ready: self.ready.push(id), ..self }
    }

    /// The executor after a wake handle is invoked: the identity that the handle
    /// names is last in the ready queue, whether or not it stands there already.
    pub open spec fn wake(self, waker: WakeHandle) -> ExecutorState {
        ExecutorState { ready: self.ready.push(waker.task_id), ..self }
    }

    /// Whether `step` can be the next step of the run-ready phase: it takes the
    /// identity at the front of the ready queue, and it is stale exactly if the
    /// table holds no task of that identity.
    pub open spec fn expects(self, step: Dispatch) -> bool {
        &&& self.ready.len() > 0
        &&& step.id == self.ready[0]
        &&& step.outcome == Outcome::Stale <==> !self.tasks.contains(step.id)
    }

    /// The executor after a step: the identity has left the ready queue; a task
    /// that waits has a cached handle; a task that is done has left the table and
    /// the cache.
    pub open spec fn settle(self, step: Dispatch) -> ExecutorState {
        match step.outcome {
            Outcome::Stale => ExecutorState { ready: self.ready.skip(1), ..self },
            Outcome::Pending => ExecutorState {
                ready: self.ready.skip(1),
                wakers: self.wakers.insert(step.id),
                ..self
            },
            Outcome::Completed => ExecutorState {
                ready: self.ready.skip(1),
                tasks: self.tasks.remove(step.id),
                wakers: self.wakers.remove(step.id),
                ..self
            },
        }
    }
}

/// Something that changes an executor.
pub enum Event {
    /// A task of the given identity is spawned.
    Spawn(TaskId),
    /// A wake handle is invoked, by a task or by an interrupt.
    Wake(WakeHandle),
    /// The run-ready phase takes a step.
    Step(Dispatch),
}

impl ExecutorState {
    /// Whether the event can happen in this state: a spawn brings a new identity
    /// and finds room, a wakeup finds room, a step is one that the state expects.
    pub open spec fn allows(self, event: Event) -> bool {
        match event {
            Event::Spawn(id) => !self.tasks.contains(id) && self.has_room(),
            Event::Wake(_) => self.has_room(),
            Event::Step(step) => self.expects(step),
        }
    }

    /// The executor after the event.
    pub open spec fn after(self, event: Event) -> ExecutorState {
        match event {
            Event::Spawn(id) => self.spawn(id),
            Event::Wake(waker) => self.wake(waker),
            Event::Step(step) => self.settle(step),
        }
    }

    /// The executor after the events of a history, one after the other.
    pub open spec fn after_all(self, history: Seq<Event>) -> ExecutorState {
        history.fold_left(self, |state: ExecutorState, event: Event| state.after(event))
    }

    /// Whether a history can happen from this state.
    pub open spec fn allows_all(self, history: Seq<Event>) -> bool
        decreases history.len(),
    {
        history.len() == 0 || (self.allows_all(history.drop_last()) && self.after_all(
            history.drop_last(),
        ).allows(history.last()))
    }

    /// The executor after the steps of a log, one after the other, with nothing
    /// else in between.
    pub open spec fn run(self, log: Seq<Dispatch>) -> ExecutorState {
        self.after_all(steps(log))
    }

    /// Whether a log can be what the run-ready phase does from this state: each
    /// step is one that the state reached by the steps before it expects.
    pub open spec fn admits(self, log: Seq<Dispatch>) -> bool {
        self.allows_all(steps(log))
    }
}

/// The steps of a log as a history.
pub open spec fn steps(log: Seq<Dispatch>) -> Seq<Event> {
    log.map_values(|step: Dispatch| Event::Step(step))
}

/// Every event that can happen keeps the invariant of the executor.
pub proof fn lemma_event_keeps_wf(state: ExecutorState, event: Event)
    requires
        state.wf(),
        state.allows(event),
    ensures
        state.after(event).wf(),
{
    let after = state.after(event);
    assert forall|id: TaskId|
        after.tasks.contains(id) && !after.wakers.contains(id) implies #[trigger] after.ready.contains(
        id,
    ) by {
        match event {
            Event::Spawn(new) => {
                if id == new {
                    assert(after.ready[state.ready.len() as int] == id);
                } else {
                    assert(state.ready.contains(id));
                    let i = choose|i: int| 0 <= i < state.ready.len() && state.ready[i] == id;
                    assert(after.ready[i] == id);
                }
            },
            Event::Wake(_) => {
                assert(state.ready.contains(id));
                let i = choose|i: int| 0 <= i < state.ready.len() && state.ready[i] == id;
                assert(after.ready[i] == id);
            },
            Event::Step(_) => {
                assert(state.ready.contains(id));
                let i = choose|i: int| 0 <= i < state.ready.len() && state.ready[i] == id;
                assert(after.ready[i - 1] == id);
            },
        }
    }
}

/// Every history that can happen keeps the invariant of the executor.
pub proof fn lemma_history_keeps_wf(state: ExecutorState, history: Seq<Event>)
    requires
        state.wf(),
        state.allows_all(history),
    ensures
        state.after_all(history).wf(),
    decreases history.len(),
{
    if history.len() > 0 {
        lemma_history_keeps_wf(state, history.drop_last());
        lemma_event_keeps_wf(state.after_all(history.drop_last()), history.last());
    }
}

/// A history that can happen can happen up to each of its events, and each
/// event takes the state reached before it to the state reached with it.
pub proof fn lemma_history_prefix(state: ExecutorState, history: Seq<Event>, end: int)
    requires
        state.allows_all(history),
        0 <= end <= history.len(),
    ensures
        state.allows_all(history.take(end)),
        end < history.len() ==> state.after_all(history.take(end)).allows(history[end])
            && state.after_all(history.take(end + 1)) == state.after_all(history.take(end)).after(
            history[end],
        ),
    decreases history.len(),
{
    if end == history.len() {
        assert(history.take(end) =~= history);
    } else {
        let shorter = history.drop_last();
        assert(shorter.take(end) =~= history.take(end));
        lemma_history_prefix(state, shorter, end);
        if end < history.len() - 1 {
            assert(shorter.take(end + 1) =~= history.take(end + 1));
        }
    }
}

/// Progress: a task that reports that it is done is out of the table and out of
/// the cache with that very step, and no other task is touched.
pub proof fn lemma_completed_task_is_removed(state: ExecutorState, step: Dispatch)
    requires
        state.wf(),
        state.expects(step),
        step.outcome == Outcome::Completed,
    ensures
        state.tasks.contains(step.id),
        !state.settle(step).tasks.contains(step.id),
        !state.settle(step).wakers.contains(step.id),
        forall|other: TaskId|
            other != step.id ==> (#[trigger] state.settle(step).tasks.contains(other)
                <==> state.tasks.contains(other)),
{
}

/// A task that is not in the table is never resumed: as long as no task is
/// spawned under its identity, every step that takes this identity from the
/// ready queue is stale, whatever else happens, and the table stays without
/// it. So a task that has completed is not polled again, however often it is
/// woken afterwards.
pub proof fn lemma_absent_task_is_never_resumed(
    state: ExecutorState,
    history: Seq<Event>,
    id: TaskId,
)
    requires
        state.wf(),
        !state.tasks.contains(id),
        state.allows_all(history),
        forall|i: int| 0 <= i < history.len() ==> history[i] != Event::Spawn(id),
    ensures
        !state.after_all(history).tasks.contains(id),
        forall|i: int, step: Dispatch|
            0 <= i < history.len() && history[i] == Event::Step(step) && step.id == id
                ==> step.outcome == Outcome::Stale,
    decreases history.len(),
{
    if history.len() > 0 {
        let shorter = history.drop_last();
        lemma_absent_task_is_never_resumed(state, shorter, id);
        assert forall|i: int, step: Dispatch|
            0 <= i < history.len() && history[i] == Event::Step(step) && step.id == id implies step.outcome
            == Outcome::Stale by {
            if i < history.len() - 1 {
                assert(shorter[i] == history[i]);
            }
        }
    }
}

/// A task in the table stays there until a step on its own identity reports
/// that it is done.
pub proof fn lemma_task_stays_until_completed(
    state: ExecutorState,
    history: Seq<Event>,
    id: TaskId,
)
    requires
        state.tasks.contains(id),
        state.allows_all(history),
        forall|i: int|
            0 <= i < history.len() ==> history[i] != Event::Step(
                Dispatch { id, outcome: Outcome::Completed },
            ),
    ensures
        state.after_all(history).tasks.contains(id),
    decreases history.len(),
{
    if history.len() > 0 {
        lemma_task_stays_until_completed(state, history.drop_last(), id);
        assert(history[history.len() - 1] != Event::Step(
            Dispatch { id, outcome: Outcome::Completed },
        ));
    }
}

/// A log takes the identities in the order in which they stand in the ready
/// queue.
pub proof fn lemma_log_follows_queue(state: ExecutorState, log: Seq<Dispatch>)
    requires
        state.admits(log),
    ensures
        log.len() <= state.ready.len(),
        state.run(log).ready == state.ready.skip(log.len() as int),
        forall|i: int| 0 <= i < log.len() ==> (#[trigger] log[i]).id == state.ready[i],
    decreases log.len(),
{
    if log.len() > 0 {
        let shorter = log.drop_last();
        assert(steps(log).drop_last() =~= steps(shorter));
        lemma_log_follows_queue(state, shorter);
        assert forall|i: int| 0 <= i < log.len() implies (#[trigger] log[i]).id == state.ready[i] by {
            if i < log.len() - 1 {
                assert(shorter[i] == log[i]);
            }
        }
    }
}

/// Every ready task runs: in a pass of the run-ready phase, the first step on
/// the identity of a task that is in the table resumes the task.
pub proof fn lemma_ready_task_is_resumed(state: ExecutorState, log: Seq<Dispatch>, turn: int)
    requires
        state.wf(),
        state.admits(log),
        0 <= turn < log.len(),
        state.tasks.contains(log[turn].id),
        forall|i: int| 0 <= i < turn ==> log[i].id != log[turn].id,
    ensures
        log[turn].outcome != Outcome::Stale,
{
    let history = steps(log);
    lemma_history_prefix(state, history, turn);
    lemma_task_stays_until_completed(state, history.take(turn), log[turn].id);
}

/// A task that is woken runs: after the wake handle of a task in the table is
/// invoked, the pass of the run-ready phase that follows resumes the task. So
/// a task that is woken after each resume that reports `Pending` is resumed
/// again and again, until a resume reports `Ready` and the task is removed.
pub proof fn lemma_woken_task_is_resumed(state: ExecutorState, waker: WakeHandle, log: Seq<Dispatch>)
    requires
        state.wf(),
        state.tasks.contains(waker.task_id),
        state.has_room(),
        state.wake(waker).admits(log),
        log.len() == state.ready.len() + 1,
    ensures
        exists|turn: int|
            0 <= turn < log.len() && (#[trigger] log[turn]).id == waker.task_id && log[turn].outcome
                != Outcome::Stale,
{
    let id = waker.task_id;
    let woken = state.wake(waker);
    lemma_event_keeps_wf(state, Event::Wake(waker));
    lemma_log_follows_queue(woken, log);
    let first = first_turn(woken.ready, id, woken.ready.len() as int);
    lemma_first_turn(woken.ready, id, woken.ready.len() as int);
    assert(woken.ready[woken.ready.len() - 1] == id);
    lemma_ready_task_is_resumed(woken, log, first);
}

/// A task that was spawned and has not run yet runs in the next pass of the
/// run-ready phase that goes through the whole ready queue.
pub proof fn lemma_new_task_is_resumed(state: ExecutorState, log: Seq<Dispatch>, id: TaskId)
    requires
        state.wf(),
        state.tasks.contains(id),
        !state.wakers.contains(id),
        state.admits(log),
        log.len() == state.ready.len(),
    ensures
        exists|turn: int|
            0 <= turn < log.len() && (#[trigger] log[turn]).id == id && log[turn].outcome
                != Outcome::Stale,
{
    lemma_log_follows_queue(state, log);
    assert(state.ready.contains(id));
    let first = first_turn(state.ready, id, state.ready.len() as int);
    lemma_first_turn(state.ready, id, state.ready.len() as int);
    lemma_ready_task_is_resumed(state, log, first);
}

/// The first place among the first `end` of a queue at which an identity
/// stands, `end` if it stands at none of them.
pub open spec fn first_turn(queue: Seq<TaskId>, id: TaskId, end: int) -> int
    decreases end,
{
    if end <= 0 {
        0
    } else if first_turn(queue, id, end - 1) < end - 1 {
        first_turn(queue, id, end - 1)
    } else if queue[end - 1] == id {
        end - 1
    } else {
        end
    }
}

proof fn lemma_first_turn(queue: Seq<TaskId>, id: TaskId, end: int)
    requires
        0 <= end <= queue.len(),
    ensures
        0 <= first_turn(queue, id, end) <= end,
        first_turn(queue, id, end) < end ==> queue[first_turn(queue, id, end)] == id,
        forall|i: int| 0 <= i < first_turn(queue, id, end) ==> queue[i] != id,
    decreases end,
{
    if end > 0 {
        lemma_first_turn(queue, id, end - 1);
    }
}

/// No task completes twice: after a step on which a task reported that it is
/// done, every later step on its identity is stale, unless a task was spawned
/// under that identity in between.
pub proof fn lemma_no_second_completion(
    state: ExecutorState,
    history: Seq<Event>,
    first: int,
    second: int,
    id: TaskId,
)
    requires
        state.wf(),
        state.allows_all(history),
        0 <= first < second < history.len(),
        history[first] == Event::Step(Dispatch { id, outcome: Outcome::Completed }),
        forall|i: int| first < i < second ==> history[i] != Event::Spawn(id),
        history[second] is Step,
        history[second]->Step_0.id == id,
    ensures
        history[second]->Step_0.outcome == Outcome::Stale,
{
    lemma_history_prefix(state, history, first);
    lemma_history_keeps_wf(state, history.take(first));
    let done = state.after_all(history.take(first + 1));
    lemma_history_prefix(state, history, first + 1);
    lemma_history_keeps_wf(state, history.take(first + 1));
    lemma_history_prefix(state, history, second + 1);
    let rest = history.subrange(first + 1, second + 1);
    lemma_history_split(state, history.take(second + 1), first + 1);
    assert(history.take(second + 1).take(first + 1) =~= history.take(first + 1));
    assert(history.take(second + 1).skip(first + 1) =~= rest);
    lemma_absent_task_is_never_resumed(done, rest, id);
}

/// A history can be cut in two: what can happen from the start can happen up
/// to the cut and then on from the state reached there, with the same end.
pub proof fn lemma_history_split(state: ExecutorState, history: Seq<Event>, cut: int)
    requires
        state.allows_all(history),
        0 <= cut <= history.len(),
    ensures
        state.allows_all(history.take(cut)),
        state.after_all(history.take(cut)).allows_all(history.skip(cut)),
        state.after_all(history.take(cut)).after_all(history.skip(cut)) == state.after_all(history),
    decreases history.len(),
{
    if cut == history.len() {
        assert(history.take(cut) =~= history);
    } else {
        let shorter = history.drop_last();
        lemma_history_split(state, shorter, cut);
        assert(shorter.take(cut) =~= history.take(cut));
        assert(history.skip(cut).drop_last() =~= shorter.skip(cut));
    }
}

/// Waking twice is harmless: when the handle of a task in the table is
/// invoked twice, its identity stands twice more in the ready queue and the
/// table is as it was. In the pass of the run-ready phase that follows, the
/// task is resumed at least once, and if a step on its identity reports that
/// the task is done, every later step on that identity is stale: the task
/// is not resumed again and is not completed twice.
pub proof fn lemma_double_wake(state: ExecutorState, waker: WakeHandle, log: Seq<Dispatch>)
    requires
        state.wf(),
        state.tasks.contains(waker.task_id),
        state.ready.len() + 2 <= state.capacity,
        state.wake(waker).wake(waker).admits(log),
        log.len() == state.ready.len() + 2,
    ensures
        state.wake(waker).wake(waker).wf(),
        state.wake(waker).wake(waker).tasks == state.tasks,
        occurrences(state.wake(waker).wake(waker).ready, waker.task_id) == occurrences(
            state.ready,
            waker.task_id,
        ) + 2,
        exists|turn: int|
            0 <= turn < log.len() && (#[trigger] log[turn]).id == waker.task_id && log[turn].outcome
                != Outcome::Stale,
        forall|first: int, second: int|
            0 <= first < second < log.len() && (#[trigger] log[first]) == (Dispatch {
                id: waker.task_id,
                outcome: Outcome::Completed,
            }) && (#[trigger] log[second]).id == waker.task_id ==> log[second].outcome
                == Outcome::Stale,
{
    let id = waker.task_id;
    let once = state.wake(waker);
    let twice = once.wake(waker);
    lemma_event_keeps_wf(state, Event::Wake(waker));
    lemma_event_keeps_wf(once, Event::Wake(waker));
    assert(once.ready.drop_last() =~= state.ready);
    assert(twice.ready.drop_last() =~= once.ready);
    assert(occurrences(once.ready, id) == occurrences(state.ready, id) + 1);
    assert(occurrences(twice.ready, id) == occurrences(once.ready, id) + 1);
    lemma_log_follows_queue(twice, log);
    let first = first_turn(twice.ready, id, twice.ready.len() as int);
    lemma_first_turn(twice.ready, id, twice.ready.len() as int);
    assert(twice.ready[twice.ready.len() - 1] == id);
    lemma_ready_task_is_resumed(twice, log, first);
    assert forall|first: int, second: int|
        0 <= first < second < log.len() && (#[trigger] log[first]) == (Dispatch {
            id,
            outcome: Outcome::Completed,
        }) && (#[trigger] log[second]).id == id implies log[second].outcome == Outcome::Stale by {
        lemma_no_second_completion(twice, steps(log), first, second, id);
    }
}

/// The context in which the task of the given identity is resumed: it carries
/// the task's own wake handle.
pub open spec fn context_of(id: TaskId) -> Context {
    Context::of(WakeHandle { task_id: id })
}

/// Whether the outcome of a step is what the task reported, and the devices
/// are as the step left them. A stale step resumes nothing and leaves the
/// devices alone. Otherwise the task was resumed once, with its own wake
/// handle, on the devices in the state `before`, and left them in the state
/// `after`: the step is `Completed` exactly if the resume reported `Ready`, and
/// `Pending` exactly if it reported `Pending`.
pub open spec fn reported<E>(task: Task<E>, step: Dispatch, before: E, after: E) -> bool {
    match step.outcome {
        Outcome::Stale => after == before,
        Outcome::Pending => task.resumes(&context_of(step.id), &before, &after, Poll::Pending),
        Outcome::Completed => task.resumes(&context_of(step.id), &before, &after, Poll::Ready(())),
    }
}

/// Whether a pass of the run-ready phase with the given log goes through the
/// given executors and device states: each step leads from one to the next.
pub open spec fn passes_through<E>(
    executors: Seq<Executor<E>>,
    envs: Seq<E>,
    log: Seq<Dispatch>,
) -> bool {
    &&& executors.len() == log.len() + 1
    &&& envs.len() == log.len() + 1
    &&& forall|i: int|
        0 <= i < log.len() ==> (#[trigger] executors[i]).steps_to(
            envs[i],
            log[i],
            &executors[i + 1],
            envs[i + 1],
        )
}

/// The executor. `E` is what its tasks may use while they run.
#[verifier::reject_recursive_types(E)]
pub struct Executor<E> {
    tasks: BTreeMap<u64, Task<E>>,
    task_queue: BoundedQueue<TaskId>,
    waker_cache: BTreeMap<u64, WakeHandle>,
}

impl<E> View for Executor<E> {
    type V = ExecutorState;

    closed spec fn view(&self) -> ExecutorState {
        ExecutorState {
            tasks: self.tasks@.dom().map(|key: u64| TaskId(key)),
            ready: self.task_queue@,
            wakers: self.waker_cache@.dom().map(|key: u64| TaskId(key)),
            capacity: self.task_queue.spec_capacity() as nat,
        }
    }
}

impl<E> Executor<E> {
    /// Each task is filed under its own identity, and each cached handle names
    /// the task under whose identity it is filed.
    pub closed spec fn filed(&self) -> bool {
        &&& self.task_queue.wf()
        &&& forall|key: u64| #[trigger]
            self.tasks@.contains_key(key) ==> self.tasks@[key].spec_id() == TaskId(key)
        &&& forall|key: u64| #[trigger]
            self.waker_cache@.contains_key(key) ==> self.waker_cache@[key].task_id == TaskId(key)
    }

    /// The invariant of the executor, which `new` establishes and every method
    /// keeps.
    pub open spec fn wf(&self) -> bool {
        &&& self.filed()
        &&& self@.wf()
    }

    /// The task filed under the given identity, for an identity in the table.
    pub closed spec fn task(&self, id: TaskId) -> Task<E> {
        self.tasks@[id.0]
    }

    /// Whether `after` holds the very tasks of this executor, but for the task
    /// of the identity `but`.
    pub open spec fn same_tasks_but(&self, after: &Executor<E>, but: TaskId) -> bool {
        forall|id: TaskId|
            id != but && self@.tasks.contains(id) ==> #[trigger] after.task(id) == self.task(id)
    }

    /// Whether `after` holds the very tasks of this executor.
    pub open spec fn same_tasks(&self, after: &Executor<E>) -> bool {
        forall|id: TaskId| self@.tasks.contains(id) ==> #[trigger] after.task(id) == self.task(id)
    }

    /// Whether one step of the run-ready phase, taken on this executor with the
    /// devices in the state `env`, can be `step` and leave the executor `after`
    /// and the devices in the state `env_after`: the step is the one that the
    /// state expects and settles it, its outcome is what the task's resume
    /// reported, the devices are as that resume left them, and no other task
    /// is touched.
    pub open spec fn steps_to(&self, env: E, step: Dispatch, after: &Executor<E>, env_after: E) -> bool {
        &&& self@.expects(step)
        &&& after@ == self@.settle(step)
        &&& after.wf()
        &&& reported(self.task(step.id), step, env, env_after)
        &&& self.same_tasks_but(after, step.id)
        &&& step.outcome == Outcome::Pending ==> after.task(step.id).spec_id() == step.id
    }

    /// The state speaks of identities where the maps are keyed by their numbers:
    /// both hold the same tasks and the same handles.
    proof fn lemma_view(&self)
        ensures
            forall|id: TaskId| #[trigger] self@.tasks.contains(id) <==> self.tasks@.contains_key(id.0),
            forall|id: TaskId| #[trigger]
                self@.wakers.contains(id) <==> self.waker_cache@.contains_key(id.0),
            self@.tasks.finite(),
            self@.wakers.finite(),
            self@.tasks.len() == self.tasks@.dom().len(),
    {
        let wrap = |key: u64| TaskId(key);
        self.tasks@.dom().lemma_map_finite(wrap);
        self.waker_cache@.dom().lemma_map_finite(wrap);
        vstd::set_lib::lemma_map_size(self.tasks@.dom(), self@.tasks, wrap);
    }

    /// An executor with no task and a ready queue for `READY_QUEUE_CAPACITY`
    /// identities.
    pub fn new() -> (executor: Executor<E>)
        ensures
            executor.wf(),
            executor@ == ExecutorState::empty(READY_QUEUE_CAPACITY as nat),
    {
        let executor = Executor {
            tasks: BTreeMap::new(),
            task_queue: BoundedQueue::new(READY_QUEUE_CAPACITY),
            waker_cache: BTreeMap::new(),
        };
        proof {
            executor.lemma_view();
            assert(executor@.wakers =~= Set::empty());
        }
        executor
    }

    /// The number of tasks in the table.
    pub fn task_count(&self) -> (count: usize)
        requires
            self.wf(),
        ensures
            count == self@.tasks.len(),
    {
        proof {
            self.lemma_view();
        }
        self.tasks.len()
    }

    /// The number of identities in the ready queue.
    pub fn ready_count(&self) -> (count: usize)
        requires
            self.wf(),
        ensures
            count == self@.ready.len(),
    {
        self.task_queue.len()
    }

    /// Whether the ready queue takes one more identity.
    pub fn has_room(&self) -> (room: bool)
        requires
            self.wf(),
        ensures
            room == self@.has_room(),
    {
        !self.task_queue.is_full()
    }

    /// Whether the table holds a task of the given identity.
    pub fn contains_task(&self, id: TaskId) -> (found: bool)
        requires
            self.wf(),
        ensures
            found == self@.tasks.contains(id),
    {
        proof {
            self.lemma_view();
        }
        self.tasks.contains_key(&id.0)
    }

    /// Whether a wake handle is cached for the given identity.
    pub fn has_cached_waker(&self, id: TaskId) -> (found: bool)
        requires
            self.wf(),
        ensures
            found == self@.wakers.contains(id),
    {
        proof {
            self.lemma_view();
        }
        self.waker_cache.contains_key(&id.0)
    }

    /// How often the given identity stands in the ready queue.
    pub fn times_ready(&self, id: TaskId) -> (times: usize)
        requires
            self.wf(),
        ensures
            times == occurrences(self@.ready, id),
    {
        let mut times: usize = 0;
        let n: usize = self.task_queue.len();
        for i in 0..n
            invariant
                n == self.task_queue@.len(),
                times <= i,
                times == occurrences(self.task_queue@.take(i as int), id),
        {
            proof {
                assert(self.task_queue@.take(i + 1).drop_last() =~= self.task_queue@.take(i as int));
            }
            if self.task_queue.get(i).0 == id.0 {
                times += 1;
            }
        }
        assert(self.task_queue@.take(n as int) =~= self.task_queue@);
        times
    }

    /// Takes the task into the table and puts its identity at the back of the
    /// ready queue. The identity must be new to the table and the ready queue must
    /// have room: without either the kernel cannot go on.
    pub fn spawn(&mut self, task: Task<E>)
        requires
            old(self).wf(),
            !old(self)@.tasks.contains(task.spec_id()),
            old(self)@.has_room(),
        ensures
            final(self).wf(),
            final(self)@ == old(self)@.spawn(task.spec_id()),
            final(self).task(task.spec_id()) == task,
            old(self).same_tasks(final(self)),
    {
        let task_id = task.id();
        proof {
            self.lemma_view();
        }
        let _ = self.tasks.insert(task_id.0, task);
        let _ = self.task_queue.push(task_id);
        proof {
            self.lemma_view();
            assert(self@.tasks =~= old(self)@.tasks.insert(task_id));
            lemma_event_keeps_wf(old(self)@, Event::Spawn(task_id));
        }
    }

    /// Invokes a wake handle: the identity that it names goes to the back of the
    /// ready queue. The ready queue must have room: a wakeup that is lost would
    /// leave its task suspended for ever.
    pub fn wake(&mut self, waker: &WakeHandle)
        requires
            old(self).wf(),
            old(self)@.has_room(),
        ensures
            final(self).wf(),
            final(self)@ == old(self)@.wake(*waker),
            old(self).same_tasks(final(self)),
    {
        let _ = self.task_queue.push(waker.task_id);
        proof {
            lemma_event_keeps_wf(old(self)@, Event::Wake(*waker));
        }
    }

    /// One step of the run-ready phase: takes the identity at the front of the
    /// ready queue and, if its task is in the table, resumes the task with its
    /// cached wake handle. A task that reports that it is done leaves the table
    /// and the cache at once. With an empty ready queue nothing happens.
    pub fn run_next(&mut self, env: &mut E) -> (step: Option<Dispatch>)
        requires
            old(self).wf(),
        ensures
            final(self).wf(),
            match step {
                None => {
                    &&& old(self)@.ready.len() == 0
                    &&& final(self)@ == old(self)@
                    &&& old(self).same_tasks(final(self))
                    &&& *final(env) == *old(env)
                },
                Some(step) => old(self).steps_to(*old(env), step, final(self), *final(env)),
            },
    {
        proof {
            self.lemma_view();
        }
        let task_id = match self.task_queue.pop() {
            Some(task_id) => task_id,
            None => {
                return None;
            },
        };
        let mut task = match self.tasks.remove(&task_id.0) {
            Some(task) => task,
            None => {
                let step = Dispatch { id: task_id, outcome: Outcome::Stale };
                proof {
                    self.lemma_view();
                    assert(self@.tasks =~= old(self)@.tasks);
                    lemma_event_keeps_wf(old(self)@, Event::Step(step));
                }
                return Some(step);
            },
        };
        let waker = match self.waker_cache.get(&task_id.0) {
            Some(waker) => *waker,
            None => {
                let waker = WakeHandle { task_id };
                let _ = self.waker_cache.insert(task_id.0, waker);
                waker
            },
        };
        let context = Context::from_waker(waker);
        let ghost filed = task;
        let progress = task.poll(&context, env);
        match progress {
            Poll::Ready(()) => {
                let _ = self.waker_cache.remove(&task_id.0);
                let step = Dispatch { id: task_id, outcome: Outcome::Completed };
                proof {
                    assert(progress->Ready_0 == ());
                    assert(progress == Poll::Ready(()));
                    assert(old(self).task(task_id) == filed);
                    self.lemma_view();
                    assert(self@.tasks =~= old(self)@.tasks.remove(task_id));
                    assert(self@.wakers =~= old(self)@.wakers.remove(task_id));
                    lemma_event_keeps_wf(old(self)@, Event::Step(step));
                }
                Some(step)
            },
            Poll::Pending => {
                let _ = self.tasks.insert(task_id.0, task);
                let step = Dispatch { id: task_id, outcome: Outcome::Pending };
                proof {
                    assert(old(self).task(task_id) == filed);
                    self.lemma_view();
                    assert(self@.wakers =~= old(self)@.wakers.insert(task_id));
                    lemma_event_keeps_wf(old(self)@, Event::Step(step));
                }
                Some(step)
            },
        }
    }

    /// The run-ready phase: takes one identity after the other from the ready
    /// queue until it is empty, and resumes each task that is still in the table.
    /// The log tells, for each identity in the order in which it stood in the
    /// queue, what became of it: each step is one step of `run_next`, taken on
    /// the executor and the devices as the step before left them.
    pub fn run_ready_tasks(&mut self, env: &mut E) -> (log: Vec<Dispatch>)
        requires
            old(self).wf(),
        ensures
            final(self).wf(),
            old(self)@.admits(log@),
            final(self)@ == old(self)@.run(log@),
            final(self)@.ready.len() == 0,
            log@.len() == old(self)@.ready.len(),
            forall|i: int| 0 <= i < log@.len() ==> (#[trigger] log@[i]).id == old(self)@.ready[i],
            exists|executors: Seq<Executor<E>>, envs: Seq<E>|
                {
                    &&& #[trigger] passes_through(executors, envs, log@)
                    &&& executors[0] == *old(self)
                    &&& executors.last() == *final(self)
                    &&& envs[0] == *old(env)
                    &&& envs.last() == *final(env)
                },
    {
        let mut log: Vec<Dispatch> = Vec::new();
        let ghost mut executors: Seq<Executor<E>> = seq![*self];
        let ghost mut envs: Seq<E> = seq![*env];
        while !self.task_queue.is_empty()
            invariant
                self.wf(),
                old(self)@.admits(log@),
                self@ == old(self)@.run(log@),
                self@.ready == old(self)@.ready.skip(log@.len() as int),
                log@.len() <= old(self)@.ready.len(),
                forall|i: int| 0 <= i < log@.len() ==> (#[trigger] log@[i]).id == old(self)@.ready[i],
                passes_through(executors, envs, log@),
                executors[0] == *old(self),
                executors.last() == *self,
                envs[0] == *old(env),
                envs.last() == *env,
            decreases old(self)@.ready.len() - log@.len(),
        {
            let ghost before = log@;
            let ghost executors_before = executors;
            let ghost envs_before = envs;
            match self.run_next(env) {
                Some(step) => {
                    log.push(step);
                    proof {
                        executors = executors.push(*self);
                        envs = envs.push(*env);
                        assert(steps(log@).drop_last() =~= steps(before));
                        assert forall|i: int| 0 <= i < log@.len() implies (#[trigger] executors[i]).steps_to(
                            envs[i],
                            log@[i],
                            &executors[i + 1],
                            envs[i + 1],
                        ) by {
                            if i < before.len() {
                                assert(executors_before[i].steps_to(
                                    envs_before[i],
                                    before[i],
                                    &executors_before[i + 1],
                                    envs_before[i + 1],
                                ));
                            }
                        }
                    }
                },
                None => {},
            }
        }
        log
    }

    /// The decision of the idle phase, to be taken while interrupts are off:
    /// halt if the ready queue is empty, go on if an interrupt has made a task
    /// ready since the run-ready phase ended.
    pub fn sleep_if_idle(&self) -> (action: IdleAction)
        requires
            self.wf(),
        ensures
            action == idle_action(self@.ready),
    {
        if self.task_queue.is_empty() {
            IdleAction::Halt
        } else {
            IdleAction::Resume
        }
    }

    /// One turn of the executor's endless run. Running the executor is taking
    /// turn after turn, each in the phase that the turn before has named,
    /// starting in the run-ready phase with interrupts on, and doing after each
    /// turn what its directive says.
    ///
    /// In the run-ready phase a turn takes one step, or, if the ready queue is
    /// empty, asks for interrupts to be turned off and names the idle phase. In
    /// the idle phase a turn looks at the ready queue again and asks for the
    /// halt, or for interrupts alone if a task has become ready in between.
    pub fn turn(&mut self, phase: Phase, env: &mut E) -> (turn: Turn)
        requires
            old(self).wf(),
        ensures
            final(self).wf(),
            turn.directive == directive_of(phase, old(self)@.ready),
            turn.next == phase_after(phase, old(self)@.ready),
            match turn.step {
                Some(step) => {
                    &&& phase == Phase::RunReady
                    &&& old(self).steps_to(*old(env), step, final(self), *final(env))
                },
                None => {
                    &&& phase == Phase::RunReady ==> old(self)@.ready.len() == 0
                    &&& final(self)@ == old(self)@
                    &&& old(self).same_tasks(final(self))
                    &&& *final(env) == *old(env)
                },
            },
    {
        match phase {
            Phase::RunReady => match self.run_next(env) {
                Some(step) => Turn {
                    step: Some(step),
                    directive: Directive::Continue,
                    next: Phase::RunReady,
                },
                None => Turn {
                    step: None,
                    directive: Directive::DisableInterrupts,
                    next: Phase::Idle,
                },
            },
            Phase::Idle => {
                let directive = match self.sleep_if_idle() {
                    IdleAction::Halt => Directive::EnableInterruptsAndHalt,
                    IdleAction::Resume => Directive::EnableInterrupts,
                };
                Turn { step: None, directive, next: Phase::RunReady }
            },
        }
    }
}

} // verus!
