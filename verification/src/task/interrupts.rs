//! Where interrupts meet the scheduler: the body of the keyboard interrupt
//! handler, and the proof that the executor goes idle without losing a wakeup.
//!
//! An interrupt can fire between any two instructions unless interrupts are off.
//! While they are off the interrupt controller holds an interrupt back, and
//! delivers it as soon as they are on again. The idle phase relies on this:
//! interrupts are turned off, the ready queue is looked at, and then the
//! processor either halts and turns interrupts on in one step, or turns them on
//! and goes on. `Machine` is the processor as these steps see it.

use super::executor::{
    directive_of, idle_action, lemma_event_keeps_wf, phase_after, Directive, Dispatch, Event,
    Executor, ExecutorState, IdleAction, Phase,
};
use super::keyboard::{BridgeState, EventBridge};
use super::{Poll, WakeHandle};
use vstd::prelude::*;

verus! {

/// The executor after the handle that a publish took out of the cell, if any,
/// is invoked.
pub open spec fn invoke(executor: ExecutorState, woken: Option<WakeHandle>) -> ExecutorState {
    match woken {
        Some(waker) => executor.wake(waker),
        None => executor,
    }
}

/// Whether the keyboard interrupt can be handled: if publishing wakes a reader,
/// the ready queue has room for it.
pub open spec fn can_publish(bridge: BridgeState, executor: ExecutorState) -> bool {
    bridge.woken() is Some ==> executor.has_room()
}

/// Whether `publish_event` may be called now.
pub fn publish_allowed<E>(bridge: &EventBridge, executor: &Executor<E>) -> (allowed: bool)
    requires
        bridge.wf(),
        executor.wf(),
    ensures
        allowed == can_publish(bridge@, executor@),
{
    !(bridge.has_waker() && bridge.has_room()) || executor.has_room()
}

/// The body of the keyboard interrupt handler: publishes the scancode and, if it
/// was taken, invokes the handle of the reader that waits. Reports whether the
/// scancode was taken; a scancode that finds the bridge full is dropped, and
/// nobody is woken. It never waits.
///
/// A reader can only be woken if the ready queue has room.
pub fn publish_event<E>(bridge: &mut EventBridge, executor: &mut Executor<E>, code: u8) -> (taken:
    bool)
    requires
        old(bridge).wf(),
        old(executor).wf(),
        can_publish(old(bridge)@, old(executor)@),
    ensures
        final(bridge).wf(),
        final(executor).wf(),
        taken == old(bridge)@.has_room(),
        final(bridge)@ == old(bridge)@.publish(code),
        final(executor)@ == invoke(old(executor)@, old(bridge)@.woken()),
        old(executor).same_tasks(final(executor)),
{
    match bridge.publish(code) {
        Ok(Some(waker)) => {
            executor.wake(&waker);
            true
        },
        Ok(None) => true,
        Err(_) => false,
    }
}

/// The kernel and the processor as far as interrupts go.
pub struct Machine {
    /// The executor.
    pub executor: ExecutorState,
    /// The scancode bridge.
    pub bridge: BridgeState,
    /// Whether interrupts are on, so that one that fires is handled at once.
    pub interrupts_on: bool,
    /// The scancodes of the keyboard interrupts that fired while interrupts were
    /// off and are held back, the oldest first.
    pub held: Seq<u8>,
    /// Whether the processor is halted: it runs nothing until an interrupt is
    /// handled.
    pub halted: bool,
}

impl Machine {
    /// Nothing is held back while interrupts are on, a halted processor has
    /// interrupts on, and the parts are well formed.
    pub open spec fn wf(self) -> bool {
        &&& self.executor.wf()
        &&& self.bridge.wf()
        &&& self.interrupts_on ==> self.held.len() == 0
        &&& self.halted ==> self.interrupts_on
    }

    /// A wakeup is lost: the processor is halted although a task is ready, and
    /// only an interrupt that has nothing to do with the task can end the halt.
    pub open spec fn stranded(self) -> bool {
        self.halted && self.executor.ready.len() > 0
    }

    /// The keyboard interrupt handler runs with the given scancode. A halted
    /// processor runs again afterwards.
    pub open spec fn handle(self, code: u8) -> Machine {
        Machine {
            executor: invoke(self.executor, self.bridge.woken()),
            bridge: self.bridge.publish(code),
            halted: false,
            ..self
        }
    }

    /// The keyboard interrupt fires: it is handled at once if interrupts are on
    /// and held back if they are off.
    pub open spec fn interrupt(self, code: u8) -> Machine {
        if self.interrupts_on {
            self.handle(code)
        } else {
            Machine { held: self.held.push(code), ..self }
        }
    }

    /// The keyboard interrupt fires once for each of the scancodes, in their
    /// order.
    pub open spec fn interrupt_all(self, codes: Seq<u8>) -> Machine {
        codes.fold_left(self, |machine: Machine, code: u8| machine.interrupt(code))
    }

    /// Interrupts are turned off.
    pub open spec fn disable(self) -> Machine {
        Machine { interrupts_on: false, ..self }
    }

    /// Interrupts are turned on, and those held back are handled, the oldest
    /// first.
    pub open spec fn enable(self) -> Machine {
        let on = Machine { interrupts_on: true, held: Seq::empty(), ..self };
        self.held.fold_left(on, |machine: Machine, code: u8| machine.handle(code))
    }

    /// The processor halts and turns interrupts on in one step: an interrupt
    /// that was held back is handled right away and ends the halt.
    pub open spec fn enable_and_halt(self) -> Machine {
        Machine { halted: true, ..self }.enable()
    }

    /// The processor halts with interrupts as they are.
    pub open spec fn halt(self) -> Machine {
        Machine { halted: true, ..self }
    }

    /// The processor does what a turn of the executor has asked for.
    pub open spec fn obey(self, directive: Directive) -> Machine {
        match directive {
            Directive::Continue => self,
            Directive::DisableInterrupts => self.disable(),
            Directive::EnableInterrupts => self.enable(),
            Directive::EnableInterruptsAndHalt => self.enable_and_halt(),
        }
    }

    /// The executor takes a turn, with or without a step.
    pub open spec fn turn(self, step: Option<Dispatch>) -> Machine {
        match step {
            Some(step) => Machine { executor: self.executor.settle(step), ..self },
            None => self,
        }
    }

    /// The processor is about to take a turn of the executor in the given
    /// phase: it runs, and interrupts are off exactly in the idle phase.
    pub open spec fn in_phase(self, phase: Phase) -> bool {
        &&& !self.halted
        &&& self.interrupts_on <==> phase == Phase::RunReady
        &&& self.interrupts_on ==> self.held.len() == 0
    }
}

/// Handling held interrupts leaves a processor halted only if there was none to
/// handle, and then nothing else changes either.
pub proof fn lemma_enable(machine: Machine)
    ensures
        machine.enable().interrupts_on,
        machine.enable().held.len() == 0,
        machine.held.len() > 0 ==> !machine.enable().halted,
        machine.held.len() == 0 ==> machine.enable() == (Machine {
            interrupts_on: true,
            held: Seq::empty(),
            ..machine
        }),
{
    lemma_enable_from(Machine { interrupts_on: true, held: Seq::empty(), ..machine }, machine.held);
}

/// Handling scancodes one after the other with interrupts on.
proof fn lemma_enable_from(on: Machine, held: Seq<u8>)
    requires
        on.interrupts_on,
        on.held.len() == 0,
    ensures
        held.fold_left(on, |machine: Machine, code: u8| machine.handle(code)).interrupts_on,
        held.fold_left(on, |machine: Machine, code: u8| machine.handle(code)).held.len() == 0,
        held.len() > 0 ==> !held.fold_left(on, |machine: Machine, code: u8| machine.handle(code)).halted,
        held.len() == 0 ==> held.fold_left(on, |machine: Machine, code: u8| machine.handle(code)) == on,
    decreases held.len(),
{
    if held.len() > 0 {
        lemma_enable_from(on, held.drop_last());
    }
}

/// No missed wakeup: once a reader that found the bridge empty has left its
/// handle in the cell, a scancode that is published wakes it. The reader's
/// identity is at the back of the ready queue, the idle phase decides not to
/// halt, and the reader's second look, if it is still to come, finds the
/// scancode.
pub proof fn lemma_no_missed_wakeup(
    bridge: BridgeState,
    executor: ExecutorState,
    waker: WakeHandle,
    code: u8,
)
    requires
        bridge.wf(),
        executor.wf(),
        bridge.events.len() == 0,
        bridge.has_room(),
        executor.has_room(),
    ensures
        bridge.register(waker).woken() == Some(waker),
        invoke(executor, bridge.register(waker).woken()).ready == executor.ready.push(waker.task_id),
        invoke(executor, bridge.register(waker).woken()).ready.contains(waker.task_id),
        idle_action(invoke(executor, bridge.register(waker).woken()).ready) == IdleAction::Resume,
        directive_of(Phase::Idle, invoke(executor, bridge.register(waker).woken()).ready)
            == Directive::EnableInterrupts,
        bridge.register(waker).publish(code).front() == Poll::Ready(code),
        bridge.register(waker).publish(code).waker == None::<WakeHandle>,
{
    let ready = executor.ready.push(waker.task_id);
    assert(ready[ready.len() - 1] == waker.task_id);
}

/// While interrupts are off, interrupts that fire change nothing but what is
/// held back.
pub proof fn lemma_interrupts_held(machine: Machine, codes: Seq<u8>)
    requires
        !machine.interrupts_on,
    ensures
        machine.interrupt_all(codes) == (Machine { held: machine.held + codes, ..machine }),
    decreases codes.len(),
{
    if codes.len() > 0 {
        lemma_interrupts_held(machine, codes.drop_last());
        assert((machine.held + codes.drop_last()).push(codes.last()) =~= machine.held + codes);
    }
}

/// While interrupts are on, interrupts that fire are handled at once: nothing
/// is held back, and the processor runs after the first of them.
pub proof fn lemma_interrupts_handled(machine: Machine, codes: Seq<u8>)
    requires
        machine.interrupts_on,
        machine.held.len() == 0,
    ensures
        machine.interrupt_all(codes).interrupts_on,
        machine.interrupt_all(codes).held.len() == 0,
        codes.len() > 0 ==> !machine.interrupt_all(codes).halted,
        codes.len() == 0 ==> machine.interrupt_all(codes) == machine,
    decreases codes.len(),
{
    if codes.len() > 0 {
        lemma_interrupts_handled(machine, codes.drop_last());
    }
}

/// Idle correctness: running the executor never leaves the processor halted
/// with a task ready, whatever interrupts fire and whenever they fire. After a
/// turn in any phase, with interrupts firing before the processor does what
/// the turn has asked for, the processor either runs and is set for the phase
/// that the turn has named, or is halted with an empty ready queue, and then
/// the next interrupt sets it running in the run-ready phase.
///
/// In the idle phase this covers the interrupt that fires after the look at the
/// ready queue and before the halt.
pub proof fn lemma_run_never_strands(
    machine: Machine,
    phase: Phase,
    step: Option<Dispatch>,
    late: Seq<u8>,
    next: u8,
)
    requires
        machine.in_phase(phase),
        match step {
            Some(step) => phase == Phase::RunReady && machine.executor.expects(step),
            None => phase == Phase::RunReady ==> machine.executor.ready.len() == 0,
        },
    ensures
        ({
            let directive = directive_of(phase, machine.executor.ready);
            let after = machine.turn(step).interrupt_all(late).obey(directive);
            &&& !after.stranded()
            &&& !after.halted ==> after.in_phase(phase_after(phase, machine.executor.ready))
            &&& after.halted ==> after.interrupt(next).in_phase(Phase::RunReady)
        }),
{
    let turned = machine.turn(step);
    if phase == Phase::RunReady {
        lemma_interrupts_handled(turned, late);
    } else {
        lemma_interrupts_held(turned, late);
        let at_halt = turned.interrupt_all(late);
        lemma_enable(at_halt);
        lemma_enable(Machine { halted: true, ..at_halt });
    }
}

/// Idle correctness, for the one interrupt that matters: the ready queue is
/// empty and a reader waits. The run-ready phase finds nothing and has
/// interrupts turned off; the idle phase looks again and asks for the halt;
/// then the keyboard interrupt fires. When the processor halts and turns
/// interrupts on in one step, the interrupt is handled, the reader is ready, and
/// the processor runs.
pub proof fn lemma_idle_sees_late_wakeup(machine: Machine, waker: WakeHandle, code: u8)
    requires
        machine.wf(),
        machine.in_phase(Phase::RunReady),
        machine.executor.ready.len() == 0,
        machine.executor.has_room(),
        machine.bridge.waker == Some(waker),
        machine.bridge.has_room(),
    ensures
        directive_of(Phase::RunReady, machine.executor.ready) == Directive::DisableInterrupts,
        directive_of(Phase::Idle, machine.disable().executor.ready)
            == Directive::EnableInterruptsAndHalt,
        machine.disable().interrupt(code).executor.ready.len() == 0,
        !machine.disable().interrupt(code).obey(Directive::EnableInterruptsAndHalt).halted,
        machine.disable().interrupt(code).obey(Directive::EnableInterruptsAndHalt).interrupts_on,
        machine.disable().interrupt(code).obey(Directive::EnableInterruptsAndHalt).executor.ready
            == seq![waker.task_id],
        machine.disable().interrupt(code).obey(Directive::EnableInterruptsAndHalt).wf(),
{
    reveal_with_fuel(Seq::fold_left, 3);
    lemma_event_keeps_wf(machine.executor, Event::Wake(waker));
}

/// Why interrupts are turned off first: if the processor looks at the ready
/// queue with interrupts on and halts in a later step, an interrupt that fires
/// in between wakes the reader and still leaves the processor halted.
pub proof fn lemma_unguarded_halt_strands(machine: Machine, waker: WakeHandle, code: u8)
    requires
        machine.wf(),
        machine.in_phase(Phase::RunReady),
        machine.executor.ready.len() == 0,
        machine.executor.has_room(),
        machine.bridge.waker == Some(waker),
        machine.bridge.has_room(),
    ensures
        idle_action(machine.executor.ready) == IdleAction::Halt,
        machine.interrupt(code).halt().stranded(),
{
}

} // verus!
