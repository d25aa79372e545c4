//! The idle/halt protocol.
//!
//! When a drain pass leaves the ready queue empty, the executor's main loop
//! wants to halt the core until the next interrupt. Checking emptiness and
//! halting must be indivisible with respect to interrupt delivery: a wake
//! that arrives in between would otherwise be slept through until the next
//! unrelated interrupt. The protocol is: disable interrupts, re-check
//! emptiness, and then either halt with interrupts re-enabled in one atomic
//! step, or simply re-enable and loop again.
//!
//! The hardware steps (masking, the halt instruction) live outside this
//! crate; this module models the protocol's interleavings with interrupt-
//! driven wakes and proves that no wake is ever lost to the halt race. The
//! emptiness check itself is `TaskExecutor::ready_is_empty`, and
//! `sleep_decision` is the verified decision the loop acts on.

use vstd::prelude::*;

verus! {

/// What the main loop does after the masked emptiness check.
#[derive(Debug, Clone, Copy, PartialEq, Eq, Structural)]
pub enum SleepAction {
    HaltWithInterruptsEnabled,
    ContinueWithInterruptsEnabled,
}

/// The decision of the idle protocol, taken while interrupts are masked:
/// halt exactly when the masked re-check still finds the ready queue empty.
pub fn sleep_decision(ready_empty: bool) -> (a: SleepAction)
    ensures
        a == SleepAction::HaltWithInterruptsEnabled <==> ready_empty,
{
    if ready_empty {
        SleepAction::HaltWithInterruptsEnabled
    } else {
        SleepAction::ContinueWithInterruptsEnabled
    }
}

/// Model state of the core around the idle protocol: the ready queue, the
/// interrupt mask, whether the core is halted, and the wakes raised but not
/// yet delivered because interrupts are masked.
pub struct IdleModel {
    pub ready: Seq<u8>,
    pub masked: bool,
    pub halted: bool,
    pub pending: Seq<u8>,
}

/// A device raises a wake for task `id`. Unmasked, the handler runs at once
/// and enqueues the id — waking a halted core in the same stroke. Masked,
/// delivery is deferred until interrupts come back on.
pub open spec fn raise(s: IdleModel, id: u8) -> IdleModel {
    if s.masked {
        IdleModel { pending: s.pending.push(id), ..s }
    } else if s.halted {
        IdleModel { ready: s.ready.push(id), halted: false, ..s }
    } else {
        IdleModel { ready: s.ready.push(id), ..s }
    }
}

/// All of `ids` raised in order.
pub open spec fn raise_all(s: IdleModel, ids: Seq<u8>) -> IdleModel
    decreases ids.len(),
{
    if ids.len() == 0 {
        s
    } else {
        raise_all(raise(s, ids[0]), ids.subrange(1, ids.len() as int))
    }
}

/// The first step of the protocol: interrupts off.
pub open spec fn mask(s: IdleModel) -> IdleModel {
    IdleModel { masked: true, ..s }
}

/// Giving up on halting: re-enable interrupts and loop again. The deferred
/// wakes are delivered as soon as interrupts are back on.
pub open spec fn unmask_and_continue(s: IdleModel) -> IdleModel {
    IdleModel { masked: false, ready: s.ready + s.pending, pending: Seq::empty(), ..s }
}

/// The atomic re-enable-and-halt step. Enabling interrupts delivers every
/// deferred wake before the core can sleep through it, so the core stays
/// halted only when nothing was pending; otherwise the halt falls through
/// immediately with the wakes enqueued.
pub open spec fn enable_and_halt(s: IdleModel) -> IdleModel {
    IdleModel {
        masked: false,
        ready: s.ready + s.pending,
        pending: Seq::empty(),
        halted: s.pending.len() == 0,
    }
}

/// The protocol's masked decision, as `sleep_decision` takes it: halt when
/// the re-check finds the queue empty, otherwise continue.
pub open spec fn sleep_if_idle(s: IdleModel) -> IdleModel {
    if s.ready.len() == 0 {
        enable_and_halt(s)
    } else {
        unmask_and_continue(s)
    }
}

/// While interrupts are masked, raised wakes only accumulate as pending:
/// nothing reaches the ready queue and the core cannot be woken or halted.
proof fn lemma_raise_all_masked(s: IdleModel, ids: Seq<u8>)
    requires
        s.masked,
    ensures
        raise_all(s, ids) == (IdleModel { pending: s.pending + ids, ..s }),
    decreases ids.len(),
{
    if ids.len() == 0 {
        assert(s.pending + ids =~= s.pending);
        assert(raise_all(s, ids) =~= IdleModel { pending: s.pending + ids, ..s });
    } else {
        lemma_raise_all_masked(raise(s, ids[0]), ids.subrange(1, ids.len() as int));
        assert(s.pending.push(ids[0]) + ids.subrange(1, ids.len() as int) =~= s.pending + ids);
    }
}

/// Missed-wakeup freedom: whatever wakes arrive between the interrupt mask
/// and the halt decision, every one of them is in the ready queue when
/// execution continues — in arrival order, after everything already queued
/// — and the core ends up halted only when no wake arrived at all and the
/// queue was already empty. No wake is ever lost to the halt race.
pub proof fn lemma_no_missed_wakeup(s: IdleModel, wakes: Seq<u8>)
    requires
        !s.masked,
        !s.halted,
        s.pending.len() == 0,
    ensures
        ({
            let after = sleep_if_idle(raise_all(mask(s), wakes));
            &&& after.ready == s.ready + wakes
            &&& !after.masked
            &&& after.pending.len() == 0
            &&& (after.halted <==> s.ready.len() == 0 && wakes.len() == 0)
        }),
{
    lemma_raise_all_masked(mask(s), wakes);
    assert(s.pending + wakes =~= wakes);
    let checked = raise_all(mask(s), wakes);
    assert(checked.ready == s.ready && checked.pending == wakes);
    assert(sleep_if_idle(checked).ready =~= s.ready + wakes);
}

} // verus!
