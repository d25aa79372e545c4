//! Behaviour of the scheduling half of the core: the cooperative executor,
//! the idle/halt decision, the interrupt-to-task bridge, and the keyboard
//! pipeline built on them.

use kernel_core::executor::{CountdownTask, StepOutcome, TaskExecutor, TaskPoll, MAX_TASKS};
use kernel_core::idle::{sleep_decision, SleepAction};
use kernel_core::interrupts::InterruptIndex;
use kernel_core::keyboard::{
    KeyboardEnv, PollByte, ScancodeBridge, ScancodePush, ScancodeStream, SCANCODE_QUEUE_LEN,
};
use kernel_core::serial::SerialMonitorWriter;
use kernel_core::SERIAL_MONITOR_PORT;

#[test]
fn immediate_task_completes_after_exactly_one_poll() {
    let mut ex: TaskExecutor<CountdownTask> = TaskExecutor::new();
    let mut env = ();
    let id = ex.spawn(CountdownTask::new(0));
    assert_eq!(id, 0);
    assert!(ex.contains_task(id));
    assert_eq!(ex.step(&mut env), StepOutcome::Polled(id, TaskPoll::Ready));
    assert!(!ex.contains_task(id));
    assert_eq!(ex.step(&mut env), StepOutcome::Idle);
}

#[test]
fn pending_task_needs_exactly_its_wakes() {
    let mut ex: TaskExecutor<CountdownTask> = TaskExecutor::new();
    let mut env = ();
    // pends twice, is woken twice, completes on the third poll
    let id = ex.spawn(CountdownTask::new(2));
    assert_eq!(ex.step(&mut env), StepOutcome::Polled(id, TaskPoll::Pending));
    // without a wake the task is never polled again
    assert_eq!(ex.step(&mut env), StepOutcome::Idle);
    ex.wake(id);
    assert_eq!(ex.step(&mut env), StepOutcome::Polled(id, TaskPoll::Pending));
    ex.wake(id);
    assert_eq!(ex.step(&mut env), StepOutcome::Polled(id, TaskPoll::Ready));
    assert!(!ex.contains_task(id));
    assert_eq!(ex.step(&mut env), StepOutcome::Idle);
}

#[test]
fn waking_a_completed_task_is_a_no_op() {
    let mut ex: TaskExecutor<CountdownTask> = TaskExecutor::new();
    let mut env = ();
    let id = ex.spawn(CountdownTask::new(0));
    assert_eq!(ex.step(&mut env), StepOutcome::Polled(id, TaskPoll::Ready));
    ex.wake(id);
    assert_eq!(ex.step(&mut env), StepOutcome::Stale(id));
    assert_eq!(ex.step(&mut env), StepOutcome::Idle);
}

#[test]
fn duplicate_wakes_queue_duplicate_polls() {
    let mut ex: TaskExecutor<CountdownTask> = TaskExecutor::new();
    let mut env = ();
    let id = ex.spawn(CountdownTask::new(5));
    assert_eq!(ex.step(&mut env), StepOutcome::Polled(id, TaskPoll::Pending));
    ex.wake(id);
    ex.wake(id);
    assert_eq!(ex.ready_len(), 2);
    assert_eq!(ex.step(&mut env), StepOutcome::Polled(id, TaskPoll::Pending));
    assert_eq!(ex.step(&mut env), StepOutcome::Polled(id, TaskPoll::Pending));
    assert_eq!(ex.step(&mut env), StepOutcome::Idle);
}

#[test]
fn spawn_assigns_increasing_ids() {
    let mut ex: TaskExecutor<CountdownTask> = TaskExecutor::new();
    assert_eq!(ex.spawn(CountdownTask::new(0)), 0);
    assert_eq!(ex.spawn(CountdownTask::new(0)), 1);
    assert_eq!(ex.spawn(CountdownTask::new(0)), 2);
    assert_eq!(ex.ready_len(), 3);
    assert!(MAX_TASKS >= 3);
}

#[test]
fn drain_pass_empties_the_ready_queue() {
    let mut ex: TaskExecutor<CountdownTask> = TaskExecutor::new();
    let mut env = ();
    let a = ex.spawn(CountdownTask::new(0));
    let b = ex.spawn(CountdownTask::new(1));
    let c = ex.spawn(CountdownTask::new(0));
    assert!(ex.run_ready_tasks(&mut env, 100).0);
    assert!(ex.ready_is_empty());
    assert!(!ex.contains_task(a));
    assert!(ex.contains_task(b)); // still pending, waiting for its wake
    assert!(!ex.contains_task(c));
}

#[test]
fn task_ids_wrap_after_the_id_space() {
    let mut ex: TaskExecutor<CountdownTask> = TaskExecutor::new();
    let mut env = ();
    // the narrow id counter wraps; completed tasks free their ids, so no
    // collision arises as long as no task outlives a full wrap
    for round in 0..300usize {
        let id = ex.spawn(CountdownTask::new(0));
        assert_eq!(id, (round % 256) as u8);
        assert_eq!(ex.step(&mut env), StepOutcome::Polled(id, TaskPoll::Ready));
    }
}

#[test]
fn sleep_decision_halts_only_when_idle() {
    assert_eq!(sleep_decision(true), SleepAction::HaltWithInterruptsEnabled);
    assert_eq!(sleep_decision(false), SleepAction::ContinueWithInterruptsEnabled);
}

#[test]
fn wake_in_the_halt_gap_is_polled_next_iteration() {
    let mut ex: TaskExecutor<CountdownTask> = TaskExecutor::new();
    let mut env = ();
    let id = ex.spawn(CountdownTask::new(1));
    assert!(ex.run_ready_tasks(&mut env, 100).0);
    // the drain left nothing ready; the masked re-check would say "halt"
    assert!(ex.ready_is_empty());
    // a wake that fires between that check and the halt instruction: the
    // atomic enable-and-halt delivers it instead of sleeping through it,
    // and the very next loop iteration polls the task
    ex.wake(id);
    assert!(!ex.ready_is_empty());
    assert_eq!(sleep_decision(ex.ready_is_empty()), SleepAction::ContinueWithInterruptsEnabled);
    assert_eq!(ex.step(&mut env), StepOutcome::Polled(id, TaskPoll::Ready));
}

#[test]
fn bridge_overflow_drops_instead_of_failing() {
    let mut b = ScancodeBridge::new();
    for i in 0..SCANCODE_QUEUE_LEN {
        assert!(matches!(b.add_scancode(i as u8), ScancodePush::Queued(_)));
    }
    // the producer is never blocked and never panics: the event is dropped
    assert_eq!(b.add_scancode(0xAA), ScancodePush::Dropped);
    assert_eq!(b.add_scancode(0xBB), ScancodePush::Dropped);
    // the consumer still observes every byte that fit, in order
    for i in 0..SCANCODE_QUEUE_LEN {
        match b.poll_byte(0) {
            PollByte::Ready(byte) => assert_eq!(byte, i as u8),
            PollByte::Pending => panic!("queue ended early at {}", i),
        }
    }
    assert_eq!(b.poll_byte(0), PollByte::Pending);
}

#[test]
fn bridge_hands_out_the_registered_waker_once() {
    let mut b = ScancodeBridge::new();
    // empty pull registers the waker
    assert_eq!(b.poll_byte(7), PollByte::Pending);
    // the next push takes it; the one after finds the cell empty
    assert_eq!(b.add_scancode(0x1E), ScancodePush::Queued(Some(7)));
    assert_eq!(b.add_scancode(0x9E), ScancodePush::Queued(None));
    assert_eq!(b.poll_byte(7), PollByte::Ready(0x1E));
    assert_eq!(b.poll_byte(7), PollByte::Ready(0x9E));
    assert_eq!(b.poll_byte(7), PollByte::Pending);
}

#[test]
fn keyboard_pipeline_echoes_key_presses() {
    let mut ex: TaskExecutor<ScancodeStream> = TaskExecutor::new();
    let mut env = KeyboardEnv { bridge: ScancodeBridge::new(), output: Vec::new() };
    let id = ex.spawn(ScancodeStream::new());
    // first poll finds no input and registers the waker
    assert_eq!(ex.step(&mut env), StepOutcome::Polled(id, TaskPoll::Pending));
    assert!(env.output.is_empty());

    // keyboard interrupt: push the scancode, deliver the returned wake
    match env.bridge.add_scancode(0x1E) {
        ScancodePush::Queued(Some(waker)) => ex.wake(waker),
        other => panic!("expected a registered waker, got {:?}", other),
    }
    assert_eq!(ex.step(&mut env), StepOutcome::Polled(id, TaskPoll::Pending));
    assert_eq!(env.output.len(), 1);
    assert_eq!(env.output[0], "A");

    // the key release decodes but is not echoed
    match env.bridge.add_scancode(0x9E) {
        ScancodePush::Queued(Some(waker)) => ex.wake(waker),
        other => panic!("expected a registered waker, got {:?}", other),
    }
    assert_eq!(ex.step(&mut env), StepOutcome::Polled(id, TaskPoll::Pending));
    assert_eq!(env.output.len(), 1);
}

#[test]
fn interrupt_vectors_are_fixed() {
    assert_eq!(InterruptIndex::Timer.as_u8(), 0x20);
    assert_eq!(InterruptIndex::Keyboard.as_u8(), 0x21);
    assert_eq!(InterruptIndex::Error.as_u8(), 0x70);
    assert_eq!(InterruptIndex::Spurious.as_u8(), 0xf0);
    assert_eq!(InterruptIndex::Keyboard.as_usize(), 0x21);
    assert_eq!(InterruptIndex::Spurious.as_usize(), 0xf0);
}

#[test]
fn serial_writer_encodes_low_bytes() {
    let w = SerialMonitorWriter::new(SERIAL_MONITOR_PORT);
    assert_eq!(w.port(), 0x3F8);
    assert_eq!(w.encode_str("Hi!\n"), vec![0x48, 0x69, 0x21, 0x0A]);
    // Latin-1 code points survive unchanged; larger ones are truncated to
    // their low byte, exactly as the port write would truncate them
    assert_eq!(w.encode_str("\u{e9}"), vec![0xE9]);
    assert_eq!(w.encode_str("\u{142}"), vec![0x42]);
}
