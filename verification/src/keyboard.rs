//! Interrupt-to-task bridge for keyboard input.
//!
//! A bounded FIFO of raw scancode bytes connects the keyboard interrupt
//! handler (the producer) to a task polled by the executor (the consumer).
//! The producer side never blocks, never allocates and never fails loudly:
//! on overflow the event is dropped. The consumer side exposes the bytes as
//! a lazy sequence; when the queue is empty it registers the task's waker in
//! a single-slot cell and re-checks once more before reporting "not ready",
//! so a byte pushed between the emptiness check and the registration is
//! never missed.

use vstd::prelude::*;

use crossbeam_queue::ArrayQueue;
use pc_keyboard::ScancodeSet;

use crate::executor::{KernelTask, TaskPoll};
use crate::queue::{queue_capacity, queue_contents, queue_new, queue_pop, queue_push};

verus! {

/// Capacity of the scancode queue.
pub const SCANCODE_QUEUE_LEN: usize = 128;

#[verifier::external_type_specification]
#[verifier::external_body]
pub struct ExScancodeSet1(pc_keyboard::ScancodeSet1);

/// Relies on `pc_keyboard::ScancodeSet1::new`: a fresh decoder at the start
/// of its state machine.
#[verifier::external_body]
fn decoder_new() -> (d: pc_keyboard::ScancodeSet1) {
    pc_keyboard::ScancodeSet1::new()
}

/// What one decoder advance yields, by name: the successor decoder state,
/// and the rendered label when the byte completes a key-down event. Both
/// are functions of the decoder state and the byte alone — the decode is a
/// pure state machine and the label rendering is fixed — and nothing
/// further is assumed of their values.
pub uninterp spec fn decoder_step(d: pc_keyboard::ScancodeSet1, code: u8) -> (
    pc_keyboard::ScancodeSet1,
    Option<Seq<char>>,
);

/// Relies on `pc_keyboard::ScancodeSet1::advance_state` to advance the
/// decoder by one scancode byte. A completed key-down event is rendered to
/// its debug label; anything else — a key-up, a mid-sequence byte, or a
/// decode error — yields nothing, as the kernel only echoes key presses.
/// The contract gives the advance its name: the decoder moves to the named
/// successor state, and the result is exactly the named label.
#[verifier::external_body]
fn advance_decoder(d: &mut pc_keyboard::ScancodeSet1, code: u8) -> (r: Option<String>)
    ensures
        *final(d) == decoder_step(*old(d), code).0,
        match r {
            Some(label) => decoder_step(*old(d), code).1 == Some(label@),
            None => decoder_step(*old(d), code).1 is None,
        },
{
    match d.advance_state(code) {
        Ok(Some(event)) => match event.state {
            pc_keyboard::KeyState::Down => Some(format!("{:?}", event.code)),
            pc_keyboard::KeyState::Up => None,
            pc_keyboard::KeyState::SingleShot => None,
        },
        Ok(None) => None,
        Err(_) => None,
    }
}

/// The decoder state after consuming `bytes` in arrival order.
pub open spec fn spec_decoder_after(
    d: pc_keyboard::ScancodeSet1,
    bytes: Seq<u8>,
) -> pc_keyboard::ScancodeSet1
    decreases bytes.len(),
{
    if bytes.len() == 0 {
        d
    } else {
        spec_decoder_after(decoder_step(d, bytes[0]).0, bytes.subrange(1, bytes.len() as int))
    }
}

/// The key-down labels the decoder emits while consuming `bytes` in
/// arrival order.
pub open spec fn spec_decoded_labels(d: pc_keyboard::ScancodeSet1, bytes: Seq<u8>) -> Seq<
    Seq<char>,
>
    decreases bytes.len(),
{
    if bytes.len() == 0 {
        Seq::empty()
    } else {
        let step = decoder_step(d, bytes[0]);
        let rest = spec_decoded_labels(step.0, bytes.subrange(1, bytes.len() as int));
        match step.1 {
            Some(label) => seq![label] + rest,
            None => rest,
        }
    }
}

/// Outcome of one producer push: the byte was queued (carrying the waker to
/// deliver, if one was registered), or the queue was full and the byte was
/// dropped.
#[derive(Debug, Clone, Copy, PartialEq, Eq, Structural)]
pub enum ScancodePush {
    Queued(Option<u8>),
    Dropped,
}

/// Outcome of one consumer pull: the next byte, or "not ready" with the
/// waker registered.
#[derive(Debug, Clone, Copy, PartialEq, Eq, Structural)]
pub enum PollByte {
    Ready(u8),
    Pending,
}

/// The bounded queue between interrupt context and the executor, together
/// with the single-slot waker cell of the consuming task.
pub struct ScancodeBridge {
    queue: ArrayQueue<u8>,
    waker: Option<u8>,
}

impl ScancodeBridge {
    /// The queued scancode bytes, oldest first.
    pub closed spec fn spec_queue(self) -> Seq<u8> {
        queue_contents(self.queue)
    }

    /// The waker id registered by the consumer, if any.
    pub closed spec fn spec_waker(self) -> Option<u8> {
        self.waker
    }

    /// The queue keeps its fixed capacity and never overfills.
    pub closed spec fn wf(self) -> bool {
        &&& queue_capacity(self.queue) == SCANCODE_QUEUE_LEN
        &&& queue_contents(self.queue).len() <= SCANCODE_QUEUE_LEN
    }

    /// A fresh, empty bridge with no registered waker.
    pub fn new() -> (b: ScancodeBridge)
        ensures
            b.wf(),
            b.spec_queue() == Seq::<u8>::empty(),
            b.spec_waker() is None,
    {
        ScancodeBridge { queue: queue_new(SCANCODE_QUEUE_LEN), waker: None }
    }

    /// The producer entry point, the only call interrupt handlers make into
    /// this core: a non-blocking push of one raw scancode byte. On success
    /// the registered waker (if any) is taken out and handed back so the
    /// caller can deliver the wake; on overflow the event is dropped —
    /// never a block, never an allocation, never a panic, because failing
    /// loudly inside interrupt context is worse than losing one event.
    pub fn add_scancode(&mut self, scancode: u8) -> (r: ScancodePush)
        requires
            old(self).wf(),
        ensures
            final(self).wf(),
            old(self).spec_queue().len() < SCANCODE_QUEUE_LEN ==> {
                &&& r == ScancodePush::Queued(old(self).spec_waker())
                &&& final(self).spec_queue() == old(self).spec_queue().push(scancode)
                &&& final(self).spec_waker() is None
            },
            old(self).spec_queue().len() >= SCANCODE_QUEUE_LEN ==> {
                &&& r == ScancodePush::Dropped
                &&& final(self).spec_queue() == old(self).spec_queue()
                &&& final(self).spec_waker() == old(self).spec_waker()
            },
    {
        match queue_push(&mut self.queue, scancode) {
            Ok(_) => {
                let woken = self.waker;
                self.waker = None;
                ScancodePush::Queued(woken)
            },
            Err(_) => {
                // dropped: the caller emits a best-effort diagnostic
                ScancodePush::Dropped
            },
        }
    }

    /// The consumer's pull: pop the next byte if one is queued; otherwise
    /// register the task's waker and check once more before yielding "not
    /// ready". The second check closes the race in which a byte arrives
    /// between the first empty pop and the registration: with the waker
    /// already visible, such a byte either surfaces here or wakes the task.
    pub fn poll_byte(&mut self, waker: u8) -> (r: PollByte)
        requires
            old(self).wf(),
        ensures
            final(self).wf(),
            old(self).spec_queue().len() > 0 ==> {
                &&& r == PollByte::Ready(old(self).spec_queue()[0])
                &&& final(self).spec_queue() == old(self).spec_queue().subrange(
                    1,
                    old(self).spec_queue().len() as int,
                )
                &&& final(self).spec_waker() == old(self).spec_waker()
            },
            old(self).spec_queue().len() == 0 ==> {
                &&& r == PollByte::Pending
                &&& final(self).spec_queue() == old(self).spec_queue()
                &&& final(self).spec_waker() == Some(waker)
            },
    {
        // fast path
        if let Some(byte) = queue_pop(&mut self.queue) {
            return PollByte::Ready(byte);
        }
        self.waker = Some(waker);
        match queue_pop(&mut self.queue) {
            Some(byte) => {
                self.waker = None;
                PollByte::Ready(byte)
            },
            None => PollByte::Pending,
        }
    }
}

/// Everything the keyboard-consuming task works on: the bridge it pulls
/// bytes from, and the decoded key-press labels it hands onward for the
/// output driver to print.
pub struct KeyboardEnv {
    pub bridge: ScancodeBridge,
    pub output: Vec<String>,
}

/// The lazy scancode sequence, consumed as a task: each poll drains the
/// queued bytes through the stateful scancode decoder, appending the label
/// of every completed key-down event to the output, and then suspends with
/// its waker registered at the bridge.
pub struct ScancodeStream {
    decoder: pc_keyboard::ScancodeSet1,
}

impl ScancodeStream {
    /// The stream's decoder state.
    pub closed spec fn spec_decoder(self) -> pc_keyboard::ScancodeSet1 {
        self.decoder
    }

    /// A fresh stream with the decoder at its start state.
    pub fn new() -> (s: ScancodeStream) {
        ScancodeStream { decoder: decoder_new() }
    }

    /// One poll of the stream: drains the bridge in arrival order, decodes,
    /// and suspends. Never completes — key input never ends — and always
    /// leaves the bridge empty with the polling task's waker registered,
    /// so the next queued byte wakes it.
    pub fn drain(&mut self, waker: u8, env: &mut KeyboardEnv) -> (r: TaskPoll)
        requires
            old(env).bridge.wf(),
        ensures
            final(env).bridge.wf(),
            r == TaskPoll::Pending,
            final(env).bridge.spec_queue().len() == 0,
            final(env).bridge.spec_waker() == Some(waker),
            // the queued bytes all ran through the decoder, in arrival order
            final(self).spec_decoder() == spec_decoder_after(
                old(self).spec_decoder(),
                old(env).bridge.spec_queue(),
            ),
            // the output grows by exactly the labels of the completed
            // key-down events among the drained bytes, in order
            ({
                let labels = spec_decoded_labels(
                    old(self).spec_decoder(),
                    old(env).bridge.spec_queue(),
                );
                &&& final(env).output@.len() == old(env).output@.len() + labels.len()
                &&& forall|i: int|
                    0 <= i < old(env).output@.len() ==> final(env).output@[i] == old(
                        env,
                    ).output@[i]
                &&& forall|k: int|
                    0 <= k < labels.len() ==> (#[trigger] final(env).output@[old(
                        env,
                    ).output@.len() + k])@ == labels[k]
            }),
    {
        let ghost d0 = self.decoder;
        let ghost q0 = env.bridge.spec_queue();
        let ghost out0 = env.output@;
        let ghost labels_full = spec_decoded_labels(d0, q0);
        loop
            invariant
                env.bridge.wf(),
                labels_full == spec_decoded_labels(d0, q0),
                out0 == old(env).output@,
                d0 == old(self).spec_decoder(),
                q0 == old(env).bridge.spec_queue(),
                spec_decoder_after(d0, q0) == spec_decoder_after(
                    self.spec_decoder(),
                    env.bridge.spec_queue(),
                ),
                env.output@.len() >= out0.len(),
                env.output@.len() - out0.len() <= labels_full.len(),
                forall|i: int| 0 <= i < out0.len() ==> env.output@[i] == out0[i],
                forall|k: int|
                    0 <= k < env.output@.len() - out0.len() ==> (#[trigger] env.output@[out0.len()
                        + k])@ == labels_full[k],
                labels_full == labels_full.subrange(0, env.output@.len() - out0.len())
                    + spec_decoded_labels(self.spec_decoder(), env.bridge.spec_queue()),
            decreases env.bridge.spec_queue().len(),
        {
            let ghost cur_d = self.decoder;
            let ghost cur_q = env.bridge.spec_queue();
            let ghost done = env.output@.len() - out0.len();
            match env.bridge.poll_byte(waker) {
                PollByte::Ready(byte) => {
                    let label = advance_decoder(&mut self.decoder, byte);
                    proof {
                        assert(byte == cur_q[0]);
                        assert(env.bridge.spec_queue() =~= cur_q.subrange(1, cur_q.len() as int));
                        let rest = spec_decoded_labels(
                            self.spec_decoder(),
                            env.bridge.spec_queue(),
                        );
                        match decoder_step(cur_d, byte).1 {
                            Some(l) => {
                                assert(spec_decoded_labels(cur_d, cur_q) =~= seq![l] + rest);
                                assert(labels_full[done] == l) by {
                                    assert(labels_full == labels_full.subrange(0, done) + (
                                    seq![l] + rest));
                                }
                                assert(labels_full.subrange(0, done + 1) =~= labels_full.subrange(
                                    0,
                                    done,
                                ) + seq![l]);
                            },
                            None => {
                                assert(spec_decoded_labels(cur_d, cur_q) == rest);
                            },
                        }
                    }
                    if let Some(text) = label {
                        env.output.push(text);
                        proof {
                            assert(labels_full =~= labels_full.subrange(0, done + 1)
                                + spec_decoded_labels(
                                self.spec_decoder(),
                                env.bridge.spec_queue(),
                            ));
                        }
                    }
                },
                PollByte::Pending => {
                    proof {
                        assert(labels_full =~= labels_full.subrange(
                            0,
                            env.output@.len() - out0.len(),
                        ));
                    }
                    return TaskPoll::Pending;
                },
            }
        }
    }
}

/// One interaction with the interrupt-fed queue, as `add_scancode` and
/// `poll_byte` perform it: a producer push of a byte, or a consumer pop.
pub enum BridgeOp {
    Push(u8),
    Pop,
}

/// The queue together with its history: which bytes a full queue accepted,
/// and which bytes the consumer has taken out so far.
pub struct BridgeHistory {
    pub queue: Seq<u8>,
    pub accepted: Seq<u8>,
    pub delivered: Seq<u8>,
}

/// One operation applied to the history, with the bounded queue's
/// semantics: a push onto a full queue drops the byte (it is never
/// accepted), and a pop takes the oldest byte.
pub open spec fn bridge_op(h: BridgeHistory, op: BridgeOp, cap: nat) -> BridgeHistory {
    match op {
        BridgeOp::Push(b) => {
            if h.queue.len() < cap {
                BridgeHistory {
                    queue: h.queue.push(b),
                    accepted: h.accepted.push(b),
                    delivered: h.delivered,
                }
            } else {
                h
            }
        },
        BridgeOp::Pop => {
            if h.queue.len() > 0 {
                BridgeHistory {
                    queue: h.queue.subrange(1, h.queue.len() as int),
                    accepted: h.accepted,
                    delivered: h.delivered.push(h.queue[0]),
                }
            } else {
                h
            }
        },
    }
}

/// A whole run of pushes and pops, oldest operation first.
pub open spec fn bridge_run(h: BridgeHistory, ops: Seq<BridgeOp>, cap: nat) -> BridgeHistory
    decreases ops.len(),
{
    if ops.len() == 0 {
        h
    } else {
        bridge_run(bridge_op(h, ops[0], cap), ops.subrange(1, ops.len() as int), cap)
    }
}

/// The empty history.
pub open spec fn bridge_history_empty() -> BridgeHistory {
    BridgeHistory { queue: Seq::empty(), accepted: Seq::empty(), delivered: Seq::empty() }
}

/// The bridge's order invariant: what has been delivered, followed by what
/// is still queued, is exactly what was accepted.
pub open spec fn bridge_order_ok(h: BridgeHistory) -> bool {
    h.delivered + h.queue == h.accepted
}

/// Each single operation preserves the order invariant.
proof fn lemma_bridge_op_order(h: BridgeHistory, op: BridgeOp, cap: nat)
    requires
        bridge_order_ok(h),
    ensures
        bridge_order_ok(bridge_op(h, op, cap)),
{
    match op {
        BridgeOp::Push(b) => {
            if h.queue.len() < cap {
                assert(h.delivered + h.queue.push(b) =~= h.accepted.push(b));
            }
        },
        BridgeOp::Pop => {
            if h.queue.len() > 0 {
                assert(h.delivered.push(h.queue[0]) + h.queue.subrange(1, h.queue.len() as int)
                    =~= h.accepted);
            }
        },
    }
}

/// Bridge ordering: under any interleaving of non-blocking pushes and pops
/// of the bounded queue — the interactions `add_scancode` and `poll_byte`
/// make, including drops of bytes that arrive while the queue is full —
/// the consumer observes exactly the accepted bytes, in arrival order,
/// with no reordering: the delivered bytes followed by the still-queued
/// bytes are the accepted bytes.
pub proof fn lemma_bridge_preserves_order(ops: Seq<BridgeOp>, cap: nat)
    ensures
        bridge_order_ok(bridge_run(bridge_history_empty(), ops, cap)),
{
    lemma_bridge_run_order(bridge_history_empty(), ops, cap);
}

/// The order invariant holds across any run that starts in a state
/// satisfying it.
proof fn lemma_bridge_run_order(h: BridgeHistory, ops: Seq<BridgeOp>, cap: nat)
    requires
        bridge_order_ok(h),
    ensures
        bridge_order_ok(bridge_run(h, ops, cap)),
    decreases ops.len(),
{
    if ops.len() > 0 {
        lemma_bridge_op_order(h, ops[0], cap);
        lemma_bridge_run_order(bridge_op(h, ops[0], cap), ops.subrange(1, ops.len() as int), cap);
    }
}

impl KernelTask<KeyboardEnv> for ScancodeStream {
    /// The stream needs its bridge well formed around every poll.
    open spec fn env_wf(env: KeyboardEnv) -> bool {
        env.bridge.wf()
    }

    fn poll(&mut self, waker: u8, env: &mut KeyboardEnv) -> TaskPoll {
        self.drain(waker, env)
    }
}

} // verus!
