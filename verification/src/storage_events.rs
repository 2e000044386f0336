//! Kernel uevents: which netlink payloads concern block devices.
use vstd::prelude::*;

verus! {

pub const UEVENT_BUFFER_BYTES: usize = 16384;
pub const EVENT_CHANNEL_CAPACITY: usize = 32;
/// Events closer together than this many milliseconds wake one
/// reconciliation.
pub const COALESCE_WINDOW_MS: u64 = 150;

/// Reading `s` byte by byte: the NUL-separated fields completed so far and
/// the field being read.
pub open spec fn fields_state(s: Seq<u8>) -> (Seq<Seq<u8>>, Seq<u8>)
    decreases s.len(),
{
    if s.len() == 0 {
        (seq![], seq![])
    } else {
        let (done, current) = fields_state(s.drop_last());
        if s.last() == 0 {
            (done.push(current), seq![])
        } else {
            (done, current.push(s.last()))
        }
    }
}

/// The NUL-separated fields of a payload, as `split` on 0 yields them
/// (empty fields included).
pub open spec fn nul_fields(s: Seq<u8>) -> Seq<Seq<u8>> {
    fields_state(s).0.push(fields_state(s).1)
}

/// `SUBSYSTEM=block`.
pub open spec fn block_subsystem() -> Seq<u8> {
    seq![0x53u8, 0x55, 0x42, 0x53, 0x59, 0x53, 0x54, 0x45, 0x4d, 0x3d, 0x62, 0x6c, 0x6f, 0x63, 0x6b]
}

fn field_is_block(payload: &[u8], start: usize, end: usize) -> (r: bool)
    requires
        start <= end <= payload@.len(),
    ensures
        r == (payload@.subrange(start as int, end as int) == block_subsystem()),
{
    let target: [u8; 15] = [
        0x53,
        0x55,
        0x42,
        0x53,
        0x59,
        0x53,
        0x54,
        0x45,
        0x4d,
        0x3d,
        0x62,
        0x6c,
        0x6f,
        0x63,
        0x6b,
    ];
    assert(target@ =~= block_subsystem());
    if end - start != 15 {
        return false;
    }
    let mut i: usize = 0;
    while i < 15
        invariant
            end - start == 15,
            start <= end <= payload@.len(),
            target@ == block_subsystem(),
            i <= 15,
            forall|k: int| 0 <= k < i ==> payload@[start + k] == target@[k],
        decreases 15 - i,
    {
        if payload[start + i] != target[i] {
            assert(payload@.subrange(start as int, end as int)[i as int] != block_subsystem()[i as int]);
            return false;
        }
        i = i + 1;
    }
    assert(payload@.subrange(start as int, end as int) =~= block_subsystem());
    true
}

/// Whether a uevent payload has a field `SUBSYSTEM=block` (exactly).
pub fn is_block_event(payload: &[u8]) -> (r: bool)
    ensures
        r == nul_fields(payload@).contains(block_subsystem()),
{
    let mut start: usize = 0;
    let mut i: usize = 0;
    let mut found = false;
    while i < payload.len()
        invariant
            start <= i <= payload@.len(),
            fields_state(payload@.take(i as int)).1 == payload@.subrange(start as int, i as int),
            found == fields_state(payload@.take(i as int)).0.contains(block_subsystem()),
        decreases payload@.len() - i,
    {
        assert(payload@.take(i + 1).drop_last() =~= payload@.take(i as int));
        assert(payload@.take(i + 1).last() == payload@[i as int]);
        if payload[i] == 0 {
            let ghost done = fields_state(payload@.take(i as int)).0;
            let ghost field = payload@.subrange(start as int, i as int);
            let hit = field_is_block(payload, start, i);
            proof {
                assert(done.push(field).contains(block_subsystem()) == (done.contains(block_subsystem()) || field == block_subsystem())) by {
                    if done.push(field).contains(block_subsystem()) {
                        let k = choose|k: int| 0 <= k < done.push(field).len() && done.push(field)[k] == block_subsystem();
                        if k < done.len() {
                            assert(done[k] == block_subsystem());
                        }
                    }
                    if done.contains(block_subsystem()) {
                        let k = choose|k: int| 0 <= k < done.len() && done[k] == block_subsystem();
                        assert(done.push(field)[k] == block_subsystem());
                    }
                    if field == block_subsystem() {
                        assert(done.push(field)[done.len() as int] == block_subsystem());
                    }
                }
            }
            found = found || hit;
            start = i + 1;
            assert(payload@.subrange(start as int, i + 1) =~= Seq::<u8>::empty());
        } else {
            assert(payload@.subrange(start as int, i + 1) =~= payload@.subrange(start as int, i as int).push(payload@[i as int]));
        }
        i = i + 1;
    }
    assert(payload@.take(payload@.len() as int) =~= payload@);
    let last = field_is_block(payload, start, payload.len());
    proof {
        let done = fields_state(payload@).0;
        let field = fields_state(payload@).1;
        if done.push(field).contains(block_subsystem()) {
            let k = choose|k: int| 0 <= k < done.push(field).len() && done.push(field)[k] == block_subsystem();
            if k < done.len() {
                assert(done[k] == block_subsystem());
            }
        }
        if done.contains(block_subsystem()) {
            let k = choose|k: int| 0 <= k < done.len() && done[k] == block_subsystem();
            assert(done.push(field)[k] == block_subsystem());
        }
        if field == block_subsystem() {
            assert(done.push(field)[done.len() as int] == block_subsystem());
        }
    }
    found || last
}

/// Where the coalescer of block events stands: waiting for a first event,
/// or inside a burst whose window has not yet lapsed.
#[derive(Debug, Clone, Copy, PartialEq, Eq, Structural)]
pub enum CoalesceState {
    Idle,
    Burst,
}

/// What the coalescer observed while waiting.
#[derive(Debug, Clone, Copy, PartialEq, Eq, Structural)]
pub enum CoalesceInput {
    /// A block event arrived.
    Event,
    /// The event source is gone.
    Closed,
    /// The coalescing window passed with no new event.
    WindowElapsed,
}

/// The next state, whether to wake one reconciliation now, and whether the
/// coalescer stops. A caller in `Burst` waits at most one window for the
/// next input; in `Idle` it waits for an event without a limit.
#[derive(Debug, Clone, Copy, PartialEq, Eq, Structural)]
pub struct CoalesceStep {
    pub next: CoalesceState,
    pub notify: bool,
    pub stop: bool,
}

/// One step of the coalescer: events extend a burst; a quiet window or the
/// end of the source closes the burst with exactly one wake-up; the end of
/// the source outside a burst stops silently.
pub open spec fn coalesce_spec(state: CoalesceState, input: CoalesceInput) -> CoalesceStep {
    match (state, input) {
        (_, CoalesceInput::Event) => CoalesceStep { next: CoalesceState::Burst, notify: false, stop: false },
        (CoalesceState::Burst, CoalesceInput::WindowElapsed) => CoalesceStep {
            next: CoalesceState::Idle,
            notify: true,
            stop: false,
        },
        (CoalesceState::Burst, CoalesceInput::Closed) => CoalesceStep {
            next: CoalesceState::Idle,
            notify: true,
            stop: true,
        },
        (CoalesceState::Idle, CoalesceInput::Closed) => CoalesceStep {
            next: CoalesceState::Idle,
            notify: false,
            stop: true,
        },
        (CoalesceState::Idle, CoalesceInput::WindowElapsed) => CoalesceStep {
            next: CoalesceState::Idle,
            notify: false,
            stop: false,
        },
    }
}

pub fn coalesce_step(state: CoalesceState, input: CoalesceInput) -> (r: CoalesceStep)
    ensures
        r == coalesce_spec(state, input),
{
    match input {
        CoalesceInput::Event => CoalesceStep { next: CoalesceState::Burst, notify: false, stop: false },
        CoalesceInput::WindowElapsed => match state {
            CoalesceState::Burst => CoalesceStep { next: CoalesceState::Idle, notify: true, stop: false },
            CoalesceState::Idle => CoalesceStep { next: CoalesceState::Idle, notify: false, stop: false },
        },
        CoalesceInput::Closed => match state {
            CoalesceState::Burst => CoalesceStep { next: CoalesceState::Idle, notify: true, stop: true },
            CoalesceState::Idle => CoalesceStep { next: CoalesceState::Idle, notify: false, stop: true },
        },
    }
}

/// Feeding `inputs` from `state` until the coalescer stops: the final state
/// and the number of wake-ups given.
pub open spec fn coalesce_run(state: CoalesceState, inputs: Seq<CoalesceInput>) -> (CoalesceState, nat)
    decreases inputs.len(),
{
    if inputs.len() == 0 {
        (state, 0)
    } else {
        let step = coalesce_spec(state, inputs[0]);
        let rest = if step.stop {
            (step.next, 0nat)
        } else {
            coalesce_run(step.next, inputs.drop_first())
        };
        (rest.0, rest.1 + if step.notify { 1nat } else { 0nat })
    }
}

/// A burst of events inside a burst keeps it open and wakes nothing.
proof fn lemma_events_extend_burst(state: CoalesceState, n: nat, tail: Seq<CoalesceInput>)
    ensures
        coalesce_run(state, Seq::new(n, |i: int| CoalesceInput::Event) + tail) == (if n == 0 {
            coalesce_run(state, tail)
        } else {
            coalesce_run(CoalesceState::Burst, tail)
        }),
    decreases n,
{
    let s = Seq::new(n, |i: int| CoalesceInput::Event) + tail;
    if n > 0 {
        assert(s[0] == CoalesceInput::Event);
        assert(s.drop_first() =~= Seq::new((n - 1) as nat, |i: int| CoalesceInput::Event) + tail);
        lemma_events_extend_burst(CoalesceState::Burst, (n - 1) as nat, tail);
    } else {
        assert(s =~= tail);
    }
}

/// Any burst of one or more events, ended by a quiet window or by the end
/// of the source, wakes exactly one reconciliation.
pub proof fn lemma_burst_wakes_once(n: nat, end: CoalesceInput)
    requires
        n >= 1,
        end != CoalesceInput::Event,
    ensures
        coalesce_run(CoalesceState::Idle, Seq::new(n, |i: int| CoalesceInput::Event).push(end)).1 == 1,
{
    let tail = seq![end];
    assert(Seq::new(n, |i: int| CoalesceInput::Event).push(end) =~= Seq::new(n, |i: int| CoalesceInput::Event) + tail);
    lemma_events_extend_burst(CoalesceState::Idle, n, tail);
    assert(tail.drop_first() =~= Seq::<CoalesceInput>::empty());
    assert(tail[0] == end);
    let step = coalesce_spec(CoalesceState::Burst, end);
    assert(step.notify);
    assert(coalesce_run(step.next, tail.drop_first()).1 == 0);
}

} // verus!
