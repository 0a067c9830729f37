//! Output coalescing.
//!
//! A PTY hands back many tiny writes: a shell printing a build log can produce
//! thousands of reads per second. Forwarding each one across the IPC boundary
//! individually is the single easiest way to lock up the UI, so chunks are
//! batched here before they ever reach the transport.
//!
//! The batching rule is "whichever comes first":
//!
//! * the stream goes quiet for `idle_gap`: the terminal has said what it had
//!   to say, so send it immediately;
//! * `max_delay` elapses: a flood never goes quiet, and a cap on how long a
//!   byte waits is what keeps a busy terminal from feeling laggy;
//! * the buffer reaches `max_bytes`, so a flood cannot grow it without bound.
//!
//! The waiting itself (a thread blocking on a channel with a timeout) belongs
//! to the application; [`Coalescer::step`] decides, for each thing the
//! channel says, what to do next.
use vstd::prelude::*;

verus! {

#[derive(Debug, Clone, Copy)]
pub struct CoalesceConfig {
    /// Flush once no further bytes have arrived for this many milliseconds.
    pub idle_gap: u64,
    /// Longest a byte may wait before being flushed, in milliseconds.
    pub max_delay: u64,
    /// Flush early once the buffer reaches this size.
    pub max_bytes: usize,
}

impl Default for CoalesceConfig {
    fn default() -> (r: Self)
        ensures
            r.idle_gap == 3,
            r.max_delay == 16,
            r.max_bytes == 64 * 1024,
    {
        CoalesceConfig {
            // Short enough to be imperceptible on an echoed keystroke, long
            // enough that the tiny writes ConPTY makes for one redraw (cursor
            // moves, colour changes, the text itself) still land together.
            idle_gap: 3,
            // ~One 60Hz frame. Nothing is gained by delivering a flood faster
            // than the renderer can draw it, and every extra message costs a
            // trip across the IPC boundary.
            max_delay: 16,
            max_bytes: 64 * 1024,
        }
    }
}

/// What the channel said.
pub enum PumpEvent {
    /// A chunk of output arrived.
    Chunk(Vec<u8>),
    /// The wait ran out with nothing more: the stream went quiet.
    Quiet,
    /// The sender is gone: the session ended.
    Closed,
}

/// What to do next.
pub enum PumpAction {
    /// Block until the first chunk of a new batch arrives. An idle terminal
    /// costs nothing.
    Receive,
    /// Wait at most this many milliseconds for more.
    ReceiveWithin(u64),
    /// Hand this batch to the sink, then receive again.
    Deliver(Vec<u8>),
    /// Hand this batch to the sink, then stop.
    DeliverAndStop(Vec<u8>),
    /// Stop.
    Stop,
}

/// The abstract state of a coalescer.
pub struct PumpState {
    /// Bytes received and not yet delivered.
    pub pending: Seq<u8>,
    /// Whether a batch is being gathered.
    pub batching: bool,
    /// When the batch being gathered must go, in milliseconds.
    pub deadline: u64,
    /// Whether the stream has ended.
    pub stopped: bool,
}

/// What an action says to do, with its batch as a sequence.
pub enum Step {
    Receive,
    ReceiveWithin(u64),
    Deliver(Seq<u8>),
    DeliverAndStop(Seq<u8>),
    Stop,
}

/// The bytes an action hands to the sink.
pub open spec fn step_bytes(s: Step) -> Seq<u8> {
    match s {
        Step::Deliver(b) => b,
        Step::DeliverAndStop(b) => b,
        _ => Seq::empty(),
    }
}

/// An action as a [`Step`].
pub open spec fn action_step(a: PumpAction) -> Step {
    match a {
        PumpAction::Receive => Step::Receive,
        PumpAction::ReceiveWithin(ms) => Step::ReceiveWithin(ms),
        PumpAction::Deliver(b) => Step::Deliver(b@),
        PumpAction::DeliverAndStop(b) => Step::DeliverAndStop(b@),
        PumpAction::Stop => Step::Stop,
    }
}

/// Between batches: nothing pending.
pub open spec fn idle() -> PumpState {
    PumpState { pending: Seq::empty(), batching: false, deadline: 0, stopped: false }
}

/// `now + delay`, or the end of time if that overflows.
pub open spec fn deadline_after(now: u64, delay: u64) -> u64 {
    if now + delay > u64::MAX {
        u64::MAX
    } else {
        (now + delay) as u64
    }
}

/// After `pending` has grown at time `now`: deliver it if it is big enough or
/// its deadline has come, else wait for more, never past the deadline and
/// never longer than the idle gap.
pub open spec fn decide(cfg: CoalesceConfig, pending: Seq<u8>, deadline: u64, now: u64) -> (
    PumpState,
    Step,
) {
    if pending.len() >= cfg.max_bytes || now >= deadline {
        (idle(), Step::Deliver(pending))
    } else {
        let left = (deadline - now) as u64;
        (
            PumpState { pending, batching: true, deadline, stopped: false },
            Step::ReceiveWithin(if left < cfg.idle_gap { left } else { cfg.idle_gap }),
        )
    }
}

/// The coalescer's rule: the state and action after `e` arrives at `now`.
pub open spec fn next(cfg: CoalesceConfig, s: PumpState, e: PumpEvent, now: u64) -> (PumpState, Step) {
    if s.stopped {
        (s, Step::Stop)
    } else {
        match e {
            PumpEvent::Chunk(b) => if s.batching {
                decide(cfg, s.pending + b@, s.deadline, now)
            } else {
                decide(cfg, b@, deadline_after(now, cfg.max_delay), now)
            },
            PumpEvent::Quiet => if s.batching {
                (idle(), Step::Deliver(s.pending))
            } else {
                (s, Step::Receive)
            },
            PumpEvent::Closed => (
                PumpState { pending: Seq::empty(), batching: false, deadline: 0, stopped: true },
                if s.batching {
                    Step::DeliverAndStop(s.pending)
                } else {
                    Step::Stop
                },
            ),
        }
    }
}

/// Nothing is pending unless a batch is being gathered, and a stopped
/// coalescer gathers nothing.
pub open spec fn pump_wf(s: PumpState) -> bool {
    &&& !s.batching ==> s.pending.len() == 0
    &&& s.stopped ==> !s.batching
}

/// Batches output of one stream.
pub struct Coalescer {
    cfg: CoalesceConfig,
    buf: Vec<u8>,
    batching: bool,
    deadline: u64,
    stopped: bool,
}

impl View for Coalescer {
    type V = PumpState;

    closed spec fn view(&self) -> PumpState {
        PumpState {
            pending: self.buf@,
            batching: self.batching,
            deadline: self.deadline,
            stopped: self.stopped,
        }
    }
}

impl Coalescer {
    /// The configuration this coalescer batches by.
    pub closed spec fn config(&self) -> CoalesceConfig {
        self.cfg
    }

    /// A coalescer with nothing received yet.
    pub fn new(cfg: CoalesceConfig) -> (r: Self)
        ensures
            r@ == idle(),
            r.config() == cfg,
    {
        let r = Coalescer { cfg, buf: Vec::new(), batching: false, deadline: 0, stopped: false };
        assert(r@.pending =~= Seq::<u8>::empty());
        r
    }

    fn decide(&mut self, now: u64) -> (a: PumpAction)
        requires
            !old(self).stopped,
            old(self).batching,
        ensures
            final(self).cfg == old(self).cfg,
            (final(self)@, action_step(a)) == decide(
                old(self).cfg,
                old(self)@.pending,
                old(self).deadline,
                now,
            ),
    {
        if self.buf.len() >= self.cfg.max_bytes || now >= self.deadline {
            let mut out: Vec<u8> = Vec::new();
            std::mem::swap(&mut out, &mut self.buf);
            self.batching = false;
            self.deadline = 0;
            assert(self@ == idle()) by {
                assert(self.buf@ =~= Seq::<u8>::empty());
            }
            PumpAction::Deliver(out)
        } else {
            let left = self.deadline - now;
            PumpAction::ReceiveWithin(
                if left < self.cfg.idle_gap {
                    left
                } else {
                    self.cfg.idle_gap
                },
            )
        }
    }

    /// React to what the channel said at `now` (milliseconds on any clock
    /// that does not go backwards).
    pub fn step(&mut self, event: PumpEvent, now: u64) -> (a: PumpAction)
        ensures
            final(self).config() == old(self).config(),
            (final(self)@, action_step(a)) == next(old(self).config(), old(self)@, event, now),
    {
        if self.stopped {
            return PumpAction::Stop;
        }
        let ghost e = event;
        match event {
            PumpEvent::Chunk(mut bytes) => {
                if self.batching {
                    self.buf.append(&mut bytes);
                } else {
                    self.buf = bytes;
                    self.batching = true;
                    self.deadline = if now > u64::MAX - self.cfg.max_delay {
                        u64::MAX
                    } else {
                        now + self.cfg.max_delay
                    };
                }
                self.decide(now)
            },
            PumpEvent::Quiet => {
                if self.batching {
                    let mut out: Vec<u8> = Vec::new();
                    std::mem::swap(&mut out, &mut self.buf);
                    self.batching = false;
                    self.deadline = 0;
                    assert(self@ == idle()) by {
                        assert(self.buf@ =~= Seq::<u8>::empty());
                    }
                    PumpAction::Deliver(out)
                } else {
                    PumpAction::Receive
                }
            },
            PumpEvent::Closed => {
                let mut out: Vec<u8> = Vec::new();
                std::mem::swap(&mut out, &mut self.buf);
                let was_batching = self.batching;
                self.batching = false;
                self.deadline = 0;
                self.stopped = true;
                assert(self.buf@ =~= Seq::<u8>::empty());
                if was_batching {
                    PumpAction::DeliverAndStop(out)
                } else {
                    PumpAction::Stop
                }
            },
        }
    }
}

/// A batch being gathered is below the size that forces a flush.
pub open spec fn below_max(cfg: CoalesceConfig, s: PumpState) -> bool {
    s.batching ==> s.pending.len() < cfg.max_bytes
}

/// How many bytes an event carries.
pub open spec fn event_len(e: PumpEvent) -> nat {
    match e {
        PumpEvent::Chunk(b) => b@.len(),
        _ => 0,
    }
}

/// Batches are bounded in size and in time. A batch still being gathered
/// stays below `max_bytes`, so a flood cannot grow it without bound, and a
/// delivered batch is at most what was pending plus the chunk that just
/// arrived. A batch still being gathered has a deadline in the future, set
/// `max_delay` after its first byte arrived (or the end of time, if that
/// overflows) and kept while it grows; and the coalescer never waits longer
/// than the idle gap, nor past that deadline.
pub proof fn lemma_batches_bounded(cfg: CoalesceConfig, s: PumpState, e: PumpEvent, now: u64)
    requires
        pump_wf(s),
        below_max(cfg, s),
    ensures
        ({
            let (s1, a) = next(cfg, s, e, now);
            &&& pump_wf(s1)
            &&& below_max(cfg, s1)
            &&& step_bytes(a).len() <= s.pending.len() + event_len(e)
            &&& s1.batching ==> now < s1.deadline
            &&& s1.batching && s.batching ==> s1.deadline == s.deadline
            &&& s1.batching && !s.batching ==> s1.deadline == deadline_after(now, cfg.max_delay)
            &&& a matches Step::ReceiveWithin(ms) ==> ms <= cfg.idle_gap && now + ms <= s1.deadline
        }),
{
}

/// Every byte the events carry, in order.
pub open spec fn received(events: Seq<PumpEvent>) -> Seq<u8>
    decreases events.len(),
{
    if events.len() == 0 {
        Seq::empty()
    } else {
        (match events[0] {
            PumpEvent::Chunk(b) => b@,
            _ => Seq::empty(),
        }) + received(events.drop_first())
    }
}

/// The state after `events` (each with the time it arrived) and every byte
/// delivered along the way.
pub open spec fn run(cfg: CoalesceConfig, s: PumpState, events: Seq<PumpEvent>, times: Seq<u64>) -> (
    PumpState,
    Seq<u8>,
)
    decreases events.len(),
{
    if events.len() == 0 || times.len() == 0 {
        (s, Seq::empty())
    } else {
        let (s1, a) = next(cfg, s, events[0], times[0]);
        let (s2, d) = run(cfg, s1, events.drop_first(), times.drop_first());
        (s2, step_bytes(a) + d)
    }
}

/// Coalescing never loses, duplicates or reorders a byte: while the stream
/// lasts, what has been delivered followed by what is pending is exactly
/// what was received, and once it ends everything has been delivered.
pub proof fn lemma_nothing_lost(
    cfg: CoalesceConfig,
    s: PumpState,
    events: Seq<PumpEvent>,
    times: Seq<u64>,
)
    requires
        pump_wf(s),
        !s.stopped,
        times.len() == events.len(),
        forall|i: int| 0 <= i < events.len() - 1 ==> !(#[trigger] events[i] is Closed),
    ensures
        run(cfg, s, events, times).1 + run(cfg, s, events, times).0.pending == s.pending + received(
            events,
        ),
        pump_wf(run(cfg, s, events, times).0),
        events.len() > 0 && events.last() is Closed ==> run(cfg, s, events, times).0.stopped
            && run(cfg, s, events, times).0.pending.len() == 0,
        !(events.len() > 0 && events.last() is Closed) ==> !run(cfg, s, events, times).0.stopped,
    decreases events.len(),
{
    if events.len() == 0 {
        assert(s.pending + received(events) =~= Seq::<u8>::empty() + s.pending);
    } else {
        let (s1, a) = next(cfg, s, events[0], times[0]);
        let rest = events.drop_first();
        let rest_t = times.drop_first();
        assert forall|i: int| 0 <= i < rest.len() - 1 implies !(#[trigger] rest[i] is Closed) by {
            assert(rest[i] == events[i + 1]);
        }
        if events[0] is Closed {
            assert(events.len() == 1);
            assert(rest.len() == 0);
            assert(received(rest) =~= Seq::<u8>::empty());
            assert(received(events) =~= Seq::<u8>::empty());
            assert(run(cfg, s, events, times).1 =~= step_bytes(a));
            assert(run(cfg, s, events, times).0 == s1);
            assert(s1.pending =~= Seq::<u8>::empty());
            if s.batching {
                assert(step_bytes(a) == s.pending);
            } else {
                assert(step_bytes(a) =~= s.pending);
            }
            assert(step_bytes(a) + s1.pending =~= s.pending + received(events));
        } else {
            lemma_nothing_lost(cfg, s1, rest, rest_t);
            let (s2, d) = run(cfg, s1, rest, rest_t);
            assert(run(cfg, s, events, times) == (s2, step_bytes(a) + d));
            let b = match events[0] {
                PumpEvent::Chunk(b) => b@,
                _ => Seq::empty(),
            };
            assert(received(events) == b + received(rest));
            assert(step_bytes(a) + s1.pending =~= s.pending + b);
            assert(step_bytes(a) + d + s2.pending =~= s.pending + received(events));
            if rest.len() > 0 {
                assert(rest.last() == events.last());
            }
        }
    }
}

} // verus!
