//! The per-contract backfill state machine.
//!
//! A scanner walks block windows from a token's watermark up to the chain
//! head. It performs no I/O: the caller carries out the action it asks for
//! and reports back what happened as an event.
use vstd::prelude::*;
use crate::text::{contains_text, text_contains};

verus! {

/// Width of the first window of a backfill, in blocks.
pub const DEFAULT_STEP: i64 = 1_000_000;

/// Width that a rate-limited window falls back to when shrinking leaves none.
pub const MIN_STEP: i64 = 1000;

/// The window width after a window with `logs` logs succeeded.
pub open spec fn grown_step(step: int, logs: int) -> int {
    if logs <= 100 {
        step * 2
    } else if logs <= 1000 {
        step + step / 2
    } else if logs <= 5000 {
        step + step / 4
    } else {
        step
    }
}

/// The window width after the provider refused a window as too large.
pub open spec fn shrunk_step(step: int) -> int {
    if step / 3 == 0 {
        MIN_STEP as int
    } else {
        step / 3
    }
}

/// Grows the window width by the density of the window just scanned:
/// doubled up to 100 logs, by half up to 1000, by a quarter up to 5000,
/// and kept above that.
pub fn resize_step(step: i64, logs: u64) -> (r: i64)
    requires
        0 <= step,
        grown_step(step as int, logs as int) <= i64::MAX,
    ensures
        r == grown_step(step as int, logs as int),
{
    if logs <= 100 {
        step * 2
    } else if logs <= 1000 {
        step + step / 2
    } else if logs <= 5000 {
        step + step / 4
    } else {
        step
    }
}

/// Shrinks the window width after a rate-limit refusal: a third of it, or
/// `MIN_STEP` where a third is nothing.
pub fn shrink_step(step: i64) -> (r: i64)
    requires
        0 <= step,
    ensures
        r == shrunk_step(step as int),
        r > 0,
{
    let third = step / 3;
    if third == 0 {
        MIN_STEP
    } else {
        third
    }
}

#[derive(Clone, Copy, Debug, PartialEq, Eq, Structural)]
pub enum ScanPhase {
    /// A window `[from, from + step]` is to be fetched.
    Scanning,
    /// The next window would pass the cached head: a fresh head is needed.
    AwaitingHead,
    /// The backfill reached the head; live following takes over.
    Done,
    /// The provider failed in a way that ends this pipeline.
    Failed,
}

/// What the caller reports after carrying out an action.
#[derive(Clone, Copy, Debug, PartialEq, Eq, Structural)]
pub enum ScanEvent {
    /// Every log of the requested window was applied to the ledger and the
    /// watermark was committed at the window's end.
    WindowApplied { logs: u64 },
    /// The provider refused the window as too large or too frequent.
    RateLimited,
    /// Any other provider failure.
    ProviderFailed,
    /// The chain head, as fetched on request.
    Head { height: i64 },
}

/// What the scanner asks the caller to do next.
#[derive(Clone, Copy, Debug, PartialEq, Eq, Structural)]
pub enum ScanAction {
    /// Fetch the transfer logs of blocks `from..=to`, apply them in order,
    /// then commit `to` as the watermark.
    FetchLogs { from: i64, to: i64 },
    /// Fetch the current chain head.
    FetchHead,
    /// Open the live subscription at `from_block`.
    Follow { from_block: i64 },
    /// Give up on this contract.
    Abort,
}

/// How a failed provider call counts for the scan.
#[derive(Clone, Copy, Debug, PartialEq, Eq, Structural)]
pub enum ProviderFailure {
    /// The provider shed load or found the range too large: retry narrower.
    RateLimited,
    /// The transport is down.
    Unavailable,
    /// Any other RPC failure.
    Other,
}

/// The JSON-RPC error code with which the provider refuses a range.
pub open spec fn rate_limit_code() -> Seq<char> {
    "code: -32005"@
}

/// Classifies a failed call by its error: an RPC error that carries the
/// provider's limit code is a rate limit; a transport error means the
/// provider is unavailable; anything else is fatal for the contract.
pub fn classify_provider_error(rpc_error: bool, transport_error: bool, message: &str) -> (r:
    ProviderFailure)
    ensures
        r == if rpc_error && contains_text(message@, rate_limit_code()) {
            ProviderFailure::RateLimited
        } else if transport_error {
            ProviderFailure::Unavailable
        } else {
            ProviderFailure::Other
        },
{
    if rpc_error && text_contains(message, "code: -32005") {
        ProviderFailure::RateLimited
    } else if transport_error {
        ProviderFailure::Unavailable
    } else {
        ProviderFailure::Other
    }
}

/// The event a failed window fetch reports to the scanner.
pub fn failure_event(f: ProviderFailure) -> (e: ScanEvent)
    ensures
        e == if f == ProviderFailure::RateLimited {
            ScanEvent::RateLimited
        } else {
            ScanEvent::ProviderFailed
        },
{
    match f {
        ProviderFailure::RateLimited => ScanEvent::RateLimited,
        _ => ScanEvent::ProviderFailed,
    }
}

/// The scanner as a mathematical value.
pub struct ScanState {
    pub from: int,
    pub step: int,
    pub head: int,
    pub phase: ScanPhase,
}

impl ScanState {
    /// The last block whose effects are applied: the block before `from`.
    pub open spec fn watermark(self) -> int {
        self.from - 1
    }

    /// What every scanner's state satisfies.
    pub open spec fn wf(self) -> bool {
        &&& 0 <= self.from
        &&& valid_height(self.head)
        &&& self.phase == ScanPhase::Scanning ==> {
            &&& self.from < self.head
            &&& 0 < self.step <= self.head - self.from
        }
        &&& self.phase == ScanPhase::AwaitingHead ==> self.from <= self.head + 1
    }
}

/// The state a scan starts in for a token at `watermark`, with `head` the
/// chain head: the first window is clamped so that it ends at the head.
pub open spec fn start_state(watermark: int, head: int) -> ScanState {
    let from = watermark + 1;
    if from >= head {
        ScanState { from, step: 0, head, phase: ScanPhase::Done }
    } else if from + DEFAULT_STEP > head {
        ScanState { from, step: head - from, head, phase: ScanPhase::Scanning }
    } else {
        ScanState { from, step: DEFAULT_STEP as int, head, phase: ScanPhase::Scanning }
    }
}

/// The state after the window `[s.from, s.from + s.step]` was applied with
/// `logs` logs: the watermark moves to the window's end and the width grows;
/// where the grown window would pass the cached head, a fresh head is asked
/// for, and the width is settled once it comes. The head is fetched only
/// then, not on every window.
pub open spec fn after_window(s: ScanState, logs: int) -> ScanState {
    let from = s.from + s.step + 1;
    let grown = grown_step(s.step, logs);
    if from + grown > s.head {
        ScanState { from, step: s.step, head: s.head, phase: ScanPhase::AwaitingHead }
    } else {
        ScanState { from, step: grown, head: s.head, phase: ScanPhase::Scanning }
    }
}

/// The state after a rate-limit refusal: same start, a narrower window,
/// still ending at or before the cached head.
pub open spec fn after_rate_limit(s: ScanState) -> ScanState {
    let shrunk = shrunk_step(s.step);
    let step = if shrunk > s.head - s.from { s.head - s.from } else { shrunk };
    ScanState { from: s.from, step, head: s.head, phase: ScanPhase::Scanning }
}

/// The state after a fresh head `height` arrived: the scan is done when it
/// has reached that head, and otherwise the window is clamped to end there.
/// A head reported behind the cached one (a lagging node) does not move the
/// cached head back.
pub open spec fn after_head(s: ScanState, height: int) -> ScanState {
    let head = if height > s.head { height } else { s.head };
    if s.from >= head {
        ScanState { from: s.from, step: s.step, head, phase: ScanPhase::Done }
    } else {
        ScanState { from: s.from, step: head - s.from, head, phase: ScanPhase::Scanning }
    }
}

/// One transition of the scanner. Events that do not belong to the current
/// phase leave the state as it is.
pub open spec fn next_state(s: ScanState, e: ScanEvent) -> ScanState {
    match s.phase {
        ScanPhase::Scanning => match e {
            ScanEvent::WindowApplied { logs } => after_window(s, logs as int),
            ScanEvent::RateLimited => after_rate_limit(s),
            ScanEvent::ProviderFailed => ScanState { phase: ScanPhase::Failed, ..s },
            ScanEvent::Head { .. } => s,
        },
        ScanPhase::AwaitingHead => match e {
            ScanEvent::Head { height } => after_head(s, height as int),
            ScanEvent::ProviderFailed => ScanState { phase: ScanPhase::Failed, ..s },
            _ => s,
        },
        _ => s,
    }
}

/// What a scanner in state `s` asks for.
pub open spec fn action_of(s: ScanState) -> ScanAction {
    match s.phase {
        ScanPhase::Scanning => ScanAction::FetchLogs {
            from: s.from as i64,
            to: (s.from + s.step) as i64,
        },
        ScanPhase::AwaitingHead => ScanAction::FetchHead,
        ScanPhase::Done => ScanAction::Follow { from_block: s.from as i64 },
        ScanPhase::Failed => ScanAction::Abort,
    }
}

/// A head height the scanner can take: the block after it must still be a
/// block number.
pub open spec fn valid_height(height: int) -> bool {
    0 <= height < i64::MAX
}

pub open spec fn valid_event(e: ScanEvent) -> bool {
    e is Head ==> valid_height(e->height as int)
}

/// The backfill state of one token contract.
#[derive(Clone, Copy, Debug)]
pub struct Scanner {
    from: i64,
    step: i64,
    head: i64,
    phase: ScanPhase,
}

impl View for Scanner {
    type V = ScanState;

    closed spec fn view(&self) -> ScanState {
        ScanState {
            from: self.from as int,
            step: self.step as int,
            head: self.head as int,
            phase: self.phase,
        }
    }
}

impl Scanner {
    #[verifier::type_invariant]
    closed spec fn inv(&self) -> bool {
        &&& 0 <= self.from
        &&& valid_height(self.head as int)
        &&& self.phase == ScanPhase::Scanning ==> {
            &&& self.from < self.head
            &&& 0 < self.step <= self.head - self.from
        }
        &&& self.phase == ScanPhase::AwaitingHead ==> self.from <= self.head + 1
    }

    /// Starts the backfill of a token whose watermark is `watermark`, with
    /// `head` the chain head just fetched.
    pub fn start(watermark: i64, head: i64) -> (s: Scanner)
        requires
            -1 <= watermark < i64::MAX,
            valid_height(head as int),
        ensures
            s@ == start_state(watermark as int, head as int),
            s@.wf(),
    {
        let from = watermark + 1;
        if from >= head {
            Scanner { from, step: 0, head, phase: ScanPhase::Done }
        } else if head - from < DEFAULT_STEP {
            Scanner { from, step: head - from, head, phase: ScanPhase::Scanning }
        } else {
            Scanner { from, step: DEFAULT_STEP, head, phase: ScanPhase::Scanning }
        }
    }

    /// The first block of the next window.
    pub fn from(&self) -> (r: i64)
        ensures
            r == self@.from,
    {
        self.from
    }

    /// The width of the next window, in blocks past its first.
    pub fn step(&self) -> (r: i64)
        ensures
            r == self@.step,
    {
        self.step
    }

    /// The cached chain head.
    pub fn head(&self) -> (r: i64)
        ensures
            r == self@.head,
    {
        self.head
    }

    pub fn phase(&self) -> (r: ScanPhase)
        ensures
            r == self@.phase,
    {
        self.phase
    }

    /// The last block whose logs are applied.
    pub fn watermark(&self) -> (r: i64)
        ensures
            r == self@.watermark(),
    {
        proof {
            use_type_invariant(self);
        }
        self.from - 1
    }

    /// The action the caller is to carry out next.
    pub fn action(&self) -> (a: ScanAction)
        ensures
            a == action_of(self@),
    {
        proof {
            use_type_invariant(self);
        }
        match self.phase {
            ScanPhase::Scanning => ScanAction::FetchLogs { from: self.from, to: self.from + self.step },
            ScanPhase::AwaitingHead => ScanAction::FetchHead,
            ScanPhase::Done => ScanAction::Follow { from_block: self.from },
            ScanPhase::Failed => ScanAction::Abort,
        }
    }

    /// Takes the outcome of the last action into account.
    pub fn on_event(&self, event: ScanEvent) -> (next: Scanner)
        requires
            valid_event(event),
        ensures
            next@ == next_state(self@, event),
            next@.wf(),
    {
        proof {
            use_type_invariant(self);
        }
        match self.phase {
            ScanPhase::Scanning => match event {
                ScanEvent::WindowApplied { logs } => self.after_window(logs),
                ScanEvent::RateLimited => {
                    let shrunk = shrink_step(self.step);
                    let room = self.head - self.from;
                    let step = if shrunk > room { room } else { shrunk };
                    Scanner { from: self.from, step, head: self.head, phase: ScanPhase::Scanning }
                },
                ScanEvent::ProviderFailed => Scanner { phase: ScanPhase::Failed, ..*self },
                ScanEvent::Head { .. } => *self,
            },
            ScanPhase::AwaitingHead => match event {
                ScanEvent::Head { height } => {
                    let head = if height > self.head { height } else { self.head };
                    if self.from >= head {
                        Scanner { from: self.from, step: self.step, head, phase: ScanPhase::Done }
                    } else {
                        Scanner { from: self.from, step: head - self.from, head, phase: ScanPhase::Scanning }
                    }
                },
                ScanEvent::ProviderFailed => Scanner { phase: ScanPhase::Failed, ..*self },
                _ => *self,
            },
            _ => *self,
        }
    }

    fn after_window(&self, logs: u64) -> (next: Scanner)
        requires
            self.inv(),
            self.phase == ScanPhase::Scanning,
        ensures
            next@ == after_window(self@, logs as int),
    {
        let from = self.from + self.step + 1;
        let room = self.head - from;
        if self.step > room {
            // The grown width is at least the current one, so it passes the head.
            assert(grown_step(self.step as int, logs as int) >= self.step);
            Scanner { from, step: self.step, head: self.head, phase: ScanPhase::AwaitingHead }
        } else {
            let grown = resize_step(self.step, logs);
            if grown > room {
                Scanner { from, step: self.step, head: self.head, phase: ScanPhase::AwaitingHead }
            } else {
                Scanner { from, step: grown, head: self.head, phase: ScanPhase::Scanning }
            }
        }
    }
}

/// After a window `[f, f + s]` with `logs` logs succeeds, the watermark is
/// `f + s`; where the grown window still ends at or before the cached head,
/// the next window is `[f + s + 1, f + s + 1 + s']` with `s'` the tier formula
/// applied to `s` and `logs`.
pub proof fn lemma_window_resizes_step(s: ScanState, logs: u64)
    requires
        s.wf(),
        s.phase == ScanPhase::Scanning,
        s.from + s.step + 1 + grown_step(s.step, logs as int) <= s.head,
    ensures
        ({
            let t = next_state(s, ScanEvent::WindowApplied { logs });
            let f = s.from + s.step + 1;
            &&& t.phase == ScanPhase::Scanning
            &&& t.watermark() == s.from + s.step
            &&& t.from == f
            &&& t.step == grown_step(s.step, logs as int)
            &&& action_of(t) == ScanAction::FetchLogs {
                from: f as i64,
                to: (f + grown_step(s.step, logs as int)) as i64,
            }
        }),
{
}

/// The scan ends only against a freshly fetched head: a scanner becomes
/// done only on a head event, or at its start, and then its next block is
/// at or past that head.
pub proof fn lemma_done_only_at_fresh_head(s: ScanState, e: ScanEvent)
    requires
        s.wf(),
        valid_event(e),
        s.phase != ScanPhase::Done,
        next_state(s, e).phase == ScanPhase::Done,
    ensures
        e matches ScanEvent::Head { height } && next_state(s, e).from >= height,
{
}

/// A rate-limited window is retried from the same block, with neither the
/// start nor the watermark moved, and with a narrower window wherever a third
/// of the old width is at least one block.
pub proof fn lemma_rate_limit_retries_window(s: ScanState)
    requires
        s.wf(),
        s.phase == ScanPhase::Scanning,
    ensures
        ({
            let t = next_state(s, ScanEvent::RateLimited);
            &&& t.phase == ScanPhase::Scanning
            &&& t.from == s.from
            &&& t.watermark() == s.watermark()
            &&& action_of(t) matches ScanAction::FetchLogs { from, .. } && from == s.from
            &&& s.step >= 3 ==> t.step < s.step
            &&& t.step == if shrunk_step(s.step) > s.head - s.from {
                s.head - s.from
            } else {
                shrunk_step(s.step)
            }
        }),
{
}

/// No event moves a scanner's watermark backward.
pub proof fn lemma_watermark_monotonic(s: ScanState, e: ScanEvent)
    requires
        s.wf(),
        valid_event(e),
    ensures
        next_state(s, e).watermark() >= s.watermark(),
        next_state(s, e).wf(),
{
}

} // verus!
