//! Keeping a single instance running: the lock file and the hand-off from a
//! background transfer process that holds it.
//!
//! When the lock is held, the holder named in the PID file is asked to stop
//! (TERM), given up to five one-second waits, and killed (KILL) if it is still
//! alive; then the lock is taken. The decisions of that hand-off are the state
//! machine below; the caller performs each action and reports what happened.
use vstd::prelude::*;

use crate::text::{chars_of, parse_i32, parse_i32_chars, trim, trim_chars};

verus! {

/// Failure to open or take the lock file.
#[derive(Debug)]
pub struct LockError(pub String);

impl LockError {
    /// The error's message.
    pub fn to_string(&self) -> (res: String)
        ensures
            res@ == self.0@,
    {
        self.0.clone()
    }
}

/// The PID that a PID file's text holds: the text trimmed, read as an `i32`.
pub fn pid_from_text(content: &str) -> (res: Option<i32>)
    ensures
        res == parse_i32(trim(content@)),
{
    let c = chars_of(content);
    let t = trim_chars(&c);
    assert(t@.subrange(0, t@.len() as int) =~= t@);
    parse_i32_chars(&t, 0, t.len())
}

/// Where the hand-off stands.
#[derive(Debug, Clone, Copy, PartialEq, Eq, Structural)]
pub enum HandoffState {
    /// The lock was found held; the PID file is to be read.
    Start,
    /// TERM is being sent to the holder.
    Terminating { pid: i32 },
    /// Waiting for the holder to exit; `checks` waits have found it alive.
    Waiting { pid: i32, checks: u32 },
    /// The last look at whether the holder is alive.
    FinalCheck { pid: i32 },
    /// KILL is being sent to the holder.
    Killing { pid: i32 },
    /// Nothing is left but to take the lock.
    Finished,
}

/// What the caller reports after performing an action.
#[derive(Debug, Clone, Copy, PartialEq, Eq, Structural)]
pub enum HandoffEvent {
    /// The PID file was read (`None`: missing or not a number).
    PidRead(Option<i32>),
    /// The signal asked for was sent (or failed to be).
    Signalled,
    /// Whether the holder is still alive.
    Alive(bool),
}

/// What the caller is to do next.
#[derive(Debug, Clone, Copy, PartialEq, Eq, Structural)]
pub enum HandoffAction {
    /// Send TERM to this process.
    SendTerm(i32),
    /// Sleep one second, then report whether this process is alive.
    SleepAndCheck(i32),
    /// Report whether this process is alive, without waiting.
    CheckAlive(i32),
    /// Send KILL to this process.
    SendKill(i32),
    /// Take the lock (waiting for it).
    TakeLock,
    /// The event does not apply to the state: nothing to do.
    Nothing,
}

/// The most one-second waits the holder is given after TERM.
pub const MAX_TERM_WAITS: u32 = 5;

/// The hand-off's next state and action, given what was just reported.
pub open spec fn handoff_next(s: HandoffState, e: HandoffEvent) -> (HandoffState, HandoffAction) {
    match (s, e) {
        (HandoffState::Start, HandoffEvent::PidRead(Some(pid))) => if pid > 0 {
            (HandoffState::Terminating { pid }, HandoffAction::SendTerm(pid))
        } else {
            (HandoffState::Finished, HandoffAction::TakeLock)
        },
        (HandoffState::Start, HandoffEvent::PidRead(None)) => (HandoffState::Finished, HandoffAction::TakeLock),
        (HandoffState::Terminating { pid }, HandoffEvent::Signalled) => (
            HandoffState::Waiting { pid, checks: 0 },
            HandoffAction::SleepAndCheck(pid),
        ),
        (HandoffState::Waiting { pid, checks }, HandoffEvent::Alive(alive)) => if alive && checks + 1 < MAX_TERM_WAITS {
            (HandoffState::Waiting { pid, checks: (checks + 1) as u32 }, HandoffAction::SleepAndCheck(pid))
        } else {
            (HandoffState::FinalCheck { pid }, HandoffAction::CheckAlive(pid))
        },
        (HandoffState::FinalCheck { pid }, HandoffEvent::Alive(alive)) => if alive {
            (HandoffState::Killing { pid }, HandoffAction::SendKill(pid))
        } else {
            (HandoffState::Finished, HandoffAction::TakeLock)
        },
        (HandoffState::Killing { pid }, HandoffEvent::Signalled) => (HandoffState::Finished, HandoffAction::TakeLock),
        _ => (s, HandoffAction::Nothing),
    }
}

/// A state the hand-off can be in: the waits counted stay below the limit.
pub open spec fn handoff_state_ok(s: HandoffState) -> bool {
    match s {
        HandoffState::Waiting { checks, .. } => checks < MAX_TERM_WAITS,
        _ => true,
    }
}

/// One step of the hand-off (see [`handoff_next`]).
pub fn handoff_step(s: HandoffState, e: HandoffEvent) -> (res: (HandoffState, HandoffAction))
    requires
        handoff_state_ok(s),
    ensures
        res == handoff_next(s, e),
        handoff_state_ok(res.0),
{
    match (s, e) {
        (HandoffState::Start, HandoffEvent::PidRead(Some(pid))) => if pid > 0 {
            (HandoffState::Terminating { pid }, HandoffAction::SendTerm(pid))
        } else {
            (HandoffState::Finished, HandoffAction::TakeLock)
        },
        (HandoffState::Start, HandoffEvent::PidRead(None)) => (HandoffState::Finished, HandoffAction::TakeLock),
        (HandoffState::Terminating { pid }, HandoffEvent::Signalled) => (
            HandoffState::Waiting { pid, checks: 0 },
            HandoffAction::SleepAndCheck(pid),
        ),
        (HandoffState::Waiting { pid, checks }, HandoffEvent::Alive(alive)) => if alive && checks + 1 < MAX_TERM_WAITS {
            (HandoffState::Waiting { pid, checks: checks + 1 }, HandoffAction::SleepAndCheck(pid))
        } else {
            (HandoffState::FinalCheck { pid }, HandoffAction::CheckAlive(pid))
        },
        (HandoffState::FinalCheck { pid }, HandoffEvent::Alive(alive)) => if alive {
            (HandoffState::Killing { pid }, HandoffAction::SendKill(pid))
        } else {
            (HandoffState::Finished, HandoffAction::TakeLock)
        },
        (HandoffState::Killing { pid }, HandoffEvent::Signalled) => (HandoffState::Finished, HandoffAction::TakeLock),
        _ => (s, HandoffAction::Nothing),
    }
}

/// The actions of the hand-off from `s` as the events `es` come in.
pub open spec fn handoff_run(s: HandoffState, es: Seq<HandoffEvent>) -> Seq<HandoffAction>
    decreases es.len(),
{
    if es.len() == 0 {
        Seq::empty()
    } else {
        let (s2, a) = handoff_next(s, es[0]);
        seq![a] + handoff_run(s2, es.drop_first())
    }
}

/// How many of `acts` are one-second waits.
pub open spec fn wait_count(acts: Seq<HandoffAction>) -> nat
    decreases acts.len(),
{
    if acts.len() == 0 {
        0
    } else {
        (if acts[0] is SleepAndCheck { 1nat } else { 0nat }) + wait_count(acts.drop_first())
    }
}

/// How many waits the hand-off may still ask for from `s`.
pub open spec fn waits_left(s: HandoffState) -> nat {
    match s {
        HandoffState::Start => MAX_TERM_WAITS as nat,
        HandoffState::Terminating { .. } => MAX_TERM_WAITS as nat,
        HandoffState::Waiting { checks, .. } => (MAX_TERM_WAITS - 1 - checks) as nat,
        _ => 0,
    }
}

proof fn lemma_waits_bounded(s: HandoffState, es: Seq<HandoffEvent>)
    requires
        handoff_state_ok(s),
    ensures
        wait_count(handoff_run(s, es)) <= waits_left(s),
    decreases es.len(),
{
    if es.len() > 0 {
        let (s2, a) = handoff_next(s, es[0]);
        lemma_waits_bounded(s2, es.drop_first());
        assert(handoff_run(s, es).drop_first() == handoff_run(s2, es.drop_first()));
    }
}

/// Law: whatever is reported, the holder of the lock is given at most five
/// one-second waits.
pub proof fn lemma_handoff_waits_at_most_five(es: Seq<HandoffEvent>)
    ensures
        wait_count(handoff_run(HandoffState::Start, es)) <= MAX_TERM_WAITS,
{
    lemma_waits_bounded(HandoffState::Start, es);
}

/// Law: KILL is sent only at the last look at the holder, and only when it
/// was reported alive there.
pub proof fn lemma_kill_follows_term(s: HandoffState, e: HandoffEvent)
    ensures
        handoff_next(s, e).1 matches HandoffAction::SendKill(pid) ==> s == (HandoffState::FinalCheck { pid }) && e == HandoffEvent::Alive(true),
{
}

} // verus!
