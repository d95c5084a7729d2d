//! [`TaskState`] — the lifecycle of a task and the rule by which an atomic
//! state cell moves between states.
//!
//! ```text
//! Sleeping ──wake()──► Woken ──poll──► Running ──Ready──► Done ──join──► Taken (terminal)
//!                                              ↘──────────► Cancelled         (terminal)
//!                                              ↘──────────► Failed            (terminal)
//! ```

use vstd::prelude::*;

verus! {

/// Lifecycle state of a task.
#[derive(Clone, Copy, PartialEq, Eq, Debug, Structural)]
pub enum TaskState {
    /// Initial state. No waker pending and the future is not running.
    Sleeping,
    /// `wake()` set this state. A worker will poll the task soon.
    Woken,
    /// Currently being polled on a worker.
    Running,
    /// Output written to the cell, awaiting the join handle. Not terminal.
    Done,
    /// Terminal — cancelled before completion.
    Cancelled,
    /// Terminal — panicked or returned an unrecoverable error.
    Failed,
    /// Terminal — the join handle has read and consumed the output.
    Taken,
}

/// Which half of a task cell is still initialised in a given state.
#[derive(Clone, Copy, PartialEq, Eq, Debug, Structural)]
pub enum LiveHalf {
    /// The future has not returned `Ready`; the output is uninitialised.
    Future,
    /// The future was consumed and the output awaits the join handle.
    Output,
    /// Both halves are already spent.
    Neither,
}

impl TaskState {
    /// `Cancelled`, `Failed` and `Taken` are terminal; `Done` is not.
    pub open spec fn spec_is_terminal(self) -> bool {
        self is Cancelled || self is Failed || self is Taken
    }

    /// The `u8` discriminant a state is stored as.
    pub open spec fn discriminant(self) -> u8 {
        match self {
            TaskState::Sleeping => 0,
            TaskState::Woken => 1,
            TaskState::Running => 2,
            TaskState::Done => 3,
            TaskState::Cancelled => 4,
            TaskState::Failed => 5,
            TaskState::Taken => 6,
        }
    }

    /// Returns `true` for [`TaskState::Cancelled`], [`TaskState::Failed`]
    /// and [`TaskState::Taken`].
    pub fn is_terminal(self) -> (r: bool)
        ensures
            r == self.spec_is_terminal(),
    {
        match self {
            TaskState::Cancelled | TaskState::Failed | TaskState::Taken => true,
            _ => false,
        }
    }

    /// Returns the `u8` discriminant of this state.
    pub fn to_u8(self) -> (r: u8)
        ensures
            r == self.discriminant(),
    {
        match self {
            TaskState::Sleeping => 0,
            TaskState::Woken => 1,
            TaskState::Running => 2,
            TaskState::Done => 3,
            TaskState::Cancelled => 4,
            TaskState::Failed => 5,
            TaskState::Taken => 6,
        }
    }

    /// Recovers a [`TaskState`] from its `u8` discriminant.
    pub fn from_u8(v: u8) -> (r: TaskState)
        requires
            v <= 6,
        ensures
            r.discriminant() == v,
    {
        match v {
            0 => TaskState::Sleeping,
            1 => TaskState::Woken,
            2 => TaskState::Running,
            3 => TaskState::Done,
            4 => TaskState::Cancelled,
            5 => TaskState::Failed,
            _ => TaskState::Taken,
        }
    }

    /// The outcome of attempting `expected → next` on a cell that holds
    /// `self`: `Ok(next)` when `expected` is not terminal and the cell holds
    /// `expected`; otherwise `Err(self)`, the state actually observed.
    pub open spec fn spec_transition(self, expected: TaskState, next: TaskState) -> Result<TaskState, TaskState> {
        if !expected.spec_is_terminal() && self == expected {
            Ok(next)
        } else {
            Err(self)
        }
    }

    /// Applies the transition rule to a cell holding `self`: a terminal
    /// `expected` is rejected outright; otherwise the exchange succeeds
    /// exactly when the cell holds `expected`.
    pub fn transition(self, expected: TaskState, next: TaskState) -> (r: Result<TaskState, TaskState>)
        ensures
            r == self.spec_transition(expected, next),
    {
        if expected.is_terminal() {
            return Err(self);
        }
        if self == expected {
            Ok(next)
        } else {
            Err(self)
        }
    }

    /// The `Sleeping → Woken` transition.
    pub fn wake(self) -> (r: Result<TaskState, TaskState>)
        ensures
            r == self.spec_transition(TaskState::Sleeping, TaskState::Woken),
    {
        self.transition(TaskState::Sleeping, TaskState::Woken)
    }

    /// Decides what a compare-exchange loop does after a failed exchange
    /// that observed the raw value `observed`: `None` to retry (a spurious
    /// failure: the cell still holds `expected`, which is not terminal),
    /// `Some(state)` to fail with the observed state.
    pub fn after_failed_exchange(expected: TaskState, observed: u8) -> (r: Option<TaskState>)
        requires
            observed <= 6,
        ensures
            r is None <==> (observed == expected.discriminant() && !expected.spec_is_terminal()),
            r is Some ==> r->Some_0.discriminant() == observed,
    {
        let current = TaskState::from_u8(observed);
        if current.is_terminal() || current != expected {
            Some(current)
        } else {
            None
        }
    }

    /// Which half of the task cell is live in this state: the future until
    /// poll returns `Ready`, then the output until the join handle takes it.
    pub open spec fn spec_live_half(self) -> LiveHalf {
        match self {
            TaskState::Sleeping | TaskState::Woken | TaskState::Running => LiveHalf::Future,
            TaskState::Done => LiveHalf::Output,
            _ => LiveHalf::Neither,
        }
    }

    /// Which half of the task cell is still live in this state, and so must
    /// be dropped when the slot is reclaimed.
    pub fn live_half(self) -> (r: LiveHalf)
        ensures
            r == self.spec_live_half(),
    {
        match self {
            TaskState::Sleeping | TaskState::Woken | TaskState::Running => LiveHalf::Future,
            TaskState::Done => LiveHalf::Output,
            TaskState::Cancelled | TaskState::Failed | TaskState::Taken => LiveHalf::Neither,
        }
    }
}

/// Reclaiming a task's cell drops its future while the task has not
/// finished (Sleeping, Woken or Running: neither terminal nor Done), its
/// output once it is Done, and nothing once it is terminal.
pub proof fn lemma_live_half_follows_lifecycle(s: TaskState)
    ensures
        s.spec_live_half() == LiveHalf::Future <==> (!s.spec_is_terminal() && s != TaskState::Done),
        s.spec_live_half() == LiveHalf::Output <==> s == TaskState::Done,
        s.spec_live_half() == LiveHalf::Neither <==> s.spec_is_terminal(),
        s.spec_live_half() == LiveHalf::Future <==> s.discriminant() < 3,
{
}

/// An exchange out of a non-terminal `expected` state succeeds, whatever
/// the next state (Done, Failed, Cancelled, back to Sleeping...), exactly
/// when the cell holds `expected`, and the cell then holds `next`; in every
/// other case it fails and reports the state the cell holds.
pub proof fn lemma_transition_outcome(current: TaskState, expected: TaskState, next: TaskState)
    ensures
        !expected.spec_is_terminal() && current == expected ==> current.spec_transition(expected, next) == Ok::<
            TaskState,
            TaskState,
        >(next),
        current != expected ==> current.spec_transition(expected, next) == Err::<TaskState, TaskState>(current),
        expected.spec_is_terminal() ==> current.spec_transition(expected, next) == Err::<TaskState, TaskState>(
            current,
        ),
{
}

/// A terminal state absorbs: every transition attempted on a cell holding
/// it fails and reports it.
pub proof fn lemma_terminal_absorbs(current: TaskState, expected: TaskState, next: TaskState)
    requires
        current.spec_is_terminal(),
    ensures
        current.spec_transition(expected, next) == Err::<TaskState, TaskState>(current),
{
}

/// Of two transitions out of the same `expected` state applied one after
/// the other, only the first succeeds: once `expected → next` (with `next`
/// different from `expected`) has happened, any transition expecting
/// `expected` fails and observes `next`.
pub proof fn lemma_only_one_wins(current: TaskState, expected: TaskState, next: TaskState, other: TaskState)
    requires
        next != expected,
        current.spec_transition(expected, next) is Ok,
    ensures
        current.spec_transition(expected, next) == Ok::<TaskState, TaskState>(next),
        next.spec_transition(expected, other) == Err::<TaskState, TaskState>(next),
{
}

/// `wake` succeeds exactly from `Sleeping`, and then the cell holds `Woken`.
pub proof fn lemma_wake_only_from_sleeping(current: TaskState)
    ensures
        current.spec_transition(TaskState::Sleeping, TaskState::Woken) is Ok <==> current == TaskState::Sleeping,
        current == TaskState::Sleeping ==> current.spec_transition(TaskState::Sleeping, TaskState::Woken)
            == Ok::<TaskState, TaskState>(TaskState::Woken),
{
}

/// The discriminant identifies the state: decoding it gives the state back.
pub proof fn lemma_discriminant_injective(a: TaskState, b: TaskState)
    ensures
        a.discriminant() <= 6,
        a.discriminant() == b.discriminant() <==> a == b,
{
}

} // verus!
