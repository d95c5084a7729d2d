//! [`TaskCell`] — the storage of a spawned task: its future until a poll
//! returns `Ready`, then its output until the join handle takes it.
//!
//! Which half is live follows the task's [`TaskState`]: the future in
//! Sleeping, Woken and Running, the output in Done, neither once the task
//! is Cancelled, Failed or Taken.

use vstd::prelude::*;

use crate::task::state::{LiveHalf, TaskState};

verus! {

/// What one poll of a task's future produced.
pub enum PollOutcome<T> {
    /// The future is not finished and will be polled again.
    Pending,
    /// The future finished with this output.
    Ready(T),
}

/// The storage of a spawned task.
pub enum TaskCell<F, T> {
    /// The future, not yet finished.
    Future(F),
    /// The output of the finished future, not yet taken.
    Output(T),
    /// Both halves spent: the output was taken or the live half dropped.
    Spent,
}

impl<F, T> TaskCell<F, T> {
    /// The half this cell holds.
    pub open spec fn holds(self) -> LiveHalf {
        match self {
            TaskCell::Future(_) => LiveHalf::Future,
            TaskCell::Output(_) => LiveHalf::Output,
            TaskCell::Spent => LiveHalf::Neither,
        }
    }

    /// A new cell holding `future`, as a task starts: in step with the
    /// initial Sleeping state.
    pub fn new(future: F) -> (c: TaskCell<F, T>)
        ensures
            c == TaskCell::<F, T>::Future(future),
            c.holds() == TaskState::Sleeping.spec_live_half(),
    {
        TaskCell::Future(future)
    }

    /// Exclusive access to the future while the task has not finished; what
    /// is written through it becomes the cell's future.
    pub fn future_mut(&mut self) -> (r: Option<&mut F>)
        ensures
            match r {
                Some(m) => {
                    &&& *old(self) is Future
                    &&& (*old(self))->Future_0 == *m
                    &&& *final(self) == TaskCell::<F, T>::Future(*final(m))
                },
                None => {
                    &&& !(*old(self) is Future)
                    &&& *final(self) == *old(self)
                },
            },
    {
        match self {
            TaskCell::Future(f) => Some(f),
            _ => None,
        }
    }

    /// Records the outcome of one poll of the future. `Pending` leaves the
    /// cell as it is; `Ready` stores the output and drops the future, which
    /// puts the cell in step with the Done state the caller then sets.
    /// Returns whether the task finished.
    pub fn record_poll(&mut self, outcome: PollOutcome<T>) -> (done: bool)
        requires
            *old(self) is Future,
        ensures
            match outcome {
                PollOutcome::Pending => !done && *final(self) == *old(self),
                PollOutcome::Ready(v) => {
                    &&& done
                    &&& *final(self) == TaskCell::<F, T>::Output(v)
                    &&& final(self).holds() == TaskState::Done.spec_live_half()
                },
            },
    {
        match outcome {
            PollOutcome::Pending => false,
            PollOutcome::Ready(v) => {
                *self = TaskCell::Output(v);
                true
            },
        }
    }

    /// Takes the output for the join handle, leaving the cell spent, in
    /// step with the Taken state; `None`, with the cell unchanged, when it
    /// holds no output.
    pub fn take_output(&mut self) -> (r: Option<T>)
        ensures
            match *old(self) {
                TaskCell::Output(v) => {
                    &&& r == Some(v)
                    &&& *final(self) == TaskCell::<F, T>::Spent
                    &&& final(self).holds() == TaskState::Taken.spec_live_half()
                },
                _ => r is None && *final(self) == *old(self),
            },
    {
        let mut taken = TaskCell::Spent;
        core::mem::swap(self, &mut taken);
        match taken {
            TaskCell::Output(v) => Some(v),
            other => {
                *self = other;
                None
            },
        }
    }

    /// Reclaims the cell of a task in `state`: drops the half that is live
    /// in that state (the future before `Ready`, the output in Done,
    /// nothing once the task is Cancelled, Failed or Taken) and returns it;
    /// the cell is then spent.
    pub fn drop_live(&mut self, state: TaskState) -> (r: LiveHalf)
        requires
            old(self).holds() == state.spec_live_half(),
        ensures
            r == state.spec_live_half(),
            r == old(self).holds(),
            *final(self) == TaskCell::<F, T>::Spent,
    {
        let half = state.live_half();
        *self = TaskCell::Spent;
        half
    }
}

} // verus!
