use vstd::prelude::*;
use crate::commands::{ended, settled, targets};
use crate::count::ids_where;
use crate::error::Error;
use crate::state::{has_task, position, State};
use crate::task::{lawful, Selection, TaskResult};

verus! {

/// How the daemon is to stop.
#[derive(Clone, Copy, Debug, PartialEq, Eq, Structural)]
pub enum ShutdownKind {
    /// Kill every process at once.
    Emergency,
    /// Ask every process to terminate and wait for a bounded time.
    Graceful,
}

/// The signal that asks a process to terminate.
pub const SIGTERM: i32 = 15;

/// Whether the daemon still takes commands.
pub struct Lifecycle {
    pub shutting_down: bool,
    /// The time at which a graceful shutdown stops waiting.
    pub deadline: Option<u64>,
}

impl Lifecycle {
    /// A daemon that runs.
    pub fn new() -> (l: Lifecycle)
        ensures
            !l.shutting_down,
            l.deadline is None,
    {
        Lifecycle { shutting_down: false, deadline: None }
    }

    /// Whether a command is taken: while shutting down, only a status query
    /// is.
    pub fn accepts(&self, status_query: bool) -> (r: Result<(), Error>)
        ensures
            r == (if self.shutting_down && !status_query {
                Err::<(), Error>(Error::Shutdown)
            } else {
                Ok::<(), Error>(())
            }),
    {
        if self.shutting_down && !status_query {
            Err(Error::Shutdown)
        } else {
            Ok(())
        }
    }

    /// Whether the processes that were asked to terminate are now to be
    /// killed: a graceful shutdown has waited until its deadline.
    pub fn drain_over(&self, now: u64) -> (r: bool)
        ensures
            r == (self.shutting_down && match self.deadline {
                Some(t) => now >= t,
                None => false,
            }),
    {
        self.shutting_down && match self.deadline {
            Some(t) => now >= t,
            None => false,
        }
    }

    /// Whether the daemon may exit: it is shutting down and no task has a
    /// process any more.
    pub fn finished(&self, state: &State) -> (r: bool)
        ensures
            r == (self.shutting_down && forall|i: int|
                0 <= i < state.tasks@.len() ==> !(#[trigger] state.tasks@[i]).status.is_active()),
    {
        if !self.shutting_down {
            return false;
        }
        let mut i: usize = 0;
        while i < state.tasks.len()
            invariant
                i <= state.tasks@.len(),
                forall|j: int| 0 <= j < i ==> !(#[trigger] state.tasks@[j]).status.is_active(),
            decreases state.tasks@.len() - i,
        {
            if state.tasks[i].status.active() {
                return false;
            }
            i += 1;
        }
        true
    }

    /// Whether the scheduler may start tasks: not while the daemon shuts down.
    pub fn starts_tasks(&self) -> (r: bool)
        ensures
            r == !self.shutting_down,
    {
        !self.shutting_down
    }

    /// Begins a shutdown: no further command is taken and no task is started.
    /// Groups stay as they are. The ids of all running and paused tasks are
    /// returned. In an emergency their processes are to be killed, and the
    /// tasks end as killed at once, with the note that says why; otherwise the
    /// processes get the terminating signal and the tasks stay until their
    /// exits are reported or `now + window` has come.
    pub fn begin(&mut self, state: &mut State, kind: ShutdownKind, window: u64, now: u64) -> (ids: Vec<u64>)
        requires
            old(state).wf(),
        ensures
            final(self).shutting_down,
            final(self).deadline == (match kind {
                ShutdownKind::Emergency => None,
                ShutdownKind::Graceful => Some(if now as int + window as int > u64::MAX as int {
                    u64::MAX
                } else {
                    (now + window) as u64
                }),
            }),
            final(state).wf(),
            lawful(old(state).tasks@, final(state).tasks@),
            final(state).next_id == old(state).next_id,
            final(state).groups@ == old(state).groups@,
            old(state).within_limits() ==> final(state).within_limits(),
            final(state).tasks@.len() == old(state).tasks@.len(),
            kind == ShutdownKind::Graceful ==> final(state).tasks@ == old(state).tasks@,
            kind == ShutdownKind::Emergency ==> forall|i: int|
                0 <= i < old(state).tasks@.len() ==> settled(
                    old(state).tasks@[i],
                    #[trigger] final(state).tasks@[i],
                    now,
                ),
            ids@ == ids_where(old(state).tasks@, targets(Selection::All, true, true)),
    {
        self.shutting_down = true;
        match kind {
            ShutdownKind::Emergency => {
                self.deadline = None;
                state.stop_all(now)
            },
            ShutdownKind::Graceful => {
                self.deadline = Some(now.saturating_add(window));
                state.active_ids()
            },
        }
    }

    /// Records the end of a task's process. While the daemon shuts down the
    /// task ends as killed, with the note that says why, whatever the process
    /// reported; otherwise it ends with the reported result.
    pub fn exited(&self, state: &mut State, id: u64, result: TaskResult, now: u64) -> (r: Result<(), Error>)
        requires
            old(state).wf(),
        ensures
            final(state).wf(),
            lawful(old(state).tasks@, final(state).tasks@),
            final(state).groups@ == old(state).groups@,
            final(state).next_id == old(state).next_id,
            old(state).within_limits() ==> final(state).within_limits(),
            r == (if !has_task(old(state).tasks@, id) {
                Err::<(), Error>(Error::TaskNotFound)
            } else if old(state).tasks@[position(old(state).tasks@, id)].status.is_active() {
                Ok::<(), Error>(())
            } else {
                Err::<(), Error>(Error::TaskWrongState)
            }),
            r is Err ==> final(state).tasks@ == old(state).tasks@,
            r is Ok ==> final(state).tasks@ == old(state).tasks@.update(
                position(old(state).tasks@, id),
                final(state).tasks@[position(old(state).tasks@, id)],
            ),
            r is Ok && self.shutting_down ==> settled(
                old(state).tasks@[position(old(state).tasks@, id)],
                final(state).tasks@[position(old(state).tasks@, id)],
                now,
            ),
            r is Ok && !self.shutting_down ==> final(state).tasks@[position(old(state).tasks@, id)] == ended(
                old(state).tasks@[position(old(state).tasks@, id)],
                result,
                now,
            ),
    {
        if self.shutting_down {
            state.process_lost(id, now)
        } else {
            state.process_exited(id, result, now)
        }
    }
}

} // verus!
