use vstd::prelude::*;
use crate::commands::{enqueued, removable, stashed};
use crate::error::Error;
use crate::state::{has_task, position, State};
use crate::task::Task;

verus! {

/// What a command on one task answers.
pub type Answer = Result<(), Error>;

/// The tasks after a command was applied to each id in turn. A command that
/// is refused for one id changes nothing, and the next id is taken up.
pub open spec fn after_all(
    tasks: Seq<Task>,
    ids: Seq<u64>,
    step: spec_fn(Seq<Task>, u64) -> Seq<Task>,
) -> Seq<Task>
    decreases ids.len(),
{
    if ids.len() == 0 {
        tasks
    } else {
        step(after_all(tasks, ids.drop_last(), step), ids.last())
    }
}

/// The first refusal among the answers to a command applied to each id in
/// turn, if there is one.
pub open spec fn first_error(
    tasks: Seq<Task>,
    ids: Seq<u64>,
    step: spec_fn(Seq<Task>, u64) -> Seq<Task>,
    answer: spec_fn(Seq<Task>, u64) -> Answer,
) -> Option<Error>
    decreases ids.len(),
{
    if ids.len() == 0 {
        None
    } else {
        match first_error(tasks, ids.drop_last(), step, answer) {
            Some(e) => Some(e),
            None => match answer(after_all(tasks, ids.drop_last(), step), ids.last()) {
                Err(e) => Some(e),
                Ok(_) => None,
            },
        }
    }
}

/// The answer to a command that asks a condition of the task's status.
pub open spec fn answer_where(tasks: Seq<Task>, id: u64, fits: bool) -> Answer {
    if !has_task(tasks, id) {
        Err(Error::TaskNotFound)
    } else if fits {
        Ok(())
    } else {
        Err(Error::TaskWrongState)
    }
}

/// The answer to stashing one task.
pub open spec fn stash_answer() -> spec_fn(Seq<Task>, u64) -> Answer {
    |tasks: Seq<Task>, id: u64|
        answer_where(
            tasks,
            id,
            tasks[position(tasks, id)].status is Queued || tasks[position(tasks, id)].status is DependencyWait,
        )
}

/// The tasks after stashing one of them.
pub open spec fn stash_step() -> spec_fn(Seq<Task>, u64) -> Seq<Task> {
    |tasks: Seq<Task>, id: u64|
        if stash_answer()(tasks, id) is Ok {
            tasks.update(position(tasks, id), stashed(tasks[position(tasks, id)]))
        } else {
            tasks
        }
}

/// The answer to enqueueing one task.
pub open spec fn enqueue_answer() -> spec_fn(Seq<Task>, u64) -> Answer {
    |tasks: Seq<Task>, id: u64| answer_where(tasks, id, tasks[position(tasks, id)].status is Stashed)
}

/// The tasks after enqueueing one of them.
pub open spec fn enqueue_step(enqueue_at: Option<u64>, now: u64) -> spec_fn(Seq<Task>, u64) -> Seq<Task> {
    |tasks: Seq<Task>, id: u64|
        if enqueue_answer()(tasks, id) is Ok {
            tasks.update(position(tasks, id), enqueued(tasks[position(tasks, id)], enqueue_at, now))
        } else {
            tasks
        }
}

/// The answer to removing one task.
pub open spec fn remove_answer() -> spec_fn(Seq<Task>, u64) -> Answer {
    |tasks: Seq<Task>, id: u64| answer_where(tasks, id, removable(tasks[position(tasks, id)].status))
}

/// The tasks after removing one of them.
pub open spec fn remove_step() -> spec_fn(Seq<Task>, u64) -> Seq<Task> {
    |tasks: Seq<Task>, id: u64|
        if remove_answer()(tasks, id) is Ok {
            tasks.remove(position(tasks, id))
        } else {
            tasks
        }
}

impl State {
    /// Stashes each of the given tasks in turn. A task that cannot be stashed is
    /// passed over; the first refusal is returned.
    pub fn stash_each(&mut self, ids: &Vec<u64>) -> (r: Answer)
        requires
            old(self).wf(),
        ensures
            final(self).wf(),
            final(self).groups@ == old(self).groups@,
            final(self).next_id == old(self).next_id,
            old(self).within_limits() ==> final(self).within_limits(),
            final(self).tasks@ == after_all(old(self).tasks@, ids@, stash_step()),
            r == (match first_error(old(self).tasks@, ids@, stash_step(), stash_answer()) {
                Some(e) => Err::<(), Error>(e),
                None => Ok::<(), Error>(()),
            }),
    {
        let mut first: Option<Error> = None;
        let mut i: usize = 0;
        while i < ids.len()
            invariant
                i <= ids@.len(),
                self.wf(),
                self.groups@ == old(self).groups@,
                self.next_id == old(self).next_id,
                old(self).within_limits() ==> self.within_limits(),
                self.tasks@ == after_all(old(self).tasks@, ids@.take(i as int), stash_step()),
                first == first_error(old(self).tasks@, ids@.take(i as int), stash_step(), stash_answer()),
            decreases ids@.len() - i,
        {
            proof {
                assert(ids@.take(i + 1).drop_last() =~= ids@.take(i as int));
            }
            match self.stash(ids[i]) {
                Ok(()) => {},
                Err(e) => {
                    if first.is_none() {
                        first = Some(e);
                    }
                },
            }
            i += 1;
        }
        proof {
            assert(ids@.take(i as int) =~= ids@);
        }
        match first {
            Some(e) => Err(e),
            None => Ok(()),
        }
    }

    /// Enqueues each of the given tasks in turn. A task that cannot be enqueued
    /// is passed over; the first refusal is returned.
    pub fn enqueue_each(&mut self, ids: &Vec<u64>, enqueue_at: Option<u64>, now: u64) -> (r: Answer)
        requires
            old(self).wf(),
        ensures
            final(self).wf(),
            final(self).groups@ == old(self).groups@,
            final(self).next_id == old(self).next_id,
            old(self).within_limits() ==> final(self).within_limits(),
            final(self).tasks@ == after_all(old(self).tasks@, ids@, enqueue_step(enqueue_at, now)),
            r == (match first_error(old(self).tasks@, ids@, enqueue_step(enqueue_at, now), enqueue_answer()) {
                Some(e) => Err::<(), Error>(e),
                None => Ok::<(), Error>(()),
            }),
    {
        let mut first: Option<Error> = None;
        let mut i: usize = 0;
        while i < ids.len()
            invariant
                i <= ids@.len(),
                self.wf(),
                self.groups@ == old(self).groups@,
                self.next_id == old(self).next_id,
                old(self).within_limits() ==> self.within_limits(),
                self.tasks@ == after_all(old(self).tasks@, ids@.take(i as int), enqueue_step(enqueue_at, now)),
                first == first_error(old(self).tasks@, ids@.take(i as int), enqueue_step(enqueue_at, now), enqueue_answer()),
            decreases ids@.len() - i,
        {
            proof {
                assert(ids@.take(i + 1).drop_last() =~= ids@.take(i as int));
            }
            match self.enqueue(ids[i], enqueue_at, now) {
                Ok(()) => {},
                Err(e) => {
                    if first.is_none() {
                        first = Some(e);
                    }
                },
            }
            i += 1;
        }
        proof {
            assert(ids@.take(i as int) =~= ids@);
        }
        match first {
            Some(e) => Err(e),
            None => Ok(()),
        }
    }

    /// Removes each of the given tasks in turn. A task that cannot be removed is
    /// passed over; the first refusal is returned.
    pub fn remove_each(&mut self, ids: &Vec<u64>) -> (r: Answer)
        requires
            old(self).wf(),
        ensures
            final(self).wf(),
            final(self).groups@ == old(self).groups@,
            final(self).next_id == old(self).next_id,
            old(self).within_limits() ==> final(self).within_limits(),
            final(self).tasks@ == after_all(old(self).tasks@, ids@, remove_step()),
            r == (match first_error(old(self).tasks@, ids@, remove_step(), remove_answer()) {
                Some(e) => Err::<(), Error>(e),
                None => Ok::<(), Error>(()),
            }),
    {
        let mut first: Option<Error> = None;
        let mut i: usize = 0;
        while i < ids.len()
            invariant
                i <= ids@.len(),
                self.wf(),
                self.groups@ == old(self).groups@,
                self.next_id == old(self).next_id,
                old(self).within_limits() ==> self.within_limits(),
                self.tasks@ == after_all(old(self).tasks@, ids@.take(i as int), remove_step()),
                first == first_error(old(self).tasks@, ids@.take(i as int), remove_step(), remove_answer()),
            decreases ids@.len() - i,
        {
            proof {
                assert(ids@.take(i + 1).drop_last() =~= ids@.take(i as int));
            }
            match self.remove(ids[i]) {
                Ok(()) => {},
                Err(e) => {
                    if first.is_none() {
                        first = Some(e);
                    }
                },
            }
            i += 1;
        }
        proof {
            assert(ids@.take(i as int) =~= ids@);
        }
        match first {
            Some(e) => Err(e),
            None => Ok(()),
        }
    }
}

} // verus!
