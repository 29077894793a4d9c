use vstd::prelude::*;
use crate::count::{count_where, ids_where, lemma_count_remove, occupies, without};
use crate::error::Error;
use crate::group::{has_group, Group, GroupStatus};
use crate::state::{deps_ok, has_task, lemma_deps_stable, lemma_limits_kept, position, State};
use crate::task::{lawful, NewTask, Selection, Task, TaskResult, TaskStatus};

verus! {

/// The time at which a submitted task is to be queued, if that time is still
/// ahead.
pub open spec fn pending_time(enqueue_at: Option<u64>, now: u64) -> Option<u64> {
    match enqueue_at {
        Some(t) => if t > now { Some(t) } else { None },
        None => None,
    }
}

/// The status that a new task begins with: stashed where the client asked for
/// it or named a time still ahead, waiting where its dependencies have not all
/// succeeded, queued otherwise.
pub open spec fn initial_status(new: NewTask, deps_met: bool, now: u64) -> TaskStatus {
    if pending_time(new.enqueue_at, now) is Some {
        TaskStatus::Stashed { enqueue_at: pending_time(new.enqueue_at, now) }
    } else if new.stashed {
        TaskStatus::Stashed { enqueue_at: None }
    } else if !deps_met {
        TaskStatus::DependencyWait
    } else {
        TaskStatus::Queued
    }
}

/// The task that a submission becomes under the given id.
pub open spec fn created(new: NewTask, id: u64, deps_met: bool, now: u64) -> Task {
    Task {
        id,
        command: new.command,
        path: new.path,
        envs: new.envs,
        group: new.group,
        status: initial_status(new, deps_met, now),
        created_at: now,
        enqueued_at: if initial_status(new, deps_met, now) is Queued { Some(now) } else { None },
        start: None,
        end: None,
        label: new.label,
        dependencies: new.dependencies,
        print_clean: new.print_clean,
        note: None,
    }
}

/// A task as it is once stashed without a time.
pub open spec fn stashed(t: Task) -> Task {
    Task { status: TaskStatus::Stashed { enqueue_at: None }, enqueued_at: None, ..t }
}

/// A stashed task after an enqueue command: stashed until the given time where
/// that is still ahead, queued otherwise.
pub open spec fn enqueued(t: Task, enqueue_at: Option<u64>, now: u64) -> Task {
    if pending_time(enqueue_at, now) is Some {
        Task { status: TaskStatus::Stashed { enqueue_at: pending_time(enqueue_at, now) }, ..t }
    } else {
        Task { status: TaskStatus::Queued, enqueued_at: Some(now), ..t }
    }
}

/// A task as it is once its process has ended.
pub open spec fn ended(t: Task, result: TaskResult, now: u64) -> Task {
    Task { status: TaskStatus::Done(result), end: Some(now), ..t }
}

/// A task in this status may be removed: it has ended or has not begun.
pub open spec fn removable(s: TaskStatus) -> bool {
    s is Done || s is Stashed || s is Queued || s is DependencyWait
}

impl State {
    /// Creates a task in an existing group and returns its id, the value of the
    /// id counter. An unknown group or an exhausted counter is refused.
    pub fn add_task(&mut self, new: NewTask, now: u64) -> (r: Result<u64, Error>)
        requires
            old(self).wf(),
        ensures
            final(self).wf(),
            final(self).groups@ == old(self).groups@,
            old(self).within_limits() ==> final(self).within_limits(),
            !has_group(old(self).groups@, new.group@) ==> r == Err::<u64, Error>(Error::GroupNotFound),
            has_group(old(self).groups@, new.group@) && old(self).next_id == u64::MAX ==> r == Err::<
                u64,
                Error,
            >(Error::StateInvariant),
            has_group(old(self).groups@, new.group@) && old(self).next_id < u64::MAX ==> r == Ok::<
                u64,
                Error,
            >(old(self).next_id),
            r is Err ==> final(self).tasks@ == old(self).tasks@ && final(self).next_id == old(
                self,
            ).next_id,
            r is Ok ==> final(self).next_id == old(self).next_id + 1 && final(self).tasks@ == old(
                self,
            ).tasks@.push(
                created(new, old(self).next_id, deps_ok(old(self).tasks@, new.dependencies@), now),
            ),
    {
        if self.find_group(&new.group).is_none() {
            return Err(Error::GroupNotFound);
        }
        if self.next_id == u64::MAX {
            return Err(Error::StateInvariant);
        }
        let id = self.next_id;
        let deps_met = self.dependencies_met(&new.dependencies);
        let pending = match new.enqueue_at {
            Some(t) => if t > now { Some(t) } else { None },
            None => None,
        };
        let status = if pending.is_some() {
            TaskStatus::Stashed { enqueue_at: pending }
        } else if new.stashed {
            TaskStatus::Stashed { enqueue_at: None }
        } else if !deps_met {
            TaskStatus::DependencyWait
        } else {
            TaskStatus::Queued
        };
        let enqueued_at = if matches!(status, TaskStatus::Queued) { Some(now) } else { None };
        let task = Task {
            id,
            command: new.command,
            path: new.path,
            envs: new.envs,
            group: new.group,
            status,
            created_at: now,
            enqueued_at,
            start: None,
            end: None,
            label: new.label,
            dependencies: new.dependencies,
            print_clean: new.print_clean,
            note: None,
        };
        self.tasks.push(task);
        self.next_id = id + 1;
        proof {
            let s = old(self).tasks@;
            assert(self.tasks@.drop_last() =~= s);
            assert forall|k: int|
                0 <= k < self.groups@.len() implies count_where(
                self.tasks@,
                occupies((#[trigger] self.groups@[k]).name@),
            ) == count_where(s, occupies(self.groups@[k].name@)) by {}
        }
        Ok(id)
    }

    /// Takes a queued or waiting task out of the queue.
    pub fn stash(&mut self, id: u64) -> (r: Result<(), Error>)
        requires
            old(self).wf(),
        ensures
            final(self).wf(),
            lawful(old(self).tasks@, final(self).tasks@),
            final(self).groups@ == old(self).groups@,
            final(self).next_id == old(self).next_id,
            old(self).within_limits() ==> final(self).within_limits(),
            r == (if !has_task(old(self).tasks@, id) {
                Err::<(), Error>(Error::TaskNotFound)
            } else if old(self).tasks@[position(old(self).tasks@, id)].status is Queued || old(
                self,
            ).tasks@[position(old(self).tasks@, id)].status is DependencyWait {
                Ok::<(), Error>(())
            } else {
                Err::<(), Error>(Error::TaskWrongState)
            }),
            r is Err ==> final(self).tasks@ == old(self).tasks@,
            r is Ok ==> final(self).tasks@ == old(self).tasks@.update(
                position(old(self).tasks@, id),
                stashed(old(self).tasks@[position(old(self).tasks@, id)]),
            ),
    {
        match self.find_task(id) {
            None => Err(Error::TaskNotFound),
            Some(p) => {
                if !matches!(self.tasks[p].status, TaskStatus::Queued | TaskStatus::DependencyWait) {
                    return Err(Error::TaskWrongState);
                }
                self.tasks[p].status = TaskStatus::Stashed { enqueue_at: None };
                self.tasks[p].enqueued_at = None;
                proof {
                    let s = old(self).tasks@;
                    assert(self.tasks@ =~= s.update(p as int, stashed(s[p as int])));
                    if old(self).within_limits() {
                        lemma_limits_kept(s, old(self).groups@, self.tasks@, self.groups@);
                    }
                }
                Ok(())
            },
        }
    }

    /// Queues a stashed task, now or at a time still ahead.
    pub fn enqueue(&mut self, id: u64, enqueue_at: Option<u64>, now: u64) -> (r: Result<(), Error>)
        requires
            old(self).wf(),
        ensures
            final(self).wf(),
            lawful(old(self).tasks@, final(self).tasks@),
            final(self).groups@ == old(self).groups@,
            final(self).next_id == old(self).next_id,
            old(self).within_limits() ==> final(self).within_limits(),
            r == (if !has_task(old(self).tasks@, id) {
                Err::<(), Error>(Error::TaskNotFound)
            } else if old(self).tasks@[position(old(self).tasks@, id)].status is Stashed {
                Ok::<(), Error>(())
            } else {
                Err::<(), Error>(Error::TaskWrongState)
            }),
            r is Err ==> final(self).tasks@ == old(self).tasks@,
            r is Ok ==> final(self).tasks@ == old(self).tasks@.update(
                position(old(self).tasks@, id),
                enqueued(old(self).tasks@[position(old(self).tasks@, id)], enqueue_at, now),
            ),
    {
        match self.find_task(id) {
            None => Err(Error::TaskNotFound),
            Some(p) => {
                if !matches!(self.tasks[p].status, TaskStatus::Stashed { .. }) {
                    return Err(Error::TaskWrongState);
                }
                let pending = match enqueue_at {
                    Some(t) => if t > now { Some(t) } else { None },
                    None => None,
                };
                if pending.is_some() {
                    self.tasks[p].status = TaskStatus::Stashed { enqueue_at: pending };
                } else {
                    self.tasks[p].status = TaskStatus::Queued;
                    self.tasks[p].enqueued_at = Some(now);
                }
                proof {
                    let s = old(self).tasks@;
                    assert(self.tasks@ =~= s.update(p as int, enqueued(s[p as int], enqueue_at, now)));
                    if old(self).within_limits() {
                        lemma_limits_kept(s, old(self).groups@, self.tasks@, self.groups@);
                    }
                }
                Ok(())
            },
        }
    }

    /// Records the end of a task's process. Only a running or paused task has
    /// one.
    pub fn process_exited(&mut self, id: u64, result: TaskResult, now: u64) -> (r: Result<(), Error>)
        requires
            old(self).wf(),
        ensures
            final(self).wf(),
            lawful(old(self).tasks@, final(self).tasks@),
            final(self).groups@ == old(self).groups@,
            final(self).next_id == old(self).next_id,
            old(self).within_limits() ==> final(self).within_limits(),
            r == (if !has_task(old(self).tasks@, id) {
                Err::<(), Error>(Error::TaskNotFound)
            } else if old(self).tasks@[position(old(self).tasks@, id)].status.is_active() {
                Ok::<(), Error>(())
            } else {
                Err::<(), Error>(Error::TaskWrongState)
            }),
            r is Err ==> final(self).tasks@ == old(self).tasks@,
            r is Ok ==> final(self).tasks@ == old(self).tasks@.update(
                position(old(self).tasks@, id),
                ended(old(self).tasks@[position(old(self).tasks@, id)], result, now),
            ),
    {
        match self.find_task(id) {
            None => Err(Error::TaskNotFound),
            Some(p) => {
                if !self.tasks[p].status.active() {
                    return Err(Error::TaskWrongState);
                }
                self.tasks[p].status = TaskStatus::Done(result);
                self.tasks[p].end = Some(now);
                proof {
                    let s = old(self).tasks@;
                    assert(self.tasks@ =~= s.update(p as int, ended(s[p as int], result, now)));
                    if old(self).within_limits() {
                        lemma_limits_kept(s, old(self).groups@, self.tasks@, self.groups@);
                    }
                }
                Ok(())
            },
        }
    }

    /// Removes a task that has ended or has not begun. A task with a process
    /// stays.
    pub fn remove(&mut self, id: u64) -> (r: Result<(), Error>)
        requires
            old(self).wf(),
        ensures
            final(self).wf(),
            final(self).groups@ == old(self).groups@,
            final(self).next_id == old(self).next_id,
            old(self).within_limits() ==> final(self).within_limits(),
            r == (if !has_task(old(self).tasks@, id) {
                Err::<(), Error>(Error::TaskNotFound)
            } else if removable(old(self).tasks@[position(old(self).tasks@, id)].status) {
                Ok::<(), Error>(())
            } else {
                Err::<(), Error>(Error::TaskWrongState)
            }),
            r is Err ==> final(self).tasks@ == old(self).tasks@,
            r is Ok ==> final(self).tasks@ == old(self).tasks@.remove(position(old(self).tasks@, id)),
    {
        match self.find_task(id) {
            None => Err(Error::TaskNotFound),
            Some(p) => {
                if self.tasks[p].status.active() || matches!(self.tasks[p].status, TaskStatus::Locked) {
                    return Err(Error::TaskWrongState);
                }
                self.remove_at(p);
                Ok(())
            },
        }
    }

    /// Exchanges command, path and environment of two queued tasks of one
    /// group. Ids, and with them the places in the queue, stay.
    pub fn switch(&mut self, a: u64, b: u64) -> (r: Result<(), Error>)
        requires
            old(self).wf(),
        ensures
            final(self).wf(),
            lawful(old(self).tasks@, final(self).tasks@),
            final(self).groups@ == old(self).groups@,
            final(self).next_id == old(self).next_id,
            old(self).within_limits() ==> final(self).within_limits(),
            r == (if !has_task(old(self).tasks@, a) || !has_task(old(self).tasks@, b) {
                Err::<(), Error>(Error::TaskNotFound)
            } else if switchable(
                old(self).tasks@[position(old(self).tasks@, a)],
                old(self).tasks@[position(old(self).tasks@, b)],
            ) {
                Ok::<(), Error>(())
            } else {
                Err::<(), Error>(Error::TaskWrongState)
            }),
            r is Err ==> final(self).tasks@ == old(self).tasks@,
            r is Ok ==> final(self).tasks@ == old(self).tasks@.update(
                position(old(self).tasks@, a),
                with_work(
                    old(self).tasks@[position(old(self).tasks@, a)],
                    old(self).tasks@[position(old(self).tasks@, b)],
                ),
            ).update(
                position(old(self).tasks@, b),
                with_work(
                    old(self).tasks@[position(old(self).tasks@, b)],
                    old(self).tasks@[position(old(self).tasks@, a)],
                ),
            ),
    {
        let pa = match self.find_task(a) {
            None => { return Err(Error::TaskNotFound); },
            Some(p) => p,
        };
        let pb = match self.find_task(b) {
            None => { return Err(Error::TaskNotFound); },
            Some(p) => p,
        };
        if !(matches!(self.tasks[pa].status, TaskStatus::Queued) && matches!(
            self.tasks[pb].status,
            TaskStatus::Queued
        ) && self.tasks[pa].group == self.tasks[pb].group) {
            return Err(Error::TaskWrongState);
        }
        let ghost s = old(self).tasks@;
        if pa == pb {
            proof {
                assert(with_work(s[pa as int], s[pa as int]) == s[pa as int]);
                assert(s =~= s.update(pa as int, s[pa as int]).update(pa as int, s[pa as int]));
            }
            return Ok(());
        }
        let lo = if pa < pb { pa } else { pb };
        let hi = if pa < pb { pb } else { pa };
        exchange_work(&mut self.tasks, lo, hi);
        proof {
            assert(self.tasks@ =~= s.update(pa as int, with_work(s[pa as int], s[pb as int])).update(
                pb as int,
                with_work(s[pb as int], s[pa as int]),
            ));
            if old(self).within_limits() {
                lemma_limits_kept(s, old(self).groups@, self.tasks@, self.groups@);
            }
        }
        Ok(())
    }

    /// Runs an ended task again, as a new task: the ended one stays as it is,
    /// and a task with the next id takes over its command, path, environment,
    /// group, label and dependencies. Returns the new id.
    pub fn restart(&mut self, id: u64, now: u64) -> (r: Result<u64, Error>)
        requires
            old(self).wf(),
        ensures
            final(self).wf(),
            final(self).groups@ == old(self).groups@,
            old(self).within_limits() ==> final(self).within_limits(),
            r == (if !has_task(old(self).tasks@, id) {
                Err::<u64, Error>(Error::TaskNotFound)
            } else if !(old(self).tasks@[position(old(self).tasks@, id)].status is Done) {
                Err::<u64, Error>(Error::TaskWrongState)
            } else if old(self).next_id == u64::MAX {
                Err::<u64, Error>(Error::StateInvariant)
            } else {
                Ok::<u64, Error>(old(self).next_id)
            }),
            r is Err ==> final(self).tasks@ == old(self).tasks@ && final(self).next_id == old(
                self,
            ).next_id,
            r is Ok ==> final(self).next_id == old(self).next_id + 1 && final(self).tasks@.len() == old(
                self,
            ).tasks@.len() + 1 && final(self).tasks@.drop_last() == old(self).tasks@ && restarted(
                old(self).tasks@,
                old(self).tasks@[position(old(self).tasks@, id)],
                final(self).tasks@.last(),
                old(self).next_id,
                now,
            ),
    {
        let p = match self.find_task(id) {
            None => { return Err(Error::TaskNotFound); },
            Some(p) => p,
        };
        if !self.tasks[p].status.done() {
            return Err(Error::TaskWrongState);
        }
        if self.next_id == u64::MAX {
            return Err(Error::StateInvariant);
        }
        let new_id = self.next_id;
        let deps_met = self.dependencies_met(&self.tasks[p].dependencies);
        let label = match &self.tasks[p].label {
            Some(l) => Some(l.clone()),
            None => None,
        };
        let task = Task {
            id: new_id,
            command: self.tasks[p].command.clone(),
            path: self.tasks[p].path.clone(),
            envs: copy_envs(&self.tasks[p].envs),
            group: self.tasks[p].group.clone(),
            status: if deps_met { TaskStatus::Queued } else { TaskStatus::DependencyWait },
            created_at: now,
            enqueued_at: if deps_met { Some(now) } else { None },
            start: None,
            end: None,
            label,
            dependencies: copy_ids(&self.tasks[p].dependencies),
            print_clean: self.tasks[p].print_clean,
            note: None,
        };
        self.tasks.push(task);
        self.next_id = new_id + 1;
        proof {
            let s = old(self).tasks@;
            assert(self.tasks@.drop_last() =~= s);
            assert forall|k: int|
                0 <= k < self.groups@.len() implies count_where(
                self.tasks@,
                occupies((#[trigger] self.groups@[k]).name@),
            ) == count_where(s, occupies(self.groups@[k].name@)) by {}
            assert(has_group(self.groups@, s[p as int].group@));
        }
        Ok(new_id)
    }

    /// The position of a task whose process takes input and signals: the task
    /// must exist and be running.
    pub fn running_task(&self, id: u64) -> (r: Result<usize, Error>)
        requires
            self.wf(),
        ensures
            r == (if !has_task(self.tasks@, id) {
                Err::<usize, Error>(Error::TaskNotFound)
            } else if self.tasks@[position(self.tasks@, id)].status is Running {
                Ok::<usize, Error>(position(self.tasks@, id) as usize)
            } else {
                Err::<usize, Error>(Error::TaskWrongState)
            }),
    {
        match self.find_task(id) {
            None => Err(Error::TaskNotFound),
            Some(p) => if matches!(self.tasks[p].status, TaskStatus::Running) {
                Ok(p)
            } else {
                Err(Error::TaskWrongState)
            },
        }
    }

    /// Takes out the task at a position, which holds no slot.
    fn remove_at(&mut self, p: usize)
        requires
            old(self).wf(),
            p < old(self).tasks@.len(),
            !old(self).tasks@[p as int].status.is_active(),
        ensures
            final(self).wf(),
            final(self).groups@ == old(self).groups@,
            final(self).next_id == old(self).next_id,
            old(self).within_limits() ==> final(self).within_limits(),
            final(self).tasks@ == old(self).tasks@.remove(p as int),
    {
        let _ = self.tasks.remove(p);
        proof {
            let s = old(self).tasks@;
            assert forall|k: int|
                0 <= k < self.groups@.len() implies count_where(
                self.tasks@,
                occupies((#[trigger] self.groups@[k]).name@),
            ) == count_where(s, occupies(self.groups@[k].name@)) by {
                lemma_count_remove(s, p as int, occupies(self.groups@[k].name@));
            }
            assert forall|i: int| 0 <= i < self.tasks@.len() implies (#[trigger] self.tasks@[i]) == s[if i
                < p { i } else { i + 1 }] by {}
        }
    }

    /// Removes every task that has ended; with `successful_only`, only those
    /// that ended successfully.
    pub fn clean(&mut self, successful_only: bool)
        requires
            old(self).wf(),
        ensures
            final(self).wf(),
            final(self).groups@ == old(self).groups@,
            final(self).next_id == old(self).next_id,
            old(self).within_limits() ==> final(self).within_limits(),
            final(self).tasks@ == without(old(self).tasks@, cleanable(successful_only)),
    {
        let mut i: usize = self.tasks.len();
        proof {
            assert(old(self).tasks@.skip(i as int) =~= Seq::<Task>::empty());
            assert(old(self).tasks@.take(i as int) =~= old(self).tasks@);
            assert(self.tasks@ =~= old(self).tasks@.take(i as int) + without(
                old(self).tasks@.skip(i as int),
                cleanable(successful_only),
            ));
        }
        while i > 0
            invariant
                self.wf(),
                self.groups@ == old(self).groups@,
                self.next_id == old(self).next_id,
                old(self).within_limits() ==> self.within_limits(),
                i <= old(self).tasks@.len(),
                self.tasks@ == old(self).tasks@.take(i as int) + without(
                    old(self).tasks@.skip(i as int),
                    cleanable(successful_only),
                ),
            decreases i,
        {
            i -= 1;
            let ghost s = old(self).tasks@;
            let ghost before_step = self.tasks@;
            proof {
                assert(s.skip(i as int).skip(1) =~= s.skip(i + 1));
                assert(s.skip(i as int)[0] == s[i as int]);
                assert(before_step[i as int] == s[i as int]);
            }
            let drop = match self.tasks[i].status {
                TaskStatus::Done(r) => !successful_only || r == TaskResult::Success,
                _ => false,
            };
            if drop {
                self.remove_at(i);
                proof {
                    assert(self.tasks@ =~= s.take(i as int) + without(
                        s.skip(i as int),
                        cleanable(successful_only),
                    ));
                }
            } else {
                proof {
                    assert(self.tasks@ =~= s.take(i as int) + without(
                        s.skip(i as int),
                        cleanable(successful_only),
                    ));
                }
            }
        }
        proof {
            assert(old(self).tasks@.skip(0) =~= old(self).tasks@);
            assert(old(self).tasks@.take(0) + without(old(self).tasks@, cleanable(successful_only))
                =~= without(old(self).tasks@, cleanable(successful_only)));
        }
    }

    /// Queues every stashed task whose time has come and every waiting task
    /// whose dependencies have all succeeded. Afterwards no stashed task has a
    /// time that is not ahead of `now`.
    pub fn tick(&mut self, now: u64)
        requires
            old(self).wf(),
        ensures
            final(self).wf(),
            lawful(old(self).tasks@, final(self).tasks@),
            final(self).groups@ == old(self).groups@,
            final(self).next_id == old(self).next_id,
            old(self).within_limits() ==> final(self).within_limits(),
            final(self).tasks@.len() == old(self).tasks@.len(),
            forall|i: int|
                0 <= i < old(self).tasks@.len() ==> (#[trigger] final(self).tasks@[i]) == (if ready(
                    old(self).tasks@,
                    old(self).tasks@[i],
                    now,
                ) {
                    queued_at(old(self).tasks@[i], now)
                } else {
                    old(self).tasks@[i]
                }),
            forall|i: int|
                0 <= i < final(self).tasks@.len() ==> !due((#[trigger] final(self).tasks@[i]).status, now),
    {
        let mut i: usize = 0;
        while i < self.tasks.len()
            invariant
                old(self).wf(),
                self.groups@ == old(self).groups@,
                self.next_id == old(self).next_id,
                self.tasks@.len() == old(self).tasks@.len(),
                i <= self.tasks@.len(),
                forall|j: int|
                    0 <= j < i ==> (#[trigger] self.tasks@[j]) == (if ready(
                        old(self).tasks@,
                        old(self).tasks@[j],
                        now,
                    ) {
                        queued_at(old(self).tasks@[j], now)
                    } else {
                        old(self).tasks@[j]
                    }),
                forall|j: int| i <= j < self.tasks@.len() ==> (#[trigger] self.tasks@[j]) == old(self).tasks@[j],
            decreases self.tasks@.len() - i,
        {
            proof {
                lemma_deps_stable(old(self).tasks@, self.tasks@, self.tasks@[i as int].dependencies@);
            }
            let is_due = match self.tasks[i].status {
                TaskStatus::Stashed { enqueue_at: Some(t) } => t <= now,
                _ => false,
            };
            let released = matches!(self.tasks[i].status, TaskStatus::DependencyWait)
                && self.dependencies_met(&self.tasks[i].dependencies);
            if is_due || released {
                self.tasks[i].status = TaskStatus::Queued;
                self.tasks[i].enqueued_at = Some(now);
            }
            i += 1;
        }
        proof {
            if old(self).within_limits() {
                lemma_limits_kept(old(self).tasks@, old(self).groups@, self.tasks@, self.groups@);
            }
        }
    }

    /// Gives every selected group the given status.
    fn set_group_status(&mut self, sel: &Selection, status: GroupStatus)
        requires
            old(self).wf(),
        ensures
            final(self).wf(),
            final(self).tasks@ == old(self).tasks@,
            final(self).next_id == old(self).next_id,
            old(self).within_limits() ==> final(self).within_limits(),
            final(self).groups@.len() == old(self).groups@.len(),
            forall|k: int|
                0 <= k < old(self).groups@.len() ==> (#[trigger] final(self).groups@[k]) == (if sel.selects_group(
                    old(self).groups@[k].name@,
                ) {
                    with_status(old(self).groups@[k], status)
                } else {
                    old(self).groups@[k]
                }),
    {
        let mut k: usize = 0;
        while k < self.groups.len()
            invariant
                self.tasks@ == old(self).tasks@,
                self.next_id == old(self).next_id,
                self.groups@.len() == old(self).groups@.len(),
                k <= self.groups@.len(),
                forall|j: int|
                    0 <= j < k ==> (#[trigger] self.groups@[j]) == (if sel.selects_group(
                        old(self).groups@[j].name@,
                    ) {
                        with_status(old(self).groups@[j], status)
                    } else {
                        old(self).groups@[j]
                    }),
                forall|j: int| k <= j < self.groups@.len() ==> (#[trigger] self.groups@[j]) == old(self).groups@[j],
            decreases self.groups@.len() - k,
        {
            if sel.matches_group(&self.groups[k].name) {
                self.groups[k].status = status;
            }
            k += 1;
        }
        proof {
            assert forall|i: int| 0 <= i < self.tasks@.len() implies has_group(
                self.groups@,
                (#[trigger] self.tasks@[i]).group@,
            ) by {
                let j = choose|j: int|
                    0 <= j < old(self).groups@.len() && (#[trigger] old(self).groups@[j]).name@
                        == self.tasks@[i].group@;
                assert(self.groups@[j].name@ == self.tasks@[i].group@);
            }
            if old(self).within_limits() {
                lemma_limits_kept(old(self).tasks@, old(self).groups@, self.tasks@, self.groups@);
            }
        }
    }

    /// Lists the selected tasks that run (`running`) or are paused (`paused`)
    /// and, where a status is given, moves each of them to it.
    fn transition(
        &mut self,
        sel: &Selection,
        running: bool,
        paused: bool,
        to: Option<TaskStatus>,
        now: u64,
    ) -> (ids: Vec<u64>)
        requires
            old(self).wf(),
        ensures
            final(self).wf(),
            final(self).groups@ == old(self).groups@,
            final(self).next_id == old(self).next_id,
            old(self).within_limits() ==> final(self).within_limits(),
            final(self).tasks@.len() == old(self).tasks@.len(),
            forall|i: int|
                0 <= i < old(self).tasks@.len() ==> (#[trigger] final(self).tasks@[i]) == (if targets(
                    *sel,
                    running,
                    paused,
                )(old(self).tasks@[i]) {
                    moved(old(self).tasks@[i], to, now)
                } else {
                    old(self).tasks@[i]
                }),
            ids@ == ids_where(old(self).tasks@, targets(*sel, running, paused)),
    {
        let mut ids: Vec<u64> = Vec::new();
        let mut i: usize = 0;
        while i < self.tasks.len()
            invariant
                self.groups@ == old(self).groups@,
                self.next_id == old(self).next_id,
                self.tasks@.len() == old(self).tasks@.len(),
                i <= self.tasks@.len(),
                forall|j: int|
                    0 <= j < i ==> (#[trigger] self.tasks@[j]) == (if targets(*sel, running, paused)(
                        old(self).tasks@[j],
                    ) {
                        moved(old(self).tasks@[j], to, now)
                    } else {
                        old(self).tasks@[j]
                    }),
                forall|j: int| i <= j < self.tasks@.len() ==> (#[trigger] self.tasks@[j]) == old(self).tasks@[j],
                ids@ == ids_where(old(self).tasks@.take(i as int), targets(*sel, running, paused)),
            decreases self.tasks@.len() - i,
        {
            proof {
                assert(old(self).tasks@.take(i + 1).drop_last() =~= old(self).tasks@.take(i as int));
            }
            let hit = sel.matches_task(&self.tasks[i]) && ((running && matches!(
                self.tasks[i].status,
                TaskStatus::Running
            )) || (paused && matches!(self.tasks[i].status, TaskStatus::Paused)));
            if hit {
                ids.push(self.tasks[i].id);
                match to {
                    Some(s) => {
                        self.tasks[i].status = s;
                        if s.done() {
                            self.tasks[i].end = Some(now);
                        }
                    },
                    None => {},
                }
            }
            i += 1;
        }
        proof {
            assert(old(self).tasks@.take(i as int) =~= old(self).tasks@);
            if old(self).within_limits() {
                lemma_targets_keep_limits(*old(self), *self, *sel, running, paused, to, now);
            }
        }
        ids
    }

    /// Pauses the selected groups and, unless the running tasks are to be
    /// waited for, the selected running tasks. Returns the ids of the tasks
    /// whose processes are to be stopped.
    pub fn pause(&mut self, sel: &Selection, wait: bool) -> (ids: Vec<u64>)
        requires
            old(self).wf(),
        ensures
            final(self).wf(),
            lawful(old(self).tasks@, final(self).tasks@),
            final(self).next_id == old(self).next_id,
            old(self).within_limits() ==> final(self).within_limits(),
            final(self).groups@.len() == old(self).groups@.len(),
            forall|k: int|
                0 <= k < old(self).groups@.len() ==> (#[trigger] final(self).groups@[k]) == (if sel.selects_group(
                    old(self).groups@[k].name@,
                ) {
                    with_status(old(self).groups@[k], GroupStatus::Paused)
                } else {
                    old(self).groups@[k]
                }),
            final(self).tasks@.len() == old(self).tasks@.len(),
            forall|i: int|
                0 <= i < old(self).tasks@.len() ==> (#[trigger] final(self).tasks@[i]) == (if !wait && targets(
                    *sel,
                    true,
                    false,
                )(old(self).tasks@[i]) {
                    moved(old(self).tasks@[i], Some(TaskStatus::Paused), 0)
                } else {
                    old(self).tasks@[i]
                }),
            ids@ == (if wait {
                Seq::<u64>::empty()
            } else {
                ids_where(old(self).tasks@, targets(*sel, true, false))
            }),
    {
        self.set_group_status(sel, GroupStatus::Paused);
        if wait {
            Vec::new()
        } else {
            self.transition(sel, true, false, Some(TaskStatus::Paused), 0)
        }
    }

    /// Lets the selected groups run and resumes the selected paused tasks.
    /// Returns the ids of the tasks whose processes are to be continued.
    pub fn start(&mut self, sel: &Selection) -> (ids: Vec<u64>)
        requires
            old(self).wf(),
        ensures
            final(self).wf(),
            lawful(old(self).tasks@, final(self).tasks@),
            final(self).next_id == old(self).next_id,
            old(self).within_limits() ==> final(self).within_limits(),
            final(self).groups@.len() == old(self).groups@.len(),
            forall|k: int|
                0 <= k < old(self).groups@.len() ==> (#[trigger] final(self).groups@[k]) == (if sel.selects_group(
                    old(self).groups@[k].name@,
                ) {
                    with_status(old(self).groups@[k], GroupStatus::Running)
                } else {
                    old(self).groups@[k]
                }),
            final(self).tasks@.len() == old(self).tasks@.len(),
            forall|i: int|
                0 <= i < old(self).tasks@.len() ==> (#[trigger] final(self).tasks@[i]) == (if targets(
                    *sel,
                    false,
                    true,
                )(old(self).tasks@[i]) {
                    moved(old(self).tasks@[i], Some(TaskStatus::Running), 0)
                } else {
                    old(self).tasks@[i]
                }),
            ids@ == ids_where(old(self).tasks@, targets(*sel, false, true)),
    {
        self.set_group_status(sel, GroupStatus::Running);
        self.transition(sel, false, true, Some(TaskStatus::Running), 0)
    }

    /// Kills the selected running and paused tasks and pauses the selected
    /// groups, so that nothing queued starts in their place. Returns the ids of
    /// the tasks whose processes get the signal. Without a signal the processes
    /// are terminated by force and the tasks end as killed at once; with one,
    /// each task ends when its process reports its exit.
    pub fn kill(&mut self, sel: &Selection, signal: Option<i32>, now: u64) -> (ids: Vec<u64>)
        requires
            old(self).wf(),
        ensures
            final(self).wf(),
            lawful(old(self).tasks@, final(self).tasks@),
            final(self).next_id == old(self).next_id,
            old(self).within_limits() ==> final(self).within_limits(),
            final(self).groups@.len() == old(self).groups@.len(),
            forall|k: int|
                0 <= k < old(self).groups@.len() ==> (#[trigger] final(self).groups@[k]) == (if sel.selects_group(
                    old(self).groups@[k].name@,
                ) {
                    with_status(old(self).groups@[k], GroupStatus::Paused)
                } else {
                    old(self).groups@[k]
                }),
            final(self).tasks@.len() == old(self).tasks@.len(),
            forall|i: int|
                0 <= i < old(self).tasks@.len() ==> (#[trigger] final(self).tasks@[i]) == (if signal is None
                    && targets(*sel, true, true)(old(self).tasks@[i]) {
                    ended(old(self).tasks@[i], TaskResult::Killed, now)
                } else {
                    old(self).tasks@[i]
                }),
            ids@ == ids_where(old(self).tasks@, targets(*sel, true, true)),
            *sel is All ==> forall|k: int|
                0 <= k < final(self).groups@.len() ==> (#[trigger] final(self).groups@[k]).status is Paused,
            *sel is All && signal is None ==> forall|i: int|
                0 <= i < final(self).tasks@.len() ==> !(#[trigger] final(self).tasks@[i]).status.is_active(),
    {
        self.set_group_status(sel, GroupStatus::Paused);
        let to = if signal.is_none() { Some(TaskStatus::Done(TaskResult::Killed)) } else { None };
        self.transition(sel, true, true, to, now)
    }

    /// Ends every task that was running or paused when the state was written:
    /// its process is gone. Such a task ends as killed, with a note that says
    /// why.
    pub fn settle_restored(&mut self, now: u64)
        requires
            old(self).wf(),
        ensures
            final(self).wf(),
            lawful(old(self).tasks@, final(self).tasks@),
            final(self).groups@ == old(self).groups@,
            final(self).next_id == old(self).next_id,
            old(self).within_limits() ==> final(self).within_limits(),
            final(self).tasks@.len() == old(self).tasks@.len(),
            forall|i: int|
                0 <= i < old(self).tasks@.len() ==> settled(
                    old(self).tasks@[i],
                    #[trigger] final(self).tasks@[i],
                    now,
                ),
            forall|i: int|
                0 <= i < final(self).tasks@.len() ==> !(#[trigger] final(self).tasks@[i]).status.is_active(),
            (forall|i: int|
                0 <= i < old(self).tasks@.len() ==> !(#[trigger] old(self).tasks@[i]).status.is_active())
                ==> final(self).tasks@ == old(self).tasks@,
    {
        let mut i: usize = 0;
        while i < self.tasks.len()
            invariant
                self.groups@ == old(self).groups@,
                self.next_id == old(self).next_id,
                self.tasks@.len() == old(self).tasks@.len(),
                i <= self.tasks@.len(),
                forall|j: int| 0 <= j < i ==> settled(old(self).tasks@[j], #[trigger] self.tasks@[j], now),
                forall|j: int| i <= j < self.tasks@.len() ==> (#[trigger] self.tasks@[j]) == old(self).tasks@[j],
            decreases self.tasks@.len() - i,
        {
            if self.tasks[i].status.active() {
                self.tasks[i].status = TaskStatus::Done(TaskResult::Killed);
                self.tasks[i].end = Some(now);
                self.tasks[i].note = Some("The process was lost when the daemon stopped.".to_owned());
            }
            i += 1;
        }
        proof {
            assert forall|j: int| 0 <= j < self.tasks@.len() implies (#[trigger] self.tasks@[j]).id == old(
                self,
            ).tasks@[j].id && self.tasks@[j].group@ == old(self).tasks@[j].group@
                && !self.tasks@[j].status.is_active() by {
                assert(settled(old(self).tasks@[j], self.tasks@[j], now));
            }
            if old(self).within_limits() {
                lemma_limits_kept(old(self).tasks@, old(self).groups@, self.tasks@, self.groups@);
            }
            if forall|j: int|
                0 <= j < old(self).tasks@.len() ==> !(#[trigger] old(self).tasks@[j]).status.is_active() {
                assert forall|j: int| 0 <= j < self.tasks@.len() implies self.tasks@[j] == old(self).tasks@[j] by {
                    assert(settled(old(self).tasks@[j], self.tasks@[j], now));
                }
                assert(self.tasks@ =~= old(self).tasks@);
            }
        }
    }

    /// The ids of the tasks that have a process: those running or paused.
    pub fn active_ids(&self) -> (ids: Vec<u64>)
        ensures
            ids@ == ids_where(self.tasks@, targets(Selection::All, true, true)),
    {
        let mut ids: Vec<u64> = Vec::new();
        let mut i: usize = 0;
        while i < self.tasks.len()
            invariant
                i <= self.tasks@.len(),
                ids@ == ids_where(self.tasks@.take(i as int), targets(Selection::All, true, true)),
            decreases self.tasks@.len() - i,
        {
            proof {
                assert(self.tasks@.take(i + 1).drop_last() =~= self.tasks@.take(i as int));
            }
            if self.tasks[i].status.active() {
                ids.push(self.tasks[i].id);
            }
            i += 1;
        }
        proof {
            assert(self.tasks@.take(i as int) =~= self.tasks@);
        }
        ids
    }

    /// Ends every task that has a process because the daemon stops: each ends
    /// as killed, with the note that says why. Returns the ids of those tasks,
    /// whose processes are to be killed.
    pub fn stop_all(&mut self, now: u64) -> (ids: Vec<u64>)
        requires
            old(self).wf(),
        ensures
            final(self).wf(),
            lawful(old(self).tasks@, final(self).tasks@),
            final(self).groups@ == old(self).groups@,
            final(self).next_id == old(self).next_id,
            old(self).within_limits() ==> final(self).within_limits(),
            final(self).tasks@.len() == old(self).tasks@.len(),
            forall|i: int|
                0 <= i < old(self).tasks@.len() ==> settled(
                    old(self).tasks@[i],
                    #[trigger] final(self).tasks@[i],
                    now,
                ),
            ids@ == ids_where(old(self).tasks@, targets(Selection::All, true, true)),
    {
        let ids = self.active_ids();
        self.settle_restored(now);
        ids
    }

    /// Records that a task's process ended because the daemon stops: the task
    /// ends as killed, with the note that says why. Only a running or paused
    /// task has a process.
    pub fn process_lost(&mut self, id: u64, now: u64) -> (r: Result<(), Error>)
        requires
            old(self).wf(),
        ensures
            final(self).wf(),
            lawful(old(self).tasks@, final(self).tasks@),
            final(self).groups@ == old(self).groups@,
            final(self).next_id == old(self).next_id,
            old(self).within_limits() ==> final(self).within_limits(),
            r == (if !has_task(old(self).tasks@, id) {
                Err::<(), Error>(Error::TaskNotFound)
            } else if old(self).tasks@[position(old(self).tasks@, id)].status.is_active() {
                Ok::<(), Error>(())
            } else {
                Err::<(), Error>(Error::TaskWrongState)
            }),
            r is Err ==> final(self).tasks@ == old(self).tasks@,
            r is Ok ==> final(self).tasks@ == old(self).tasks@.update(
                position(old(self).tasks@, id),
                final(self).tasks@[position(old(self).tasks@, id)],
            ) && settled(
                old(self).tasks@[position(old(self).tasks@, id)],
                final(self).tasks@[position(old(self).tasks@, id)],
                now,
            ),
    {
        match self.find_task(id) {
            None => Err(Error::TaskNotFound),
            Some(p) => {
                if !self.tasks[p].status.active() {
                    return Err(Error::TaskWrongState);
                }
                self.tasks[p].status = TaskStatus::Done(TaskResult::Killed);
                self.tasks[p].end = Some(now);
                self.tasks[p].note = Some("The process was lost when the daemon stopped.".to_owned());
                proof {
                    let s = old(self).tasks@;
                    assert(self.tasks@ =~= s.update(p as int, self.tasks@[p as int]));
                    if old(self).within_limits() {
                        lemma_limits_kept(s, old(self).groups@, self.tasks@, self.groups@);
                    }
                }
                Ok(())
            },
        }
    }

    /// Drops every task and lets every group run. Returns the ids of the tasks
    /// that were running or paused, whose processes are to be killed.
    pub fn reset(&mut self) -> (ids: Vec<u64>)
        requires
            old(self).wf(),
        ensures
            final(self).wf(),
            final(self).within_limits(),
            final(self).next_id == old(self).next_id,
            final(self).tasks@.len() == 0,
            final(self).groups@.len() == old(self).groups@.len(),
            forall|k: int|
                0 <= k < old(self).groups@.len() ==> (#[trigger] final(self).groups@[k]) == with_status(
                    old(self).groups@[k],
                    GroupStatus::Running,
                ),
            ids@ == ids_where(old(self).tasks@, targets(Selection::All, true, true)),
    {
        let all = Selection::All;
        let ids = self.transition(&all, true, true, None, 0);
        self.tasks.clear();
        self.set_group_status(&all, GroupStatus::Running);
        ids
    }
}

/// Exchanges command, path and environment of the tasks at two positions.
fn exchange_work(tasks: &mut Vec<Task>, lo: usize, hi: usize)
    requires
        lo < hi < old(tasks)@.len(),
    ensures
        final(tasks)@ == old(tasks)@.update(lo as int, with_work(old(tasks)@[lo as int], old(tasks)@[hi as int])).update(
            hi as int,
            with_work(old(tasks)@[hi as int], old(tasks)@[lo as int]),
        ),
{
    let ghost s = old(tasks)@;
    let th = tasks.remove(hi);
    let tl = tasks.remove(lo);
    let Task {
        id: id_h,
        command: command_h,
        path: path_h,
        envs: envs_h,
        group: group_h,
        status: status_h,
        created_at: created_h,
        enqueued_at: enqueued_h,
        start: start_h,
        end: end_h,
        label: label_h,
        dependencies: deps_h,
        print_clean: clean_h,
        note: note_h,
    } = th;
    let Task {
        id: id_l,
        command: command_l,
        path: path_l,
        envs: envs_l,
        group: group_l,
        status: status_l,
        created_at: created_l,
        enqueued_at: enqueued_l,
        start: start_l,
        end: end_l,
        label: label_l,
        dependencies: deps_l,
        print_clean: clean_l,
        note: note_l,
    } = tl;
    let nl = Task {
        id: id_l,
        command: command_h,
        path: path_h,
        envs: envs_h,
        group: group_l,
        status: status_l,
        created_at: created_l,
        enqueued_at: enqueued_l,
        start: start_l,
        end: end_l,
        label: label_l,
        dependencies: deps_l,
        print_clean: clean_l,
        note: note_l,
    };
    let nh = Task {
        id: id_h,
        command: command_l,
        path: path_l,
        envs: envs_l,
        group: group_h,
        status: status_h,
        created_at: created_h,
        enqueued_at: enqueued_h,
        start: start_h,
        end: end_h,
        label: label_h,
        dependencies: deps_h,
        print_clean: clean_h,
        note: note_h,
    };
    tasks.insert(lo, nl);
    tasks.insert(hi, nh);
    proof {
        lemma_replace_two(s, lo as int, hi as int, nl, nh);
    }
}

/// Taking two elements out and putting two in at their places replaces the two.
proof fn lemma_replace_two(s: Seq<Task>, lo: int, hi: int, nl: Task, nh: Task)
    requires
        0 <= lo < hi < s.len(),
    ensures
        s.remove(hi).remove(lo).insert(lo, nl).insert(hi, nh) =~= s.update(lo, nl).update(hi, nh),
{
    let r = s.remove(hi).remove(lo).insert(lo, nl).insert(hi, nh);
    let u = s.update(lo, nl).update(hi, nh);
    assert(r.len() == u.len());
    assert forall|i: int| 0 <= i < r.len() implies r[i] == u[i] by {
        let x = s.remove(hi).remove(lo);
        let y = x.insert(lo, nl);
        if i < lo {
            assert(y[i] == x[i]);
        } else if i == lo {
        } else if i < hi {
            assert(y[i] == x[i - 1]);
        } else if i == hi {
        } else {
            assert(y[i - 1] == x[i - 2]);
        }
    }
}

/// The task that takes the place of an ended one: the same work under a new
/// id, queued where the dependencies have succeeded and waiting otherwise.
pub open spec fn restarted(tasks: Seq<Task>, ended: Task, t: Task, id: u64, now: u64) -> bool {
    &&& t.id == id
    &&& t.command == ended.command
    &&& t.path == ended.path
    &&& t.envs@ == ended.envs@
    &&& t.group == ended.group
    &&& t.label == ended.label
    &&& t.dependencies@ == ended.dependencies@
    &&& t.print_clean == ended.print_clean
    &&& t.status == (if deps_ok(tasks, ended.dependencies@) {
        TaskStatus::Queued
    } else {
        TaskStatus::DependencyWait
    })
    &&& t.created_at == now
    &&& t.enqueued_at == (if deps_ok(tasks, ended.dependencies@) { Some(now) } else { None })
    &&& t.start is None
    &&& t.end is None
    &&& t.note is None
}

/// A copy of a list of ids.
pub(crate) fn copy_ids(v: &Vec<u64>) -> (r: Vec<u64>)
    ensures
        r@ == v@,
{
    let mut r: Vec<u64> = Vec::new();
    let mut i: usize = 0;
    while i < v.len()
        invariant
            i <= v@.len(),
            r@ == v@.take(i as int),
        decreases v@.len() - i,
    {
        r.push(v[i]);
        proof {
            assert(r@ =~= v@.take(i + 1));
        }
        i += 1;
    }
    proof {
        assert(v@.take(i as int) =~= v@);
    }
    r
}

/// A copy of an environment.
pub(crate) fn copy_envs(v: &Vec<(String, String)>) -> (r: Vec<(String, String)>)
    ensures
        r@ == v@,
{
    let mut r: Vec<(String, String)> = Vec::new();
    let mut i: usize = 0;
    while i < v.len()
        invariant
            i <= v@.len(),
            r@ == v@.take(i as int),
        decreases v@.len() - i,
    {
        let key = v[i].0.clone();
        let value = v[i].1.clone();
        r.push((key, value));
        proof {
            assert(r@ =~= v@.take(i + 1));
        }
        i += 1;
    }
    proof {
        assert(v@.take(i as int) =~= v@);
    }
    r
}

/// The note of a task that lost its process with the daemon.
pub open spec fn restore_note() -> Seq<char> {
    "The process was lost when the daemon stopped."@
}

/// A task as it is taken over from a stored state: one that had a process has
/// ended as killed, with the note that says why; any other is as it was.
pub open spec fn settled(earlier: Task, later: Task, now: u64) -> bool {
    if earlier.status.is_active() {
        &&& later == (Task { note: later.note, ..ended(earlier, TaskResult::Killed, now) })
        &&& later.note is Some
        &&& later.note->0@ == restore_note()
    } else {
        later == earlier
    }
}

/// Two tasks may exchange their work: both are queued, in one group.
pub open spec fn switchable(a: Task, b: Task) -> bool {
    a.status is Queued && b.status is Queued && a.group@ == b.group@
}

/// A task with the command, path and environment of another.
pub open spec fn with_work(t: Task, other: Task) -> Task {
    Task { command: other.command, path: other.path, envs: other.envs, ..t }
}

/// A task that has ended, or one that has ended successfully where only those
/// are asked for.
pub open spec fn cleanable(successful_only: bool) -> spec_fn(Task) -> bool {
    |t: Task|
        t.status is Done && (!successful_only || t.status == TaskStatus::Done(TaskResult::Success))
}

/// A stashed task in this status has a time, and that time is not ahead.
pub open spec fn due(s: TaskStatus, now: u64) -> bool {
    match s {
        TaskStatus::Stashed { enqueue_at: Some(t) } => t <= now,
        _ => false,
    }
}

/// A task is to be queued: its time has come, or it waits for dependencies
/// that have all succeeded.
pub open spec fn ready(tasks: Seq<Task>, t: Task, now: u64) -> bool {
    due(t.status, now) || (t.status is DependencyWait && deps_ok(tasks, t.dependencies@))
}

/// A task as it is once queued at the given time.
pub open spec fn queued_at(t: Task, now: u64) -> Task {
    Task { status: TaskStatus::Queued, enqueued_at: Some(now), ..t }
}

/// A group with another status.
pub open spec fn with_status(g: Group, status: GroupStatus) -> Group {
    Group { status, ..g }
}

/// The selected tasks that run (`running`) or are paused (`paused`).
pub open spec fn targets(sel: Selection, running: bool, paused: bool) -> spec_fn(Task) -> bool {
    |t: Task|
        sel.selects(t) && ((running && t.status is Running) || (paused && t.status is Paused))
}

/// A task moved to a status, if one is given; one that ends gets its end time.
pub open spec fn moved(t: Task, to: Option<TaskStatus>, now: u64) -> Task {
    match to {
        None => t,
        Some(s) => Task { status: s, end: if s is Done { Some(now) } else { t.end }, ..t },
    }
}

/// Moving tasks that hold a slot to another status gives no group more active
/// tasks than it had.
proof fn lemma_targets_keep_limits(
    a: State,
    b: State,
    sel: Selection,
    running: bool,
    paused: bool,
    to: Option<TaskStatus>,
    now: u64,
)
    requires
        a.within_limits(),
        b.groups@ == a.groups@,
        b.tasks@.len() == a.tasks@.len(),
        forall|i: int|
            0 <= i < a.tasks@.len() ==> (#[trigger] b.tasks@[i]) == (if targets(sel, running, paused)(
                a.tasks@[i],
            ) {
                moved(a.tasks@[i], to, now)
            } else {
                a.tasks@[i]
            }),
    ensures
        b.within_limits(),
{
    lemma_limits_kept(a.tasks@, a.groups@, b.tasks@, b.groups@);
}

} // verus!
