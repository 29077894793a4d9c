use vstd::prelude::*;
use crate::count::{count_where, lemma_count_mono, lemma_count_update, lemma_running_le_occupied, occupies, queued, runs_in};
use crate::group::GroupStatus;
use crate::state::{deps_ok, group_open, lemma_deps_stable, position, State};
use crate::task::{lawful, before, is_before, Task, TaskStatus};

verus! {

/// A task as it is once started at the given time.
pub open spec fn started_at(t: Task, now: u64) -> Task {
    Task { status: TaskStatus::Running, start: Some(now), ..t }
}

/// Some queued task has the given id.
pub open spec fn queued_with_id(tasks: Seq<Task>, id: u64) -> bool {
    exists|i: int| 0 <= i < tasks.len() && (#[trigger] tasks[i]).id == id && tasks[i].status is Queued
}

/// The task with the given id, where there is one.
pub open spec fn task_of(tasks: Seq<Task>, id: u64) -> Task {
    tasks[position(tasks, id)]
}

/// The tasks with the given ids stand in queue order: each precedes all that
/// follow it.
pub open spec fn in_queue_order(tasks: Seq<Task>, ids: Seq<u64>) -> bool {
    forall|a: int, b: int|
        0 <= a < b < ids.len() ==> before(task_of(tasks, #[trigger] ids[a]), task_of(tasks, #[trigger] ids[b]))
}

/// Every task with one of the given ids precedes the given task in queue
/// order.
pub open spec fn all_before(tasks: Seq<Task>, ids: Seq<u64>, t: Task) -> bool {
    forall|k: int| 0 <= k < ids.len() ==> before(task_of(tasks, #[trigger] ids[k]), t)
}

/// No task is overtaken: a task that is left in the queue with its
/// dependencies met stands behind every started task of its group.
pub open spec fn none_overtaken(before_tasks: Seq<Task>, after_tasks: Seq<Task>, ids: Seq<u64>) -> bool {
    forall|i: int, k: int|
        0 <= i < after_tasks.len() && 0 <= k < ids.len() && (#[trigger] after_tasks[i]).status is Queued
            && deps_ok(after_tasks, after_tasks[i].dependencies@) && after_tasks[i].group@ == task_of(
            before_tasks,
            #[trigger] ids[k],
        ).group@ ==> before(task_of(before_tasks, ids[k]), after_tasks[i])
}

/// The task with the given id was rightly started: before, it was queued with
/// its dependencies met in a group that runs, and after all starts that
/// group, where it is bounded, holds no more active tasks than its limit.
pub open spec fn rightly_started(earlier: State, later: Seq<Task>, id: u64) -> bool {
    &&& queued_with_id(earlier.tasks@, id)
    &&& deps_ok(earlier.tasks@, task_of(earlier.tasks@, id).dependencies@)
    &&& exists|k: int|
        0 <= k < earlier.groups@.len() && (#[trigger] earlier.groups@[k]).name@ == task_of(
            earlier.tasks@,
            id,
        ).group@ && earlier.groups@[k].status is Running && (earlier.groups@[k].parallel == 0
            || count_where(later, occupies(earlier.groups@[k].name@)) <= earlier.groups@[k].parallel)
}

/// No task has entered or left the successful end, and every task has kept
/// its id.
pub open spec fn same_successes(earlier: Seq<Task>, later: Seq<Task>) -> bool {
    &&& earlier.len() == later.len()
    &&& forall|i: int|
        0 <= i < earlier.len() ==> (#[trigger] later[i]).id == earlier[i].id && (later[i].status
            == TaskStatus::Done(crate::task::TaskResult::Success)) == (earlier[i].status
            == TaskStatus::Done(crate::task::TaskResult::Success))
}

/// In a valid state a task is found at its own position.
pub proof fn lemma_position(s: State, i: int)
    requires
        s.wf(),
        0 <= i < s.tasks@.len(),
    ensures
        position(s.tasks@, s.tasks@[i].id) == i,
{
    let p = position(s.tasks@, s.tasks@[i].id);
    if p < i {
        assert(s.tasks@[p].id < s.tasks@[i].id);
    }
    if i < p {
        assert(s.tasks@[i].id < s.tasks@[p].id);
    }
}

/// Starting a task makes no other task startable: what can be started after
/// the start could be started before it.
proof fn lemma_startable_shrinks(cur: State, next: State, b: int, now: u64, j: int)
    requires
        cur.wf(),
        next.groups@ == cur.groups@,
        0 <= b < cur.tasks@.len(),
        cur.tasks@[b].status is Queued,
        next.tasks@ == cur.tasks@.update(b, started_at(cur.tasks@[b], now)),
        next.startable(j),
    ensures
        cur.startable(j),
        j != b,
{
    lemma_deps_stable(cur.tasks@, next.tasks@, next.tasks@[j].dependencies@);
    let k = choose|k: int|
        0 <= k < next.groups@.len() && (#[trigger] next.groups@[k]).name@ == next.tasks@[j].group@
            && group_open(next.tasks@, next.groups@[k]);
    lemma_count_update(
        cur.tasks@,
        b,
        started_at(cur.tasks@[b], now),
        occupies(cur.groups@[k].name@),
    );
    assert(group_open(cur.tasks@, cur.groups@[k]));
}

/// In a state within its limits, no bounded group has more running tasks than
/// its limit.
pub proof fn lemma_running_within_limit(s: State, k: int)
    requires
        s.within_limits(),
        0 <= k < s.groups@.len(),
        s.groups@[k].parallel > 0,
    ensures
        count_where(s.tasks@, runs_in(s.groups@[k].name@)) <= s.groups@[k].parallel,
{
    lemma_running_le_occupied(s.tasks@, s.groups@[k].name@);
}

/// What every transition ensures of the states before and after it, but for
/// a limit that is set below the number of active tasks: limits that held
/// keep holding.
pub open spec fn keeps_limits(earlier: State, later: State) -> bool {
    earlier.within_limits() ==> later.within_limits()
}

/// A run is a sequence of states that begins within its limits, as a new and
/// a restored state do, and in which each state comes from the one before it
/// by a transition that keeps limits.
pub open spec fn run_within_limits(run: Seq<State>) -> bool {
    &&& run.len() > 0
    &&& run[0].within_limits()
    &&& forall|j: int| 0 <= j < run.len() - 1 ==> keeps_limits(#[trigger] run[j], run[j + 1])
}

/// Every state of a run is within its limits.
pub proof fn lemma_run_stays_within_limits(run: Seq<State>, i: int)
    requires
        run_within_limits(run),
        0 <= i < run.len(),
    ensures
        run[i].within_limits(),
    decreases i,
{
    if i > 0 {
        lemma_run_stays_within_limits(run, i - 1);
        assert(keeps_limits(run[i - 1], run[i]));
    }
}

/// In every state of a run, every bounded group has no more running tasks
/// than its limit.
pub proof fn lemma_running_within_limit_in_every_state(run: Seq<State>, i: int, k: int)
    requires
        run_within_limits(run),
        0 <= i < run.len(),
        0 <= k < run[i].groups@.len(),
        run[i].groups@[k].parallel > 0,
    ensures
        count_where(run[i].tasks@, runs_in(run[i].groups@[k].name@)) <= run[i].groups@[k].parallel,
{
    lemma_run_stays_within_limits(run, i);
    lemma_running_within_limit(run[i], k);
}

/// A task of a bounded group whose slots are all taken is not startable,
/// whatever else holds of it: while a group has more active tasks than a
/// lowered limit allows, none of its tasks is started.
pub proof fn lemma_full_group_starts_nothing(s: State, i: int, k: int)
    requires
        s.wf(),
        0 <= i < s.tasks@.len(),
        0 <= k < s.groups@.len(),
        s.groups@[k].name@ == s.tasks@[i].group@,
        s.groups@[k].parallel > 0,
        count_where(s.tasks@, occupies(s.groups@[k].name@)) >= s.groups@[k].parallel,
    ensures
        !s.startable(i),
{
    if s.startable(i) {
        let k2 = choose|k2: int|
            0 <= k2 < s.groups@.len() && (#[trigger] s.groups@[k2]).name@ == s.tasks@[i].group@
                && group_open(s.tasks@, s.groups@[k2]);
        if k2 < k {
            assert(s.groups@[k2].name@ != s.groups@[k].name@);
        }
        if k < k2 {
            assert(s.groups@[k].name@ != s.groups@[k2].name@);
        }
    }
}

/// A scheduler run starts no task in a bounded group whose slots are all
/// taken: after a limit was lowered to or below the number of active tasks,
/// the group gets no new task until enough of them have ended. `later` and
/// `started` are what a run makes of `earlier`.
pub proof fn lemma_full_group_gets_no_start(
    earlier: State,
    later: Seq<Task>,
    started: Seq<u64>,
    now: u64,
    g: int,
    k: int,
)
    requires
        earlier.wf(),
        later.len() == earlier.tasks@.len(),
        forall|i: int|
            0 <= i < later.len() ==> (#[trigger] later[i]) == (if started.contains(earlier.tasks@[i].id) {
                started_at(earlier.tasks@[i], now)
            } else {
                earlier.tasks@[i]
            }),
        0 <= k < started.len(),
        rightly_started(earlier, later, started[k]),
        0 <= g < earlier.groups@.len(),
        earlier.groups@[g].parallel > 0,
        count_where(earlier.tasks@, occupies(earlier.groups@[g].name@)) >= earlier.groups@[g].parallel,
    ensures
        task_of(earlier.tasks@, started[k]).group@ != earlier.groups@[g].name@,
{
    let id = started[k];
    let t = task_of(earlier.tasks@, id);
    if t.group@ == earlier.groups@[g].name@ {
        let i = choose|i: int|
            0 <= i < earlier.tasks@.len() && (#[trigger] earlier.tasks@[i]).id == id
                && earlier.tasks@[i].status is Queued;
        lemma_position(earlier, i);
        assert(started.contains(id));
        assert(later[i] == started_at(earlier.tasks@[i], now));
        let p = occupies(earlier.groups@[g].name@);
        let mid = earlier.tasks@.update(i, later[i]);
        lemma_count_update(earlier.tasks@, i, later[i], p);
        assert forall|j: int| 0 <= j < later.len() && p(#[trigger] mid[j]) implies p(later[j]) by {
            if j != i {
                assert(mid[j] == earlier.tasks@[j]);
            }
        }
        lemma_count_mono(later, p, mid, p);
        let kk = choose|kk: int|
            0 <= kk < earlier.groups@.len() && (#[trigger] earlier.groups@[kk]).name@ == t.group@
                && earlier.groups@[kk].status is Running && (earlier.groups@[kk].parallel == 0
                || count_where(later, occupies(earlier.groups@[kk].name@))
                <= earlier.groups@[kk].parallel);
        if kk < g {
            assert(earlier.groups@[kk].name@ != earlier.groups@[g].name@);
        }
        if g < kk {
            assert(earlier.groups@[g].name@ != earlier.groups@[kk].name@);
        }
        assert(false);
    }
}

/// A task of a group that does not run is not startable.
pub proof fn lemma_paused_group_starts_nothing(s: State, i: int, k: int)
    requires
        s.wf(),
        0 <= i < s.tasks@.len(),
        0 <= k < s.groups@.len(),
        s.groups@[k].name@ == s.tasks@[i].group@,
        !(s.groups@[k].status is Running),
    ensures
        !s.startable(i),
{
    if s.startable(i) {
        let k2 = choose|k2: int|
            0 <= k2 < s.groups@.len() && (#[trigger] s.groups@[k2]).name@ == s.tasks@[i].group@
                && group_open(s.tasks@, s.groups@[k2]);
        if k2 < k {
            assert(s.groups@[k2].name@ != s.groups@[k].name@);
        }
        if k < k2 {
            assert(s.groups@[k].name@ != s.groups@[k2].name@);
        }
    }
}

impl State {
    /// Whether the task at a position could be started now.
    pub fn can_start(&self, i: usize) -> (r: bool)
        requires
            self.wf(),
            i < self.tasks@.len(),
        ensures
            r == self.startable(i as int),
    {
        if !(self.tasks[i].status == TaskStatus::Queued) {
            return false;
        }
        if !self.dependencies_met(&self.tasks[i].dependencies) {
            return false;
        }
        match self.find_group(&self.tasks[i].group) {
            None => false,
            Some(k) => {
                let open = self.groups[k].status == GroupStatus::Running && (self.groups[k].parallel
                    == 0 || self.occupied(&self.groups[k].name) < self.groups[k].parallel);
                proof {
                    assert(open == group_open(self.tasks@, self.groups@[k as int]));
                    if !open {
                        assert forall|j: int|
                            0 <= j < self.groups@.len() && (#[trigger] self.groups@[j]).name@
                                == self.tasks@[i as int].group@ implies !group_open(
                            self.tasks@,
                            self.groups@[j],
                        ) by {
                            assert(j == k);
                        }
                    }
                }
                open
            },
        }
    }

    /// The startable task that stands first in queue order, if any task is
    /// startable.
    pub fn next_startable(&self) -> (r: Option<usize>)
        requires
            self.wf(),
        ensures
            match r {
                Some(b) => self.first_startable(b as int),
                None => forall|j: int| !self.startable(j),
            },
    {
        let mut best: Option<usize> = None;
        let mut i: usize = 0;
        while i < self.tasks.len()
            invariant
                self.wf(),
                i <= self.tasks@.len(),
                match best {
                    Some(b) => b < i && self.startable(b as int) && forall|j: int|
                        0 <= j < i && j != b && self.startable(j) ==> before(
                            self.tasks@[b as int],
                            #[trigger] self.tasks@[j],
                        ),
                    None => forall|j: int| 0 <= j < i ==> !self.startable(j),
                },
            decreases self.tasks@.len() - i,
        {
            if self.can_start(i) {
                match best {
                    None => {
                        best = Some(i);
                    },
                    Some(b) => {
                        if is_before(&self.tasks[i], &self.tasks[b]) {
                            best = Some(i);
                        }
                    },
                }
            }
            i += 1;
        }
        best
    }

    /// The task at a position is startable and precedes every other startable
    /// task in queue order.
    pub open spec fn first_startable(&self, b: int) -> bool {
        &&& self.startable(b)
        &&& forall|j: int|
            0 <= j < self.tasks@.len() && j != b && self.startable(j) ==> before(
                self.tasks@[b],
                #[trigger] self.tasks@[j],
            )
    }

    /// Starts the startable task that stands first in queue order and returns
    /// its id; the caller spawns its process. Without a startable task nothing
    /// changes.
    pub fn start_next(&mut self, now: u64) -> (r: Option<u64>)
        requires
            old(self).wf(),
        ensures
            final(self).wf(),
            lawful(old(self).tasks@, final(self).tasks@),
            final(self).groups@ == old(self).groups@,
            final(self).next_id == old(self).next_id,
            old(self).within_limits() ==> final(self).within_limits(),
            match r {
                None => final(self).tasks@ == old(self).tasks@ && (forall|j: int| !old(self).startable(j))
                    && (forall|j: int| !final(self).startable(j)),
                Some(id) => exists|b: int|
                    #![trigger old(self).tasks@[b]]
                    old(self).first_startable(b) && old(self).tasks@[b].id == id && final(self).tasks@
                        == old(self).tasks@.update(b, started_at(old(self).tasks@[b], now)),
            },
    {
        match self.next_startable() {
            None => None,
            Some(b) => {
                let id = self.tasks[b].id;
                self.tasks[b].status = TaskStatus::Running;
                self.tasks[b].start = Some(now);
                proof {
                    let s = old(self).tasks@;
                    let t = started_at(s[b as int], now);
                    assert(self.tasks@ =~= s.update(b as int, t));
                    assert forall|k: int|
                        0 <= k < self.groups@.len() && (#[trigger] self.groups@[k]).parallel
                            > 0 && old(self).within_limits() implies count_where(
                        self.tasks@,
                        occupies(self.groups@[k].name@),
                    ) <= self.groups@[k].parallel by {
                        lemma_count_update(s, b as int, t, occupies(self.groups@[k].name@));
                        if self.groups@[k].name@ == s[b as int].group@ {
                            let k2 = choose|k2: int|
                                0 <= k2 < self.groups@.len() && (#[trigger] self.groups@[k2]).name@
                                    == s[b as int].group@ && group_open(s, self.groups@[k2]);
                            assert(k2 == k);
                        }
                    }
                    assert forall|i: int| 0 <= i < self.tasks@.len() implies (
                    #[trigger] self.tasks@[i]).id == s[i].id && self.tasks@[i].group@ == s[i].group@ by {}
                }
                Some(id)
            },
        }
    }

    /// Starts every task that can be started, one after the other in queue
    /// order, and returns their ids in the order of their start. Afterwards no
    /// task is startable, so a second run starts nothing.
    pub fn schedule(&mut self, now: u64) -> (started: Vec<u64>)
        requires
            old(self).wf(),
        ensures
            final(self).wf(),
            lawful(old(self).tasks@, final(self).tasks@),
            final(self).groups@ == old(self).groups@,
            final(self).next_id == old(self).next_id,
            old(self).within_limits() ==> final(self).within_limits(),
            forall|j: int| !final(self).startable(j),
            final(self).tasks@.len() == old(self).tasks@.len(),
            started@.no_duplicates(),
            forall|i: int|
                0 <= i < old(self).tasks@.len() ==> (#[trigger] final(self).tasks@[i]) == (if started@.contains(
                    old(self).tasks@[i].id,
                ) {
                    started_at(old(self).tasks@[i], now)
                } else {
                    old(self).tasks@[i]
                }),
            forall|k: int|
                0 <= k < started@.len() ==> rightly_started(
                    *old(self),
                    final(self).tasks@,
                    #[trigger] started@[k],
                ),
            in_queue_order(old(self).tasks@, started@),
            none_overtaken(old(self).tasks@, final(self).tasks@, started@),
            (forall|j: int| !old(self).startable(j)) ==> started@.len() == 0 && final(self).tasks@ == old(
                self,
            ).tasks@,
    {
        let mut started: Vec<u64> = Vec::new();
        loop
            invariant
                self.wf(),
                self.groups@ == old(self).groups@,
                self.next_id == old(self).next_id,
                old(self).within_limits() ==> self.within_limits(),
                self.tasks@.len() == old(self).tasks@.len(),
                started@.no_duplicates(),
                forall|i: int|
                    0 <= i < old(self).tasks@.len() ==> (#[trigger] self.tasks@[i]) == (if started@.contains(
                        old(self).tasks@[i].id,
                    ) {
                        started_at(old(self).tasks@[i], now)
                    } else {
                        old(self).tasks@[i]
                    }),
                forall|k: int|
                    0 <= k < started@.len() ==> queued_with_id(old(self).tasks@, #[trigger] started@[k]),
                old(self).wf(),
                in_queue_order(old(self).tasks@, started@),
                none_overtaken(old(self).tasks@, self.tasks@, started@),
                same_successes(old(self).tasks@, self.tasks@),
                forall|k: int|
                    0 <= k < started@.len() ==> rightly_started(*old(self), self.tasks@, #[trigger] started@[k]),
                (forall|j: int| !old(self).startable(j)) ==> started@.len() == 0 && self.tasks@ == old(
                    self,
                ).tasks@,
                forall|j: int| #[trigger] self.startable(j) ==> all_before(
                    old(self).tasks@,
                    started@,
                    old(self).tasks@[j],
                ),
            ensures
                forall|j: int| !self.startable(j),
            decreases count_where(self.tasks@, queued()),
        {
            let ghost before_step = self.tasks@;
            let ghost before_ids = started@;
            let ghost cur = *self;
            match self.start_next(now) {
                None => {
                    break ;
                },
                Some(id) => {
                    started.push(id);
                    proof {
                        let b = choose|b: int|
                            #![trigger cur.tasks@[b]]
                            cur.first_startable(b) && cur.tasks@[b].id == id && self.tasks@
                                == cur.tasks@.update(b, started_at(cur.tasks@[b], now));
                        lemma_count_update(before_step, b, started_at(before_step[b], now), queued());
                        lemma_position(*old(self), b);
                        assert(cur.startable(b));
                        if cur.tasks@ == old(self).tasks@ {
                            assert(old(self).startable(b));
                        }
                        assert(all_before(old(self).tasks@, before_ids, old(self).tasks@[b]));
                        assert forall|x: int, y: int| 0 <= x < y < started@.len() implies before(
                            task_of(old(self).tasks@, #[trigger] started@[x]),
                            task_of(old(self).tasks@, #[trigger] started@[y]),
                        ) by {
                            assert(started@[x] == before_ids[x]);
                            if y < before_ids.len() {
                                assert(started@[y] == before_ids[y]);
                            }
                        }
                        let wb = choose|kk: int|
                            0 <= kk < cur.groups@.len() && (#[trigger] cur.groups@[kk]).name@
                                == cur.tasks@[b].group@ && group_open(cur.tasks@, cur.groups@[kk]);
                        assert forall|k: int| 0 <= k < started@.len() implies rightly_started(
                            *old(self),
                            self.tasks@,
                            #[trigger] started@[k],
                        ) by {
                            if k < before_ids.len() {
                                assert(started@[k] == before_ids[k]);
                                assert(rightly_started(*old(self), cur.tasks@, before_ids[k]));
                                let t = task_of(old(self).tasks@, before_ids[k]);
                                let kk = choose|kk: int|
                                    0 <= kk < old(self).groups@.len() && (#[trigger] old(self).groups@[kk]).name@
                                        == t.group@ && old(self).groups@[kk].status is Running && (old(
                                        self,
                                    ).groups@[kk].parallel == 0 || count_where(
                                        cur.tasks@,
                                        occupies(old(self).groups@[kk].name@),
                                    ) <= old(self).groups@[kk].parallel);
                                lemma_count_update(
                                    cur.tasks@,
                                    b,
                                    started_at(cur.tasks@[b], now),
                                    occupies(old(self).groups@[kk].name@),
                                );
                                if kk < wb {
                                    assert(cur.groups@[kk].name@ != cur.groups@[wb].name@);
                                }
                                if wb < kk {
                                    assert(cur.groups@[wb].name@ != cur.groups@[kk].name@);
                                }
                                assert(old(self).groups@[kk].parallel == 0 || count_where(
                                    self.tasks@,
                                    occupies(old(self).groups@[kk].name@),
                                ) <= old(self).groups@[kk].parallel);
                            } else {
                                assert(started@[k] == id);
                                lemma_deps_stable(
                                    old(self).tasks@,
                                    cur.tasks@,
                                    old(self).tasks@[b].dependencies@,
                                );
                                lemma_count_update(
                                    cur.tasks@,
                                    b,
                                    started_at(cur.tasks@[b], now),
                                    occupies(cur.groups@[wb].name@),
                                );
                                assert(old(self).groups@[wb].name@ == old(self).tasks@[b].group@);
                                assert(queued_with_id(old(self).tasks@, id));
                            }
                        }
                        assert forall|i: int, k: int|
                            0 <= i < self.tasks@.len() && 0 <= k < started@.len() && (
                            #[trigger] self.tasks@[i]).status is Queued && deps_ok(
                                self.tasks@,
                                self.tasks@[i].dependencies@,
                            ) && self.tasks@[i].group@ == task_of(old(self).tasks@, #[trigger] started@[k]).group@
                            implies before(task_of(old(self).tasks@, started@[k]), self.tasks@[i]) by {
                            lemma_deps_stable(cur.tasks@, self.tasks@, self.tasks@[i].dependencies@);
                            assert(i != b);
                            assert(cur.tasks@[i] == self.tasks@[i]);
                            if k < before_ids.len() {
                                assert(started@[k] == before_ids[k]);
                            } else {
                                let kk = choose|kk: int|
                                    0 <= kk < cur.groups@.len() && (#[trigger] cur.groups@[kk]).name@
                                        == cur.tasks@[b].group@ && group_open(cur.tasks@, cur.groups@[kk]);
                                assert(cur.groups@[kk].name@ == cur.tasks@[i].group@);
                                assert(cur.startable(i));
                                assert(before(cur.tasks@[b], cur.tasks@[i]));
                            }
                        }
                        assert forall|j: int| #[trigger] self.startable(j) implies all_before(
                            old(self).tasks@,
                            started@,
                            old(self).tasks@[j],
                        ) by {
                            lemma_startable_shrinks(cur, *self, b, now, j);
                            assert(all_before(old(self).tasks@, before_ids, old(self).tasks@[j]));
                            assert(before(cur.tasks@[b], cur.tasks@[j]));
                            assert forall|k: int| 0 <= k < started@.len() implies before(
                                task_of(old(self).tasks@, #[trigger] started@[k]),
                                old(self).tasks@[j],
                            ) by {
                                if k < before_ids.len() {
                                    assert(started@[k] == before_ids[k]);
                                }
                            }
                        }
                        assert(!before_ids.contains(id));
                        assert(before_step[b] == old(self).tasks@[b]);
                        assert forall|x: u64| started@.contains(x) == (before_ids.contains(x) || x == id) by {
                            if before_ids.contains(x) {
                                let k = choose|k: int| 0 <= k < before_ids.len() && before_ids[k] == x;
                                assert(started@[k] == x);
                            }
                            if x == id {
                                assert(started@[before_ids.len() as int] == x);
                            }
                        }
                        assert forall|i: int| 0 <= i < old(self).tasks@.len() implies (
                        #[trigger] self.tasks@[i]) == (if started@.contains(old(self).tasks@[i].id) {
                            started_at(old(self).tasks@[i], now)
                        } else {
                            old(self).tasks@[i]
                        }) by {
                            if i != b {
                                assert(old(self).tasks@[i].id != old(self).tasks@[b].id);
                            }
                        }
                        assert forall|k: int| 0 <= k < started@.len() implies queued_with_id(
                            old(self).tasks@,
                            #[trigger] started@[k],
                        ) by {
                            if k == before_ids.len() {
                                assert(old(self).tasks@[b].id == started@[k]);
                            } else {
                                assert(started@[k] == before_ids[k]);
                            }
                        }
                    }
                },
            }
        }
        started
    }
}

} // verus!
