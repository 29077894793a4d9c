use vstd::prelude::*;
use crate::count::{count_where, lemma_count_bound, lemma_count_mono, occupies};
use crate::group::{distinct_names, has_group, valid_group_name, Group, GroupStatus};
use crate::task::{Task, TaskResult, TaskStatus};

verus! {

/// The canonical state: every task, every group, and the id that the next task
/// gets. Tasks stand in ascending order of their ids, so that an id names at
/// most one of them; group names are pairwise different, and the default
/// group stands first. Both are kept as sequences with these invariants, which
/// every contract can speak of position by position.
pub struct State {
    pub tasks: Vec<Task>,
    pub groups: Vec<Group>,
    pub next_id: u64,
}

/// Some task with the given id has ended successfully.
pub open spec fn succeeded(tasks: Seq<Task>, id: u64) -> bool {
    exists|j: int|
        0 <= j < tasks.len() && (#[trigger] tasks[j]).id == id && tasks[j].status == TaskStatus::Done(
            TaskResult::Success,
        )
}

/// Every listed dependency has ended successfully.
pub open spec fn deps_ok(tasks: Seq<Task>, deps: Seq<u64>) -> bool {
    forall|d: int| 0 <= d < deps.len() ==> succeeded(tasks, #[trigger] deps[d])
}

/// A group may take one more active task.
pub open spec fn group_open(tasks: Seq<Task>, g: Group) -> bool {
    g.status is Running && (g.parallel == 0 || count_where(tasks, occupies(g.name@)) < g.parallel)
}

/// Some task has the given id.
pub open spec fn has_task(tasks: Seq<Task>, id: u64) -> bool {
    exists|i: int| 0 <= i < tasks.len() && (#[trigger] tasks[i]).id == id
}

/// The position of the task with the given id, where there is one.
pub open spec fn position(tasks: Seq<Task>, id: u64) -> int {
    choose|i: int| 0 <= i < tasks.len() && (#[trigger] tasks[i]).id == id
}

/// In every bounded group, the tasks that hold a slot are no more than the
/// group's limit.
pub open spec fn limits_hold(tasks: Seq<Task>, groups: Seq<Group>) -> bool {
    forall|k: int|
        0 <= k < groups.len() && (#[trigger] groups[k]).parallel > 0 ==> count_where(
            tasks,
            occupies(groups[k].name@),
        ) <= groups[k].parallel
}

/// In a valid state every task has an id below the id counter, and no two
/// tasks share an id.
pub proof fn lemma_ids_below_counter(s: State, i: int, j: int)
    requires
        s.wf(),
        0 <= i < s.tasks@.len(),
        0 <= j < s.tasks@.len(),
    ensures
        s.tasks@[i].id < s.next_id,
        i != j ==> s.tasks@[i].id != s.tasks@[j].id,
{
    if i < j {
        assert(s.tasks@[i].id < s.tasks@[j].id);
    }
    if j < i {
        assert(s.tasks@[j].id < s.tasks@[i].id);
    }
}

/// The limits keep holding where names and limits of the groups stay, every
/// task stays in its group, and no task becomes active.
pub proof fn lemma_limits_kept(t1: Seq<Task>, g1: Seq<Group>, t2: Seq<Task>, g2: Seq<Group>)
    requires
        limits_hold(t1, g1),
        g1.len() == g2.len(),
        forall|k: int|
            0 <= k < g2.len() ==> (#[trigger] g2[k]).name@ == g1[k].name@ && g2[k].parallel
                == g1[k].parallel,
        t1.len() == t2.len(),
        forall|i: int|
            0 <= i < t2.len() ==> (#[trigger] t2[i]).group@ == t1[i].group@ && (t2[i].status.is_active()
                ==> t1[i].status.is_active()),
    ensures
        limits_hold(t2, g2),
{
    assert forall|k: int| 0 <= k < g2.len() && (#[trigger] g2[k]).parallel > 0 implies count_where(
        t2,
        occupies(g2[k].name@),
    ) <= g2[k].parallel by {
        assert(g1[k].parallel > 0);
        lemma_count_mono(t1, occupies(g1[k].name@), t2, occupies(g2[k].name@));
    }
}

/// Dependencies are as satisfied as before where every task keeps its id and
/// no task enters or leaves the successful end.
pub proof fn lemma_deps_stable(s1: Seq<Task>, s2: Seq<Task>, deps: Seq<u64>)
    requires
        s1.len() == s2.len(),
        forall|i: int|
            0 <= i < s1.len() ==> (#[trigger] s2[i]).id == s1[i].id && (s2[i].status == TaskStatus::Done(
                TaskResult::Success,
            )) == (s1[i].status == TaskStatus::Done(TaskResult::Success)),
    ensures
        deps_ok(s2, deps) == deps_ok(s1, deps),
{
    assert forall|id: u64| succeeded(s2, id) == succeeded(s1, id) by {
        if succeeded(s1, id) {
            let j = choose|j: int|
                0 <= j < s1.len() && (#[trigger] s1[j]).id == id && s1[j].status == TaskStatus::Done(
                    TaskResult::Success,
                );
            assert(s2[j].id == id);
        }
        if succeeded(s2, id) {
            let j = choose|j: int|
                0 <= j < s2.len() && (#[trigger] s2[j]).id == id && s2[j].status == TaskStatus::Done(
                    TaskResult::Success,
                );
            assert(s1[j].id == id);
        }
    }
    if deps_ok(s1, deps) {
        assert forall|d: int| 0 <= d < deps.len() implies succeeded(s2, #[trigger] deps[d]) by {
            assert(succeeded(s1, deps[d]));
        }
    }
    if deps_ok(s2, deps) {
        assert forall|d: int| 0 <= d < deps.len() implies succeeded(s1, #[trigger] deps[d]) by {
            assert(succeeded(s2, deps[d]));
        }
    }
}

impl State {
    /// The invariants that hold of every state: the default group exists, group
    /// names are valid and unique, task ids ascend and lie below the counter,
    /// and every task belongs to an existing group.
    pub open spec fn wf(&self) -> bool {
        &&& self.groups@.len() > 0
        &&& self.groups@[0].name@ == "default"@
        &&& distinct_names(self.groups@)
        &&& forall|k: int|
            0 <= k < self.groups@.len() ==> valid_group_name((#[trigger] self.groups@[k]).name@)
        &&& forall|i: int, j: int|
            0 <= i < j < self.tasks@.len() ==> (#[trigger] self.tasks@[i]).id < (
            #[trigger] self.tasks@[j]).id
        &&& forall|i: int| 0 <= i < self.tasks@.len() ==> (#[trigger] self.tasks@[i]).id < self.next_id
        &&& forall|i: int|
            0 <= i < self.tasks@.len() ==> has_group(self.groups@, (#[trigger] self.tasks@[i]).group@)
    }

    /// No bounded group has more active tasks than its limit.
    pub open spec fn within_limits(&self) -> bool {
        limits_hold(self.tasks@, self.groups@)
    }

    /// The task at a position could be started now: it is queued, its
    /// dependencies have succeeded, and its group runs and has a free slot.
    pub open spec fn startable(&self, i: int) -> bool {
        &&& 0 <= i < self.tasks@.len()
        &&& self.tasks@[i].status is Queued
        &&& deps_ok(self.tasks@, self.tasks@[i].dependencies@)
        &&& exists|k: int|
            0 <= k < self.groups@.len() && (#[trigger] self.groups@[k]).name@ == self.tasks@[i].group@
                && group_open(self.tasks@, self.groups@[k])
    }

    /// The state of a first start: no task, and the default group, running,
    /// with one slot.
    pub fn new() -> (s: State)
        ensures
            s.wf(),
            s.within_limits(),
            s.tasks@.len() == 0,
            s.groups@.len() == 1,
            s.groups@[0].parallel == 1,
            s.groups@[0].status == GroupStatus::Running,
            s.next_id == 0,
    {
        let mut groups: Vec<Group> = Vec::new();
        groups.push(Group { name: "default".to_owned(), parallel: 1, status: GroupStatus::Running });
        let s = State { tasks: Vec::new(), groups, next_id: 0 };
        proof {
            reveal_strlit("default");
            reveal_strlit("all");
            assert("default"@.len() == 7);
            assert("all"@.len() == 3);
        }
        s
    }

    /// The position of the task with the given id.
    pub fn find_task(&self, id: u64) -> (r: Option<usize>)
        requires
            self.wf(),
        ensures
            match r {
                Some(i) => has_task(self.tasks@, id) && i == position(self.tasks@, id) && i
                    < self.tasks@.len() && self.tasks@[i as int].id == id,
                None => !has_task(self.tasks@, id),
            },
    {
        let mut i: usize = 0;
        while i < self.tasks.len()
            invariant
                self.wf(),
                i <= self.tasks@.len(),
                forall|j: int| 0 <= j < i ==> (#[trigger] self.tasks@[j]).id != id,
            decreases self.tasks@.len() - i,
        {
            if self.tasks[i].id == id {
                proof {
                    let p = position(self.tasks@, id);
                    assert(self.tasks@[i as int].id == id);
                    if p < i {
                        assert(self.tasks@[p].id < self.tasks@[i as int].id);
                    }
                    if i < p {
                        assert(self.tasks@[i as int].id < self.tasks@[p].id);
                    }
                }
                return Some(i);
            }
            i += 1;
        }
        None
    }

    /// The position of the group with the given name.
    pub fn find_group(&self, name: &String) -> (r: Option<usize>)
        ensures
            match r {
                Some(k) => k < self.groups@.len() && self.groups@[k as int].name@ == name@,
                None => !has_group(self.groups@, name@),
            },
    {
        let mut k: usize = 0;
        while k < self.groups.len()
            invariant
                k <= self.groups@.len(),
                forall|j: int| 0 <= j < k ==> (#[trigger] self.groups@[j]).name@ != name@,
            decreases self.groups@.len() - k,
        {
            if self.groups[k].name == *name {
                return Some(k);
            }
            k += 1;
        }
        None
    }

    /// How many tasks of a group hold a slot: those running or paused.
    pub fn occupied(&self, group: &String) -> (n: usize)
        ensures
            n == count_where(self.tasks@, occupies(group@)),
    {
        let mut n: usize = 0;
        let mut i: usize = 0;
        while i < self.tasks.len()
            invariant
                i <= self.tasks@.len(),
                n == count_where(self.tasks@.take(i as int), occupies(group@)),
                n <= i,
            decreases self.tasks@.len() - i,
        {
            proof {
                assert(self.tasks@.take(i + 1).drop_last() =~= self.tasks@.take(i as int));
                lemma_count_bound(self.tasks@.take(i + 1), occupies(group@));
            }
            if self.tasks[i].status.active() && self.tasks[i].group == *group {
                n += 1;
            }
            i += 1;
        }
        proof {
            assert(self.tasks@.take(i as int) =~= self.tasks@);
        }
        n
    }

    /// Whether the task with the given id has ended successfully.
    pub fn has_succeeded(&self, id: u64) -> (r: bool)
        ensures
            r == succeeded(self.tasks@, id),
    {
        let mut i: usize = 0;
        while i < self.tasks.len()
            invariant
                i <= self.tasks@.len(),
                forall|j: int|
                    0 <= j < i ==> !((#[trigger] self.tasks@[j]).id == id && self.tasks@[j].status
                        == TaskStatus::Done(TaskResult::Success)),
            decreases self.tasks@.len() - i,
        {
            if self.tasks[i].id == id && self.tasks[i].status == TaskStatus::Done(TaskResult::Success) {
                return true;
            }
            i += 1;
        }
        false
    }

    /// Whether all of the given dependencies have ended successfully.
    pub fn dependencies_met(&self, deps: &Vec<u64>) -> (r: bool)
        ensures
            r == deps_ok(self.tasks@, deps@),
    {
        let mut d: usize = 0;
        while d < deps.len()
            invariant
                d <= deps@.len(),
                forall|j: int| 0 <= j < d ==> succeeded(self.tasks@, #[trigger] deps@[j]),
            decreases deps@.len() - d,
        {
            if !self.has_succeeded(deps[d]) {
                return false;
            }
            d += 1;
        }
        true
    }
}

} // verus!
