use vstd::prelude::*;
use crate::commands::settled;
use crate::count::{lemma_count_none, occupies};
use crate::group::{Group, GroupStatus};
use crate::state::State;
use crate::task::Task;

verus! {

impl State {
    /// Whether the state satisfies its invariants.
    pub fn is_valid(&self) -> (r: bool)
        ensures
            r == self.wf(),
    {
        if self.groups.len() == 0 {
            return false;
        }
        let default_name = "default".to_owned();
        if !(self.groups[0].name == default_name) {
            return false;
        }
        let reserved = "all".to_owned();
        let mut k: usize = 0;
        while k < self.groups.len()
            invariant
                k <= self.groups@.len(),
                reserved@ == "all"@,
                forall|j: int|
                    0 <= j < k ==> crate::group::valid_group_name((#[trigger] self.groups@[j]).name@),
                forall|a: int, b: int|
                    0 <= a < b < self.groups@.len() && a < k ==> (#[trigger] self.groups@[a]).name@ != (
                    #[trigger] self.groups@[b]).name@,
            decreases self.groups@.len() - k,
        {
            if self.groups[k].name.as_str().is_empty() || self.groups[k].name == reserved {
                return false;
            }
            let mut b: usize = k + 1;
            while b < self.groups.len()
                invariant
                    k < b <= self.groups@.len(),
                    forall|j: int|
                        k < j < b ==> self.groups@[k as int].name@ != (#[trigger] self.groups@[j]).name@,
                decreases self.groups@.len() - b,
            {
                if self.groups[k].name == self.groups[b].name {
                    return false;
                }
                b += 1;
            }
            k += 1;
        }
        let mut i: usize = 0;
        while i < self.tasks.len()
            invariant
                i <= self.tasks@.len(),
                forall|x: int, y: int|
                    0 <= x < y < i ==> (#[trigger] self.tasks@[x]).id < (#[trigger] self.tasks@[y]).id,
                forall|x: int| 0 <= x < i ==> (#[trigger] self.tasks@[x]).id < self.next_id,
                forall|x: int|
                    0 <= x < i ==> crate::group::has_group(self.groups@, (#[trigger] self.tasks@[x]).group@),
            decreases self.tasks@.len() - i,
        {
            if i > 0 && self.tasks[i - 1].id >= self.tasks[i].id {
                return false;
            }
            if self.tasks[i].id >= self.next_id {
                return false;
            }
            if self.find_group(&self.tasks[i].group).is_none() {
                return false;
            }
            proof {
                assert forall|x: int| 0 <= x < i implies (#[trigger] self.tasks@[x]).id < self.tasks@[i as int].id by {
                    if x < i - 1 {
                        assert(self.tasks@[x].id < self.tasks@[i - 1].id);
                    }
                }
            }
            i += 1;
        }
        true
    }

    /// Whether no bounded group has more active tasks than its limit.
    pub fn is_within_limits(&self) -> (r: bool)
        ensures
            r == self.within_limits(),
    {
        let mut k: usize = 0;
        while k < self.groups.len()
            invariant
                k <= self.groups@.len(),
                forall|j: int|
                    0 <= j < k && (#[trigger] self.groups@[j]).parallel > 0 ==> crate::count::count_where(
                        self.tasks@,
                        occupies(self.groups@[j].name@),
                    ) <= self.groups@[j].parallel,
            decreases self.groups@.len() - k,
        {
            if self.groups[k].parallel > 0 && self.occupied(&self.groups[k].name) > self.groups[k].parallel {
                return false;
            }
            k += 1;
        }
        true
    }

    /// Takes over a stored state. Where what was stored satisfies the
    /// invariants, it is the state, with every task that had a process ended
    /// as killed; where it does not, the state is that of a first start.
    pub fn restore(tasks: Vec<Task>, groups: Vec<Group>, next_id: u64, now: u64) -> (s: State)
        ensures
            s.wf(),
            s.within_limits(),
            (State { tasks, groups, next_id }).wf() ==> s.groups@ == groups@ && s.next_id == next_id
                && s.tasks@.len() == tasks@.len() && forall|i: int|
                0 <= i < tasks@.len() ==> settled(tasks@[i], #[trigger] s.tasks@[i], now),
            !(State { tasks, groups, next_id }).wf() ==> s.tasks@.len() == 0 && s.next_id == 0
                && s.groups@.len() == 1 && s.groups@[0].parallel == 1 && s.groups@[0].status
                == GroupStatus::Running,
    {
        let mut s = State { tasks, groups, next_id };
        if !s.is_valid() {
            return State::new();
        }
        s.settle_restored(now);
        proof {
            assert forall|k: int|
                0 <= k < s.groups@.len() && (#[trigger] s.groups@[k]).parallel > 0 implies crate::count::count_where(
                s.tasks@,
                occupies(s.groups@[k].name@),
            ) <= s.groups@[k].parallel by {
                lemma_count_none(s.tasks@, occupies(s.groups@[k].name@));
            }
        }
        s
    }
}

} // verus!
