use vstd::prelude::*;
use crate::commands::{copy_envs, copy_ids};
use crate::count::{count_where, lemma_count_mono, occupies};
use crate::group::Group;
use crate::state::State;
use crate::task::Task;

verus! {

/// Two tasks agree in every field.
pub open spec fn same_task(a: Task, b: Task) -> bool {
    &&& a.id == b.id
    &&& a.command == b.command
    &&& a.path == b.path
    &&& a.envs@ == b.envs@
    &&& a.group == b.group
    &&& a.status == b.status
    &&& a.created_at == b.created_at
    &&& a.enqueued_at == b.enqueued_at
    &&& a.start == b.start
    &&& a.end == b.end
    &&& a.label == b.label
    &&& a.dependencies@ == b.dependencies@
    &&& a.print_clean == b.print_clean
    &&& a.note == b.note
}

/// Two states agree: the same tasks in the same order, the same groups, the
/// same id counter.
pub open spec fn same_state(a: State, b: State) -> bool {
    &&& a.next_id == b.next_id
    &&& a.groups@ == b.groups@
    &&& a.tasks@.len() == b.tasks@.len()
    &&& forall|i: int| 0 <= i < a.tasks@.len() ==> same_task(#[trigger] a.tasks@[i], b.tasks@[i])
}

/// Two copies of one state agree with each other: a reader that asks twice
/// while nothing changes sees the same.
pub proof fn lemma_snapshots_agree(s: State, first: State, second: State)
    requires
        same_state(s, first),
        same_state(s, second),
    ensures
        same_state(first, second),
{
    assert forall|i: int| 0 <= i < first.tasks@.len() implies same_task(
        #[trigger] first.tasks@[i],
        second.tasks@[i],
    ) by {
        assert(same_task(s.tasks@[i], first.tasks@[i]));
        assert(same_task(s.tasks@[i], second.tasks@[i]));
    }
}

fn copy_task(t: &Task) -> (r: Task)
    ensures
        same_task(*t, r),
{
    let label = match &t.label {
        Some(l) => Some(l.clone()),
        None => None,
    };
    let note = match &t.note {
        Some(n) => Some(n.clone()),
        None => None,
    };
    Task {
        id: t.id,
        command: t.command.clone(),
        path: t.path.clone(),
        envs: copy_envs(&t.envs),
        group: t.group.clone(),
        status: t.status,
        created_at: t.created_at,
        enqueued_at: t.enqueued_at,
        start: t.start,
        end: t.end,
        label,
        dependencies: copy_ids(&t.dependencies),
        print_clean: t.print_clean,
        note,
    }
}

impl State {
    /// A copy of the state for readers. It agrees with the state in every
    /// field and shares nothing with it.
    pub fn snapshot(&self) -> (s: State)
        ensures
            same_state(*self, s),
            self.wf() ==> s.wf(),
            self.within_limits() ==> s.within_limits(),
    {
        let mut tasks: Vec<Task> = Vec::new();
        let mut i: usize = 0;
        while i < self.tasks.len()
            invariant
                i <= self.tasks@.len(),
                tasks@.len() == i,
                forall|j: int| 0 <= j < i ==> same_task(#[trigger] self.tasks@[j], tasks@[j]),
            decreases self.tasks@.len() - i,
        {
            tasks.push(copy_task(&self.tasks[i]));
            i += 1;
        }
        let mut groups: Vec<Group> = Vec::new();
        let mut k: usize = 0;
        while k < self.groups.len()
            invariant
                k <= self.groups@.len(),
                groups@ == self.groups@.take(k as int),
            decreases self.groups@.len() - k,
        {
            groups.push(
                Group {
                    name: self.groups[k].name.clone(),
                    parallel: self.groups[k].parallel,
                    status: self.groups[k].status,
                },
            );
            proof {
                assert(groups@ =~= self.groups@.take(k + 1));
            }
            k += 1;
        }
        proof {
            assert(self.groups@.take(k as int) =~= self.groups@);
        }
        let s = State { tasks, groups, next_id: self.next_id };
        proof {
            assert forall|j: int| 0 <= j < s.tasks@.len() implies (#[trigger] s.tasks@[j]).id == self.tasks@[j].id
                && s.tasks@[j].group@ == self.tasks@[j].group@ && s.tasks@[j].status == self.tasks@[j].status by {
                assert(same_task(self.tasks@[j], s.tasks@[j]));
            }
            if self.within_limits() {
                assert forall|g: int|
                    0 <= g < s.groups@.len() && (#[trigger] s.groups@[g]).parallel > 0 implies count_where(
                    s.tasks@,
                    occupies(s.groups@[g].name@),
                ) <= s.groups@[g].parallel by {
                    lemma_count_mono(
                        self.tasks@,
                        occupies(self.groups@[g].name@),
                        s.tasks@,
                        occupies(s.groups@[g].name@),
                    );
                }
            }
        }
        s
    }
}

} // verus!
