use vstd::prelude::*;
use crate::count::{count_where, lemma_count_none, occupies};
use crate::error::Error;
use crate::group::{has_group, valid_group_name, Group, GroupStatus};
use crate::state::State;
use crate::task::Task;

verus! {

/// Some task belongs to the group of the given name.
pub open spec fn group_in_use(tasks: Seq<Task>, name: Seq<char>) -> bool {
    exists|i: int| 0 <= i < tasks.len() && (#[trigger] tasks[i]).group@ == name
}

/// The position of the group with the given name, where there is one.
pub open spec fn group_position(groups: Seq<Group>, name: Seq<char>) -> int {
    choose|k: int| 0 <= k < groups.len() && (#[trigger] groups[k]).name@ == name
}

/// A group with another limit.
pub open spec fn with_parallel(g: Group, parallel: usize) -> Group {
    Group { parallel, ..g }
}

impl State {
    /// Whether some task belongs to the group of the given name.
    pub fn uses_group(&self, name: &String) -> (r: bool)
        ensures
            r == group_in_use(self.tasks@, name@),
    {
        let mut i: usize = 0;
        while i < self.tasks.len()
            invariant
                i <= self.tasks@.len(),
                forall|j: int| 0 <= j < i ==> (#[trigger] self.tasks@[j]).group@ != name@,
            decreases self.tasks@.len() - i,
        {
            if self.tasks[i].group == *name {
                return true;
            }
            i += 1;
        }
        false
    }

    /// Creates a running group. The name must be valid and new.
    pub fn add_group(&mut self, name: String, parallel: usize) -> (r: Result<(), Error>)
        requires
            old(self).wf(),
        ensures
            final(self).wf(),
            final(self).tasks@ == old(self).tasks@,
            final(self).next_id == old(self).next_id,
            old(self).within_limits() ==> final(self).within_limits(),
            r == (if valid_group_name(name@) && !has_group(old(self).groups@, name@) {
                Ok::<(), Error>(())
            } else {
                Err::<(), Error>(Error::StateInvariant)
            }),
            r is Err ==> final(self).groups@ == old(self).groups@,
            r is Ok ==> final(self).groups@ == old(self).groups@.push(
                (Group { name, parallel, status: GroupStatus::Running }),
            ),
    {
        let reserved = "all".to_owned();
        if name.as_str().is_empty() || name == reserved {
            return Err(Error::StateInvariant);
        }
        if self.find_group(&name).is_some() {
            return Err(Error::StateInvariant);
        }
        proof {
            assert(!group_in_use(self.tasks@, name@)) by {
                if group_in_use(self.tasks@, name@) {
                    let i = choose|i: int| 0 <= i < self.tasks@.len() && (#[trigger] self.tasks@[i]).group@ == name@;
                    assert(has_group(self.groups@, self.tasks@[i].group@));
                }
            }
            lemma_count_none(self.tasks@, occupies(name@));
        }
        self.groups.push(Group { name, parallel, status: GroupStatus::Running });
        proof {
            let g = old(self).groups@;
            assert forall|i: int| 0 <= i < self.tasks@.len() implies has_group(
                self.groups@,
                (#[trigger] self.tasks@[i]).group@,
            ) by {
                let j = choose|j: int| 0 <= j < g.len() && (#[trigger] g[j]).name@ == self.tasks@[i].group@;
                assert(self.groups@[j].name@ == self.tasks@[i].group@);
            }
        }
        Ok(())
    }

    /// Removes a group that no task belongs to. The default group stays.
    pub fn remove_group(&mut self, name: &String) -> (r: Result<(), Error>)
        requires
            old(self).wf(),
        ensures
            final(self).wf(),
            final(self).tasks@ == old(self).tasks@,
            final(self).next_id == old(self).next_id,
            old(self).within_limits() ==> final(self).within_limits(),
            r == (if !has_group(old(self).groups@, name@) {
                Err::<(), Error>(Error::GroupNotFound)
            } else if name@ == "default"@ {
                Err::<(), Error>(Error::StateInvariant)
            } else if group_in_use(old(self).tasks@, name@) {
                Err::<(), Error>(Error::GroupInUse)
            } else {
                Ok::<(), Error>(())
            }),
            r is Err ==> final(self).groups@ == old(self).groups@,
            r is Ok ==> final(self).groups@ == old(self).groups@.remove(
                group_position(old(self).groups@, name@),
            ),
    {
        match self.find_group(name) {
            None => Err(Error::GroupNotFound),
            Some(k) => {
                if k == 0 {
                    return Err(Error::StateInvariant);
                }
                proof {
                    assert(self.groups@[k as int].name@ != self.groups@[0].name@);
                }
                if self.uses_group(name) {
                    return Err(Error::GroupInUse);
                }
                let _ = self.groups.remove(k);
                proof {
                    let g = old(self).groups@;
                    let p = group_position(g, name@);
                    assert(g[k as int].name@ == name@);
                    if p < k {
                        assert(g[p].name@ != g[k as int].name@);
                    }
                    if k < p {
                        assert(g[k as int].name@ != g[p].name@);
                    }
                    assert forall|j: int| 0 <= j < self.groups@.len() implies (#[trigger] self.groups@[j])
                        == g[if j < k { j } else { j + 1 }] by {}
                    assert forall|i: int| 0 <= i < self.tasks@.len() implies has_group(
                        self.groups@,
                        (#[trigger] self.tasks@[i]).group@,
                    ) by {
                        let j = choose|j: int|
                            0 <= j < g.len() && (#[trigger] g[j]).name@ == self.tasks@[i].group@;
                        assert(j != k);
                        let j2 = if j < k { j } else { j - 1 };
                        assert(self.groups@[j2].name@ == self.tasks@[i].group@);
                    }
                }
                Ok(())
            },
        }
    }

    /// Sets the limit of a group; 0 lifts it. Tasks are left as they are: a
    /// group with more active tasks than its new limit keeps them, and gets no
    /// new one before enough of them have ended.
    pub fn set_parallel(&mut self, name: &String, parallel: usize) -> (r: Result<(), Error>)
        requires
            old(self).wf(),
        ensures
            final(self).wf(),
            final(self).tasks@ == old(self).tasks@,
            final(self).next_id == old(self).next_id,
            old(self).within_limits() && (parallel == 0 || count_where(
                old(self).tasks@,
                occupies(name@),
            ) <= parallel) ==> final(self).within_limits(),
            r == (if has_group(old(self).groups@, name@) {
                Ok::<(), Error>(())
            } else {
                Err::<(), Error>(Error::GroupNotFound)
            }),
            r is Err ==> final(self).groups@ == old(self).groups@,
            r is Ok ==> final(self).groups@ == old(self).groups@.update(
                group_position(old(self).groups@, name@),
                with_parallel(old(self).groups@[group_position(old(self).groups@, name@)], parallel),
            ),
    {
        match self.find_group(name) {
            None => Err(Error::GroupNotFound),
            Some(k) => {
                self.groups[k].parallel = parallel;
                proof {
                    let g = old(self).groups@;
                    let p = group_position(g, name@);
                    assert(g[k as int].name@ == name@);
                    if p < k {
                        assert(g[p].name@ != g[k as int].name@);
                    }
                    if k < p {
                        assert(g[k as int].name@ != g[p].name@);
                    }
                    assert(self.groups@ =~= g.update(p, with_parallel(g[p], parallel)));
                    assert forall|i: int| 0 <= i < self.tasks@.len() implies has_group(
                        self.groups@,
                        (#[trigger] self.tasks@[i]).group@,
                    ) by {
                        let j = choose|j: int|
                            0 <= j < g.len() && (#[trigger] g[j]).name@ == self.tasks@[i].group@;
                        assert(self.groups@[j].name@ == self.tasks@[i].group@);
                    }
                }
                Ok(())
            },
        }
    }
}

} // verus!
