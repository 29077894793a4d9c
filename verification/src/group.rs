use vstd::prelude::*;

verus! {

/// Whether the scheduler may start tasks of a group.
#[derive(Clone, Copy, Debug, PartialEq, Eq, Structural)]
pub enum GroupStatus {
    Running,
    Paused,
    Reset,
}

/// A named concurrency domain.
pub struct Group {
    pub name: String,
    /// How many tasks of the group may be active at once; 0 means no bound.
    pub parallel: usize,
    pub status: GroupStatus,
}

/// A group name is nonempty and differs from the word that selects every group.
pub open spec fn valid_group_name(name: Seq<char>) -> bool {
    name.len() > 0 && name != "all"@
}

/// Some group carries the given name.
pub open spec fn has_group(groups: Seq<Group>, name: Seq<char>) -> bool {
    exists|k: int| 0 <= k < groups.len() && (#[trigger] groups[k]).name@ == name
}

/// The names of all groups are pairwise different.
pub open spec fn distinct_names(groups: Seq<Group>) -> bool {
    forall|a: int, b: int|
        0 <= a < b < groups.len() ==> (#[trigger] groups[a]).name@ != (#[trigger] groups[b]).name@
}

} // verus!
