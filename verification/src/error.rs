use vstd::prelude::*;

verus! {

/// Why a command was refused. A command on one task or one group that is
/// refused changes nothing; a command on a list of ids returns its first
/// refusal and still applies the ids that it can.
#[derive(Clone, Copy, Debug, PartialEq, Eq, Structural)]
pub enum Error {
    /// No task has the given id.
    TaskNotFound,
    /// The task exists, but its status does not permit the transition.
    TaskWrongState,
    /// No group has the given name.
    GroupNotFound,
    /// The group is still referenced by a task.
    GroupInUse,
    /// The change would break an invariant of the state: a reserved, empty or
    /// duplicate group name, removal of the default group, or an exhausted id
    /// counter.
    StateInvariant,
    /// The daemon is shutting down and takes no further command.
    Shutdown,
}

} // verus!
