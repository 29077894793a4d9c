use vstd::prelude::*;

verus! {

/// How a task ended.
#[derive(Clone, Copy, Debug, PartialEq, Eq, Structural)]
pub enum TaskResult {
    /// The process exited with code 0.
    Success,
    /// The process exited with a nonzero code.
    Failed(i32),
    /// The process could not be spawned.
    FailedToSpawn,
    /// The process was killed.
    Killed,
    /// The task was never started.
    NeverStarted,
}

/// Where a task stands in its life.
#[derive(Clone, Copy, Debug, PartialEq, Eq, Structural)]
pub enum TaskStatus {
    /// Held back, possibly until a point in time.
    Stashed { enqueue_at: Option<u64> },
    /// Waiting for a free slot of its group.
    Queued,
    /// Waiting for its dependencies to succeed.
    DependencyWait,
    Running,
    Paused,
    Done(TaskResult),
    /// Transient, while the task is being edited.
    Locked,
}

impl TaskStatus {
    /// The task owns a process, and with it a slot of its group.
    pub open spec fn is_active(self) -> bool {
        self is Running || self is Paused
    }

    /// The steps of a task's life: whether a task in this status may pass to
    /// the other. A task that has ended stays as it is.
    pub open spec fn may_become(self, next: TaskStatus) -> bool {
        match self {
            TaskStatus::Stashed { .. } => next is Queued || next is Stashed,
            TaskStatus::Queued => next is Stashed || next is Running,
            TaskStatus::DependencyWait => next is Queued || next is Stashed,
            TaskStatus::Running => next is Paused || next is Done,
            TaskStatus::Paused => next is Running || next is Done,
            TaskStatus::Done(_) => false,
            TaskStatus::Locked => false,
        }
    }

    pub fn active(&self) -> (r: bool)
        ensures
            r == self.is_active(),
    {
        matches!(self, TaskStatus::Running | TaskStatus::Paused)
    }

    pub fn done(&self) -> (r: bool)
        ensures
            r == (self is Done),
    {
        matches!(self, TaskStatus::Done(_))
    }
}

/// A shell command tracked from submission to its end.
pub struct Task {
    pub id: u64,
    pub command: String,
    pub path: String,
    pub envs: Vec<(String, String)>,
    pub group: String,
    pub status: TaskStatus,
    pub created_at: u64,
    pub enqueued_at: Option<u64>,
    pub start: Option<u64>,
    pub end: Option<u64>,
    pub label: Option<String>,
    pub dependencies: Vec<u64>,
    pub print_clean: bool,
    /// What is to be known of the task's end beyond its result.
    pub note: Option<String>,
}

/// What a client submits to have a task created.
pub struct NewTask {
    pub command: String,
    pub path: String,
    pub envs: Vec<(String, String)>,
    pub group: String,
    pub label: Option<String>,
    pub dependencies: Vec<u64>,
    pub print_clean: bool,
    /// Hold the task back instead of queueing it.
    pub stashed: bool,
    /// Queue the task at this time.
    pub enqueue_at: Option<u64>,
}

/// The targets of a command.
pub enum Selection {
    All,
    Group(String),
    TaskIds(Vec<u64>),
}

impl Selection {
    /// The task is among the targets.
    pub open spec fn selects(&self, t: Task) -> bool {
        match self {
            Selection::All => true,
            Selection::Group(g) => t.group@ == g@,
            Selection::TaskIds(ids) => ids@.contains(t.id),
        }
    }

    /// The group as a whole is among the targets.
    pub open spec fn selects_group(&self, name: Seq<char>) -> bool {
        match self {
            Selection::All => true,
            Selection::Group(g) => name == g@,
            Selection::TaskIds(_) => false,
        }
    }

    pub fn matches_task(&self, t: &Task) -> (r: bool)
        ensures
            r == self.selects(*t),
    {
        match self {
            Selection::All => true,
            Selection::Group(g) => t.group == *g,
            Selection::TaskIds(ids) => {
                let mut k: usize = 0;
                while k < ids.len()
                    invariant
                        k <= ids.len(),
                        self.selects(*t) == ids@.contains(t.id),
                        forall|j: int| 0 <= j < k ==> ids@[j] != t.id,
                    decreases ids.len() - k,
                {
                    if ids[k] == t.id {
                        assert(ids@[k as int] == t.id);
                        return true;
                    }
                    k += 1;
                }
                false
            },
        }
    }

    pub fn matches_group(&self, name: &String) -> (r: bool)
        ensures
            r == self.selects_group(name@),
    {
        match self {
            Selection::All => true,
            Selection::Group(g) => *name == *g,
            Selection::TaskIds(_) => false,
        }
    }
}

/// Every task has kept its id, and its status is as before or one step on in
/// the task's life.
pub open spec fn lawful(earlier: Seq<Task>, later: Seq<Task>) -> bool {
    &&& earlier.len() == later.len()
    &&& forall|i: int|
        0 <= i < earlier.len() ==> (#[trigger] later[i]).id == earlier[i].id && (later[i].status
            == earlier[i].status || earlier[i].status.may_become(later[i].status))
}

/// The place of a queued task in its queue: earlier enqueue time first, and
/// among equal times the smaller id. A task without enqueue time precedes all
/// that have one.
pub open spec fn before(a: Task, b: Task) -> bool {
    let ka: int = match a.enqueued_at { Some(t) => t as int, None => -1 };
    let kb: int = match b.enqueued_at { Some(t) => t as int, None => -1 };
    ka < kb || (ka == kb && a.id < b.id)
}

pub fn is_before(a: &Task, b: &Task) -> (r: bool)
    ensures
        r == before(*a, *b),
{
    match (a.enqueued_at, b.enqueued_at) {
        (None, None) => a.id < b.id,
        (None, Some(_)) => true,
        (Some(_), None) => false,
        (Some(x), Some(y)) => x < y || (x == y && a.id < b.id),
    }
}

} // verus!
