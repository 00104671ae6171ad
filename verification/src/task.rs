//! The task record and its mathematical view.

use vstd::prelude::*;

verus! {

/// Mathematical view of a task: three sequences of characters.
pub struct TaskView {
    pub id: Seq<char>,
    pub name: Seq<char>,
    pub status: Seq<char>,
}

/// The identifier synthesized for a task: the owner identity and the
/// task name joined by a dot.  It serves as a human-readable composite
/// key; the stores themselves are keyed by the (owner, name) pair, so
/// a dot inside either component cannot make two distinct pairs share
/// a storage slot.
pub open spec fn id_of(owner: Seq<char>, name: Seq<char>) -> Seq<char> {
    owner + "."@ + name
}

/// The views of a sequence of tasks.
pub open spec fn tasks_view(ts: Seq<Task>) -> Seq<TaskView> {
    ts.map_values(|t: Task| t@)
}

/// The canonical status of a freshly created task.
pub open spec fn initial_status() -> Seq<char> {
    "TODO"@
}

/// A named record with a free-form status label, owned by the identity
/// that created it.  The identifier is derived at creation and never
/// changes afterwards.
#[derive(Debug, PartialEq, Eq)]
pub struct Task {
    pub id: String,
    pub task_name: String,
    pub task_status: String,
}

impl View for Task {
    type V = TaskView;

    open spec fn view(&self) -> TaskView {
        TaskView { id: self.id@, name: self.task_name@, status: self.task_status@ }
    }
}

impl Task {
    /// Builds a task for `owner` with the given name and status; the
    /// identifier is synthesized from the owner and the name.
    pub fn build(owner: &String, task_name: String, task_status: String) -> (t: Task)
        ensures
            t@ == (TaskView {
                id: id_of(owner@, task_name@),
                name: task_name@,
                status: task_status@,
            }),
    {
        let id = owner.clone().concat(".").concat(task_name.as_str());
        Task { id, task_name, task_status }
    }

    /// An equal task, field for field: the stored record stays in
    /// place and the duplicate goes to the caller.
    pub fn duplicate(&self) -> (t: Task)
        ensures
            t == *self,
    {
        Task {
            id: self.id.clone(),
            task_name: self.task_name.clone(),
            task_status: self.task_status.clone(),
        }
    }
}

} // verus!
