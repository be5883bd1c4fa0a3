//! The data model: a database of projects, each holding tasks with a
//! lifecycle state, a dependency set, and an append-only log.

use vstd::prelude::*;

verus! {

/// The id counter saturates here: creation fails rather than let the counter
/// wrap around.
pub const MAX_ID: u64 = 0xffff_ffff_ffff_ffff;

/// Lifecycle state of a task.
#[derive(Clone, Copy, PartialEq, Eq, Structural)]
pub enum TaskState {
    Todo,
    InProgress,
    Blocked,
    Cancelled,
    Done,
}

/// What a log entry records: a free-text comment or a state transition.
pub enum LogEntryType {
    Comment(Vec<u8>),
    StateChangedTo(TaskState),
}

/// A timestamped event in a task's append-only log.
pub struct LogEntry {
    /// Unix seconds.
    pub timestamp: u64,
    pub entry_type: LogEntryType,
}

/// An atomic work item within a project.
pub struct Task {
    pub title: Vec<u8>,
    pub description: Vec<u8>,
    pub id: u64,
    pub log: Vec<LogEntry>,
    pub state: TaskState,
    /// The dependency set: ids of sibling tasks, strictly ascending.
    /// An entry may name a task that no longer exists.
    pub dependencies: Vec<u64>,
}

/// A named container of tasks.
pub struct Project {
    pub name: Vec<u8>,
    pub description: Vec<u8>,
    pub id: u64,
    pub tasks: Vec<Task>,
    pub next_task_id: u64,
}

/// The whole document: every project, and the next fresh project id.
pub struct Database {
    pub projects: Vec<Project>,
    pub next_project_id: u64,
}

/// How a dependency edit acts on the dependency set.
#[derive(Clone, Copy, PartialEq, Eq, Structural)]
pub enum DependencyAction {
    Add,
    Remove,
}

/// Why a domain operation could not be carried out.
#[derive(Clone, Copy, PartialEq, Eq, Structural, Debug)]
pub enum DbError {
    /// No project carries the requested id.
    NoProject,
    /// No task in the project carries the requested id.
    NoTask,
    /// The id counter has reached the largest encodable id.
    IdExhausted,
}

// ---------------------------------------------------------------------------
// Mathematical views
// ---------------------------------------------------------------------------

#[verifier::ext_equal]
pub enum LogEntryTypeV {
    Comment(Seq<u8>),
    StateChangedTo(TaskState),
}

#[verifier::ext_equal]
pub struct LogEntryV {
    pub timestamp: u64,
    pub entry_type: LogEntryTypeV,
}

#[verifier::ext_equal]
pub struct TaskV {
    pub title: Seq<u8>,
    pub description: Seq<u8>,
    pub id: u64,
    pub log: Seq<LogEntryV>,
    pub state: TaskState,
    pub dependencies: Seq<u64>,
}

#[verifier::ext_equal]
pub struct ProjectV {
    pub name: Seq<u8>,
    pub description: Seq<u8>,
    pub id: u64,
    pub tasks: Seq<TaskV>,
    pub next_task_id: u64,
}

#[verifier::ext_equal]
pub struct DatabaseV {
    pub projects: Seq<ProjectV>,
    pub next_project_id: u64,
}

impl View for LogEntryType {
    type V = LogEntryTypeV;

    open spec fn view(&self) -> LogEntryTypeV {
        match self {
            LogEntryType::Comment(text) => LogEntryTypeV::Comment(text@),
            LogEntryType::StateChangedTo(s) => LogEntryTypeV::StateChangedTo(*s),
        }
    }
}

impl View for LogEntry {
    type V = LogEntryV;

    open spec fn view(&self) -> LogEntryV {
        LogEntryV { timestamp: self.timestamp, entry_type: self.entry_type@ }
    }
}

/// The views of a sequence of log entries.
pub open spec fn log_view(v: Seq<LogEntry>) -> Seq<LogEntryV> {
    v.map_values(|e: LogEntry| e@)
}

/// The views of a sequence of tasks.
pub open spec fn tasks_view(v: Seq<Task>) -> Seq<TaskV> {
    v.map_values(|t: Task| t@)
}

/// The views of a sequence of projects.
pub open spec fn projects_view(v: Seq<Project>) -> Seq<ProjectV> {
    v.map_values(|p: Project| p@)
}

impl View for Task {
    type V = TaskV;

    open spec fn view(&self) -> TaskV {
        TaskV {
            title: self.title@,
            description: self.description@,
            id: self.id,
            log: log_view(self.log@),
            state: self.state,
            dependencies: self.dependencies@,
        }
    }
}

impl View for Project {
    type V = ProjectV;

    open spec fn view(&self) -> ProjectV {
        ProjectV {
            name: self.name@,
            description: self.description@,
            id: self.id,
            tasks: tasks_view(self.tasks@),
            next_task_id: self.next_task_id,
        }
    }
}

impl View for Database {
    type V = DatabaseV;

    open spec fn view(&self) -> DatabaseV {
        DatabaseV {
            projects: projects_view(self.projects@),
            next_project_id: self.next_project_id,
        }
    }
}

// ---------------------------------------------------------------------------
// Well-formedness
// ---------------------------------------------------------------------------

/// The sequence of states carried by the `StateChangedTo` entries of a log,
/// oldest first.
pub open spec fn state_changes(log: Seq<LogEntryV>) -> Seq<TaskState>
    decreases log.len(),
{
    if log.len() == 0 {
        Seq::empty()
    } else {
        let rest = state_changes(log.drop_last());
        match log.last().entry_type {
            LogEntryTypeV::StateChangedTo(s) => rest.push(s),
            LogEntryTypeV::Comment(_) => rest,
        }
    }
}

/// Strictly ascending sequence of ids.
pub open spec fn strictly_sorted(s: Seq<u64>) -> bool {
    forall|i: int, j: int| 0 <= i < j < s.len() ==> s[i] < s[j]
}

/// Task ids strictly ascending.
pub open spec fn task_ids_sorted(s: Seq<TaskV>) -> bool {
    forall|i: int, j: int| 0 <= i < j < s.len() ==> s[i].id < s[j].id
}

/// Project ids strictly ascending.
pub open spec fn project_ids_sorted(s: Seq<ProjectV>) -> bool {
    forall|i: int, j: int| 0 <= i < j < s.len() ==> s[i].id < s[j].id
}

/// The timestamp a new log entry receives: the current clock reading, but
/// never earlier than the last entry already in the log.
pub open spec fn clamped_ts(log: Seq<LogEntryV>, now: u64) -> u64 {
    if log.len() > 0 && log.last().timestamp > now {
        log.last().timestamp
    } else {
        now
    }
}

impl LogEntryV {
    /// A log is ordered oldest first: timestamps never decrease.
    pub open spec fn log_ordered(log: Seq<LogEntryV>) -> bool {
        forall|i: int, j: int|
            0 <= i < j < log.len() ==> log[i].timestamp <= log[j].timestamp
    }
}

impl TaskV {
    /// The task's state always equals the most recent state change in its
    /// log, or `Todo` before the first one.
    pub open spec fn state_consistent(self) -> bool {
        if state_changes(self.log).len() == 0 {
            self.state == TaskState::Todo
        } else {
            self.state == state_changes(self.log).last()
        }
    }

    pub open spec fn wf(self) -> bool {
        &&& self.id <= MAX_ID
        &&& strictly_sorted(self.dependencies)
        &&& LogEntryV::log_ordered(self.log)
        &&& self.state_consistent()
    }
}

impl ProjectV {
    pub open spec fn tasks_sorted(self) -> bool {
        task_ids_sorted(self.tasks)
    }

    pub open spec fn wf(self) -> bool {
        &&& self.id <= MAX_ID
        &&& self.next_task_id <= MAX_ID
        &&& self.tasks_sorted()
        &&& forall|i: int| 0 <= i < self.tasks.len() ==> self.tasks[i].id < self.next_task_id
        &&& forall|i: int| 0 <= i < self.tasks.len() ==> (#[trigger] self.tasks[i]).wf()
    }
}

impl DatabaseV {
    pub open spec fn projects_sorted(self) -> bool {
        project_ids_sorted(self.projects)
    }

    pub open spec fn wf(self) -> bool {
        &&& self.next_project_id <= MAX_ID
        &&& self.projects_sorted()
        &&& forall|i: int|
            0 <= i < self.projects.len() ==> self.projects[i].id < self.next_project_id
        &&& forall|i: int| 0 <= i < self.projects.len() ==> (#[trigger] self.projects[i]).wf()
    }

    /// Index of the project carrying `id`, or -1 if there is none.
    pub open spec fn find_project(self, id: u64) -> int {
        find_by_id_p(self.projects, id)
    }
}

impl ProjectV {
    /// Index of the task carrying `id`, or -1 if there is none.
    pub open spec fn find_task(self, id: u64) -> int {
        find_by_id_t(self.tasks, id)
    }
}

pub open spec fn find_by_id_p(s: Seq<ProjectV>, id: u64) -> int
    decreases s.len(),
{
    if s.len() == 0 {
        -1
    } else if s[0].id == id {
        0
    } else {
        let r = find_by_id_p(s.drop_first(), id);
        if r < 0 {
            -1
        } else {
            r + 1
        }
    }
}

pub open spec fn find_by_id_t(s: Seq<TaskV>, id: u64) -> int
    decreases s.len(),
{
    if s.len() == 0 {
        -1
    } else if s[0].id == id {
        0
    } else {
        let r = find_by_id_t(s.drop_first(), id);
        if r < 0 {
            -1
        } else {
            r + 1
        }
    }
}

/// The value of a freshly created task.
pub open spec fn new_task_v(id: u64, title: Seq<u8>, description: Seq<u8>) -> TaskV {
    TaskV {
        title,
        description,
        id,
        log: Seq::empty(),
        state: TaskState::Todo,
        dependencies: Seq::empty(),
    }
}

/// The value of a freshly created project.
pub open spec fn new_project_v(id: u64, name: Seq<u8>, description: Seq<u8>) -> ProjectV {
    ProjectV { name, description, id, tasks: Seq::empty(), next_task_id: 0 }
}

/// The value of an empty database.
pub open spec fn empty_db() -> DatabaseV {
    DatabaseV { projects: Seq::empty(), next_project_id: 0 }
}

// ---------------------------------------------------------------------------
// Sorted id sequences as sets
// ---------------------------------------------------------------------------

/// Insertion into a strictly ascending id sequence; inserting a present id
/// leaves the sequence unchanged.
pub open spec fn seq_insert_sorted(s: Seq<u64>, d: u64) -> Seq<u64>
    decreases s.len(),
{
    if s.len() == 0 {
        seq![d]
    } else if d < s[0] {
        seq![d] + s
    } else if d == s[0] {
        s
    } else {
        seq![s[0]] + seq_insert_sorted(s.drop_first(), d)
    }
}

/// Removal from an id sequence; removing an absent id is a no-op.
pub open spec fn seq_remove_val(s: Seq<u64>, d: u64) -> Seq<u64>
    decreases s.len(),
{
    if s.len() == 0 {
        s
    } else if s[0] == d {
        s.drop_first()
    } else {
        seq![s[0]] + seq_remove_val(s.drop_first(), d)
    }
}

} // verus!
