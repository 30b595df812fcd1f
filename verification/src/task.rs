//! The data model: tasks, subtasks, and the closed enumerations that are
//! persisted as lowercase / snake_case text at the storage boundary.

use vstd::prelude::*;

use crate::text::str_eq;

verus! {

/// Task priority.
#[derive(Clone, Copy, PartialEq, Eq, Structural, Debug)]
pub enum Priority {
    High,
    Medium,
    Low,
}

/// The persisted text of a priority.
pub open spec fn priority_text(p: Priority) -> Seq<char> {
    match p {
        Priority::High => "high"@,
        Priority::Medium => "medium"@,
        Priority::Low => "low"@,
    }
}

/// The priority read back from persisted text; anything unrecognised is Medium.
pub open spec fn priority_of_text(s: Seq<char>) -> Priority {
    if s == "high"@ {
        Priority::High
    } else if s == "low"@ {
        Priority::Low
    } else {
        Priority::Medium
    }
}

impl Priority {
    pub fn as_str(&self) -> (r: &str)
        ensures
            r@ == priority_text(*self),
    {
        match self {
            Priority::High => "high",
            Priority::Medium => "medium",
            Priority::Low => "low",
        }
    }

    pub fn from_str(s: &str) -> (r: Self)
        ensures
            r == priority_of_text(s@),
    {
        if str_eq(s, "high") {
            Priority::High
        } else if str_eq(s, "low") {
            Priority::Low
        } else {
            Priority::Medium
        }
    }
}

/// Task status.
#[derive(Clone, Copy, PartialEq, Eq, Structural, Debug)]
pub enum TaskStatus {
    Todo,
    InProgress,
    Completed,
}

/// The persisted text of a status.
pub open spec fn status_text(s: TaskStatus) -> Seq<char> {
    match s {
        TaskStatus::Todo => "todo"@,
        TaskStatus::InProgress => "in_progress"@,
        TaskStatus::Completed => "completed"@,
    }
}

/// The status read back from persisted text; anything unrecognised is Todo.
pub open spec fn status_of_text(s: Seq<char>) -> TaskStatus {
    if s == "in_progress"@ {
        TaskStatus::InProgress
    } else if s == "completed"@ {
        TaskStatus::Completed
    } else {
        TaskStatus::Todo
    }
}

impl TaskStatus {
    pub fn as_str(&self) -> (r: &str)
        ensures
            r@ == status_text(*self),
    {
        match self {
            TaskStatus::Todo => "todo",
            TaskStatus::InProgress => "in_progress",
            TaskStatus::Completed => "completed",
        }
    }

    pub fn from_str(s: &str) -> (r: Self)
        ensures
            r == status_of_text(s@),
    {
        if str_eq(s, "in_progress") {
            TaskStatus::InProgress
        } else if str_eq(s, "completed") {
            TaskStatus::Completed
        } else {
            TaskStatus::Todo
        }
    }
}

/// Recurrence kind: the cadence at which a completed task spawns a successor.
#[derive(Clone, Copy, PartialEq, Eq, Structural, Debug)]
pub enum RepeatType {
    Daily,
    Weekly,
    Monthly,
    Custom,
    Never,
}

/// The persisted text of a recurrence kind.
pub open spec fn repeat_text(r: RepeatType) -> Seq<char> {
    match r {
        RepeatType::Daily => "daily"@,
        RepeatType::Weekly => "weekly"@,
        RepeatType::Monthly => "monthly"@,
        RepeatType::Custom => "custom"@,
        RepeatType::Never => "none"@,
    }
}

/// The recurrence kind read back from persisted text; anything unrecognised is None.
pub open spec fn repeat_of_text(s: Seq<char>) -> RepeatType {
    if s == "daily"@ {
        RepeatType::Daily
    } else if s == "weekly"@ {
        RepeatType::Weekly
    } else if s == "monthly"@ {
        RepeatType::Monthly
    } else if s == "custom"@ {
        RepeatType::Custom
    } else {
        RepeatType::Never
    }
}

impl RepeatType {
    pub fn as_str(&self) -> (r: &str)
        ensures
            r@ == repeat_text(*self),
    {
        match self {
            RepeatType::Daily => "daily",
            RepeatType::Weekly => "weekly",
            RepeatType::Monthly => "monthly",
            RepeatType::Custom => "custom",
            RepeatType::Never => "none",
        }
    }

    pub fn from_str(s: &str) -> (r: Self)
        ensures
            r == repeat_of_text(s@),
    {
        if str_eq(s, "daily") {
            RepeatType::Daily
        } else if str_eq(s, "weekly") {
            RepeatType::Weekly
        } else if str_eq(s, "monthly") {
            RepeatType::Monthly
        } else if str_eq(s, "custom") {
            RepeatType::Custom
        } else {
            RepeatType::Never
        }
    }
}

/// Persisted text round-trips back to the same priority.
pub proof fn lemma_priority_text_round_trip(p: Priority)
    ensures
        priority_of_text(priority_text(p)) == p,
{
    reveal_strlit("high");
    reveal_strlit("medium");
    reveal_strlit("low");
    assert("high"@.len() == 4);
    assert("medium"@.len() == 6);
    assert("low"@.len() == 3);
}

/// Persisted text round-trips back to the same status.
pub proof fn lemma_status_text_round_trip(s: TaskStatus)
    ensures
        status_of_text(status_text(s)) == s,
{
    reveal_strlit("todo");
    reveal_strlit("in_progress");
    reveal_strlit("completed");
    assert("todo"@.len() == 4);
    assert("in_progress"@.len() == 11);
    assert("completed"@.len() == 9);
}

/// Persisted text round-trips back to the same recurrence kind.
pub proof fn lemma_repeat_text_round_trip(r: RepeatType)
    ensures
        repeat_of_text(repeat_text(r)) == r,
{
    reveal_strlit("daily");
    reveal_strlit("weekly");
    reveal_strlit("monthly");
    reveal_strlit("custom");
    reveal_strlit("none");
    assert("daily"@.len() == 5);
    assert("weekly"@.len() == 6);
    assert("monthly"@.len() == 7);
    assert("custom"@.len() == 6);
    assert("none"@.len() == 4);
    assert("weekly"@[0] == 'w');
    assert("custom"@[0] == 'c');
}

/// A subtask, owned by its parent task.
#[derive(Debug)]
pub struct SubTask {
    pub id: String,
    pub title: String,
    pub completed: bool,
}

/// The mathematical value of a subtask.
#[verifier::ext_equal]
pub struct SubTaskView {
    pub id: Seq<char>,
    pub title: Seq<char>,
    pub completed: bool,
}

impl View for SubTask {
    type V = SubTaskView;

    open spec fn view(&self) -> SubTaskView {
        SubTaskView { id: self.id@, title: self.title@, completed: self.completed }
    }
}

impl Clone for SubTask {
    fn clone(&self) -> (r: Self)
        ensures
            r == *self,
    {
        SubTask { id: self.id.clone(), title: self.title.clone(), completed: self.completed }
    }
}

/// A task.
#[derive(Debug)]
pub struct Task {
    pub id: String,
    pub title: String,
    pub description: String,
    pub status: TaskStatus,
    pub priority: Priority,
    pub project_id: Option<String>,
    pub tags: Vec<String>,
    pub subtasks: Vec<SubTask>,
    pub due_date: Option<String>,
    pub reminder: Option<String>,
    pub repeat: RepeatType,
    pub favorite: bool,
    pub sort_order: i32,
    pub created_at: String,
    pub updated_at: String,
    pub completed_at: Option<String>,
}

/// The mathematical value of a task.
#[verifier::ext_equal]
pub struct TaskView {
    pub id: Seq<char>,
    pub title: Seq<char>,
    pub description: Seq<char>,
    pub status: TaskStatus,
    pub priority: Priority,
    pub project_id: Option<Seq<char>>,
    pub tags: Seq<Seq<char>>,
    pub subtasks: Seq<SubTaskView>,
    pub due_date: Option<Seq<char>>,
    pub reminder: Option<Seq<char>>,
    pub repeat: RepeatType,
    pub favorite: bool,
    pub sort_order: i32,
    pub created_at: Seq<char>,
    pub updated_at: Seq<char>,
    pub completed_at: Option<Seq<char>>,
}

/// The contents of an optional string.
pub open spec fn opt_view(o: Option<String>) -> Option<Seq<char>> {
    match o {
        Option::Some(s) => Option::Some(s@),
        Option::None => Option::None,
    }
}

/// The contents of each string in a sequence.
pub open spec fn str_views(s: Seq<String>) -> Seq<Seq<char>> {
    s.map_values(|x: String| x@)
}

/// The mathematical value of each subtask in a sequence.
pub open spec fn sub_views(s: Seq<SubTask>) -> Seq<SubTaskView> {
    s.map_values(|x: SubTask| x@)
}

impl View for Task {
    type V = TaskView;

    open spec fn view(&self) -> TaskView {
        TaskView {
            id: self.id@,
            title: self.title@,
            description: self.description@,
            status: self.status,
            priority: self.priority,
            project_id: opt_view(self.project_id),
            tags: str_views(self.tags@),
            subtasks: sub_views(self.subtasks@),
            due_date: opt_view(self.due_date),
            reminder: opt_view(self.reminder),
            repeat: self.repeat,
            favorite: self.favorite,
            sort_order: self.sort_order,
            created_at: self.created_at@,
            updated_at: self.updated_at@,
            completed_at: opt_view(self.completed_at),
        }
    }
}

/// Clone an optional string, preserving its value.
pub(crate) fn clone_opt_string(o: &Option<String>) -> (r: Option<String>)
    ensures
        r == *o,
{
    match o {
        Option::Some(s) => Option::Some(s.clone()),
        Option::None => Option::None,
    }
}

/// Clone a vector of strings, preserving each element's value.
pub(crate) fn clone_strings(v: &Vec<String>) -> (r: Vec<String>)
    ensures
        r@ =~= v@,
{
    let mut r: Vec<String> = Vec::new();
    let mut i: usize = 0;
    while i < v.len()
        invariant
            i <= v@.len(),
            r@.len() == i,
            forall|j: int| 0 <= j < i ==> r@[j] == v@[j],
        decreases v@.len() - i,
    {
        r.push(v[i].clone());
        i += 1;
    }
    r
}

/// Clone a vector of subtasks, preserving each element's value.
pub(crate) fn clone_subtasks(v: &Vec<SubTask>) -> (r: Vec<SubTask>)
    ensures
        r@ =~= v@,
{
    let mut r: Vec<SubTask> = Vec::new();
    let mut i: usize = 0;
    while i < v.len()
        invariant
            i <= v@.len(),
            r@.len() == i,
            forall|j: int| 0 <= j < i ==> r@[j] == v@[j],
        decreases v@.len() - i,
    {
        r.push(v[i].clone());
        i += 1;
    }
    r
}

impl Clone for Task {
    fn clone(&self) -> (r: Self)
        ensures
            r@ == self@,
    {
        let r = Task {
            id: self.id.clone(),
            title: self.title.clone(),
            description: self.description.clone(),
            status: self.status,
            priority: self.priority,
            project_id: clone_opt_string(&self.project_id),
            tags: clone_strings(&self.tags),
            subtasks: clone_subtasks(&self.subtasks),
            due_date: clone_opt_string(&self.due_date),
            reminder: clone_opt_string(&self.reminder),
            repeat: self.repeat,
            favorite: self.favorite,
            sort_order: self.sort_order,
            created_at: self.created_at.clone(),
            updated_at: self.updated_at.clone(),
            completed_at: clone_opt_string(&self.completed_at),
        };
        proof {
            assert(r@ =~= self@);
        }
        r
    }
}

/// A task record as the storage boundary delivers it: enumerations still
/// in their persisted spelling, the favorite flag still an integer.
pub struct TaskRow {
    pub id: String,
    pub title: String,
    pub description: String,
    pub status: String,
    pub priority: String,
    pub project_id: Option<String>,
    pub due_date: Option<String>,
    pub reminder: Option<String>,
    pub repeat_type: String,
    pub favorite: i32,
    pub sort_order: i32,
    pub created_at: String,
    pub updated_at: String,
    pub completed_at: Option<String>,
}

/// Build a task from a raw storage row and its subtasks and tag ids,
/// reading the persisted spellings back into their enumerations; any
/// nonzero favorite flag counts as set.
pub fn row_to_task(row: TaskRow, subtasks: Vec<SubTask>, tags: Vec<String>) -> (r: Task)
    ensures
        r@ == (TaskView {
            id: row.id@,
            title: row.title@,
            description: row.description@,
            status: status_of_text(row.status@),
            priority: priority_of_text(row.priority@),
            project_id: opt_view(row.project_id),
            tags: str_views(tags@),
            subtasks: sub_views(subtasks@),
            due_date: opt_view(row.due_date),
            reminder: opt_view(row.reminder),
            repeat: repeat_of_text(row.repeat_type@),
            favorite: row.favorite != 0,
            sort_order: row.sort_order,
            created_at: row.created_at@,
            updated_at: row.updated_at@,
            completed_at: opt_view(row.completed_at),
        }),
{
    Task {
        id: row.id,
        title: row.title,
        description: row.description,
        status: TaskStatus::from_str(row.status.as_str()),
        priority: Priority::from_str(row.priority.as_str()),
        project_id: row.project_id,
        tags,
        subtasks,
        due_date: row.due_date,
        reminder: row.reminder,
        repeat: RepeatType::from_str(row.repeat_type.as_str()),
        favorite: row.favorite != 0,
        sort_order: row.sort_order,
        created_at: row.created_at,
        updated_at: row.updated_at,
        completed_at: row.completed_at,
    }
}

/// Aggregate counts shown beside each smart view.
#[derive(Clone, Copy, PartialEq, Eq, Structural, Debug)]
pub struct TaskCounts {
    pub today_count: usize,
    pub week_count: usize,
    pub all_count: usize,
    pub completed_count: usize,
    pub favorite_count: usize,
}

/// A project a task may belong to.
pub struct Project {
    pub id: String,
    pub name: String,
    pub color: String,
    pub icon: String,
    pub archived: bool,
    pub created_at: String,
}

impl Clone for Project {
    fn clone(&self) -> (r: Self)
        ensures
            r == *self,
    {
        Project {
            id: self.id.clone(),
            name: self.name.clone(),
            color: self.color.clone(),
            icon: self.icon.clone(),
            archived: self.archived,
            created_at: self.created_at.clone(),
        }
    }
}

/// A tag a task may carry.
pub struct Tag {
    pub id: String,
    pub name: String,
    pub color: String,
}

impl Clone for Tag {
    fn clone(&self) -> (r: Self)
        ensures
            r == *self,
    {
        Tag { id: self.id.clone(), name: self.name.clone(), color: self.color.clone() }
    }
}

/// Application settings.
#[derive(Clone, Copy, PartialEq, Eq, Structural, Debug)]
pub struct AppSettings {
    pub is_dark: bool,
}

impl Default for AppSettings {
    fn default() -> (r: Self)
        ensures
            r.is_dark == false,
    {
        AppSettings { is_dark: false }
    }
}

} // verus!
