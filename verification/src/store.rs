//! The task store: a collection of tasks ordered by their manual sort
//! position, with unique identifiers.
//!
//! Every operation states exactly how the new collection relates to the old
//! one.  The collection invariant — ascending sort positions, pairwise
//! distinct ids — is established by the constructors and preserved by every
//! operation.

use vstd::prelude::*;

use crate::task::{
    opt_view, priority_of_text, repeat_of_text, status_of_text, str_views, sub_views, Priority,
    RepeatType, SubTask, SubTaskView, Task, TaskStatus, TaskView,
};
use crate::text::str_eq;

verus! {

/// A field of an update request: leave the field as it is, or set it to the
/// given value.
pub enum Change<T> {
    Unchanged,
    SetTo(T),
}

/// A field-level update request for one task.  Fields persisted as text
/// (status, priority, recurrence) are set from their persisted spelling, as
/// the storage boundary hands them over.
pub struct TaskPatch {
    pub title: Change<String>,
    pub description: Change<String>,
    pub status: Change<String>,
    pub priority: Change<String>,
    pub project_id: Change<Option<String>>,
    pub due_date: Change<Option<String>>,
    pub reminder: Change<Option<String>>,
    pub repeat_type: Change<String>,
    pub tag_ids: Change<Vec<String>>,
}

/// Does the patch set any field at all?
pub open spec fn patch_touches(p: TaskPatch) -> bool {
    ||| p.title is SetTo
    ||| p.description is SetTo
    ||| p.status is SetTo
    ||| p.priority is SetTo
    ||| p.project_id is SetTo
    ||| p.due_date is SetTo
    ||| p.reminder is SetTo
    ||| p.repeat_type is SetTo
    ||| p.tag_ids is SetTo
}

impl TaskPatch {
    /// A patch that sets nothing.
    pub fn unchanged() -> (r: TaskPatch)
        ensures
            !patch_touches(r),
    {
        TaskPatch {
            title: Change::Unchanged,
            description: Change::Unchanged,
            status: Change::Unchanged,
            priority: Change::Unchanged,
            project_id: Change::Unchanged,
            due_date: Change::Unchanged,
            reminder: Change::Unchanged,
            repeat_type: Change::Unchanged,
            tag_ids: Change::Unchanged,
        }
    }
}

fn patch_touches_exec(p: &TaskPatch) -> (r: bool)
    ensures
        r == patch_touches(*p),
{
    match p.title {
        Change::SetTo(_) => {
            return true;
        },
        Change::Unchanged => {},
    }
    match p.description {
        Change::SetTo(_) => {
            return true;
        },
        Change::Unchanged => {},
    }
    match p.status {
        Change::SetTo(_) => {
            return true;
        },
        Change::Unchanged => {},
    }
    match p.priority {
        Change::SetTo(_) => {
            return true;
        },
        Change::Unchanged => {},
    }
    match p.project_id {
        Change::SetTo(_) => {
            return true;
        },
        Change::Unchanged => {},
    }
    match p.due_date {
        Change::SetTo(_) => {
            return true;
        },
        Change::Unchanged => {},
    }
    match p.reminder {
        Change::SetTo(_) => {
            return true;
        },
        Change::Unchanged => {},
    }
    match p.repeat_type {
        Change::SetTo(_) => {
            return true;
        },
        Change::Unchanged => {},
    }
    match p.tag_ids {
        Change::SetTo(_) => {
            return true;
        },
        Change::Unchanged => {},
    }
    false
}

/// First-occurrence de-duplication of a sequence of strings.
pub open spec fn dedup_strs(s: Seq<Seq<char>>) -> Seq<Seq<char>>
    decreases s.len(),
{
    if s.len() == 0 {
        Seq::empty()
    } else {
        let prefix = dedup_strs(s.drop_last());
        if s.drop_last().contains(s.last()) {
            prefix
        } else {
            prefix.push(s.last())
        }
    }
}

/// De-duplication keeps exactly the strings present.
pub proof fn lemma_dedup_strs_contains(s: Seq<Seq<char>>)
    ensures
        forall|x: Seq<char>| #[trigger] dedup_strs(s).contains(x) <==> s.contains(x),
    decreases s.len(),
{
    if s.len() > 0 {
        let d = s.drop_last();
        let last = s.last();
        lemma_dedup_strs_contains(d);
        assert forall|x: Seq<char>| #[trigger] dedup_strs(s).contains(x) <==> s.contains(x) by {
            if dedup_strs(s).contains(x) {
                if d.contains(last) {
                    assert(dedup_strs(d).contains(x));
                    assert(d.contains(x));
                    let i = choose|i: int| 0 <= i < d.len() && d[i] == x;
                    assert(s[i] == x);
                } else {
                    let p = dedup_strs(d);
                    let q = p.push(last);
                    assert(q.contains(x));
                    let k = choose|k: int| 0 <= k < q.len() && q[k] == x;
                    if k < p.len() {
                        assert(p[k] == x);
                        assert(p.contains(x));
                        assert(d.contains(x));
                        let i = choose|i: int| 0 <= i < d.len() && d[i] == x;
                        assert(s[i] == x);
                    } else {
                        assert(x == last);
                        assert(s[s.len() - 1] == x);
                    }
                }
                assert(s.contains(x));
            }
            if s.contains(x) {
                let i = choose|i: int| 0 <= i < s.len() && s[i] == x;
                if i < s.len() - 1 {
                    assert(d[i] == x);
                    assert(d.contains(x));
                    assert(dedup_strs(d).contains(x));
                    if d.contains(last) {
                        assert(dedup_strs(s).contains(x));
                    } else {
                        let p = dedup_strs(d);
                        let k = choose|k: int| 0 <= k < p.len() && p[k] == x;
                        assert(p.push(last)[k] == x);
                        assert(dedup_strs(s).contains(x));
                    }
                } else {
                    assert(x == last);
                    if d.contains(last) {
                        assert(d.contains(x));
                        assert(dedup_strs(d).contains(x));
                        assert(dedup_strs(s).contains(x));
                    } else {
                        let p = dedup_strs(d);
                        assert(p.push(last)[p.len() as int] == x);
                        assert(dedup_strs(s).contains(x));
                    }
                }
            }
        }
    }
}

/// A list without repetition is its own de-duplication.
pub proof fn lemma_dedup_strs_distinct(s: Seq<Seq<char>>)
    requires
        forall|i: int, j: int| 0 <= i < j < s.len() ==> s[i] != s[j],
    ensures
        dedup_strs(s) == s,
    decreases s.len(),
{
    if s.len() > 0 {
        let d = s.drop_last();
        assert forall|i: int, j: int| 0 <= i < j < d.len() implies d[i] != d[j] by {
            assert(s[i] != s[j]);
        }
        lemma_dedup_strs_distinct(d);
        if d.contains(s.last()) {
            let i = choose|i: int| 0 <= i < d.len() && d[i] == s.last();
            assert(s[i] == s[s.len() - 1]);
            assert(false);
        }
        assert(dedup_strs(s) =~= s);
    }
}

proof fn lemma_str_views_drop_last(s: Seq<String>)
    requires
        s.len() > 0,
    ensures
        str_views(s).drop_last() == str_views(s.drop_last()),
        str_views(s).last() == s.last()@,
{
    assert(str_views(s).drop_last() =~= str_views(s.drop_last()));
}

/// Keep each tag id's first occurrence, dropping later repetitions.
fn dedup_tags(tag_ids: &Vec<String>) -> (r: Vec<String>)
    ensures
        str_views(r@) == dedup_strs(str_views(tag_ids@)),
{
    let n = tag_ids.len();
    let mut r: Vec<String> = Vec::new();
    let mut i: usize = 0;
    while i < n
        invariant
            n == tag_ids@.len(),
            i <= n,
            str_views(r@) == dedup_strs(str_views(tag_ids@.subrange(0, i as int))),
        decreases n - i,
    {
        let ghost pre = str_views(tag_ids@.subrange(0, i as int));
        let ghost pre1 = str_views(tag_ids@.subrange(0, i as int + 1));
        proof {
            assert(tag_ids@.subrange(0, i as int + 1).drop_last() =~= tag_ids@.subrange(
                0,
                i as int,
            ));
            lemma_str_views_drop_last(tag_ids@.subrange(0, i as int + 1));
            assert(pre1.drop_last() == pre);
            assert(pre1.last() == tag_ids@[i as int]@);
        }
        let mut seen = false;
        let mut j: usize = 0;
        while j < r.len()
            invariant
                i < n,
                n == tag_ids@.len(),
                j <= r@.len(),
                seen ==> pre.contains(tag_ids@[i as int]@),
                !seen ==> forall|k: int| 0 <= k < j ==> r@[k]@ != tag_ids@[i as int]@,
                str_views(r@) == dedup_strs(pre),
            decreases r@.len() - j,
        {
            if str_eq(r[j].as_str(), tag_ids[i].as_str()) {
                proof {
                    assert(str_views(r@)[j as int] == r@[j as int]@);
                    assert(str_views(r@).contains(tag_ids@[i as int]@));
                    lemma_dedup_strs_contains(pre);
                }
                seen = true;
            }
            j += 1;
        }
        if !seen {
            proof {
                assert forall|k: int| 0 <= k < pre.len() implies pre[k] != tag_ids@[i as int]@ by {
                    lemma_dedup_strs_contains(pre);
                    if pre[k] == tag_ids@[i as int]@ {
                        assert(pre.contains(tag_ids@[i as int]@));
                        assert(dedup_strs(pre).contains(tag_ids@[i as int]@));
                        let m = choose|m: int|
                            0 <= m < dedup_strs(pre).len() && dedup_strs(pre)[m] == tag_ids@[i
                                as int]@;
                        assert(r@[m]@ == tag_ids@[i as int]@);
                    }
                }
                assert(!pre.contains(pre1.last()));
            }
            r.push(tag_ids[i].clone());
            proof {
                assert(str_views(r@) =~= dedup_strs(pre).push(pre1.last()));
            }
        } else {
            proof {
                assert(pre.contains(pre1.last()));
            }
        }
        i += 1;
    }
    proof {
        assert(tag_ids@.subrange(0, n as int) =~= tag_ids@);
    }
    r
}

/// Why a store operation failed.
#[derive(Clone, Copy, PartialEq, Eq, Structural, Debug)]
pub enum StoreError {
    /// No task with the given id exists.
    NotFound,
    /// A task with the given id already exists.
    DuplicateId,
}

impl StoreError {
    /// A short description of the failure.
    pub fn message(&self) -> (r: String)
        ensures
            *self == StoreError::NotFound ==> r@ == "task not found"@,
            *self == StoreError::DuplicateId ==> r@ == "task id already exists"@,
    {
        match self {
            StoreError::NotFound => "task not found".to_owned(),
            StoreError::DuplicateId => "task id already exists".to_owned(),
        }
    }
}

/// The mathematical value of each task in a sequence.
pub open spec fn task_views(s: Seq<Task>) -> Seq<TaskView> {
    s.map_values(|t: Task| t@)
}

/// Sort positions never decrease along the sequence.
pub open spec fn sorted_by_order(s: Seq<Task>) -> bool {
    forall|i: int, j: int| 0 <= i < j < s.len() ==> s[i].sort_order <= s[j].sort_order
}

/// No two tasks share an id.
pub open spec fn distinct_ids(s: Seq<Task>) -> bool {
    forall|i: int, j: int| 0 <= i < j < s.len() ==> s[i].id@ != s[j].id@
}

/// Some task in the sequence has the given id.
pub open spec fn has_task_id(s: Seq<Task>, id: Seq<char>) -> bool {
    exists|i: int| 0 <= i < s.len() && s[i].id@ == id
}

/// The contents of an optional borrowed string.
pub open spec fn opt_ref_view(o: Option<&str>) -> Option<Seq<char>> {
    match o {
        Option::Some(s) => Option::Some(s@),
        Option::None => Option::None,
    }
}

/// The sort position a newly created task receives: one past the largest
/// position in use, starting at zero, clamped at the integer ceiling.
pub open spec fn next_order(s: Seq<Task>) -> i32 {
    if s.len() == 0 {
        0i32
    } else if s.last().sort_order == i32::MAX {
        i32::MAX
    } else {
        (s.last().sort_order + 1) as i32
    }
}

/// The task value after applying an update request.  Setting any field also
/// stamps the update time; a request that sets nothing leaves the task
/// untouched.  A set of tag ids is stored with later repetitions dropped.
pub open spec fn patched_view(t: TaskView, p: TaskPatch, now: Seq<char>) -> TaskView {
    TaskView {
        id: t.id,
        title: match p.title {
            Change::SetTo(v) => v@,
            Change::Unchanged => t.title,
        },
        description: match p.description {
            Change::SetTo(v) => v@,
            Change::Unchanged => t.description,
        },
        status: match p.status {
            Change::SetTo(v) => status_of_text(v@),
            Change::Unchanged => t.status,
        },
        priority: match p.priority {
            Change::SetTo(v) => priority_of_text(v@),
            Change::Unchanged => t.priority,
        },
        project_id: match p.project_id {
            Change::SetTo(v) => opt_view(v),
            Change::Unchanged => t.project_id,
        },
        tags: match p.tag_ids {
            Change::SetTo(v) => dedup_strs(str_views(v@)),
            Change::Unchanged => t.tags,
        },
        subtasks: t.subtasks,
        due_date: match p.due_date {
            Change::SetTo(v) => opt_view(v),
            Change::Unchanged => t.due_date,
        },
        reminder: match p.reminder {
            Change::SetTo(v) => opt_view(v),
            Change::Unchanged => t.reminder,
        },
        repeat: match p.repeat_type {
            Change::SetTo(v) => repeat_of_text(v@),
            Change::Unchanged => t.repeat,
        },
        favorite: t.favorite,
        sort_order: t.sort_order,
        created_at: t.created_at,
        updated_at: if patch_touches(p) {
            now
        } else {
            t.updated_at
        },
        completed_at: t.completed_at,
    }
}

/// The task value after toggling completion: a completed task returns to
/// Todo and loses its completion time; any other task becomes Completed and
/// is stamped with it.  Both directions stamp the update time.
pub open spec fn toggled_view(t: TaskView, now: Seq<char>) -> TaskView {
    if t.status == TaskStatus::Completed {
        TaskView {
            status: TaskStatus::Todo,
            completed_at: Option::None,
            updated_at: now,
            ..t
        }
    } else {
        TaskView {
            status: TaskStatus::Completed,
            completed_at: Option::Some(now),
            updated_at: now,
            ..t
        }
    }
}

/// The task value after toggling the favorite flag.
pub open spec fn favorite_toggled_view(t: TaskView, now: Seq<char>) -> TaskView {
    TaskView { favorite: !t.favorite, updated_at: now, ..t }
}

/// Toggling completion twice restores the task: for any task that honours
/// the completion invariant — a completion time exactly when completed —
/// and is not in progress, two toggles give back the original status and
/// the original presence of a completion time, and change nothing else
/// beyond the refreshed update and completion timestamps.  A task that
/// starts out uncompleted is restored exactly, up to the update timestamp.
pub proof fn lemma_toggle_round_trip(t: TaskView, n1: Seq<char>, n2: Seq<char>)
    requires
        t.status != TaskStatus::InProgress,
        t.completed_at is Some <==> t.status == TaskStatus::Completed,
    ensures
        toggled_view(toggled_view(t, n1), n2).status == t.status,
        toggled_view(toggled_view(t, n1), n2).completed_at is Some <==> t.completed_at is Some,
        toggled_view(toggled_view(t, n1), n2) == (TaskView {
            updated_at: n2,
            completed_at: toggled_view(toggled_view(t, n1), n2).completed_at,
            ..t
        }),
        t.status == TaskStatus::Todo ==> toggled_view(toggled_view(t, n1), n2) == (TaskView {
            updated_at: n2,
            ..t
        }),
{
}

/// The collection of tasks, ordered by sort position.
pub struct TaskStore {
    tasks: Vec<Task>,
}

impl View for TaskStore {
    type V = Seq<Task>;

    closed spec fn view(&self) -> Seq<Task> {
        self.tasks@
    }
}

impl TaskStore {
    /// The collection invariant.
    pub open spec fn wf(&self) -> bool {
        sorted_by_order(self@) && distinct_ids(self@)
    }

    /// An empty store.
    pub fn new() -> (r: TaskStore)
        ensures
            r@ == Seq::<Task>::empty(),
            r.wf(),
    {
        TaskStore { tasks: Vec::new() }
    }

    /// Adopt an externally loaded task list, provided it is ordered by sort
    /// position and carries no duplicate id.
    pub fn load(tasks: Vec<Task>) -> (r: Option<TaskStore>)
        ensures
            match r {
                Option::Some(st) => st@ == tasks@ && st.wf(),
                Option::None => !(sorted_by_order(tasks@) && distinct_ids(tasks@)),
            },
    {
        if !check_sorted(&tasks) {
            return Option::None;
        }
        if !check_distinct(&tasks) {
            return Option::None;
        }
        Option::Some(TaskStore { tasks })
    }

    /// The position of the first task with the given id, if any.
    fn index_of(&self, id: &str) -> (r: Option<usize>)
        ensures
            match r {
                Option::Some(i) => i < self@.len() && self@[i as int].id@ == id@ && (forall|j: int|
                    0 <= j < i ==> self@[j].id@ != id@),
                Option::None => !has_task_id(self@, id@),
            },
    {
        let n = self.tasks.len();
        let mut i: usize = 0;
        while i < n
            invariant
                n == self@.len(),
                i <= n,
                forall|j: int| 0 <= j < i ==> self@[j].id@ != id@,
            decreases n - i,
        {
            if str_eq(self.tasks[i].id.as_str(), id) {
                return Option::Some(i);
            }
            i += 1;
        }
        Option::None
    }

    /// All tasks, in sort-position order.
    pub fn get_all(&self) -> (r: Vec<Task>)
        ensures
            task_views(r@) == task_views(self@),
    {
        let n = self.tasks.len();
        let mut r: Vec<Task> = Vec::new();
        let mut i: usize = 0;
        while i < n
            invariant
                n == self@.len(),
                i <= n,
                r@.len() == i,
                forall|j: int| 0 <= j < i ==> r@[j]@ == self@[j]@,
            decreases n - i,
        {
            r.push(self.tasks[i].clone());
            i += 1;
        }
        proof {
            assert(task_views(r@) =~= task_views(self@));
        }
        r
    }

    /// The task with the given id; fails with `NotFound` exactly when no
    /// task has that id.
    pub fn get_by_id(&self, id: &str) -> (r: Result<Task, StoreError>)
        ensures
            match r {
                Result::Ok(t) => exists|i: int|
                    0 <= i < self@.len() && self@[i].id@ == id@ && t@ == self@[i]@,
                Result::Err(e) => e == StoreError::NotFound && !has_task_id(self@, id@),
            },
    {
        match self.index_of(id) {
            Option::Some(i) => Result::Ok(self.tasks[i].clone()),
            Option::None => Result::Err(StoreError::NotFound),
        }
    }

    /// Replace the task at position `i` by one keeping its id and sort
    /// position.
    fn replace_at(&mut self, i: usize, t: Task)
        requires
            old(self).wf(),
            i < old(self)@.len(),
            t.id@ == old(self)@[i as int].id@,
            t.sort_order == old(self)@[i as int].sort_order,
        ensures
            final(self).wf(),
            final(self)@.len() == old(self)@.len(),
            forall|j: int| 0 <= j < old(self)@.len() && j != i ==> final(self)@[j] == old(
                self,
            )@[j],
            final(self)@[i as int] == t,
    {
        self.tasks.remove(i);
        self.tasks.insert(i, t);
    }

    /// Add a freshly created task after the last one; every other field
    /// starts at its default.  Fails with `DuplicateId` exactly when the id
    /// is already in use.
    pub fn create(
        &mut self,
        id: &str,
        title: &str,
        priority: &str,
        project_id: Option<&str>,
        due_date: Option<&str>,
        repeat_type: &str,
        tag_ids: &Vec<String>,
        now: &str,
    ) -> (r: Result<Task, StoreError>)
        requires
            old(self).wf(),
        ensures
            final(self).wf(),
            match r {
                Result::Ok(t) => {
                    &&& !has_task_id(old(self)@, id@)
                    &&& final(self)@.len() == old(self)@.len() + 1
                    &&& final(self)@.subrange(0, old(self)@.len() as int) == old(self)@
                    &&& final(self)@.last()@ == t@
                    &&& t@.id == id@
                    &&& t@.title == title@
                    &&& t@.description == Seq::<char>::empty()
                    &&& t@.status == TaskStatus::Todo
                    &&& t@.priority == priority_of_text(priority@)
                    &&& t@.project_id == opt_ref_view(project_id)
                    &&& t@.tags == dedup_strs(str_views(tag_ids@))
                    &&& t@.subtasks == Seq::<SubTaskView>::empty()
                    &&& t@.due_date == opt_ref_view(due_date)
                    &&& t@.reminder is None
                    &&& t@.repeat == repeat_of_text(repeat_type@)
                    &&& t@.favorite == false
                    &&& t@.sort_order == next_order(old(self)@)
                    &&& t@.created_at == now@
                    &&& t@.updated_at == now@
                    &&& t@.completed_at is None
                },
                Result::Err(e) => e == StoreError::DuplicateId && has_task_id(old(self)@, id@)
                    && final(self)@ == old(self)@,
            },
    {
        match self.index_of(id) {
            Option::Some(_) => {
                return Result::Err(StoreError::DuplicateId);
            },
            Option::None => {},
        }
        let order: i32 = if self.tasks.len() == 0 {
            0
        } else {
            let last = self.tasks[self.tasks.len() - 1].sort_order;
            if last == i32::MAX {
                i32::MAX
            } else {
                last + 1
            }
        };
        let t = Task {
            id: id.to_owned(),
            title: title.to_owned(),
            description: String::new(),
            status: TaskStatus::Todo,
            priority: Priority::from_str(priority),
            project_id: match project_id {
                Option::Some(p) => Option::Some(p.to_owned()),
                Option::None => Option::None,
            },
            tags: dedup_tags(tag_ids),
            subtasks: Vec::new(),
            due_date: match due_date {
                Option::Some(d) => Option::Some(d.to_owned()),
                Option::None => Option::None,
            },
            reminder: Option::None,
            repeat: RepeatType::from_str(repeat_type),
            favorite: false,
            sort_order: order,
            created_at: now.to_owned(),
            updated_at: now.to_owned(),
            completed_at: Option::None,
        };
        let ret = t.clone();
        proof {
            assert forall|p: int, q: int|
                0 <= p < q < old(self)@.len() + 1 implies old(self)@.push(t)[p].sort_order
                <= old(self)@.push(t)[q].sort_order by {
                if q < old(self)@.len() {
                } else {
                    assert(old(self)@.push(t)[q] == t);
                    if old(self)@.len() > 0 && p < old(self)@.len() {
                        assert(old(self)@[p].sort_order <= old(self)@[old(self)@.len()
                            - 1].sort_order);
                    }
                }
            }
        }
        self.tasks.push(t);
        proof {
            assert(final(self)@.subrange(0, old(self)@.len() as int) =~= old(self)@);
        }
        Result::Ok(ret)
    }

    /// Apply a field-level update request to the task with the given id.
    /// Fails with `NotFound` exactly when no task has that id.
    pub fn update(&mut self, id: &str, patch: &TaskPatch, now: &str) -> (r: Result<
        Task,
        StoreError,
    >)
        requires
            old(self).wf(),
        ensures
            final(self).wf(),
            match r {
                Result::Ok(t) => exists|i: int|
                    {
                        &&& 0 <= i < old(self)@.len()
                        &&& #[trigger] old(self)@[i].id@ == id@
                        &&& final(self)@.len() == old(self)@.len()
                        &&& (forall|j: int|
                            0 <= j < old(self)@.len() && j != i ==> final(self)@[j] == old(
                                self,
                            )@[j])
                        &&& final(self)@[i]@ == patched_view(old(self)@[i]@, *patch, now@)
                        &&& t@ == final(self)@[i]@
                    },
                Result::Err(e) => e == StoreError::NotFound && !has_task_id(old(self)@, id@)
                    && final(self)@ == old(self)@,
            },
    {
        let i = match self.index_of(id) {
            Option::Some(i) => i,
            Option::None => {
                return Result::Err(StoreError::NotFound);
            },
        };
        let t = self.tasks[i].clone();
        let touched = patch_touches_exec(patch);
        let new_t = Task {
            id: t.id,
            title: match &patch.title {
                Change::SetTo(v) => v.clone(),
                Change::Unchanged => t.title,
            },
            description: match &patch.description {
                Change::SetTo(v) => v.clone(),
                Change::Unchanged => t.description,
            },
            status: match &patch.status {
                Change::SetTo(v) => TaskStatus::from_str(v.as_str()),
                Change::Unchanged => t.status,
            },
            priority: match &patch.priority {
                Change::SetTo(v) => Priority::from_str(v.as_str()),
                Change::Unchanged => t.priority,
            },
            project_id: match &patch.project_id {
                Change::SetTo(v) => crate::task::clone_opt_string(v),
                Change::Unchanged => t.project_id,
            },
            tags: match &patch.tag_ids {
                Change::SetTo(v) => dedup_tags(v),
                Change::Unchanged => t.tags,
            },
            subtasks: t.subtasks,
            due_date: match &patch.due_date {
                Change::SetTo(v) => crate::task::clone_opt_string(v),
                Change::Unchanged => t.due_date,
            },
            reminder: match &patch.reminder {
                Change::SetTo(v) => crate::task::clone_opt_string(v),
                Change::Unchanged => t.reminder,
            },
            repeat: match &patch.repeat_type {
                Change::SetTo(v) => RepeatType::from_str(v.as_str()),
                Change::Unchanged => t.repeat,
            },
            favorite: t.favorite,
            sort_order: t.sort_order,
            created_at: t.created_at,
            updated_at: if touched {
                now.to_owned()
            } else {
                t.updated_at
            },
            completed_at: t.completed_at,
        };
        proof {
            assert(new_t@ =~= patched_view(old(self)@[i as int]@, *patch, now@));
        }
        let ret = new_t.clone();
        self.replace_at(i, new_t);
        Result::Ok(ret)
    }

    /// Flip completion of the task with the given id, setting or clearing
    /// its completion time in the same step.  Fails with `NotFound` exactly
    /// when no task has that id.
    pub fn toggle_status(&mut self, id: &str, now: &str) -> (r: Result<Task, StoreError>)
        requires
            old(self).wf(),
        ensures
            final(self).wf(),
            match r {
                Result::Ok(t) => exists|i: int|
                    {
                        &&& 0 <= i < old(self)@.len()
                        &&& #[trigger] old(self)@[i].id@ == id@
                        &&& final(self)@.len() == old(self)@.len()
                        &&& (forall|j: int|
                            0 <= j < old(self)@.len() && j != i ==> final(self)@[j] == old(
                                self,
                            )@[j])
                        &&& final(self)@[i]@ == toggled_view(old(self)@[i]@, now@)
                        &&& t@ == final(self)@[i]@
                    },
                Result::Err(e) => e == StoreError::NotFound && !has_task_id(old(self)@, id@)
                    && final(self)@ == old(self)@,
            },
    {
        let i = match self.index_of(id) {
            Option::Some(i) => i,
            Option::None => {
                return Result::Err(StoreError::NotFound);
            },
        };
        let t = self.tasks[i].clone();
        let new_t = if t.status == TaskStatus::Completed {
            Task {
                status: TaskStatus::Todo,
                completed_at: Option::None,
                updated_at: now.to_owned(),
                ..t
            }
        } else {
            Task {
                status: TaskStatus::Completed,
                completed_at: Option::Some(now.to_owned()),
                updated_at: now.to_owned(),
                ..t
            }
        };
        proof {
            assert(new_t@ =~= toggled_view(old(self)@[i as int]@, now@));
        }
        let ret = new_t.clone();
        self.replace_at(i, new_t);
        Result::Ok(ret)
    }

    /// Flip the favorite flag of the task with the given id.  Fails with
    /// `NotFound` exactly when no task has that id.
    pub fn toggle_favorite(&mut self, id: &str, now: &str) -> (r: Result<Task, StoreError>)
        requires
            old(self).wf(),
        ensures
            final(self).wf(),
            match r {
                Result::Ok(t) => exists|i: int|
                    {
                        &&& 0 <= i < old(self)@.len()
                        &&& #[trigger] old(self)@[i].id@ == id@
                        &&& final(self)@.len() == old(self)@.len()
                        &&& (forall|j: int|
                            0 <= j < old(self)@.len() && j != i ==> final(self)@[j] == old(
                                self,
                            )@[j])
                        &&& final(self)@[i]@ == favorite_toggled_view(old(self)@[i]@, now@)
                        &&& t@ == final(self)@[i]@
                    },
                Result::Err(e) => e == StoreError::NotFound && !has_task_id(old(self)@, id@)
                    && final(self)@ == old(self)@,
            },
    {
        let i = match self.index_of(id) {
            Option::Some(i) => i,
            Option::None => {
                return Result::Err(StoreError::NotFound);
            },
        };
        let t = self.tasks[i].clone();
        let flag = t.favorite;
        let new_t = Task { favorite: !flag, updated_at: now.to_owned(), ..t };
        proof {
            assert(new_t@ =~= favorite_toggled_view(old(self)@[i as int]@, now@));
        }
        let ret = new_t.clone();
        self.replace_at(i, new_t);
        Result::Ok(ret)
    }

    /// Give each listed id, in turn, its position in the list as sort
    /// position — a full list of all ids yields the dense positions
    /// `0..N-1` — then restore the ordering invariant by a stable sort, so
    /// unlisted tasks keep their old positions and their relative order.
    /// Ids not in the store are skipped.
    pub fn reorder(&mut self, ordered_ids: &Vec<String>)
        requires
            old(self).wf(),
            ordered_ids@.len() <= i32::MAX,
        ensures
            final(self).wf(),
            final(self)@ == stable_sort(
                assign_orders(old(self)@, str_views(ordered_ids@)),
            ),
    {
        let ghost orig = self.tasks@;
        let n = ordered_ids.len();
        let mut k: usize = 0;
        while k < n
            invariant
                n == ordered_ids@.len(),
                n <= i32::MAX,
                k <= n,
                self.tasks@.len() == orig.len(),
                forall|p: int| 0 <= p < orig.len() ==> self.tasks@[p].id@ == orig[p].id@,
                self.tasks@ == assign_orders(orig, str_views(ordered_ids@.subrange(0, k as int))),
            decreases n - k,
        {
            let ghost before = self.tasks@;
            let idk = &ordered_ids[k];
            match self.index_of(idk.as_str()) {
                Option::Some(i) => {
                    proof {
                        lemma_first_index_at(before, idk@, i as int);
                    }
                    let t = self.tasks.remove(i);
                    let t2 = Task { sort_order: k as i32, ..t };
                    self.tasks.insert(i, t2);
                    proof {
                        assert(self.tasks@ =~= assign_one(before, idk@, k as i32));
                    }
                },
                Option::None => {
                    proof {
                        assert forall|j: int| 0 <= j < before.len() implies before[j].id@
                            != idk@ by {
                            assert(!has_task_id(before, idk@));
                        }
                        lemma_first_index_absent(before, idk@);
                        assert(self.tasks@ == assign_one(before, idk@, k as i32));
                    }
                },
            }
            proof {
                let pre1 = str_views(ordered_ids@.subrange(0, k as int + 1));
                assert(ordered_ids@.subrange(0, k as int + 1).drop_last() =~= ordered_ids@.subrange(
                    0,
                    k as int,
                ));
                lemma_str_views_drop_last(ordered_ids@.subrange(0, k as int + 1));
                assert(pre1.drop_last() == str_views(ordered_ids@.subrange(0, k as int)));
                assert(pre1.last() == ordered_ids@[k as int]@);
                assert(self.tasks@ == assign_orders(orig, pre1));
            }
            k += 1;
        }
        proof {
            assert(ordered_ids@.subrange(0, n as int) =~= ordered_ids@);
        }
        let ghost assigned = self.tasks@;
        let mut in_order: Vec<Task> = Vec::new();
        let ghost mut taken: int = 0;
        while self.tasks.len() > 0
            invariant
                0 <= taken <= assigned.len(),
                self.tasks@ == assigned.subrange(taken, assigned.len() as int),
                in_order@ == stable_sort(assigned.subrange(0, taken)),
            decreases self.tasks@.len(),
        {
            let t = self.tasks.remove(0);
            proof {
                assert(t == assigned[taken]);
                assert(self.tasks@ =~= assigned.subrange(taken + 1, assigned.len() as int));
            }
            insert_sorted(&mut in_order, t);
            proof {
                assert(assigned.subrange(0, taken + 1).drop_last() =~= assigned.subrange(
                    0,
                    taken,
                ));
                assert(assigned.subrange(0, taken + 1).last() == assigned[taken]);
                taken = taken + 1;
            }
        }
        self.tasks.append(&mut in_order);
        proof {
            assert(assigned.subrange(0, assigned.len() as int) =~= assigned);
            assert(self.tasks@ =~= stable_sort(assigned));
            lemma_stable_sort_props(assigned);
            assert forall|p: int, q: int| 0 <= p < q < assigned.len() implies assigned[p].id@
                != assigned[q].id@ by {
                assert(orig[p].id@ != orig[q].id@);
            }
        }
    }

    /// The subtasks of the task with the given id, in their stored order;
    /// an absent task has none.
    pub fn get_subtasks(&self, task_id: &str) -> (r: Vec<SubTask>)
        ensures
            has_task_id(self@, task_id@) ==> exists|i: int|
                0 <= i < self@.len() && #[trigger] self@[i].id@ == task_id@
                    && r@ == self@[i].subtasks@,
            !has_task_id(self@, task_id@) ==> r@ == Seq::<SubTask>::empty(),
    {
        match self.index_of(task_id) {
            Option::Some(i) => {
                let r = crate::task::clone_subtasks(&self.tasks[i].subtasks);
                proof {
                    assert(self@[i as int].id@ == task_id@);
                }
                r
            },
            Option::None => Vec::new(),
        }
    }

    /// The tag ids of the task with the given id; an absent task has none.
    pub fn get_task_tags(&self, task_id: &str) -> (r: Vec<String>)
        ensures
            has_task_id(self@, task_id@) ==> exists|i: int|
                0 <= i < self@.len() && #[trigger] self@[i].id@ == task_id@
                    && r@ == self@[i].tags@,
            !has_task_id(self@, task_id@) ==> r@ == Seq::<String>::empty(),
    {
        match self.index_of(task_id) {
            Option::Some(i) => crate::task::clone_strings(&self.tasks[i].tags),
            Option::None => Vec::new(),
        }
    }

    /// Append a subtask to the task with the given id, stamping the parent's
    /// update time.  Fails with `NotFound` exactly when no task has that id.
    pub fn add_subtask(&mut self, id: &str, task_id: &str, title: &str, now: &str) -> (r: Result<
        SubTask,
        StoreError,
    >)
        requires
            old(self).wf(),
        ensures
            final(self).wf(),
            match r {
                Result::Ok(st) => {
                    &&& st@ == (SubTaskView { id: id@, title: title@, completed: false })
                    &&& exists|i: int|
                        {
                            &&& 0 <= i < old(self)@.len()
                            &&& #[trigger] old(self)@[i].id@ == task_id@
                            &&& final(self)@.len() == old(self)@.len()
                            &&& (forall|j: int|
                                0 <= j < old(self)@.len() && j != i ==> final(self)@[j] == old(
                                    self,
                                )@[j])
                            &&& final(self)@[i]@ == (TaskView {
                                subtasks: old(self)@[i]@.subtasks.push(st@),
                                updated_at: now@,
                                ..old(self)@[i]@
                            })
                        }
                },
                Result::Err(e) => e == StoreError::NotFound && !has_task_id(old(self)@, task_id@)
                    && final(self)@ == old(self)@,
            },
    {
        let i = match self.index_of(task_id) {
            Option::Some(i) => i,
            Option::None => {
                return Result::Err(StoreError::NotFound);
            },
        };
        let st = SubTask { id: id.to_owned(), title: title.to_owned(), completed: false };
        let ret = st.clone();
        let mut t = self.tasks[i].clone();
        t.subtasks.push(st);
        t.updated_at = now.to_owned();
        proof {
            assert(sub_views(t.subtasks@) =~= old(self)@[i as int]@.subtasks.push(ret@));
            assert(t@ =~= (TaskView {
                subtasks: old(self)@[i as int]@.subtasks.push(ret@),
                updated_at: now@,
                ..old(self)@[i as int]@
            }));
        }
        self.replace_at(i, t);
        Result::Ok(ret)
    }

    /// Toggle completion of the matching subtask of the given task,
    /// stamping the parent's update time.  With no matching task, nothing
    /// changes; a missing subtask id still stamps the parent.
    pub fn toggle_subtask(&mut self, task_id: &str, subtask_id: &str, now: &str)
        requires
            old(self).wf(),
        ensures
            final(self).wf(),
            has_task_id(old(self)@, task_id@) ==> exists|i: int|
                {
                    &&& 0 <= i < old(self)@.len()
                    &&& #[trigger] old(self)@[i].id@ == task_id@
                    &&& final(self)@.len() == old(self)@.len()
                    &&& (forall|j: int|
                        0 <= j < old(self)@.len() && j != i ==> final(self)@[j] == old(self)@[j])
                    &&& final(self)@[i]@ == (TaskView {
                        subtasks: toggled_subs(old(self)@[i]@.subtasks, subtask_id@),
                        updated_at: now@,
                        ..old(self)@[i]@
                    })
                },
            !has_task_id(old(self)@, task_id@) ==> final(self)@ == old(self)@,
    {
        let i = match self.index_of(task_id) {
            Option::Some(i) => i,
            Option::None => {
                return ;
            },
        };
        let mut t = self.tasks[i].clone();
        let n = t.subtasks.len();
        let mut subs: Vec<SubTask> = Vec::new();
        let mut j: usize = 0;
        while j < n
            invariant
                n == t.subtasks@.len(),
                j <= n,
                subs@.len() == j,
                forall|k: int|
                    0 <= k < j ==> subs@[k]@ == (if t.subtasks@[k]@.id == subtask_id@ {
                        SubTaskView { completed: !t.subtasks@[k]@.completed, ..t.subtasks@[k]@ }
                    } else {
                        t.subtasks@[k]@
                    }),
            decreases n - j,
        {
            let s = &t.subtasks[j];
            if str_eq(s.id.as_str(), subtask_id) {
                subs.push(
                    SubTask { id: s.id.clone(), title: s.title.clone(), completed: !s.completed },
                );
            } else {
                subs.push(s.clone());
            }
            j += 1;
        }
        proof {
            assert(sub_views(subs@) =~= toggled_subs(old(self)@[i as int]@.subtasks, subtask_id@));
        }
        t.subtasks = subs;
        t.updated_at = now.to_owned();
        proof {
            assert(t@ =~= (TaskView {
                subtasks: toggled_subs(old(self)@[i as int]@.subtasks, subtask_id@),
                updated_at: now@,
                ..old(self)@[i as int]@
            }));
        }
        self.replace_at(i, t);
    }

    /// Retitle the matching subtask of the given task, stamping the
    /// parent's update time.  With no matching task, nothing changes.
    pub fn update_subtask(&mut self, task_id: &str, subtask_id: &str, title: &str, now: &str)
        requires
            old(self).wf(),
        ensures
            final(self).wf(),
            has_task_id(old(self)@, task_id@) ==> exists|i: int|
                {
                    &&& 0 <= i < old(self)@.len()
                    &&& #[trigger] old(self)@[i].id@ == task_id@
                    &&& final(self)@.len() == old(self)@.len()
                    &&& (forall|j: int|
                        0 <= j < old(self)@.len() && j != i ==> final(self)@[j] == old(self)@[j])
                    &&& final(self)@[i]@ == (TaskView {
                        subtasks: retitled_subs(old(self)@[i]@.subtasks, subtask_id@, title@),
                        updated_at: now@,
                        ..old(self)@[i]@
                    })
                },
            !has_task_id(old(self)@, task_id@) ==> final(self)@ == old(self)@,
    {
        let i = match self.index_of(task_id) {
            Option::Some(i) => i,
            Option::None => {
                return ;
            },
        };
        let mut t = self.tasks[i].clone();
        let n = t.subtasks.len();
        let mut subs: Vec<SubTask> = Vec::new();
        let mut j: usize = 0;
        while j < n
            invariant
                n == t.subtasks@.len(),
                j <= n,
                subs@.len() == j,
                forall|k: int|
                    0 <= k < j ==> subs@[k]@ == (if t.subtasks@[k]@.id == subtask_id@ {
                        SubTaskView { title: title@, ..t.subtasks@[k]@ }
                    } else {
                        t.subtasks@[k]@
                    }),
            decreases n - j,
        {
            let s = &t.subtasks[j];
            if str_eq(s.id.as_str(), subtask_id) {
                subs.push(
                    SubTask { id: s.id.clone(), title: title.to_owned(), completed: s.completed },
                );
            } else {
                subs.push(s.clone());
            }
            j += 1;
        }
        proof {
            assert(sub_views(subs@) =~= retitled_subs(
                old(self)@[i as int]@.subtasks,
                subtask_id@,
                title@,
            ));
        }
        t.subtasks = subs;
        t.updated_at = now.to_owned();
        proof {
            assert(t@ =~= (TaskView {
                subtasks: retitled_subs(old(self)@[i as int]@.subtasks, subtask_id@, title@),
                updated_at: now@,
                ..old(self)@[i as int]@
            }));
        }
        self.replace_at(i, t);
    }

    /// Remove the matching subtask of the given task, stamping the parent's
    /// update time.  With no matching task, nothing changes.
    pub fn delete_subtask(&mut self, task_id: &str, subtask_id: &str, now: &str)
        requires
            old(self).wf(),
        ensures
            final(self).wf(),
            has_task_id(old(self)@, task_id@) ==> exists|i: int|
                {
                    &&& 0 <= i < old(self)@.len()
                    &&& #[trigger] old(self)@[i].id@ == task_id@
                    &&& final(self)@.len() == old(self)@.len()
                    &&& (forall|j: int|
                        0 <= j < old(self)@.len() && j != i ==> final(self)@[j] == old(self)@[j])
                    &&& final(self)@[i]@ == (TaskView {
                        subtasks: old(self)@[i]@.subtasks.filter(
                            |sv: SubTaskView| sv.id != subtask_id@,
                        ),
                        updated_at: now@,
                        ..old(self)@[i]@
                    })
                },
            !has_task_id(old(self)@, task_id@) ==> final(self)@ == old(self)@,
    {
        let i = match self.index_of(task_id) {
            Option::Some(i) => i,
            Option::None => {
                return ;
            },
        };
        let mut t = self.tasks[i].clone();
        let ghost vs = old(self)@[i as int]@.subtasks;
        let n = t.subtasks.len();
        let mut subs: Vec<SubTask> = Vec::new();
        proof {
            reveal(Seq::filter);
            assert(sub_views(subs@) =~= vs.subrange(0, 0).filter(
                |sv: SubTaskView| sv.id != subtask_id@,
            ));
        }
        let mut j: usize = 0;
        while j < n
            invariant
                n == t.subtasks@.len(),
                j <= n,
                vs == sub_views(t.subtasks@),
                sub_views(subs@) == vs.subrange(0, j as int).filter(
                    |sv: SubTaskView| sv.id != subtask_id@,
                ),
            decreases n - j,
        {
            let ghost pre = vs.subrange(0, j as int);
            let ghost pre1 = vs.subrange(0, j as int + 1);
            proof {
                reveal(Seq::filter);
                assert(pre1.drop_last() =~= pre);
                assert(pre1.last() == vs[j as int]);
                assert(vs[j as int] == t.subtasks@[j as int]@);
            }
            let s = &t.subtasks[j];
            if !str_eq(s.id.as_str(), subtask_id) {
                subs.push(s.clone());
                proof {
                    reveal(Seq::filter);
                    assert(sub_views(subs@) =~= pre.filter(
                        |sv: SubTaskView| sv.id != subtask_id@,
                    ).push(vs[j as int]));
                }
            } else {
                proof {
                    reveal(Seq::filter);
                    assert(pre1.filter(|sv: SubTaskView| sv.id != subtask_id@) == pre.filter(
                        |sv: SubTaskView| sv.id != subtask_id@,
                    ));
                }
            }
            j += 1;
        }
        proof {
            assert(vs.subrange(0, n as int) =~= vs);
        }
        t.subtasks = subs;
        t.updated_at = now.to_owned();
        proof {
            assert(t@ =~= (TaskView {
                subtasks: vs.filter(|sv: SubTaskView| sv.id != subtask_id@),
                updated_at: now@,
                ..old(self)@[i as int]@
            }));
        }
        self.replace_at(i, t);
    }

    /// Remove the task with the given id; removing an absent id is a no-op.
    pub fn delete(&mut self, id: &str)
        requires
            old(self).wf(),
        ensures
            final(self).wf(),
            has_task_id(old(self)@, id@) ==> exists|i: int|
                0 <= i < old(self)@.len() && old(self)@[i].id@ == id@ && final(self)@ == old(
                    self,
                )@.remove(i),
            !has_task_id(old(self)@, id@) ==> final(self)@ == old(self)@,
    {
        match self.index_of(id) {
            Option::Some(i) => {
                self.tasks.remove(i);
            },
            Option::None => {},
        }
    }
}

/// The subtask list after toggling completion of every subtask with the
/// given id.
pub open spec fn toggled_subs(s: Seq<SubTaskView>, id: Seq<char>) -> Seq<SubTaskView> {
    s.map_values(
        |sv: SubTaskView|
            if sv.id == id {
                SubTaskView { completed: !sv.completed, ..sv }
            } else {
                sv
            },
    )
}

/// The subtask list after retitling every subtask with the given id.
pub open spec fn retitled_subs(s: Seq<SubTaskView>, id: Seq<char>, title: Seq<char>) -> Seq<
    SubTaskView,
> {
    s.map_values(
        |sv: SubTaskView|
            if sv.id == id {
                SubTaskView { title: title, ..sv }
            } else {
                sv
            },
    )
}

/// Insert a task after every task whose sort position does not exceed its
/// own, keeping earlier tasks in place.
pub open spec fn insert_by_order(s: Seq<Task>, t: Task) -> Seq<Task>
    decreases s.len(),
{
    if s.len() == 0 {
        seq![t]
    } else if s.last().sort_order <= t.sort_order {
        s.push(t)
    } else {
        insert_by_order(s.drop_last(), t).push(s.last())
    }
}

/// Stable sort by sort position: tasks with equal positions keep their
/// relative order.
pub open spec fn stable_sort(s: Seq<Task>) -> Seq<Task>
    decreases s.len(),
{
    if s.len() == 0 {
        Seq::empty()
    } else {
        insert_by_order(stable_sort(s.drop_last()), s.last())
    }
}

/// Where the inserted task lands: the sequence splits around it, everything
/// after it having a strictly larger sort position.
proof fn lemma_insert_by_order_splits(s: Seq<Task>, t: Task, j: int)
    requires
        0 <= j <= s.len(),
        forall|k: int| j <= k < s.len() ==> s[k].sort_order > t.sort_order,
        j > 0 ==> s[j - 1].sort_order <= t.sort_order,
    ensures
        insert_by_order(s, t) == s.subrange(0, j) + seq![t] + s.subrange(j, s.len() as int),
    decreases s.len(),
{
    if s.len() == 0 {
        assert(insert_by_order(s, t) =~= s.subrange(0, j) + seq![t] + s.subrange(
            j,
            s.len() as int,
        ));
    } else if s.last().sort_order <= t.sort_order {
        assert(j == s.len());
        assert(s.push(t) =~= s.subrange(0, j) + seq![t] + s.subrange(j, s.len() as int));
    } else {
        assert(j < s.len());
        let d = s.drop_last();
        lemma_insert_by_order_splits(d, t, j);
        assert(insert_by_order(d, t).push(s.last()) =~= s.subrange(0, j) + seq![t] + s.subrange(
            j,
            s.len() as int,
        ));
    }
}

/// Some split position as in [`lemma_insert_by_order_splits`] always exists.
proof fn lemma_insert_by_order_position(s: Seq<Task>, t: Task) -> (j: int)
    ensures
        0 <= j <= s.len(),
        forall|k: int| j <= k < s.len() ==> s[k].sort_order > t.sort_order,
        j > 0 ==> s[j - 1].sort_order <= t.sort_order,
        insert_by_order(s, t) == s.subrange(0, j) + seq![t] + s.subrange(j, s.len() as int),
    decreases s.len(),
{
    if s.len() == 0 {
        lemma_insert_by_order_splits(s, t, 0);
        0
    } else if s.last().sort_order <= t.sort_order {
        lemma_insert_by_order_splits(s, t, s.len() as int);
        s.len() as int
    } else {
        let d = s.drop_last();
        let j = lemma_insert_by_order_position(d, t);
        assert forall|k: int| j <= k < s.len() implies s[k].sort_order > t.sort_order by {
            if k < s.len() - 1 {
                assert(s[k] == d[k]);
            } else {
                assert(s[k] == s.last());
            }
        }
        if j > 0 {
            assert(s[j - 1] == d[j - 1]);
        }
        lemma_insert_by_order_splits(s, t, j);
        j
    }
}

/// Inserting keeps the sequence sorted.
proof fn lemma_insert_by_order_sorted(s: Seq<Task>, t: Task)
    requires
        sorted_by_order(s),
    ensures
        sorted_by_order(insert_by_order(s, t)),
        insert_by_order(s, t).len() == s.len() + 1,
{
    let j = lemma_insert_by_order_position(s, t);
    let r = insert_by_order(s, t);
    assert forall|p: int, q: int| 0 <= p < q < r.len() implies r[p].sort_order
        <= r[q].sort_order by {
        if p < j {
            assert(r[p] == s[p]);
        } else if p == j {
            assert(r[p] == t);
        } else {
            assert(r[p] == s[p - 1]);
        }
        if q < j {
            assert(r[q] == s[q]);
        } else if q == j {
            assert(r[q] == t);
        } else {
            assert(r[q] == s[q - 1]);
        }
        if q == j && p < j {
            assert(s[p].sort_order <= s[j - 1].sort_order);
        }
        if p == j && q > j {
            assert(s[q - 1].sort_order > t.sort_order);
        }
    }
}

/// Inserting adds exactly the new task's id to the ids present.
proof fn lemma_insert_by_order_ids(s: Seq<Task>, t: Task)
    ensures
        forall|id: Seq<char>| #[trigger] has_task_id(insert_by_order(s, t), id) <==> has_task_id(
            s,
            id,
        ) || t.id@ == id,
        distinct_ids(s) && !has_task_id(s, t.id@) ==> distinct_ids(insert_by_order(s, t)),
{
    let j = lemma_insert_by_order_position(s, t);
    let r = insert_by_order(s, t);
    assert forall|id: Seq<char>| #[trigger] has_task_id(r, id) <==> has_task_id(s, id) || t.id@
        == id by {
        if has_task_id(r, id) {
            let i = choose|i: int| 0 <= i < r.len() && r[i].id@ == id;
            if i < j {
                assert(s[i].id@ == id);
            } else if i == j {
                assert(t.id@ == id);
            } else {
                assert(s[i - 1].id@ == id);
            }
        }
        if has_task_id(s, id) {
            let i = choose|i: int| 0 <= i < s.len() && s[i].id@ == id;
            if i < j {
                assert(r[i].id@ == id);
            } else {
                assert(r[i + 1].id@ == id);
            }
            assert(has_task_id(r, id));
        }
        if t.id@ == id {
            assert(r[j].id@ == id);
            assert(has_task_id(r, id));
        }
    }
    if distinct_ids(s) && !has_task_id(s, t.id@) {
        assert forall|p: int, q: int| 0 <= p < q < r.len() implies r[p].id@ != r[q].id@ by {
            if p == j {
                assert(r[p] == t);
                assert(r[q] == s[q - 1]);
                if t.id@ == s[q - 1].id@ {
                    assert(has_task_id(s, t.id@));
                }
            } else if q == j {
                assert(r[q] == t);
                assert(r[p] == s[p]);
                if t.id@ == s[p].id@ {
                    assert(has_task_id(s, t.id@));
                }
            } else {
                let p0: int = if p < j {
                    p
                } else {
                    p - 1
                };
                let q0: int = if q < j {
                    q
                } else {
                    q - 1
                };
                assert(r[p] == s[p0]);
                assert(r[q] == s[q0]);
            }
        }
    }
}

/// Sorting keeps the length, the ids present, and their distinctness, and
/// yields a sequence ordered by sort position.
proof fn lemma_stable_sort_props(s: Seq<Task>)
    ensures
        stable_sort(s).len() == s.len(),
        sorted_by_order(stable_sort(s)),
        forall|id: Seq<char>| #[trigger] has_task_id(stable_sort(s), id) <==> has_task_id(s, id),
        distinct_ids(s) ==> distinct_ids(stable_sort(s)),
    decreases s.len(),
{
    if s.len() > 0 {
        let d = s.drop_last();
        lemma_stable_sort_props(d);
        lemma_insert_by_order_sorted(stable_sort(d), s.last());
        lemma_insert_by_order_ids(stable_sort(d), s.last());
        assert forall|id: Seq<char>| #[trigger] has_task_id(stable_sort(s), id) <==> has_task_id(
            s,
            id,
        ) by {
            if has_task_id(d, id) {
                let i = choose|i: int| 0 <= i < d.len() && d[i].id@ == id;
                assert(s[i].id@ == id);
                assert(has_task_id(s, id));
            }
            if s.last().id@ == id {
                assert(s[s.len() - 1].id@ == id);
                assert(has_task_id(s, id));
            }
            if has_task_id(s, id) {
                let i = choose|i: int| 0 <= i < s.len() && s[i].id@ == id;
                if i < s.len() - 1 {
                    assert(d[i].id@ == id);
                    assert(has_task_id(d, id));
                }
            }
        }
        if distinct_ids(s) {
            assert forall|p: int, q: int| 0 <= p < q < d.len() implies d[p].id@ != d[q].id@ by {
                assert(s[p].id@ != s[q].id@);
            }
            if has_task_id(d, s.last().id@) {
                let i = choose|i: int| 0 <= i < d.len() && d[i].id@ == s.last().id@;
                assert(s[i].id@ == s[s.len() - 1].id@);
                assert(false);
            }
        }
    }
}

/// Place a task at its sorted position in an already sorted vector.
fn insert_sorted(v: &mut Vec<Task>, t: Task)
    ensures
        final(v)@ == insert_by_order(old(v)@, t),
{
    let mut j: usize = v.len();
    while j > 0 && v[j - 1].sort_order > t.sort_order
        invariant
            j <= v@.len(),
            forall|k: int| j <= k < v@.len() ==> v@[k].sort_order > t.sort_order,
        decreases j,
    {
        j -= 1;
    }
    proof {
        lemma_insert_by_order_splits(v@, t, j as int);
    }
    v.insert(j, t);
    proof {
        assert(v@ =~= old(v)@.subrange(0, j as int) + seq![t] + old(v)@.subrange(
            j as int,
            old(v)@.len() as int,
        ));
    }
}

/// The first position holding a task with the given id, or -1.
pub open spec fn first_index_with_id(s: Seq<Task>, id: Seq<char>) -> int
    decreases s.len(),
{
    if s.len() == 0 {
        -1
    } else if s[0].id@ == id {
        0
    } else {
        let r: int = first_index_with_id(s.subrange(1, s.len() as int), id);
        if r < 0 {
            -1
        } else {
            r + 1
        }
    }
}

proof fn lemma_first_index_absent(s: Seq<Task>, id: Seq<char>)
    requires
        forall|j: int| 0 <= j < s.len() ==> s[j].id@ != id,
    ensures
        first_index_with_id(s, id) < 0,
    decreases s.len(),
{
    if s.len() > 0 {
        let tail = s.subrange(1, s.len() as int);
        assert forall|j: int| 0 <= j < tail.len() implies tail[j].id@ != id by {
            assert(tail[j] == s[j + 1]);
        }
        lemma_first_index_absent(tail, id);
    }
}

proof fn lemma_first_index_at(s: Seq<Task>, id: Seq<char>, i: int)
    requires
        0 <= i < s.len(),
        s[i].id@ == id,
        forall|j: int| 0 <= j < i ==> s[j].id@ != id,
    ensures
        first_index_with_id(s, id) == i,
    decreases s.len(),
{
    if i > 0 {
        let tail = s.subrange(1, s.len() as int);
        assert forall|j: int| 0 <= j < i - 1 implies tail[j].id@ != id by {
            assert(tail[j] == s[j + 1]);
        }
        lemma_first_index_at(tail, id, i - 1);
    }
}

proof fn lemma_first_index_props(s: Seq<Task>, id: Seq<char>)
    ensures
        has_task_id(s, id) ==> 0 <= first_index_with_id(s, id) < s.len() && s[first_index_with_id(
            s,
            id,
        )].id@ == id && (forall|j: int| 0 <= j < first_index_with_id(s, id) ==> s[j].id@ != id),
        !has_task_id(s, id) ==> first_index_with_id(s, id) < 0,
    decreases s.len(),
{
    if s.len() > 0 && s[0].id@ != id {
        let tail = s.subrange(1, s.len() as int);
        lemma_first_index_props(tail, id);
        let r: int = first_index_with_id(tail, id);
        if has_task_id(s, id) {
            let i = choose|i: int| 0 <= i < s.len() && s[i].id@ == id;
            assert(tail[i - 1] == s[i]);
            assert(has_task_id(tail, id));
            assert(s[r + 1] == tail[r]);
            assert forall|j: int| 0 <= j < r + 1 implies s[j].id@ != id by {
                if j >= 1 {
                    assert(tail[j - 1] == s[j]);
                }
            }
        } else {
            if has_task_id(tail, id) {
                let i = choose|i: int| 0 <= i < tail.len() && tail[i].id@ == id;
                assert(s[i + 1] == tail[i]);
                assert(false);
            }
        }
    }
}

proof fn lemma_first_index_same_ids(a: Seq<Task>, b: Seq<Task>, id: Seq<char>)
    requires
        a.len() == b.len(),
        forall|j: int| 0 <= j < a.len() ==> a[j].id@ == b[j].id@,
    ensures
        first_index_with_id(a, id) == first_index_with_id(b, id),
    decreases a.len(),
{
    if a.len() > 0 && a[0].id@ != id {
        let ta = a.subrange(1, a.len() as int);
        let tb = b.subrange(1, b.len() as int);
        assert forall|j: int| 0 <= j < ta.len() implies ta[j].id@ == tb[j].id@ by {
            assert(ta[j] == a[j + 1]);
            assert(tb[j] == b[j + 1]);
        }
        lemma_first_index_same_ids(ta, tb, id);
    }
}

/// Inserting adds exactly the new task to the elements present.
proof fn lemma_insert_by_order_elems(s: Seq<Task>, t: Task)
    ensures
        forall|x: Task| #[trigger] insert_by_order(s, t).contains(x) <==> s.contains(x) || x == t,
{
    let j = lemma_insert_by_order_position(s, t);
    let r = insert_by_order(s, t);
    assert forall|x: Task| #[trigger] r.contains(x) <==> s.contains(x) || x == t by {
        if r.contains(x) {
            let i = choose|i: int| 0 <= i < r.len() && r[i] == x;
            if i < j {
                assert(s[i] == x);
                assert(s.contains(x));
            } else if i == j {
                assert(x == t);
            } else {
                assert(s[i - 1] == x);
                assert(s.contains(x));
            }
        }
        if s.contains(x) {
            let i = choose|i: int| 0 <= i < s.len() && s[i] == x;
            if i < j {
                assert(r[i] == x);
            } else {
                assert(r[i + 1] == x);
            }
            assert(r.contains(x));
        }
        if x == t {
            assert(r[j] == x);
            assert(r.contains(x));
        }
    }
}

/// Sorting keeps exactly the elements present.
proof fn lemma_stable_sort_elems(s: Seq<Task>)
    ensures
        forall|x: Task| #[trigger] stable_sort(s).contains(x) <==> s.contains(x),
    decreases s.len(),
{
    if s.len() > 0 {
        let d = s.drop_last();
        lemma_stable_sort_elems(d);
        lemma_insert_by_order_elems(stable_sort(d), s.last());
        assert forall|x: Task| #[trigger] stable_sort(s).contains(x) <==> s.contains(x) by {
            if d.contains(x) {
                let i = choose|i: int| 0 <= i < d.len() && d[i] == x;
                assert(s[i] == x);
                assert(s.contains(x));
            }
            if s.last() == x {
                assert(s[s.len() - 1] == x);
                assert(s.contains(x));
            }
            if s.contains(x) {
                let i = choose|i: int| 0 <= i < s.len() && s[i] == x;
                if i < s.len() - 1 {
                    assert(d[i] == x);
                    assert(d.contains(x));
                }
            }
        }
    }
}

/// One task given its new sort position: the first task with the given id,
/// if present, takes position `pos`; everything else stays.
pub open spec fn assign_one(s: Seq<Task>, id: Seq<char>, pos: i32) -> Seq<Task> {
    let i = first_index_with_id(s, id);
    if i >= 0 {
        s.update(i, Task { sort_order: pos, ..s[i] })
    } else {
        s
    }
}

/// The task list after giving each listed id, in turn, its position in the
/// list.
pub open spec fn assign_orders(s: Seq<Task>, ids: Seq<Seq<char>>) -> Seq<Task>
    decreases ids.len(),
{
    if ids.len() == 0 {
        s
    } else {
        assign_one(
            assign_orders(s, ids.drop_last()),
            ids.last(),
            (ids.len() - 1) as i32,
        )
    }
}

proof fn lemma_assign_orders_props(s: Seq<Task>, ids: Seq<Seq<char>>)
    requires
        distinct_ids(s),
        forall|k1: int, k2: int| 0 <= k1 < k2 < ids.len() ==> ids[k1] != ids[k2],
        ids.len() <= i32::MAX,
    ensures
        assign_orders(s, ids).len() == s.len(),
        forall|j: int|
            0 <= j < s.len() ==> #[trigger] assign_orders(s, ids)[j].id@ == s[j].id@,
        forall|k: int|
            0 <= k < ids.len() && has_task_id(s, #[trigger] ids[k]) ==> assign_orders(
                s,
                ids,
            )[first_index_with_id(s, ids[k])].sort_order == k,
    decreases ids.len(),
{
    if ids.len() > 0 {
        let prev_ids = ids.drop_last();
        let last = ids.last();
        lemma_assign_orders_props(s, prev_ids);
        let prev = assign_orders(s, prev_ids);
        let a = assign_orders(s, ids);
        lemma_first_index_same_ids(prev, s, last);
        lemma_first_index_props(s, last);
        lemma_first_index_props(prev, last);
        assert(a == assign_one(prev, last, (ids.len() - 1) as i32));
        if has_task_id(s, last) {
            let jl = first_index_with_id(s, last);
            assert(a == prev.update(jl, Task { sort_order: (ids.len() - 1) as i32, ..prev[jl] }));
            assert forall|j: int| 0 <= j < s.len() implies #[trigger] a[j].id@ == s[j].id@ by {
                if j != jl {
                    assert(a[j] == prev[j]);
                }
            }
            assert forall|k: int|
                0 <= k < ids.len() && has_task_id(s, #[trigger] ids[k]) implies a[first_index_with_id(
                s,
                ids[k],
            )].sort_order == k by {
                lemma_first_index_props(s, ids[k]);
                let jk = first_index_with_id(s, ids[k]);
                if k < ids.len() - 1 {
                    assert(prev_ids[k] == ids[k]);
                    assert(ids[k] != last);
                    assert(s[jk].id@ == ids[k]);
                    assert(s[jl].id@ == last);
                    assert(jk != jl);
                    assert(a[jk] == prev[jk]);
                    assert(prev[jk].sort_order == k);
                } else {
                    assert(ids[k] == last);
                    assert(jk == jl);
                }
            }
        } else {
            assert(first_index_with_id(prev, last) < 0);
            assert(a == prev);
            assert forall|k: int|
                0 <= k < ids.len() && has_task_id(s, #[trigger] ids[k]) implies a[first_index_with_id(
                s,
                ids[k],
            )].sort_order == k by {
                assert(ids[k] != last);
                assert(prev_ids[k] == ids[k]);
            }
        }
    }
}

proof fn lemma_incr_lower(r: Seq<Task>, k: int)
    requires
        forall|k1: int, k2: int| 0 <= k1 < k2 < r.len() ==> r[k1].sort_order < r[k2].sort_order,
        forall|k1: int| 0 <= k1 < r.len() ==> #[trigger] r[k1].sort_order >= 0,
        0 <= k < r.len(),
    ensures
        r[k].sort_order >= k,
    decreases k,
{
    if k > 0 {
        lemma_incr_lower(r, k - 1);
    }
}

proof fn lemma_incr_upper(r: Seq<Task>, k: int)
    requires
        forall|k1: int, k2: int| 0 <= k1 < k2 < r.len() ==> r[k1].sort_order < r[k2].sort_order,
        forall|k1: int| 0 <= k1 < r.len() ==> #[trigger] r[k1].sort_order < r.len(),
        0 <= k < r.len(),
    ensures
        r[k].sort_order <= k,
    decreases r.len() - k,
{
    if k < r.len() - 1 {
        lemma_incr_upper(r, k + 1);
    }
}

/// A full reorder lists the store in the submitted order with dense sort
/// positions: when the submitted ids are pairwise distinct and name exactly
/// the stored tasks, the reordered store — which [`TaskStore::reorder`]
/// leaves as `stable_sort(assign_orders(tasks, ids))` — holds the task
/// listed k-th at position k, carrying sort position k.
pub proof fn lemma_full_reorder_positions(s: Seq<Task>, ids: Seq<Seq<char>>)
    requires
        distinct_ids(s),
        ids.len() == s.len(),
        ids.len() <= i32::MAX,
        forall|k1: int, k2: int| 0 <= k1 < k2 < ids.len() ==> ids[k1] != ids[k2],
        forall|k: int| 0 <= k < ids.len() ==> has_task_id(s, #[trigger] ids[k]),
        forall|j: int|
            0 <= j < s.len() ==> exists|k: int|
                0 <= k < ids.len() && ids[k] == #[trigger] s[j].id@,
    ensures
        stable_sort(assign_orders(s, ids)).len() == s.len(),
        forall|k: int|
            0 <= k < ids.len() ==> #[trigger] stable_sort(assign_orders(s, ids))[k].id@ == ids[k]
                && stable_sort(assign_orders(s, ids))[k].sort_order == k,
{
    let n = ids.len() as int;
    let a = assign_orders(s, ids);
    let r = stable_sort(a);
    lemma_assign_orders_props(s, ids);
    assert forall|p: int, q: int| 0 <= p < q < a.len() implies a[p].id@ != a[q].id@ by {
        assert(a[p].id@ == s[p].id@);
        assert(a[q].id@ == s[q].id@);
    }
    lemma_stable_sort_props(a);
    lemma_stable_sort_elems(a);

    // Each position of the assigned list carries the index of its id in
    // the submitted list.
    assert forall|j: int| 0 <= j < n implies exists|k: int|
        0 <= k < n && ids[k] == #[trigger] a[j].id@ && a[j].sort_order == k by {
        let k = choose|k: int| 0 <= k < n && ids[k] == s[j].id@;
        assert(has_task_id(s, ids[k]));
        lemma_first_index_props(s, ids[k]);
        assert forall|j2: int| 0 <= j2 < j implies s[j2].id@ != ids[k] by {}
        lemma_first_index_at(s, ids[k], j);
        assert(a[j].sort_order == k);
        assert(a[j].id@ == s[j].id@);
    }

    // The sorted result's positions strictly increase, each order names an
    // index of the submitted list, and the element at each position is an
    // element of the assigned list.
    assert forall|k: int| 0 <= k < n implies exists|j: int|
        0 <= j < n && #[trigger] r[k] == a[j] by {
        assert(r.contains(r[k]));
        assert(a.contains(r[k]));
        let j = choose|j: int| 0 <= j < a.len() && a[j] == r[k];
        assert(r[k] == a[j]);
    }
    assert forall|k1: int, k2: int| 0 <= k1 < k2 < n implies r[k1].sort_order
        < r[k2].sort_order by {
        let j1 = choose|j: int| 0 <= j < n && r[k1] == a[j];
        let j2 = choose|j: int| 0 <= j < n && r[k2] == a[j];
        assert(r[k1].id@ != r[k2].id@);
        assert(j1 != j2);
        let m1 = choose|m: int| 0 <= m < n && ids[m] == a[j1].id@ && a[j1].sort_order == m;
        let m2 = choose|m: int| 0 <= m < n && ids[m] == a[j2].id@ && a[j2].sort_order == m;
        if m1 == m2 {
            assert(a[j1].id@ == a[j2].id@);
            assert(false);
        }
        assert(r[k1].sort_order <= r[k2].sort_order);
        if r[k1].sort_order == r[k2].sort_order {
            assert(m1 == a[j1].sort_order);
            assert(m2 == a[j2].sort_order);
            assert(false);
        }
    }
    assert forall|k: int| 0 <= k < n implies 0 <= #[trigger] r[k].sort_order < n by {
        let j = choose|j: int| 0 <= j < n && r[k] == a[j];
        let m = choose|m: int| 0 <= m < n && ids[m] == a[j].id@ && a[j].sort_order == m;
    }

    assert forall|k: int| 0 <= k < n implies #[trigger] r[k].id@ == ids[k] && r[k].sort_order
        == k by {
        lemma_incr_lower(r, k);
        lemma_incr_upper(r, k);
        assert(r[k].sort_order == k);
        let j = choose|j: int| 0 <= j < n && r[k] == a[j];
        let m = choose|m: int| 0 <= m < n && ids[m] == a[j].id@ && a[j].sort_order == m;
        assert(m == k);
        assert(r[k].id@ == ids[k]);
    }
}

/// Are the tasks ordered by sort position?
fn check_sorted(tasks: &Vec<Task>) -> (r: bool)
    ensures
        r == sorted_by_order(tasks@),
{
    let n = tasks.len();
    if n == 0 {
        return true;
    }
    let mut i: usize = 0;
    while i < n - 1
        invariant
            n == tasks@.len(),
            1 <= n,
            i <= n - 1,
            forall|p: int, q: int| 0 <= p < q <= i ==> tasks@[p].sort_order
                <= tasks@[q].sort_order,
        decreases n - i,
    {
        if tasks[i].sort_order > tasks[i + 1].sort_order {
            return false;
        }
        i += 1;
    }
    true
}

/// Do the tasks carry pairwise distinct ids?
fn check_distinct(tasks: &Vec<Task>) -> (r: bool)
    ensures
        r == distinct_ids(tasks@),
{
    let n = tasks.len();
    let mut a: usize = 0;
    while a < n
        invariant
            n == tasks@.len(),
            a <= n,
            forall|p: int, q: int| 0 <= p < q < n && p < a ==> tasks@[p].id@ != tasks@[q].id@,
        decreases n - a,
    {
        let mut b: usize = a + 1;
        while b < n
            invariant
                n == tasks@.len(),
                a < n,
                a + 1 <= b <= n,
                forall|p: int, q: int| 0 <= p < q < n && p < a ==> tasks@[p].id@ != tasks@[q].id@,
                forall|q: int| a < q < b ==> tasks@[a as int].id@ != tasks@[q].id@,
            decreases n - b,
        {
            if str_eq(tasks[a].id.as_str(), tasks[b].id.as_str()) {
                return false;
            }
            b += 1;
        }
        a += 1;
    }
    true
}

} // verus!

