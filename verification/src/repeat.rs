//! The recurrence engine: when a recurring task is completed, a successor
//! task is created for the next occurrence.
//!
//! The next occurrence is one day later for a daily task, seven days later
//! for a weekly one, and the same day of the following month for a monthly
//! one — unless that month has no such day, in which case it is thirty days
//! after the original date.  A custom cadence defines no successor, and a
//! due date that cannot be read schedules nothing — it is recovered
//! locally, never propagated as an error.  The successor copies title,
//! priority, project reference, recurrence kind and tag set; everything
//! else starts at its default.

use vstd::prelude::*;

use crate::clock::utc_now_string;
use crate::date::{
    add_days, add_days_of, days_in_month, days_in_month_of, due_date_part, format_date,
    spec_due_date_part, spec_format_date, Date,
};
use crate::ids::fresh_task_id;
use crate::store::{
    dedup_strs, has_task_id, lemma_dedup_strs_contains, lemma_dedup_strs_distinct, next_order,
    toggled_view, StoreError, TaskStore,
};
use crate::task::{
    lemma_priority_text_round_trip, lemma_repeat_text_round_trip, RepeatType, Task, TaskStatus,
    TaskView,
};

verus! {

/// The next occurrence after the given date, by recurrence kind.  Kinds
/// without a cadence yield nothing.
pub open spec fn spec_next_date(d: Date, kind: RepeatType) -> Option<Date> {
    match kind {
        RepeatType::Daily => Option::Some(add_days_of(d, 1)),
        RepeatType::Weekly => Option::Some(add_days_of(d, 7)),
        RepeatType::Monthly => {
            let ny: u32 = if d.month == 12 {
                if d.year == u32::MAX {
                    0
                } else {
                    (d.year + 1) as u32
                }
            } else {
                d.year
            };
            let nm: u32 = if d.month == 12 {
                1
            } else if d.month == u32::MAX {
                0
            } else {
                (d.month + 1) as u32
            };
            if 1 <= d.day <= days_in_month_of(ny as int, nm as int) {
                Option::Some(Date { year: ny, month: nm, day: d.day })
            } else {
                Option::Some(add_days_of(d, 30))
            }
        },
        RepeatType::Custom => Option::None,
        RepeatType::Never => Option::None,
    }
}

/// The next occurrence after the given date, by recurrence kind.
pub fn next_date(d: Date, kind: RepeatType) -> (r: Option<Date>)
    ensures
        r == spec_next_date(d, kind),
{
    match kind {
        RepeatType::Daily => Option::Some(add_days(d, 1)),
        RepeatType::Weekly => Option::Some(add_days(d, 7)),
        RepeatType::Monthly => {
            let ny: u32 = if d.month == 12 {
                if d.year == u32::MAX {
                    0
                } else {
                    d.year + 1
                }
            } else {
                d.year
            };
            let nm: u32 = if d.month == 12 {
                1
            } else if d.month == u32::MAX {
                0
            } else {
                d.month + 1
            };
            if 1 <= d.day && d.day <= days_in_month(ny, nm) {
                Option::Some(Date { year: ny, month: nm, day: d.day })
            } else {
                Option::Some(add_days(d, 30))
            }
        },
        RepeatType::Custom => Option::None,
        RepeatType::Never => Option::None,
    }
}

/// The next due date that completing the task would schedule, from the date
/// portion of its due-date text; nothing when the text is malformed or the
/// kind has no cadence.
pub fn next_due_date(due: &str, kind: RepeatType) -> (r: Option<Date>)
    ensures
        r == (match spec_due_date_part(due@) {
            Option::Some(d) => spec_next_date(d, kind),
            Option::None => Option::None,
        }),
{
    match due_date_part(due) {
        Option::Some(d) => next_date(d, kind),
        Option::None => Option::None,
    }
}

/// The task has a due-date text whose date portion is a calendar date.
pub open spec fn due_parses(t: TaskView) -> bool {
    t.due_date matches Option::Some(d) && spec_due_date_part(d) is Some
}

/// Completing the task schedules a successor: it has a cadence and a
/// readable due date.
pub open spec fn advances(t: TaskView) -> bool {
    (t.repeat == RepeatType::Daily || t.repeat == RepeatType::Weekly || t.repeat
        == RepeatType::Monthly) && due_parses(t)
}

/// Completing the task schedules nothing, and that is no error: no cadence
/// (none or custom), no due date, or a due date that cannot be read — a
/// malformed date is recovered locally, never propagated.
pub open spec fn no_successor(t: TaskView) -> bool {
    !advances(t)
}

/// The successor's due date, for a task that advances.
pub open spec fn successor_due(t: TaskView) -> Date {
    match t.due_date {
        Option::Some(d) => match spec_due_date_part(d) {
            Option::Some(pd) => match spec_next_date(pd, t.repeat) {
                Option::Some(nd) => nd,
                Option::None => Date { year: 0, month: 0, day: 0 },
            },
            Option::None => Date { year: 0, month: 0, day: 0 },
        },
        Option::None => Date { year: 0, month: 0, day: 0 },
    }
}

/// The successor of a completed recurring task: same title, priority,
/// project reference, recurrence kind and tag set (first occurrences only),
/// due on the next occurrence, and everything else at its default.
pub open spec fn successor_shape(t: TaskView, src: TaskView, order: i32) -> bool {
    &&& t.title == src.title
    &&& t.description.len() == 0
    &&& t.status == TaskStatus::Todo
    &&& t.priority == src.priority
    &&& t.project_id == src.project_id
    &&& t.tags == dedup_strs(src.tags)
    &&& t.subtasks.len() == 0
    &&& t.due_date == Option::Some(spec_format_date(successor_due(src)))
    &&& t.reminder is None
    &&& t.repeat == src.repeat
    &&& t.favorite == false
    &&& t.sort_order == order
    &&& t.updated_at == t.created_at
    &&& t.completed_at is None
}

/// A successor copies its source verbatim where the source is copied at
/// all, and starts fresh everywhere else: for a source task stored at
/// position `i`, a successor of its shape under an id no stored task
/// carries has the source's title, priority, project reference and
/// recurrence kind, the source's tag set — the same tag ids always, the
/// very same list whenever the source's holds no repetition — an empty
/// description, no subtasks, the favorite flag clear, status Todo with no
/// completion time, and an id that differs from every stored task's, the
/// source's included.
pub proof fn lemma_successor_copies_fields(stored: Seq<Task>, i: int, succ: TaskView, order: i32)
    requires
        0 <= i < stored.len(),
        successor_shape(succ, stored[i]@, order),
        !has_task_id(stored, succ.id),
    ensures
        succ.title == stored[i]@.title,
        succ.priority == stored[i]@.priority,
        succ.project_id == stored[i]@.project_id,
        succ.repeat == stored[i]@.repeat,
        forall|tag: Seq<char>| #[trigger] succ.tags.contains(tag) <==> stored[i]@.tags.contains(
            tag,
        ),
        (forall|p: int, q: int|
            0 <= p < q < stored[i]@.tags.len() ==> stored[i]@.tags[p] != stored[i]@.tags[q])
            ==> succ.tags == stored[i]@.tags,
        succ.description.len() == 0,
        succ.subtasks.len() == 0,
        succ.favorite == false,
        succ.status == TaskStatus::Todo,
        succ.completed_at is None,
        forall|j: int| 0 <= j < stored.len() ==> succ.id != #[trigger] stored[j].id@,
{
    lemma_dedup_strs_contains(stored[i]@.tags);
    if forall|p: int, q: int|
        0 <= p < q < stored[i]@.tags.len() ==> stored[i]@.tags[p] != stored[i]@.tags[q] {
        lemma_dedup_strs_distinct(stored[i]@.tags);
    }
    assert forall|j: int| 0 <= j < stored.len() implies succ.id != #[trigger] stored[j].id@ by {
        if succ.id == stored[j].id@ {
            assert(has_task_id(stored, succ.id));
        }
    }
}

/// Create the successor of a just-completed task under the given fresh id,
/// stamped with the given creation time.  Nothing is created — and nothing
/// changes — when the task has no cadence, no due date, or an unreadable
/// due date; a successor is created otherwise, unless the fresh id
/// collides with an existing task.
pub fn create_successor(store: &mut TaskStore, task: &Task, new_id: &str, now: &str) -> (r: Result<
    Option<Task>,
    StoreError,
>)
    requires
        old(store).wf(),
    ensures
        final(store).wf(),
        match r {
            Result::Ok(opt) => match opt {
                Option::None => no_successor(task@) && final(store)@ == old(store)@,
                Option::Some(t) => {
                    &&& advances(task@)
                    &&& !has_task_id(old(store)@, new_id@)
                    &&& successor_shape(t@, task@, next_order(old(store)@))
                    &&& t@.id == new_id@
                    &&& t@.created_at == now@
                    &&& final(store)@.len() == old(store)@.len() + 1
                    &&& final(store)@.subrange(0, old(store)@.len() as int) == old(store)@
                    &&& final(store)@.last()@ == t@
                },
            },
            Result::Err(e) => final(store)@ == old(store)@ && e == StoreError::DuplicateId
                && advances(task@) && has_task_id(old(store)@, new_id@),
        },
{
    if task.repeat == RepeatType::Never {
        return Result::Ok(Option::None);
    }
    let due = match &task.due_date {
        Option::Some(d) => d,
        Option::None => {
            return Result::Ok(Option::None);
        },
    };
    let pd = match due_date_part(due.as_str()) {
        Option::Some(p) => p,
        Option::None => {
            return Result::Ok(Option::None);
        },
    };
    let nd = match next_date(pd, task.repeat) {
        Option::Some(n) => n,
        Option::None => {
            return Result::Ok(Option::None);
        },
    };
    let next_str = format_date(nd);
    let pid: Option<&str> = match &task.project_id {
        Option::Some(p) => Option::Some(p.as_str()),
        Option::None => Option::None,
    };
    let res = store.create(
        new_id,
        task.title.as_str(),
        task.priority.as_str(),
        pid,
        Option::Some(next_str.as_str()),
        task.repeat.as_str(),
        &task.tags,
        now,
    );
    match res {
        Result::Ok(t) => {
            proof {
                lemma_priority_text_round_trip(task.priority);
                lemma_repeat_text_round_trip(task.repeat);
            }
            Result::Ok(Option::Some(t))
        },
        Result::Err(e) => Result::Err(e),
    }
}

/// Create the successor of a just-completed task, drawing a fresh random id
/// and the current time.  The cases are those of [`create_successor`]; with
/// a random id, a collision error is possible on any input that advances.
pub fn create_next_repeat_task(store: &mut TaskStore, task: &Task) -> (r: Result<
    Option<Task>,
    StoreError,
>)
    requires
        old(store).wf(),
    ensures
        final(store).wf(),
        match r {
            Result::Ok(opt) => match opt {
                Option::None => no_successor(task@) && final(store)@ == old(store)@,
                Option::Some(t) => {
                    &&& advances(task@)
                    &&& successor_shape(t@, task@, next_order(old(store)@))
                    &&& !has_task_id(old(store)@, t@.id)
                    &&& final(store)@.len() == old(store)@.len() + 1
                    &&& final(store)@.subrange(0, old(store)@.len() as int) == old(store)@
                    &&& final(store)@.last()@ == t@
                },
            },
            Result::Err(e) => final(store)@ == old(store)@ && e == StoreError::DuplicateId
                && advances(task@) && old(store)@.len() > 0,
        },
{
    let new_id = fresh_task_id();
    let now = utc_now_string();
    create_successor(store, task, new_id.as_str(), now.as_str())
}

/// Flip completion of the task with the given id at the current time; if it
/// thereby becomes completed and has a cadence, a successor is created
/// best-effort: a failure to create it leaves the completion in place.
/// Fails with `NotFound` exactly when no task has that id.
pub fn toggle_task_status(store: &mut TaskStore, id: &str) -> (r: Result<Task, StoreError>)
    requires
        old(store).wf(),
    ensures
        final(store).wf(),
        match r {
            Result::Ok(t) => exists|i: int|
                {
                    &&& 0 <= i < old(store)@.len()
                    &&& #[trigger] old(store)@[i].id@ == id@
                    &&& t@ == toggled_view(old(store)@[i]@, t@.updated_at)
                    &&& old(store)@.len() <= final(store)@.len() <= old(store)@.len() + 1
                    &&& (forall|j: int|
                        0 <= j < old(store)@.len() && j != i ==> final(store)@[j] == old(
                            store,
                        )@[j])
                    &&& final(store)@[i]@ == t@
                    &&& (final(store)@.len() == old(store)@.len() + 1 ==> t@.status
                        == TaskStatus::Completed && advances(t@) && successor_shape(
                        final(store)@.last()@,
                        t@,
                        final(store)@.last()@.sort_order,
                    ))
                },
            Result::Err(e) => e == StoreError::NotFound && !has_task_id(old(store)@, id@)
                && final(store)@ == old(store)@,
        },
{
    let now = utc_now_string();
    let t = match store.toggle_status(id, now.as_str()) {
        Result::Ok(t) => t,
        Result::Err(e) => {
            return Result::Err(e);
        },
    };
    if t.status == TaskStatus::Completed && !(t.repeat == RepeatType::Never) {
        let ghost mid = store@;
        let _successor = create_next_repeat_task(store, &t);
        proof {
            assert forall|j: int| 0 <= j < mid.len() implies store@[j] == mid[j] by {
                if store@.len() == mid.len() + 1 {
                    assert(store@.subrange(0, mid.len() as int)[j] == store@[j]);
                }
            }
        }
    }
    Result::Ok(t)
}

} // verus!
