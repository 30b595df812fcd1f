//! The filter engine: given the task collection in store order, a view
//! selector and a search text, keep the matching tasks in their relative
//! order — a stable filter that never re-sorts.
//!
//! The search step always runs first and is a no-op for empty text.  The
//! view step then dispatches on the view type: the smart views `today`,
//! `week`, `completed` and `favorite` (with `all` and anything unrecognised
//! passing everything), a project reference compared by exact id, or a tag
//! id looked up in the task's tag set.  A malformed due date never matches a
//! date-based view.

use vstd::prelude::*;

use crate::clock::local_today;
use crate::date::{
    add_days, add_days_of, date_le, date_le_exec, due_date_part, format_date, spec_due_date_part,
    spec_format_date, Date,
};
use crate::store::{task_views, TaskStore};
use crate::task::{opt_view, Task, TaskCounts, TaskStatus, TaskView};
use crate::text::{
    contains_seq, lower_of, lowercase, starts_with_seq, str_contains, str_eq, str_starts_with,
};

verus! {

/// The task's due date falls on the given day: its text starts with the
/// day's ten-character rendering.
pub open spec fn due_on(t: TaskView, day: Date) -> bool {
    match t.due_date {
        Option::Some(d) => starts_with_seq(d, spec_format_date(day)),
        Option::None => false,
    }
}

/// The task is due no later than seven days after the given day; there is
/// no lower bound, so overdue tasks qualify.  A malformed due date never
/// does.
pub open spec fn due_in_week(t: TaskView, today: Date) -> bool {
    match t.due_date {
        Option::Some(d) => match spec_due_date_part(d) {
            Option::Some(dd) => date_le(dd, add_days_of(today, 7)),
            Option::None => false,
        },
        Option::None => false,
    }
}

/// The free-text step: empty text matches everything; otherwise the
/// lowercased text must occur in the lowercased title or description.
pub open spec fn matches_search(t: TaskView, search: Seq<char>) -> bool {
    search.len() == 0 || contains_seq(lower_of(t.title), lower_of(search)) || contains_seq(
        lower_of(t.description),
        lower_of(search),
    )
}

/// The smart-view step; `all` and unrecognised ids pass everything.
pub open spec fn matches_smart(t: TaskView, view_id: Seq<char>, today: Date) -> bool {
    if view_id == "today"@ {
        due_on(t, today)
    } else if view_id == "week"@ {
        due_in_week(t, today)
    } else if view_id == "completed"@ {
        t.status == TaskStatus::Completed
    } else if view_id == "favorite"@ {
        t.favorite
    } else {
        true
    }
}

/// The view step; an unrecognised view type passes everything.
pub open spec fn matches_view(t: TaskView, view_type: Seq<char>, view_id: Seq<char>, today: Date) -> bool {
    if view_type == "smart"@ {
        matches_smart(t, view_id, today)
    } else if view_type == "project"@ {
        t.project_id == Option::Some(view_id)
    } else if view_type == "tag"@ {
        t.tags.contains(view_id)
    } else {
        true
    }
}

/// The whole filter predicate: the search step and the view step.
pub open spec fn task_matches(
    t: TaskView,
    view_type: Seq<char>,
    view_id: Seq<char>,
    search: Seq<char>,
    today: Date,
) -> bool {
    matches_search(t, search) && matches_view(t, view_type, view_id, today)
}

/// The filtered view sequence: the tasks matching the view and search,
/// in their relative order.
pub open spec fn spec_filtered(
    tasks: Seq<TaskView>,
    view_type: Seq<char>,
    view_id: Seq<char>,
    search: Seq<char>,
    today: Date,
) -> Seq<TaskView> {
    tasks.filter(|tv: TaskView| task_matches(tv, view_type, view_id, search, today))
}

/// Decide the filter predicate for one task.
fn matches_exec(
    t: &Task,
    view_type: &str,
    view_id: &str,
    search: &str,
    query: &String,
    today: Date,
    week: Date,
    today_str: &String,
) -> (r: bool)
    requires
        query@ == lower_of(search@),
        today_str@ == spec_format_date(today),
        week == add_days_of(today, 7),
    ensures
        r == task_matches(t@, view_type@, view_id@, search@, today),
{
    let search_ok = if search.is_empty() {
        true
    } else {
        let tl = lowercase(t.title.as_str());
        if str_contains(tl.as_str(), query.as_str()) {
            true
        } else {
            let dl = lowercase(t.description.as_str());
            str_contains(dl.as_str(), query.as_str())
        }
    };
    if !search_ok {
        return false;
    }
    if str_eq(view_type, "smart") {
        if str_eq(view_id, "today") {
            match &t.due_date {
                Option::Some(d) => str_starts_with(d.as_str(), today_str.as_str()),
                Option::None => false,
            }
        } else if str_eq(view_id, "week") {
            match &t.due_date {
                Option::Some(d) => match due_date_part(d.as_str()) {
                    Option::Some(dd) => date_le_exec(dd, week),
                    Option::None => false,
                },
                Option::None => false,
            }
        } else if str_eq(view_id, "completed") {
            t.status == TaskStatus::Completed
        } else if str_eq(view_id, "favorite") {
            t.favorite
        } else {
            true
        }
    } else if str_eq(view_type, "project") {
        match &t.project_id {
            Option::Some(p) => str_eq(p.as_str(), view_id),
            Option::None => false,
        }
    } else if str_eq(view_type, "tag") {
        let n = t.tags.len();
        let mut k: usize = 0;
        let mut found = false;
        while k < n
            invariant
                n == t.tags@.len(),
                k <= n,
                found == exists|j: int| 0 <= j < k && t.tags@[j]@ == view_id@,
            decreases n - k,
        {
            if str_eq(t.tags[k].as_str(), view_id) {
                found = true;
            }
            k += 1;
        }
        proof {
            if found {
                let j = choose|j: int| 0 <= j < n && t.tags@[j]@ == view_id@;
                assert(t@.tags[j] == view_id@);
                assert(t@.tags.contains(view_id@));
            } else {
                if t@.tags.contains(view_id@) {
                    let j = choose|j: int| 0 <= j < t@.tags.len() && t@.tags[j] == view_id@;
                    assert(t.tags@[j]@ == view_id@);
                }
            }
        }
        found
    } else {
        true
    }
}

/// Filter the given tasks by view and search text, keeping survivors in
/// their relative order.
pub fn filter_tasks(tasks: Vec<Task>, view_type: &str, view_id: &str, search: &str, today: Date) -> (r: Vec<Task>)
    ensures
        r@ == tasks@.filter(
            |t: Task| task_matches(t@, view_type@, view_id@, search@, today),
        ),
{
    let ghost pred = |t: Task| task_matches(t@, view_type@, view_id@, search@, today);
    let query = lowercase(search);
    let today_str = format_date(today);
    let week = add_days(today, 7);
    let ghost orig = tasks@;
    let mut src = tasks;
    let mut out: Vec<Task> = Vec::new();
    proof {
        reveal(Seq::filter);
        assert(out@ =~= orig.subrange(0, 0).filter(pred));
    }
    let ghost mut taken: int = 0;
    while src.len() > 0
        invariant
            0 <= taken <= orig.len(),
            src@ == orig.subrange(taken, orig.len() as int),
            out@ == orig.subrange(0, taken).filter(pred),
            query@ == lower_of(search@),
            today_str@ == spec_format_date(today),
            week == add_days_of(today, 7),
            pred == (|t: Task| task_matches(t@, view_type@, view_id@, search@, today)),
        decreases src@.len(),
    {
        let t = src.remove(0);
        proof {
            assert(t == orig[taken]);
            assert(src@ =~= orig.subrange(taken + 1, orig.len() as int));
        }
        let m = matches_exec(&t, view_type, view_id, search, &query, today, week, &today_str);
        if m {
            out.push(t);
        }
        proof {
            reveal(Seq::filter);
            assert(orig.subrange(0, taken + 1).drop_last() =~= orig.subrange(0, taken));
            assert(orig.subrange(0, taken + 1).last() == orig[taken]);
            taken = taken + 1;
        }
    }
    proof {
        assert(orig.subrange(0, orig.len() as int) =~= orig);
    }
    out
}

/// Filtering a task list and taking the views commutes with filtering the
/// views.
proof fn lemma_views_filter_commute(s: Seq<Task>, p: spec_fn(TaskView) -> bool)
    ensures
        task_views(s.filter(|t: Task| p(t@))) == task_views(s).filter(p),
    decreases s.len(),
{
    reveal(Seq::filter);
    if s.len() == 0 {
        assert(task_views(s.filter(|t: Task| p(t@))) =~= task_views(s).filter(p));
    } else {
        let d = s.drop_last();
        lemma_views_filter_commute(d, p);
        assert(task_views(s).drop_last() =~= task_views(d));
        assert(task_views(s).last() == s.last()@);
        if p(s.last()@) {
            assert(s.filter(|t: Task| p(t@)) == d.filter(|t: Task| p(t@)).push(s.last()));
            assert(task_views(d.filter(|t: Task| p(t@)).push(s.last())) =~= task_views(
                d.filter(|t: Task| p(t@)),
            ).push(s.last()@));
        } else {
            assert(s.filter(|t: Task| p(t@)) == d.filter(|t: Task| p(t@)));
        }
    }
}

/// Filter the store's tasks by view and search text against the current
/// local calendar date.
pub fn get_filtered_tasks(store: &TaskStore, view_type: &str, view_id: &str, search: &str) -> (r:
    Vec<Task>)
    ensures
        exists|today: Date|
            1 <= today.month <= 12 && 1 <= today.day <= 31 && task_views(r@)
                == #[trigger] spec_filtered(
                task_views(store@),
                view_type@,
                view_id@,
                search@,
                today,
            ),
{
    let today = local_today();
    let all = store.get_all();
    let ghost all_seq = all@;
    let r = filter_tasks(all, view_type, view_id, search, today);
    proof {
        let p = |tv: TaskView| task_matches(tv, view_type@, view_id@, search@, today);
        assert((|t: Task| task_matches(t@, view_type@, view_id@, search@, today)) =~= (|t: Task|
            p(t@)));
        lemma_views_filter_commute(all_seq, p);
        assert(task_views(r@) == spec_filtered(
            task_views(store@),
            view_type@,
            view_id@,
            search@,
            today,
        ));
    }
    r
}

/// Does the due-date text start with the given day rendering?
fn check_due_on(due: &Option<String>, day_str: &String) -> (r: bool)
    ensures
        r == (match opt_view(*due) {
            Option::Some(d) => starts_with_seq(d, day_str@),
            Option::None => false,
        }),
{
    match due {
        Option::Some(d) => str_starts_with(d.as_str(), day_str.as_str()),
        Option::None => false,
    }
}

/// Is the date portion of the due-date text no later than the given day?
fn check_due_by(due: &Option<String>, day: Date) -> (r: bool)
    ensures
        r == (match opt_view(*due) {
            Option::Some(d) => match spec_due_date_part(d) {
                Option::Some(dd) => date_le(dd, day),
                Option::None => false,
            },
            Option::None => false,
        }),
{
    match due {
        Option::Some(d) => match due_date_part(d.as_str()) {
            Option::Some(dd) => date_le_exec(dd, day),
            Option::None => false,
        },
        Option::None => false,
    }
}

/// Count the tasks behind each smart view on the given day: due that day,
/// due within the following week, all, completed, and favorites — every
/// count but `completed_count` ranging over unfinished tasks only.
pub fn get_counts(store: &TaskStore, today: Date) -> (r: TaskCounts)
    ensures
        r.today_count == task_views(store@).filter(
            |tv: TaskView| tv.status != TaskStatus::Completed && due_on(tv, today),
        ).len(),
        r.week_count == task_views(store@).filter(
            |tv: TaskView| tv.status != TaskStatus::Completed && due_in_week(tv, today),
        ).len(),
        r.all_count == task_views(store@).filter(
            |tv: TaskView| tv.status != TaskStatus::Completed,
        ).len(),
        r.completed_count == task_views(store@).filter(
            |tv: TaskView| tv.status == TaskStatus::Completed,
        ).len(),
        r.favorite_count == task_views(store@).filter(
            |tv: TaskView| tv.status != TaskStatus::Completed && tv.favorite,
        ).len(),
{
    let ghost p_today = |tv: TaskView| tv.status != TaskStatus::Completed && due_on(tv, today);
    let ghost p_week = |tv: TaskView| tv.status != TaskStatus::Completed && due_in_week(
        tv,
        today,
    );
    let ghost p_all = |tv: TaskView| tv.status != TaskStatus::Completed;
    let ghost p_done = |tv: TaskView| tv.status == TaskStatus::Completed;
    let ghost p_fav = |tv: TaskView| tv.status != TaskStatus::Completed && tv.favorite;
    let today_str = format_date(today);
    let week = add_days(today, 7);
    let all = store.get_all();
    let ghost vs = task_views(all@);
    proof {
        assert(vs == task_views(store@));
        reveal(Seq::filter);
        assert(vs.subrange(0, 0).filter(p_today) =~= Seq::<TaskView>::empty());
        assert(vs.subrange(0, 0).filter(p_week) =~= Seq::<TaskView>::empty());
        assert(vs.subrange(0, 0).filter(p_all) =~= Seq::<TaskView>::empty());
        assert(vs.subrange(0, 0).filter(p_done) =~= Seq::<TaskView>::empty());
        assert(vs.subrange(0, 0).filter(p_fav) =~= Seq::<TaskView>::empty());
    }
    let n = all.len();
    let mut today_count: usize = 0;
    let mut week_count: usize = 0;
    let mut all_count: usize = 0;
    let mut completed_count: usize = 0;
    let mut favorite_count: usize = 0;
    let mut i: usize = 0;
    while i < n
        invariant
            n == all@.len(),
            i <= n,
            vs == task_views(all@),
            today_str@ == spec_format_date(today),
            week == add_days_of(today, 7),
            today_count <= i,
            week_count <= i,
            all_count <= i,
            completed_count <= i,
            favorite_count <= i,
            today_count == vs.subrange(0, i as int).filter(p_today).len(),
            week_count == vs.subrange(0, i as int).filter(p_week).len(),
            all_count == vs.subrange(0, i as int).filter(p_all).len(),
            completed_count == vs.subrange(0, i as int).filter(p_done).len(),
            favorite_count == vs.subrange(0, i as int).filter(p_fav).len(),
            p_today == (|tv: TaskView| tv.status != TaskStatus::Completed && due_on(tv, today)),
            p_week == (|tv: TaskView| tv.status != TaskStatus::Completed && due_in_week(
                tv,
                today,
            )),
            p_all == (|tv: TaskView| tv.status != TaskStatus::Completed),
            p_done == (|tv: TaskView| tv.status == TaskStatus::Completed),
            p_fav == (|tv: TaskView| tv.status != TaskStatus::Completed && tv.favorite),
        decreases n - i,
    {
        let t = &all[i];
        proof {
            assert(vs[i as int] == t@);
            assert(vs.subrange(0, i as int + 1).drop_last() =~= vs.subrange(0, i as int));
            assert(vs.subrange(0, i as int + 1).last() == vs[i as int]);
            reveal(Seq::filter);
        }
        let open_task = !(t.status == TaskStatus::Completed);
        if open_task {
            if check_due_on(&t.due_date, &today_str) {
                today_count += 1;
            }
            if check_due_by(&t.due_date, week) {
                week_count += 1;
            }
            all_count += 1;
            if t.favorite {
                favorite_count += 1;
            }
        } else {
            completed_count += 1;
        }
        i += 1;
    }
    proof {
        assert(vs.subrange(0, n as int) =~= vs);
    }
    TaskCounts { today_count, week_count, all_count, completed_count, favorite_count }
}

/// Filtering with any predicate is idempotent.
proof fn lemma_filter_twice(s: Seq<TaskView>, p: spec_fn(TaskView) -> bool)
    ensures
        s.filter(p).filter(p) == s.filter(p),
    decreases s.len(),
{
    reveal(Seq::filter);
    if s.len() == 0 {
    } else {
        let d = s.drop_last();
        lemma_filter_twice(d, p);
        if p(s.last()) {
            assert(d.filter(p).push(s.last()).drop_last() =~= d.filter(p));
            assert(d.filter(p).push(s.last()).last() == s.last());
        }
    }
}

/// Filtering an already filtered task list with the same view and search
/// parameters, against the same day, returns it unchanged.
pub proof fn lemma_filter_idempotent(
    tasks: Seq<TaskView>,
    view_type: Seq<char>,
    view_id: Seq<char>,
    search: Seq<char>,
    today: Date,
)
    ensures
        spec_filtered(
            spec_filtered(tasks, view_type, view_id, search, today),
            view_type,
            view_id,
            search,
            today,
        ) == spec_filtered(tasks, view_type, view_id, search, today),
{
    lemma_filter_twice(
        tasks,
        |tv: TaskView| task_matches(tv, view_type, view_id, search, today),
    );
}

} // verus!
