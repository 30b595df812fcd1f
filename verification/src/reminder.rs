//! The reminder engine: scanning the task collection in store order, it
//! surfaces at most one task per call whose due moment lies strictly in the
//! future but no more than five minutes away, and never surfaces the same
//! task twice in one session.
//!
//! The signalled-task record is owned by the caller and lives for the
//! process: it is never persisted, so a restart may re-signal a task.

use vstd::prelude::*;

use crate::clock::local_now;
use crate::date::{moment_seconds, moment_seconds_exec, parse_due, spec_parse_due, Moment};
use crate::store::{task_views, TaskStore};
use crate::task::{str_views, Task, TaskStatus, TaskView};
use crate::text::str_eq;

verus! {

/// The ids of the tasks already signalled in this session.
pub struct ReminderState {
    signaled: Vec<String>,
}

impl View for ReminderState {
    type V = Seq<Seq<char>>;

    closed spec fn view(&self) -> Seq<Seq<char>> {
        str_views(self.signaled@)
    }
}

impl ReminderState {
    /// A record with nothing signalled yet.
    pub fn new() -> (r: ReminderState)
        ensures
            r@ == Seq::<Seq<char>>::empty(),
    {
        let r = ReminderState { signaled: Vec::new() };
        proof {
            assert(r@ =~= Seq::<Seq<char>>::empty());
        }
        r
    }

    /// Has the task with this id been signalled already?
    fn contains(&self, id: &str) -> (r: bool)
        ensures
            r == self@.contains(id@),
    {
        let n = self.signaled.len();
        let mut i: usize = 0;
        while i < n
            invariant
                n == self.signaled@.len(),
                i <= n,
                forall|j: int| 0 <= j < i ==> self.signaled@[j]@ != id@,
            decreases n - i,
        {
            if str_eq(self.signaled[i].as_str(), id) {
                proof {
                    assert(self@[i as int] == id@);
                }
                return true;
            }
            i += 1;
        }
        proof {
            if self@.contains(id@) {
                let j = choose|j: int| 0 <= j < self@.len() && self@[j] == id@;
                assert(self.signaled@[j]@ == id@);
            }
        }
        false
    }

    /// Record the task with this id as signalled.
    fn push(&mut self, id: &str)
        ensures
            final(self)@ == old(self)@.push(id@),
    {
        self.signaled.push(id.to_owned());
        proof {
            assert(self@ =~= old(self)@.push(id@));
        }
    }
}

/// The task is due for a reminder: not completed, not yet signalled, and
/// its due moment lies strictly in the future, at most five minutes away.
/// A task without a readable due date never qualifies.
pub open spec fn qualifies(t: TaskView, signaled: Seq<Seq<char>>, now: Moment) -> bool {
    &&& t.status != TaskStatus::Completed
    &&& !signaled.contains(t.id)
    &&& match t.due_date {
        Option::Some(d) => match spec_parse_due(d) {
            Option::Some(m) => 0 < moment_seconds(m) - moment_seconds(now) <= 300,
            Option::None => false,
        },
        Option::None => false,
    }
}

/// A task is signalled at most once per session: once its id is in the
/// session record — as it is the moment it is returned — it never
/// qualifies again, at any time.
pub proof fn lemma_no_repeat_signalling(t: TaskView, signaled: Seq<Seq<char>>, now: Moment)
    requires
        signaled.contains(t.id),
    ensures
        !qualifies(t, signaled, now),
{
}

/// Scan the tasks in their given order against the given time and return
/// the first one due for a reminder, recording its id; return nothing, and
/// record nothing, when no task qualifies.
pub fn check_reminders_at(state: &mut ReminderState, tasks: &Vec<Task>, now: &Moment) -> (r:
    Option<Task>)
    ensures
        match r {
            Option::Some(t) => exists|i: int|
                {
                    &&& 0 <= i < tasks@.len()
                    &&& #[trigger] qualifies(tasks@[i]@, old(state)@, *now)
                    &&& (forall|j: int| 0 <= j < i ==> !qualifies(tasks@[j]@, old(state)@, *now))
                    &&& t@ == tasks@[i]@
                    &&& final(state)@ == old(state)@.push(tasks@[i]@.id)
                },
            Option::None => final(state)@ == old(state)@ && forall|i: int|
                0 <= i < tasks@.len() ==> !qualifies(tasks@[i]@, old(state)@, *now),
        },
{
    let now_s = moment_seconds_exec(now);
    let n = tasks.len();
    let mut i: usize = 0;
    while i < n
        invariant
            n == tasks@.len(),
            now_s == moment_seconds(*now),
            i <= n,
            *state == *old(state),
            forall|j: int| 0 <= j < i ==> !qualifies(tasks@[j]@, old(state)@, *now),
        decreases n - i,
    {
        let t = &tasks[i];
        let due_soon = if t.status == TaskStatus::Completed {
            false
        } else if state.contains(t.id.as_str()) {
            false
        } else {
            match &t.due_date {
                Option::Some(d) => match parse_due(d.as_str()) {
                    Option::Some(m) => {
                        let due_s = moment_seconds_exec(&m);
                        due_s > now_s && due_s - now_s <= 300
                    },
                    Option::None => false,
                },
                Option::None => false,
            }
        };
        if due_soon {
            proof {
                assert(qualifies(tasks@[i as int]@, old(state)@, *now));
            }
            state.push(t.id.as_str());
            return Option::Some(t.clone());
        }
        i += 1;
    }
    Option::None
}

/// Poll the store at the current local time: return the first task due for
/// a reminder, recording its id in the session record.
pub fn check_reminders(state: &mut ReminderState, store: &TaskStore) -> (r: Option<Task>)
    ensures
        match r {
            Option::Some(t) => exists|now: Moment, i: int|
                {
                    &&& 1 <= now.date.month <= 12
                    &&& 1 <= now.date.day <= 31
                    &&& now.hour <= 23
                    &&& now.minute <= 59
                    &&& now.second <= 59
                    &&& 0 <= i < store@.len()
                    &&& #[trigger] qualifies(store@[i]@, old(state)@, now)
                    &&& (forall|j: int| 0 <= j < i ==> !qualifies(store@[j]@, old(state)@, now))
                    &&& t@ == store@[i]@
                    &&& final(state)@ == old(state)@.push(store@[i]@.id)
                },
            Option::None => final(state)@ == old(state)@,
        },
{
    let now = local_now();
    let all = store.get_all();
    let r = check_reminders_at(state, &all, &now);
    proof {
        assert(task_views(all@).len() == task_views(store@).len());
        assert forall|k: int| 0 <= k < all@.len() implies all@[k]@ == store@[k]@ by {
            assert(task_views(all@)[k] == task_views(store@)[k]);
        }
    }
    r
}

} // verus!
