use taskcore::date::{Date, Moment};
use taskcore::reminder::{check_reminders, check_reminders_at, ReminderState};
use taskcore::store::TaskStore;
use taskcore::task::{Priority, RepeatType, SubTask, Task, TaskStatus};

const NOW: &str = "2024-01-10T08:00:00Z";

fn mk_task(id: &str, due: Option<&str>, sort_order: i32) -> Task {
    Task {
        id: id.to_string(),
        title: format!("task {}", id),
        description: String::new(),
        status: TaskStatus::Todo,
        priority: Priority::Medium,
        project_id: None,
        tags: Vec::new(),
        subtasks: Vec::<SubTask>::new(),
        due_date: due.map(|d| d.to_string()),
        reminder: None,
        repeat: RepeatType::Never,
        favorite: false,
        sort_order,
        created_at: NOW.to_string(),
        updated_at: NOW.to_string(),
        completed_at: None,
    }
}

fn ten_oclock() -> Moment {
    Moment { date: Date { year: 2024, month: 1, day: 15 }, hour: 10, minute: 0, second: 0 }
}

#[test]
fn a_task_due_in_three_minutes_is_signalled_once() {
    let tasks = vec![mk_task("a", Some("2024-01-15T10:03"), 0)];
    let mut state = ReminderState::new();
    let now = ten_oclock();
    let first = check_reminders_at(&mut state, &tasks, &now);
    assert_eq!(first.map(|t| t.id), Some("a".to_string()));
    let second = check_reminders_at(&mut state, &tasks, &now);
    assert!(second.is_none());
}

#[test]
fn the_five_minute_window_is_a_half_open_interval() {
    let now = ten_oclock();
    let beyond = vec![mk_task("a", Some("2024-01-15T10:05:01"), 0)];
    let mut state = ReminderState::new();
    assert!(check_reminders_at(&mut state, &beyond, &now).is_none());

    let boundary = vec![mk_task("a", Some("2024-01-15T10:05:00"), 0)];
    let mut state = ReminderState::new();
    assert!(check_reminders_at(&mut state, &boundary, &now).is_some());

    let due_now = vec![mk_task("a", Some("2024-01-15T10:00"), 0)];
    let mut state = ReminderState::new();
    assert!(check_reminders_at(&mut state, &due_now, &now).is_none());

    let past = vec![mk_task("a", Some("2024-01-15T09:59"), 0)];
    let mut state = ReminderState::new();
    assert!(check_reminders_at(&mut state, &past, &now).is_none());
}

#[test]
fn a_bare_date_is_due_at_the_end_of_its_day() {
    let evening = Moment {
        date: Date { year: 2024, month: 1, day: 15 },
        hour: 23,
        minute: 55,
        second: 0,
    };
    let tasks = vec![mk_task("a", Some("2024-01-15"), 0)];
    let mut state = ReminderState::new();
    assert!(check_reminders_at(&mut state, &tasks, &evening).is_some());

    let morning = ten_oclock();
    let mut state = ReminderState::new();
    assert!(check_reminders_at(&mut state, &tasks, &morning).is_none());
}

#[test]
fn completed_missing_and_malformed_due_dates_never_signal() {
    let now = ten_oclock();
    let mut done = mk_task("a", Some("2024-01-15T10:03"), 0);
    done.status = TaskStatus::Completed;
    let none = mk_task("b", None, 1);
    let bad = mk_task("c", Some("whenever"), 2);
    let tasks = vec![done, none, bad];
    let mut state = ReminderState::new();
    assert!(check_reminders_at(&mut state, &tasks, &now).is_none());
}

#[test]
fn the_first_qualifying_task_in_store_order_wins() {
    let now = ten_oclock();
    let far = mk_task("later", Some("2024-01-15T10:04"), 0);
    let near = mk_task("sooner", Some("2024-01-15T10:01"), 1);
    let tasks = vec![far, near];
    let mut state = ReminderState::new();
    let got = check_reminders_at(&mut state, &tasks, &now).unwrap();
    assert_eq!(got.id, "later");
    let got = check_reminders_at(&mut state, &tasks, &now).unwrap();
    assert_eq!(got.id, "sooner");
    assert!(check_reminders_at(&mut state, &tasks, &now).is_none());
}

#[test]
fn polling_the_store_against_the_clock_signals_an_imminent_task() {
    let due = chrono::Local::now() + chrono::Duration::minutes(3);
    let due_str = due.format("%Y-%m-%dT%H:%M:%S").to_string();
    let mut store = TaskStore::new();
    let no_tags: Vec<String> = Vec::new();
    store
        .create("a", "imminent", "high", None, Some(due_str.as_str()), "none", &no_tags, NOW)
        .unwrap();
    let mut state = ReminderState::new();
    let got = check_reminders(&mut state, &store);
    assert_eq!(got.map(|t| t.id), Some("a".to_string()));
    assert!(check_reminders(&mut state, &store).is_none());
}
