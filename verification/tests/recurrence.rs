use taskcore::date::Date;
use taskcore::repeat::{create_next_repeat_task, create_successor, next_due_date, toggle_task_status};
use taskcore::store::{StoreError, TaskStore};
use taskcore::task::{Priority, RepeatType, TaskStatus};

const NOW: &str = "2024-01-10T08:00:00Z";
const LATER: &str = "2024-01-16T09:00:00Z";

fn d(year: u32, month: u32, day: u32) -> Date {
    Date { year, month, day }
}

fn store_with(id: &str, due: Option<&str>, repeat: &str) -> TaskStore {
    let mut store = TaskStore::new();
    let tags = vec!["tag-1".to_string(), "tag-2".to_string()];
    store
        .create(id, "周会准备", "high", Some("proj-1"), due, repeat, &tags, NOW)
        .unwrap();
    store
}

#[test]
fn next_due_date_by_kind() {
    assert_eq!(next_due_date("2024-01-15", RepeatType::Daily), Some(d(2024, 1, 16)));
    assert_eq!(next_due_date("2024-01-15", RepeatType::Weekly), Some(d(2024, 1, 22)));
    assert_eq!(next_due_date("2024-01-15", RepeatType::Monthly), Some(d(2024, 2, 15)));
    assert_eq!(next_due_date("2024-12-15", RepeatType::Monthly), Some(d(2025, 1, 15)));
    assert_eq!(next_due_date("2024-01-31", RepeatType::Monthly), Some(d(2024, 3, 1)));
    assert_eq!(next_due_date("2024-01-15T10:30", RepeatType::Daily), Some(d(2024, 1, 16)));
    assert_eq!(next_due_date("2024-01-15", RepeatType::Custom), None);
    assert_eq!(next_due_date("2024-01-15", RepeatType::Never), None);
    assert_eq!(next_due_date("nonsense", RepeatType::Daily), None);
}

#[test]
fn weekly_completion_yields_a_successor_a_week_later() {
    let mut store = store_with("w", Some("2024-01-15"), "weekly");
    let src = store.get_by_id("w").unwrap();
    let t = create_successor(&mut store, &src, "w2", LATER).unwrap().unwrap();
    assert_eq!(t.id, "w2");
    assert_eq!(t.due_date.as_deref(), Some("2024-01-22"));
    assert_eq!(t.title, "周会准备");
    assert_eq!(t.priority, Priority::High);
    assert_eq!(t.project_id.as_deref(), Some("proj-1"));
    assert_eq!(t.tags, vec!["tag-1".to_string(), "tag-2".to_string()]);
    assert_eq!(t.repeat, RepeatType::Weekly);
    assert_eq!(t.description, "");
    assert!(t.subtasks.is_empty());
    assert!(!t.favorite);
    assert_eq!(t.status, TaskStatus::Todo);
    assert_eq!(t.completed_at, None);
    assert_eq!(t.created_at, LATER);
    assert_eq!(t.sort_order, 1);
    assert_eq!(store.get_all().len(), 2);
}

#[test]
fn monthly_month_end_falls_back_to_thirty_days() {
    let mut store = store_with("m", Some("2024-01-31"), "monthly");
    let src = store.get_by_id("m").unwrap();
    let t = create_successor(&mut store, &src, "m2", LATER).unwrap().unwrap();
    assert_eq!(t.due_date.as_deref(), Some("2024-03-01"));
}

#[test]
fn daily_advances_one_day_discarding_the_time() {
    let mut store = store_with("dd", Some("2024-01-15T22:00"), "daily");
    let src = store.get_by_id("dd").unwrap();
    let t = create_successor(&mut store, &src, "dd2", LATER).unwrap().unwrap();
    assert_eq!(t.due_date.as_deref(), Some("2024-01-16"));
}

#[test]
fn non_recurring_kinds_create_nothing() {
    let mut store = store_with("n", Some("2024-01-15"), "none");
    let src = store.get_by_id("n").unwrap();
    assert!(create_successor(&mut store, &src, "n2", LATER).unwrap().is_none());
    assert_eq!(store.get_all().len(), 1);

    let mut store = store_with("c", Some("2024-01-15"), "custom");
    let src = store.get_by_id("c").unwrap();
    assert!(create_successor(&mut store, &src, "c2", LATER).unwrap().is_none());
    assert_eq!(store.get_all().len(), 1);
}

#[test]
fn a_recurring_task_without_a_due_date_is_skipped() {
    let mut store = store_with("w", None, "weekly");
    let src = store.get_by_id("w").unwrap();
    assert!(create_successor(&mut store, &src, "w2", LATER).unwrap().is_none());
    assert_eq!(store.get_all().len(), 1);
}

#[test]
fn a_malformed_due_date_creates_nothing_and_no_error() {
    let mut store = store_with("w", Some("next tuesday"), "weekly");
    let src = store.get_by_id("w").unwrap();
    assert!(create_successor(&mut store, &src, "w2", LATER).unwrap().is_none());
    assert_eq!(store.get_all().len(), 1);

    let mut store = store_with("c", Some("???"), "custom");
    let src = store.get_by_id("c").unwrap();
    assert!(create_successor(&mut store, &src, "c2", LATER).unwrap().is_none());
    assert_eq!(store.get_all().len(), 1);

    let mut store = store_with("d", Some("2024-13-40"), "daily");
    let src = store.get_by_id("d").unwrap();
    assert!(create_next_repeat_task(&mut store, &src).unwrap().is_none());
    assert_eq!(store.get_all().len(), 1);
}

#[test]
fn a_colliding_successor_id_is_an_error() {
    let mut store = store_with("w", Some("2024-01-15"), "weekly");
    let src = store.get_by_id("w").unwrap();
    let err = create_successor(&mut store, &src, "w", LATER).unwrap_err();
    assert_eq!(err, StoreError::DuplicateId);
    assert_eq!(store.get_all().len(), 1);
}

#[test]
fn fresh_ids_come_from_the_generator() {
    let mut store = store_with("w", Some("2024-01-15"), "weekly");
    let src = store.get_by_id("w").unwrap();
    let t = create_next_repeat_task(&mut store, &src).unwrap().unwrap();
    assert!(t.id.starts_with("task-"));
    assert_eq!(t.id.len(), 41);
    assert_eq!(t.due_date.as_deref(), Some("2024-01-22"));
    assert_eq!(t.created_at, t.updated_at);
    assert_eq!(store.get_all().len(), 2);
}

#[test]
fn completing_a_recurring_task_spawns_its_successor() {
    let mut store = store_with("w", Some("2024-01-15"), "weekly");
    let t = toggle_task_status(&mut store, "w").unwrap();
    assert_eq!(t.status, TaskStatus::Completed);
    assert!(t.completed_at.is_some());
    let all = store.get_all();
    assert_eq!(all.len(), 2);
    assert_eq!(all[1].due_date.as_deref(), Some("2024-01-22"));
    assert_eq!(all[1].title, "周会准备");
    assert_eq!(all[1].status, TaskStatus::Todo);
}

#[test]
fn uncompleting_and_plain_tasks_spawn_nothing() {
    let mut store = store_with("w", Some("2024-01-15"), "weekly");
    toggle_task_status(&mut store, "w").unwrap();
    assert_eq!(store.get_all().len(), 2);
    let t = toggle_task_status(&mut store, "w").unwrap();
    assert_eq!(t.status, TaskStatus::Todo);
    assert_eq!(store.get_all().len(), 2);

    let mut store = store_with("n", Some("2024-01-15"), "none");
    toggle_task_status(&mut store, "n").unwrap();
    toggle_task_status(&mut store, "n").unwrap();
    toggle_task_status(&mut store, "n").unwrap();
    assert_eq!(store.get_all().len(), 1);
    assert_eq!(
        toggle_task_status(&mut store, "zzz").unwrap_err(),
        StoreError::NotFound
    );
}
