use taskcore::date::Date;
use taskcore::filter::{filter_tasks, get_counts};
use taskcore::store::TaskStore;
use taskcore::task::{Priority, RepeatType, SubTask, Task, TaskStatus};

const NOW: &str = "2024-01-10T08:00:00Z";

fn mk_task(id: &str, title: &str, sort_order: i32) -> Task {
    Task {
        id: id.to_string(),
        title: title.to_string(),
        description: String::new(),
        status: TaskStatus::Todo,
        priority: Priority::Medium,
        project_id: None,
        tags: Vec::new(),
        subtasks: Vec::<SubTask>::new(),
        due_date: None,
        reminder: None,
        repeat: RepeatType::Never,
        favorite: false,
        sort_order,
        created_at: NOW.to_string(),
        updated_at: NOW.to_string(),
        completed_at: None,
    }
}

fn today() -> Date {
    Date { year: 2024, month: 1, day: 15 }
}

fn ids(tasks: &[Task]) -> Vec<&str> {
    tasks.iter().map(|t| t.id.as_str()).collect()
}

#[test]
fn search_is_case_insensitive_substring_on_title_and_description() {
    let mut a = mk_task("a", "Write the DOC draft", 0);
    a.description = "notes".to_string();
    let mut b = mk_task("b", "shopping", 1);
    b.description = "buy the Document folder".to_string();
    let c = mk_task("c", "unrelated", 2);
    let r = filter_tasks(vec![a, b, c], "smart", "all", "doc", today());
    assert_eq!(ids(&r), vec!["a", "b"]);
}

#[test]
fn search_matches_unicode_titles() {
    let mut a = mk_task("a", "完成项目提案文档", 0);
    a.description = "撰写 Q1 产品规划提案，包含功能列表和技术方案".to_string();
    let b = mk_task("b", "买菜", 1);
    let r = filter_tasks(vec![a.clone(), b.clone()], "smart", "all", "提案", today());
    assert_eq!(ids(&r), vec!["a"]);
    let r = filter_tasks(vec![a.clone(), b.clone()], "smart", "all", "q1", today());
    assert_eq!(ids(&r), vec!["a"]);
    let r = filter_tasks(vec![a, b], "smart", "all", "doc", today());
    assert!(r.is_empty());
}

#[test]
fn empty_search_keeps_everything() {
    let tasks = vec![mk_task("a", "one", 0), mk_task("b", "two", 1)];
    let r = filter_tasks(tasks, "smart", "all", "", today());
    assert_eq!(ids(&r), vec!["a", "b"]);
}

#[test]
fn today_view_compares_the_date_prefix() {
    let mut a = mk_task("a", "due today", 0);
    a.due_date = Some("2024-01-15".to_string());
    let mut b = mk_task("b", "due today with time", 1);
    b.due_date = Some("2024-01-15T09:30".to_string());
    let mut c = mk_task("c", "due tomorrow", 2);
    c.due_date = Some("2024-01-16".to_string());
    let d = mk_task("d", "no due date", 3);
    let r = filter_tasks(vec![a, b, c, d], "smart", "today", "", today());
    assert_eq!(ids(&r), vec!["a", "b"]);
}

#[test]
fn week_view_is_due_through_next_week_with_no_lower_bound() {
    let mut a = mk_task("a", "exactly a week out", 0);
    a.due_date = Some("2024-01-22".to_string());
    let mut b = mk_task("b", "a day beyond", 1);
    b.due_date = Some("2024-01-23".to_string());
    let mut c = mk_task("c", "long overdue", 2);
    c.due_date = Some("2020-01-01".to_string());
    let mut d = mk_task("d", "malformed", 3);
    d.due_date = Some("soon".to_string());
    let mut e = mk_task("e", "timed inside the week", 4);
    e.due_date = Some("2024-01-20T08:00".to_string());
    let r = filter_tasks(vec![a, b, c, d, e], "smart", "week", "", today());
    assert_eq!(ids(&r), vec!["a", "c", "e"]);
}

#[test]
fn completed_and_favorite_views_check_their_flags() {
    let mut a = mk_task("a", "done", 0);
    a.status = TaskStatus::Completed;
    let mut b = mk_task("b", "loved", 1);
    b.favorite = true;
    let c = mk_task("c", "plain", 2);
    let all = vec![a, b, c];
    let r = filter_tasks(all.clone(), "smart", "completed", "", today());
    assert_eq!(ids(&r), vec!["a"]);
    let r = filter_tasks(all, "smart", "favorite", "", today());
    assert_eq!(ids(&r), vec!["b"]);
}

#[test]
fn unknown_views_pass_everything_through() {
    let all = vec![mk_task("a", "one", 0), mk_task("b", "two", 1)];
    let r = filter_tasks(all.clone(), "smart", "someday", "", today());
    assert_eq!(ids(&r), vec!["a", "b"]);
    let r = filter_tasks(all, "galaxy", "x", "", today());
    assert_eq!(ids(&r), vec!["a", "b"]);
}

#[test]
fn project_view_compares_ids_exactly() {
    let mut a = mk_task("a", "in project", 0);
    a.project_id = Some("proj-1".to_string());
    let mut b = mk_task("b", "other project", 1);
    b.project_id = Some("proj-10".to_string());
    let c = mk_task("c", "no project", 2);
    let r = filter_tasks(vec![a, b, c], "project", "proj-1", "", today());
    assert_eq!(ids(&r), vec!["a"]);
}

#[test]
fn tag_view_looks_the_id_up_in_the_tag_set() {
    let mut a = mk_task("a", "tagged", 0);
    a.tags = vec!["urgent".to_string(), "home".to_string()];
    let mut b = mk_task("b", "other tag", 1);
    b.tags = vec!["work".to_string()];
    let c = mk_task("c", "untagged", 2);
    let r = filter_tasks(vec![a, b, c], "tag", "home", "", today());
    assert_eq!(ids(&r), vec!["a"]);
}

#[test]
fn search_and_view_combine() {
    let mut a = mk_task("a", "report", 0);
    a.due_date = Some("2024-01-15".to_string());
    let mut b = mk_task("b", "report", 1);
    b.due_date = Some("2024-01-16".to_string());
    let mut c = mk_task("c", "groceries", 2);
    c.due_date = Some("2024-01-15".to_string());
    let r = filter_tasks(vec![a, b, c], "smart", "today", "REPORT", today());
    assert_eq!(ids(&r), vec!["a"]);
}

#[test]
fn filtering_preserves_relative_order() {
    let mut tasks = Vec::new();
    for (i, id) in ["e", "d", "c", "b", "a"].iter().enumerate() {
        let mut t = mk_task(id, "same title", i as i32);
        t.due_date = Some("2024-01-15".to_string());
        tasks.push(t);
    }
    let r = filter_tasks(tasks, "smart", "today", "", today());
    assert_eq!(ids(&r), vec!["e", "d", "c", "b", "a"]);
}

#[test]
fn filtering_twice_returns_the_same_list() {
    let mut a = mk_task("a", "alpha report", 0);
    a.due_date = Some("2024-01-15".to_string());
    let mut b = mk_task("b", "beta report", 1);
    b.due_date = Some("2024-01-20".to_string());
    let mut c = mk_task("c", "gamma", 2);
    c.due_date = Some("2024-01-15".to_string());
    let once = filter_tasks(vec![a, b, c], "smart", "today", "report", today());
    let twice = filter_tasks(once.clone(), "smart", "today", "report", today());
    assert_eq!(ids(&once), ids(&twice));
    assert_eq!(once.len(), twice.len());
}

#[test]
fn counts_follow_the_smart_views() {
    let mut store = TaskStore::new();
    let no_tags: Vec<String> = Vec::new();
    store
        .create("a", "due today", "high", None, Some("2024-01-15"), "none", &no_tags, NOW)
        .unwrap();
    store
        .create("b", "due next week", "low", None, Some("2024-01-20"), "none", &no_tags, NOW)
        .unwrap();
    store
        .create("c", "beyond the week", "low", None, Some("2024-02-01"), "none", &no_tags, NOW)
        .unwrap();
    store.create("d", "no due", "low", None, None, "none", &no_tags, NOW).unwrap();
    store.create("e", "done", "low", None, Some("2024-01-15"), "none", &no_tags, NOW).unwrap();
    store.toggle_status("e", NOW).unwrap();
    store.toggle_favorite("d", NOW).unwrap();

    let counts = get_counts(&store, today());
    assert_eq!(counts.today_count, 1);
    assert_eq!(counts.week_count, 2);
    assert_eq!(counts.all_count, 4);
    assert_eq!(counts.completed_count, 1);
    assert_eq!(counts.favorite_count, 1);
}

#[test]
fn fetching_the_today_view_against_the_clock() {
    let today_str = chrono::Local::now().format("%Y-%m-%d").to_string();
    let mut store = TaskStore::new();
    let no_tags: Vec<String> = Vec::new();
    store
        .create("now", "due today", "high", None, Some(today_str.as_str()), "none", &no_tags, NOW)
        .unwrap();
    store
        .create("past", "long gone", "low", None, Some("1999-01-01"), "none", &no_tags, NOW)
        .unwrap();
    let r = taskcore::filter::get_filtered_tasks(&store, "smart", "today", "");
    assert_eq!(ids(&r), vec!["now"]);
}
