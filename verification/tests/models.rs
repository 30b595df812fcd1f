use taskcore::store::StoreError;
use taskcore::task::{
    row_to_task, AppSettings, Priority, Project, RepeatType, SubTask, Tag, TaskRow, TaskStatus,
};

#[test]
fn priority_text_round_trips() {
    for p in [Priority::High, Priority::Medium, Priority::Low] {
        assert_eq!(Priority::from_str(p.as_str()), p);
    }
    assert_eq!(Priority::High.as_str(), "high");
    assert_eq!(Priority::from_str("critical"), Priority::Medium);
    assert_eq!(Priority::from_str(""), Priority::Medium);
}

#[test]
fn status_text_round_trips() {
    for s in [TaskStatus::Todo, TaskStatus::InProgress, TaskStatus::Completed] {
        assert_eq!(TaskStatus::from_str(s.as_str()), s);
    }
    assert_eq!(TaskStatus::InProgress.as_str(), "in_progress");
    assert_eq!(TaskStatus::from_str("paused"), TaskStatus::Todo);
}

#[test]
fn repeat_text_round_trips() {
    for r in [
        RepeatType::Daily,
        RepeatType::Weekly,
        RepeatType::Monthly,
        RepeatType::Custom,
        RepeatType::Never,
    ] {
        assert_eq!(RepeatType::from_str(r.as_str()), r);
    }
    assert_eq!(RepeatType::Never.as_str(), "none");
    assert_eq!(RepeatType::from_str("yearly"), RepeatType::Never);
}

#[test]
fn row_to_task_reads_the_persisted_spellings() {
    let row = TaskRow {
        id: "t1".to_string(),
        title: "题目".to_string(),
        description: "desc".to_string(),
        status: "in_progress".to_string(),
        priority: "low".to_string(),
        project_id: Some("p1".to_string()),
        due_date: Some("2024-01-15".to_string()),
        reminder: None,
        repeat_type: "weekly".to_string(),
        favorite: 1,
        sort_order: 7,
        created_at: "2024-01-01T00:00:00Z".to_string(),
        updated_at: "2024-01-02T00:00:00Z".to_string(),
        completed_at: None,
    };
    let subtasks = vec![SubTask { id: "s1".to_string(), title: "sub".to_string(), completed: true }];
    let tags = vec!["tag-1".to_string()];
    let t = row_to_task(row, subtasks, tags);
    assert_eq!(t.id, "t1");
    assert_eq!(t.status, TaskStatus::InProgress);
    assert_eq!(t.priority, Priority::Low);
    assert_eq!(t.repeat, RepeatType::Weekly);
    assert!(t.favorite);
    assert_eq!(t.sort_order, 7);
    assert_eq!(t.subtasks.len(), 1);
    assert!(t.subtasks[0].completed);
    assert_eq!(t.tags, vec!["tag-1".to_string()]);
}

#[test]
fn row_to_task_treats_zero_favorite_as_unset() {
    let row = TaskRow {
        id: "t2".to_string(),
        title: "x".to_string(),
        description: String::new(),
        status: "todo".to_string(),
        priority: "medium".to_string(),
        project_id: None,
        due_date: None,
        reminder: None,
        repeat_type: "none".to_string(),
        favorite: 0,
        sort_order: 0,
        created_at: String::new(),
        updated_at: String::new(),
        completed_at: None,
    };
    let t = row_to_task(row, Vec::new(), Vec::new());
    assert!(!t.favorite);
    assert_eq!(t.status, TaskStatus::Todo);
    assert_eq!(t.repeat, RepeatType::Never);
}

#[test]
fn settings_default_to_light_mode() {
    let s = AppSettings::default();
    assert!(!s.is_dark);
}

#[test]
fn store_errors_describe_themselves() {
    assert_eq!(StoreError::NotFound.message(), "task not found");
    assert_eq!(StoreError::DuplicateId.message(), "task id already exists");
}

#[test]
fn side_models_clone_faithfully() {
    let p = Project {
        id: "p1".to_string(),
        name: "工作项目".to_string(),
        color: "#228B22".to_string(),
        icon: "briefcase".to_string(),
        archived: false,
        created_at: "2024-01-01T00:00:00Z".to_string(),
    };
    let q = p.clone();
    assert_eq!(q.name, p.name);
    assert_eq!(q.archived, p.archived);

    let t = Tag { id: "t1".to_string(), name: "重要".to_string(), color: "#EF4444".to_string() };
    let u = t.clone();
    assert_eq!(u.name, t.name);
}
