use task_manager::TaskError;
use task_manager::TaskManager;

fn manager_with(titles: &[&str]) -> TaskManager {
    let mut m = TaskManager::new();
    for t in titles {
        m.add_task(t.to_string(), format!("about {t}"), "none", "none")
            .unwrap();
    }
    m
}

#[test]
fn add_task_returns_the_new_task() {
    let mut m = TaskManager::new();
    let t = m
        .add_task(
            "write report".to_string(),
            "quarterly numbers".to_string(),
            "01-01-2024 00:00:00",
            "High",
        )
        .unwrap();
    assert_eq!(t.title, "write report");
    assert_eq!(t.description, "quarterly numbers");
    assert_eq!(t.priority, task_manager::Priority::High);
    assert!(!t.status);
    let d = t.due_date.unwrap();
    assert_eq!(
        (d.day, d.month, d.year, d.hour, d.minute, d.second),
        (1, 1, 2024, 0, 0, 0)
    );
    assert_eq!(m.list_items().len(), 1);
}

#[test]
fn add_task_none_due_date_is_absent() {
    let mut m = TaskManager::new();
    let t = m
        .add_task("a".to_string(), "b".to_string(), "none", "none")
        .unwrap();
    assert!(t.due_date.is_none());
    assert_eq!(t.priority, task_manager::Priority::Low);
}

#[test]
fn add_task_invalid_calendar_date_is_refused() {
    let mut m = TaskManager::new();
    let r = m.add_task(
        "a".to_string(),
        "b".to_string(),
        "31-02-2024 10:00:00",
        "none",
    );
    assert_eq!(r.unwrap_err(), TaskError::MalformedDate);
    assert_eq!(m.list_items().len(), 0);
}

#[test]
fn add_task_unknown_priority_is_refused() {
    let mut m = TaskManager::new();
    let r = m.add_task("a".to_string(), "b".to_string(), "none", "high");
    assert_eq!(r.unwrap_err(), TaskError::InvalidChoice);
    assert_eq!(m.list_items().len(), 0);
}

#[test]
fn add_task_empty_texts_are_accepted() {
    let mut m = TaskManager::new();
    let t = m
        .add_task(String::new(), String::new(), "none", "Medium")
        .unwrap();
    assert_eq!(t.title, "");
    assert_eq!(t.description, "");
}

#[test]
fn list_items_pairs_tasks_with_one_based_positions() {
    let m = manager_with(&["first", "second", "third"]);
    let items = m.list_items();
    assert_eq!(items.len(), 3);
    assert_eq!(items[0].0, 1);
    assert_eq!(items[0].1.title, "first");
    assert_eq!(items[1].0, 2);
    assert_eq!(items[1].1.title, "second");
    assert_eq!(items[2].0, 3);
    assert_eq!(items[2].1.title, "third");
}

#[test]
fn complete_task_sets_only_that_task() {
    let mut m = manager_with(&["first", "second", "third"]);
    m.complete_task(2).unwrap();
    let items = m.list_items();
    assert!(!items[0].1.status);
    assert!(items[1].1.status);
    assert!(!items[2].1.status);
    assert_eq!(items[0].1.title, "first");
    assert_eq!(items[1].1.title, "second");
    assert_eq!(items[2].1.title, "third");
}

#[test]
fn complete_task_is_idempotent() {
    let mut m = manager_with(&["only"]);
    m.complete_task(1).unwrap();
    m.complete_task(1).unwrap();
    assert!(m.list_items()[0].1.status);
}

#[test]
fn out_of_range_indices_are_refused_and_change_nothing() {
    let mut m = manager_with(&["first", "second"]);
    assert_eq!(m.complete_task(0).unwrap_err(), TaskError::TaskNotFound);
    assert_eq!(m.complete_task(3).unwrap_err(), TaskError::TaskNotFound);
    assert_eq!(m.delete_task(0).unwrap_err(), TaskError::TaskNotFound);
    assert_eq!(m.delete_task(3).unwrap_err(), TaskError::TaskNotFound);
    assert_eq!(
        m.update(0, "title", "x".to_string()).unwrap_err(),
        TaskError::TaskNotFound
    );
    assert_eq!(
        m.update(3, "title", "x".to_string()).unwrap_err(),
        TaskError::TaskNotFound
    );
    let items = m.list_items();
    assert_eq!(items.len(), 2);
    assert_eq!(items[0].1.title, "first");
    assert!(!items[0].1.status);
    assert_eq!(items[1].1.title, "second");
    assert!(!items[1].1.status);
}

#[test]
fn delete_task_shifts_later_tasks_down() {
    let mut m = manager_with(&["first", "second", "third"]);
    m.delete_task(2).unwrap();
    let items = m.list_items();
    assert_eq!(items.len(), 2);
    assert_eq!(items[0].0, 1);
    assert_eq!(items[0].1.title, "first");
    assert_eq!(items[1].0, 2);
    assert_eq!(items[1].1.title, "third");
}

#[test]
fn update_title_and_description() {
    let mut m = manager_with(&["first", "second"]);
    m.update(1, "title", "renamed".to_string()).unwrap();
    m.update(2, "description", "new text".to_string()).unwrap();
    let items = m.list_items();
    assert_eq!(items[0].1.title, "renamed");
    assert_eq!(items[1].1.description, "new text");
}

#[test]
fn update_due_date_parses_and_clears() {
    let mut m = manager_with(&["only"]);
    m.update(1, "due date", "29-02-2024 23:59:59".to_string())
        .unwrap();
    let d = m.list_items()[0].1.due_date.unwrap();
    assert_eq!((d.day, d.month, d.year), (29, 2, 2024));
    m.update(1, "due date", "none".to_string()).unwrap();
    assert!(m.list_items()[0].1.due_date.is_none());
}

#[test]
fn update_malformed_due_date_is_refused() {
    let mut m = manager_with(&["only"]);
    let r = m.update(1, "due date", "29-02-2023 00:00:00".to_string());
    assert_eq!(r.unwrap_err(), TaskError::MalformedDate);
    assert!(m.list_items()[0].1.due_date.is_none());
}

#[test]
fn update_unknown_field_is_refused() {
    let mut m = manager_with(&["only"]);
    let r = m.update(1, "priority", "High".to_string());
    assert_eq!(r.unwrap_err(), TaskError::InvalidChoice);
    assert_eq!(m.list_items()[0].1.title, "only");
}

#[test]
fn error_messages() {
    assert_eq!(TaskError::TaskNotFound.message(), "No task with such index");
    assert_eq!(TaskError::InvalidChoice.message(), "No such option");
    assert_eq!(TaskError::MalformedDate.message(), "Malformed due date");
}
