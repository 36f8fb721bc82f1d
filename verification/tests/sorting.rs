use task_manager::Priority;
use task_manager::TaskError;
use task_manager::TaskManager;

fn add(m: &mut TaskManager, title: &str, due: &str, priority: &str) {
    m.add_task(title.to_string(), String::new(), due, priority)
        .unwrap();
}

#[test]
fn sort_by_priority_is_ascending_and_stable() {
    let mut m = TaskManager::new();
    add(&mut m, "low one", "none", "Low");
    add(&mut m, "high one", "none", "High");
    add(&mut m, "medium one", "none", "Medium");
    add(&mut m, "high two", "none", "High");
    let sorted = m.sort("priority").unwrap();
    let prios: Vec<Priority> = sorted.iter().map(|t| t.priority).collect();
    assert_eq!(
        prios,
        vec![Priority::Low, Priority::Medium, Priority::High, Priority::High]
    );
    assert_eq!(sorted[2].title, "high one");
    assert_eq!(sorted[3].title, "high two");
    let stored: Vec<String> = m.list_items().into_iter().map(|(_, t)| t.title).collect();
    assert_eq!(stored, vec!["low one", "high one", "medium one", "high two"]);
}

#[test]
fn sort_by_due_date_is_chronological_with_absent_first() {
    let mut m = TaskManager::new();
    add(&mut m, "march", "15-03-2024 12:00:00", "none");
    add(&mut m, "no date", "none", "none");
    add(&mut m, "january", "01-01-2024 00:00:00", "none");
    add(&mut m, "same day later", "01-01-2024 00:00:01", "none");
    let sorted = m.sort("due date").unwrap();
    let titles: Vec<&str> = sorted.iter().map(|t| t.title.as_str()).collect();
    assert_eq!(titles, vec!["no date", "january", "same day later", "march"]);
}

#[test]
fn sort_by_due_date_keeps_equal_dates_in_insertion_order() {
    let mut m = TaskManager::new();
    add(&mut m, "first of pair", "05-05-2025 05:05:05", "none");
    add(&mut m, "second of pair", "05-05-2025 05:05:05", "none");
    let sorted = m.sort("due date").unwrap();
    assert_eq!(sorted[0].title, "first of pair");
    assert_eq!(sorted[1].title, "second of pair");
}

#[test]
fn sort_unknown_criterion_is_refused() {
    let m = TaskManager::new();
    assert_eq!(m.sort("title").unwrap_err(), TaskError::InvalidChoice);
}

#[test]
fn priority_ranks() {
    assert_eq!(Priority::High.get_numerical(), 3);
    assert_eq!(Priority::Medium.get_numerical(), 2);
    assert_eq!(Priority::Low.get_numerical(), 1);
}
