use task_manager::Priority;
use task_manager::TaskManager;

fn assert_same_tasks(a: &TaskManager, b: &TaskManager) {
    let xs = a.list_items();
    let ys = b.list_items();
    assert_eq!(xs.len(), ys.len());
    for ((_, x), (_, y)) in xs.iter().zip(ys.iter()) {
        assert_eq!(x.title, y.title);
        assert_eq!(x.description, y.description);
        assert_eq!(x.due_date, y.due_date);
        assert_eq!(x.priority, y.priority);
        assert_eq!(x.status, y.status);
    }
}

fn round_trip(m: &TaskManager) -> TaskManager {
    let text = m.serialize();
    TaskManager::deserialize(&text).expect("a rendered snapshot must parse")
}

#[test]
fn empty_manager_round_trips() {
    let m = TaskManager::new();
    assert_same_tasks(&m, &round_trip(&m));
}

#[test]
fn task_without_due_date_or_priority_round_trips() {
    let mut m = TaskManager::new();
    m.add_task("plain".to_string(), "no extras".to_string(), "none", "none")
        .unwrap();
    let back = round_trip(&m);
    assert_same_tasks(&m, &back);
    let t = &back.list_items()[0].1;
    assert!(t.due_date.is_none());
    assert_eq!(t.priority, Priority::Low);
}

#[test]
fn task_with_due_date_and_priority_round_trips() {
    let mut m = TaskManager::new();
    m.add_task(
        "dated".to_string(),
        "has everything".to_string(),
        "01-01-2024 00:00:00",
        "High",
    )
    .unwrap();
    let back = round_trip(&m);
    assert_same_tasks(&m, &back);
    let t = &back.list_items()[0].1;
    let d = t.due_date.unwrap();
    assert_eq!((d.day, d.month, d.year), (1, 1, 2024));
    assert_eq!(t.priority, Priority::High);
}

#[test]
fn completed_task_round_trips() {
    let mut m = TaskManager::new();
    m.add_task("done".to_string(), "finished".to_string(), "none", "Medium")
        .unwrap();
    m.complete_task(1).unwrap();
    let back = round_trip(&m);
    assert_same_tasks(&m, &back);
    assert!(back.list_items()[0].1.status);
}

#[test]
fn several_tasks_round_trip_in_order() {
    let mut m = TaskManager::new();
    m.add_task("first".to_string(), "one".to_string(), "none", "Low")
        .unwrap();
    m.add_task(
        "second".to_string(),
        "two".to_string(),
        "29-02-2024 12:30:45",
        "High",
    )
    .unwrap();
    m.add_task("third".to_string(), "three".to_string(), "none", "none")
        .unwrap();
    m.complete_task(3).unwrap();
    assert_same_tasks(&m, &round_trip(&m));
}

#[test]
fn awkward_text_round_trips() {
    let mut m = TaskManager::new();
    m.add_task(
        "title with\nnewline".to_string(),
        "status false\ndue none".to_string(),
        "none",
        "none",
    )
    .unwrap();
    m.add_task(String::new(), "7 ".to_string(), "none", "none")
        .unwrap();
    assert_same_tasks(&m, &round_trip(&m));
}

#[test]
fn serialize_produces_the_exact_text() {
    let mut m = TaskManager::new();
    m.add_task("a".to_string(), String::new(), "none", "none")
        .unwrap();
    assert_eq!(
        m.serialize(),
        "tasks 1\ntitle 1 a\ndescription 0 \ndue none\npriority Low\nstatus false\n"
    );
}

#[test]
fn serialize_renders_dates_and_flags() {
    let mut m = TaskManager::new();
    m.add_task(
        "xy".to_string(),
        "z".to_string(),
        "05-03-2021 07:04:09",
        "High",
    )
    .unwrap();
    m.complete_task(1).unwrap();
    assert_eq!(
        m.serialize(),
        "tasks 1\ntitle 2 xy\ndescription 1 z\ndue 05-03-2021 07:04:09\npriority High\nstatus true\n"
    );
}

#[test]
fn malformed_snapshots_are_refused() {
    assert!(TaskManager::deserialize("").is_none());
    assert!(TaskManager::deserialize("tasks ").is_none());
    assert!(TaskManager::deserialize("tasks one\n").is_none());
    assert!(TaskManager::deserialize("tasks 1\n").is_none());
    assert!(TaskManager::deserialize("tasks 2\ntitle 1 a\ndescription 0 \ndue none\npriority Low\nstatus false\n").is_none());
    assert!(TaskManager::deserialize("tasks 0\nleftover").is_none());
    assert!(TaskManager::deserialize("tasks 1\ntitle 9 a\ndescription 0 \ndue none\npriority Low\nstatus false\n").is_none());
    assert!(TaskManager::deserialize("tasks 1\ntitle 1 a\ndescription 0 \ndue 31-02-2024 00:00:00\npriority Low\nstatus false\n").is_none());
    assert!(TaskManager::deserialize("tasks 1\ntitle 1 a\ndescription 0 \ndue none\npriority low\nstatus false\n").is_none());
    assert!(TaskManager::deserialize("tasks 1\ntitle 1 a\ndescription 0 \ndue none\npriority Low\nstatus done\n").is_none());
}

#[test]
fn deserialize_reads_a_written_snapshot() {
    let text = "tasks 2\ntitle 5 hello\ndescription 5 world\ndue none\npriority Medium\nstatus false\ntitle 1 b\ndescription 0 \ndue 01-12-1999 23:00:30\npriority Low\nstatus true\n";
    let m = TaskManager::deserialize(text).unwrap();
    let items = m.list_items();
    assert_eq!(items.len(), 2);
    assert_eq!(items[0].1.title, "hello");
    assert_eq!(items[0].1.priority, Priority::Medium);
    assert!(items[0].1.due_date.is_none());
    let d = items[1].1.due_date.unwrap();
    assert_eq!((d.day, d.month, d.year, d.hour), (1, 12, 1999, 23));
    assert!(items[1].1.status);
    assert_eq!(m.serialize(), text);
}

#[test]
fn a_dozen_tasks_round_trip() {
    let mut m = TaskManager::new();
    for i in 0..12 {
        m.add_task(format!("task number {i}"), "x".repeat(i), "none", "none")
            .unwrap();
    }
    let text = m.serialize();
    assert!(text.starts_with("tasks 12\n"));
    assert_same_tasks(&m, &round_trip(&m));
}
