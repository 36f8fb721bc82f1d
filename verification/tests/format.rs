use task_manager::date::format_date;
use task_manager::date::parse_date;
use task_manager::DueDate;
use task_manager::Priority;
use task_manager::Task;

#[test]
fn parse_date_accepts_the_exact_pattern() {
    let d = parse_date("05-03-2021 07:04:09").unwrap();
    assert_eq!(
        (d.day, d.month, d.year, d.hour, d.minute, d.second),
        (5, 3, 2021, 7, 4, 9)
    );
}

#[test]
fn parse_date_rejects_malformed_texts() {
    assert!(parse_date("").is_none());
    assert!(parse_date("2021-03-05 07:04:09").is_none());
    assert!(parse_date("5-03-2021 07:04:09").is_none());
    assert!(parse_date("05/03/2021 07:04:09").is_none());
    assert!(parse_date("05-03-2021 07:04").is_none());
    assert!(parse_date("05-03-2021 07:04:09 ").is_none());
    assert!(parse_date("05-13-2021 07:04:09").is_none());
    assert!(parse_date("00-03-2021 07:04:09").is_none());
    assert!(parse_date("32-01-2021 07:04:09").is_none());
    assert!(parse_date("05-03-2021 24:04:09").is_none());
    assert!(parse_date("05-03-2021 07:60:09").is_none());
    assert!(parse_date("05-03-2021 07:04:60").is_none());
}

#[test]
fn parse_date_knows_leap_years() {
    assert!(parse_date("29-02-2024 00:00:00").is_some());
    assert!(parse_date("29-02-2023 00:00:00").is_none());
    assert!(parse_date("29-02-2000 00:00:00").is_some());
    assert!(parse_date("29-02-1900 00:00:00").is_none());
    assert!(parse_date("31-04-2021 00:00:00").is_none());
    assert!(parse_date("30-04-2021 00:00:00").is_some());
}

#[test]
fn format_date_is_zero_padded() {
    let d = DueDate {
        day: 5,
        month: 3,
        year: 21,
        hour: 7,
        minute: 4,
        second: 9,
    };
    assert_eq!(format_date(&d), "05-03-0021 07:04:09");
}

#[test]
fn format_then_parse_gives_the_date_back() {
    let d = DueDate {
        day: 29,
        month: 2,
        year: 2024,
        hour: 23,
        minute: 59,
        second: 59,
    };
    assert_eq!(parse_date(&format_date(&d)).unwrap(), d);
}

#[test]
fn render_produces_the_exact_block() {
    let mut t = Task::new("ab".to_string(), "cd".to_string(), None, Some(Priority::High));
    t.status = true;
    // The widest pairing is "Due date: " + "Not specified": 23 characters.
    let rendered = t.render();
    let got: Vec<&str> = rendered.lines().collect();
    assert_eq!(got.len(), 7);
    assert_eq!(got[0], "-".repeat(27));
    assert_eq!(got[1], format!("| Title: ab{} |", " ".repeat(23 - 7 - 2)));
    assert_eq!(got[2], format!("| Description: cd{} |", " ".repeat(23 - 13 - 2)));
    assert_eq!(got[3], "| Due date: Not specified |");
    assert_eq!(got[4], format!("| Priority: High{} |", " ".repeat(23 - 10 - 4)));
    assert_eq!(got[5], format!("| Status: Completed{} |", " ".repeat(23 - 8 - 9)));
    assert_eq!(got[6], "-".repeat(27));
}

#[test]
fn render_pads_every_line_to_one_width() {
    let t = Task::new(
        "A".to_string(),
        "A much longer description string".to_string(),
        None,
        None,
    );
    let rendered = t.render();
    let lines: Vec<&str> = rendered.lines().collect();
    assert_eq!(lines.len(), 7);
    let width = lines[0].chars().count();
    for line in &lines {
        assert_eq!(line.chars().count(), width);
    }
}

#[test]
fn render_shows_the_due_date_text() {
    let d = parse_date("01-01-2024 00:00:00");
    let t = Task::new("a".to_string(), "b".to_string(), d, None);
    let rendered = t.render();
    assert!(rendered.contains("| Due date: 01-01-2024 00:00:00 |"));
    assert!(rendered.contains("| Priority: Low"));
    assert!(rendered.contains("| Status: Not completed"));
}
