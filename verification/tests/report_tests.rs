use usage_tracker::application::{AppUsage, Application, ApplicationMap};
use usage_tracker::report::{applications_by_usage, can_report, create_bar, usage_report, usage_row, usage_rows};
use usage_tracker::time::TimeSpan;

fn app(executable: &str, display_name: &str, secs: u64) -> Application {
    Application {
        title: String::new(),
        name: String::new(),
        display_name: display_name.to_string(),
        executable: executable.to_string(),
        pid: 1,
        usage: AppUsage { total_time: TimeSpan::from_secs(secs) },
    }
}

#[test]
fn bars_scale_to_thirty_blocks() {
    assert_eq!(create_bar(TimeSpan::from_secs(100), TimeSpan::from_secs(100)), "█".repeat(30));
    assert_eq!(create_bar(TimeSpan::from_secs(50), TimeSpan::from_secs(100)), "█".repeat(15));
    assert_eq!(create_bar(TimeSpan::from_secs(3), TimeSpan::from_secs(100)), "");
    assert_eq!(create_bar(TimeSpan::from_secs(7), TimeSpan::from_secs(9)), "█".repeat(23));
    assert_eq!(create_bar(TimeSpan::zero(), TimeSpan::zero()), "");
}

#[test]
fn rows_are_formatted_in_columns() {
    let a = app("a.exe", "Firefox", 3 * 3600 + 7 * 60 + 59);
    let row = usage_row(&a, TimeSpan::from_secs(4 * 3600));
    let expected = format!("{:<40} | {:<30} {:02}h {:02}m\n", "Firefox", "█".repeat(23), 3, 7);
    assert_eq!(row, expected);

    let long = app("b.exe", &"N".repeat(45), 125 * 3600);
    let row = usage_row(&long, TimeSpan::from_secs(125 * 3600));
    let expected = format!("{:<40} | {:<30} {:02}h {:02}m\n", "N".repeat(45), "█".repeat(30), 125, 0);
    assert_eq!(row, expected);
}

#[test]
fn most_used_comes_first() {
    let mut m = ApplicationMap::new();
    for (exe, name, secs) in [("a", "A", 10), ("b", "B", 300), ("c", "C", 10), ("d", "D", 0)] {
        m.insert(exe.to_string(), app(exe, name, secs));
    }
    let sorted = applications_by_usage(&m);
    let names: Vec<&str> = sorted.iter().map(|a| a.display_name.as_str()).collect();
    assert_eq!(names, vec!["B", "A", "C", "D"]);
    let rows = usage_rows(&sorted);
    assert_eq!(rows.len(), 4);
    assert!(rows[0].starts_with("B "));
    assert!(rows[0].contains(&"█".repeat(30)));
}

#[test]
fn report_of_nothing() {
    let m = ApplicationMap::new();
    assert_eq!(usage_report(&m), vec!["No applications found.".to_string()]);
}

#[test]
fn report_rows() {
    let mut m = ApplicationMap::new();
    m.insert("x".to_string(), app("x", "Editor", 60));
    m.insert("y".to_string(), app("y", "Browser", 120));
    let lines = usage_report(&m);
    assert_eq!(
        lines,
        vec![
            format!("{:<40} | {:<30} {:02}h {:02}m\n", "Browser", "█".repeat(30), 0, 2),
            format!("{:<40} | {:<30} {:02}h {:02}m\n", "Editor", "█".repeat(15), 0, 1),
        ]
    );
}

#[test]
fn report_of_idle_applications_has_no_bars() {
    let mut m = ApplicationMap::new();
    m.insert("x".to_string(), app("x", "Idle", 0));
    let lines = usage_report(&m);
    assert_eq!(lines, vec![format!("{:<40} | {:<30} 00h 00m\n", "Idle", "")]);
}

#[test]
fn reports_that_cannot_be_drawn_are_recognized() {
    let mut m = ApplicationMap::new();
    assert!(can_report(&m));
    m.insert("x".to_string(), app("x", "X", 100));
    assert!(can_report(&m));
    let mut idle = app("y", "Y", 0);
    idle.usage.total_time.nanos = 5;
    m.insert("y".to_string(), idle.clone());
    assert!(can_report(&m));
    let mut only_idle = ApplicationMap::new();
    only_idle.insert("y".to_string(), idle);
    assert!(!can_report(&only_idle));
    let mut huge = ApplicationMap::new();
    huge.insert("z".to_string(), app("z", "Z", u64::MAX / 30 + 1));
    assert!(!can_report(&huge));
    huge.insert("z".to_string(), app("z", "Z", u64::MAX / 30));
    assert!(can_report(&huge));
}
