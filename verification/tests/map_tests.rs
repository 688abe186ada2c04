use usage_tracker::application::{AppUsage, Application, ApplicationMap};
use usage_tracker::time::TimeSpan;

fn app(executable: &str, pid: u32) -> Application {
    Application {
        title: String::new(),
        name: String::new(),
        display_name: String::new(),
        executable: executable.to_string(),
        pid,
        usage: AppUsage { total_time: TimeSpan::zero() },
    }
}

#[test]
fn insert_replaces_and_keeps_the_first_position() {
    let mut m = ApplicationMap::new();
    m.insert("a".to_string(), app("a", 1));
    m.insert("b".to_string(), app("b", 2));
    m.insert("a".to_string(), app("a", 3));
    assert_eq!(m.len(), 2);
    assert_eq!(m.key_at(0), "a");
    assert_eq!(m.app_at(0).pid, 3);
    assert_eq!(m.get(&"b".to_string()).unwrap().pid, 2);
    assert!(m.get(&"c".to_string()).is_none());
    assert_eq!(m.find(&"b".to_string()), Some(1));
}

#[test]
fn insert_if_absent_keeps_what_is_there() {
    let mut m = ApplicationMap::new();
    m.insert_if_absent("a".to_string(), app("a", 1));
    m.insert_if_absent("a".to_string(), app("a", 2));
    assert_eq!(m.len(), 1);
    assert_eq!(m.get(&"a".to_string()).unwrap().pid, 1);
}

#[test]
fn clones_are_equal_and_independent() {
    let mut m = ApplicationMap::new();
    m.insert("a".to_string(), app("a", 1));
    let c = m.clone();
    m.insert("b".to_string(), app("b", 2));
    assert_eq!(c.len(), 1);
    assert_eq!(c.get(&"a".to_string()).unwrap().pid, 1);
}

#[test]
fn time_spans() {
    assert!(TimeSpan::zero().is_zero());
    assert!(!TimeSpan { secs: 0, nanos: 1 }.is_zero());
    assert!(TimeSpan::from_secs(2).is_at_least(&TimeSpan { secs: 1, nanos: 999 }));
    assert!(!TimeSpan { secs: 1, nanos: 5 }.is_at_least(&TimeSpan { secs: 1, nanos: 6 }));
    assert!(TimeSpan { secs: 1, nanos: 6 }.is_at_least(&TimeSpan { secs: 1, nanos: 6 }));
}
