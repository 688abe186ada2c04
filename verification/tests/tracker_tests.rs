use usage_tracker::application::{AppUsage, Application, ApplicationMap};
use usage_tracker::storage::{application_data_dir, stop_request_path, tracker_pid_path, usage_file_path};
use usage_tracker::time::TimeSpan;
use usage_tracker::tracker::{tracker_tick, update_is_safe, update_visible_applications, TrackerAction};

fn app(executable: &str, display_name: &str, secs: u64) -> Application {
    Application {
        title: format!("{executable} window"),
        name: executable.to_string(),
        display_name: display_name.to_string(),
        executable: executable.to_string(),
        pid: 1,
        usage: AppUsage { total_time: TimeSpan::from_secs(secs) },
    }
}

fn map_of(apps: Vec<Application>) -> ApplicationMap {
    let mut m = ApplicationMap::new();
    for a in apps {
        let key = a.executable.clone();
        m.insert(key, a);
    }
    m
}

fn secs_of(m: &ApplicationMap, key: &str) -> u64 {
    m.get(&key.to_string()).unwrap().usage.total_time.secs
}

#[test]
fn new_executables_are_saved_as_seen() {
    let mut saved = ApplicationMap::new();
    let visible = map_of(vec![app("a.exe", "A", 0), app("b.exe", "B", 0)]);
    update_visible_applications(&mut saved, &visible);
    assert_eq!(saved.len(), 2);
    assert_eq!(secs_of(&saved, "a.exe"), 0);
    assert_eq!(saved.get(&"b.exe".to_string()).unwrap().display_name, "B");
}

#[test]
fn saved_executables_get_one_more_second() {
    let mut saved = map_of(vec![app("a.exe", "A", 41), app("c.exe", "C", 5)]);
    let visible = map_of(vec![app("a.exe", "A new", 0), app("b.exe", "B", 0)]);
    update_visible_applications(&mut saved, &visible);
    assert_eq!(saved.len(), 3);
    assert_eq!(secs_of(&saved, "a.exe"), 42);
    assert_eq!(secs_of(&saved, "c.exe"), 5);
    assert_eq!(secs_of(&saved, "b.exe"), 0);
    // A saved display name is kept.
    assert_eq!(saved.get(&"a.exe".to_string()).unwrap().display_name, "A");
    assert_eq!(saved.get(&"a.exe".to_string()).unwrap().title, "a.exe window");
}

#[test]
fn an_empty_display_name_is_filled_in() {
    let mut saved = map_of(vec![app("a.exe", "", 3)]);
    let visible = map_of(vec![app("a.exe", "Alpha", 0)]);
    update_visible_applications(&mut saved, &visible);
    assert_eq!(saved.get(&"a.exe".to_string()).unwrap().display_name, "Alpha");
    assert_eq!(secs_of(&saved, "a.exe"), 4);
}

#[test]
fn nanoseconds_are_kept_when_a_second_is_added() {
    let mut a = app("a.exe", "A", 9);
    a.usage.total_time.nanos = 500;
    let mut saved = map_of(vec![a]);
    update_visible_applications(&mut saved, &map_of(vec![app("a.exe", "A", 0)]));
    let t = saved.get(&"a.exe".to_string()).unwrap().usage.total_time;
    assert_eq!((t.secs, t.nanos), (10, 500));
}

#[test]
fn sightings_are_filed_by_executable_not_by_key() {
    let mut saved = map_of(vec![app("a.exe", "A", 1)]);
    let mut visible = ApplicationMap::new();
    visible.insert("other key".to_string(), app("a.exe", "A", 0));
    update_visible_applications(&mut saved, &visible);
    assert_eq!(saved.len(), 1);
    assert_eq!(secs_of(&saved, "a.exe"), 2);
}

#[test]
fn overflow_is_detected_before_updating() {
    let saved = map_of(vec![app("a.exe", "A", u64::MAX)]);
    assert!(!update_is_safe(&saved, &map_of(vec![app("a.exe", "A", 0)])));
    assert!(update_is_safe(&saved, &map_of(vec![app("b.exe", "B", 0)])));
    let saved = map_of(vec![app("a.exe", "A", u64::MAX - 1)]);
    assert!(update_is_safe(&saved, &map_of(vec![app("a.exe", "A", 0)])));
}

#[test]
fn tick_actions() {
    let visible = map_of(vec![app("a.exe", "A", 0)]);
    let mut saved = ApplicationMap::new();
    assert_eq!(tracker_tick(&mut saved, &visible, false, TimeSpan::from_secs(59)), TrackerAction::Continue);
    assert_eq!(tracker_tick(&mut saved, &visible, false, TimeSpan { secs: 59, nanos: 999_999_999 }), TrackerAction::Continue);
    assert_eq!(tracker_tick(&mut saved, &visible, false, TimeSpan::from_secs(60)), TrackerAction::Save);
    assert_eq!(tracker_tick(&mut saved, &visible, true, TimeSpan::from_secs(0)), TrackerAction::SaveAndStop);
    assert_eq!(tracker_tick(&mut saved, &visible, true, TimeSpan::from_secs(600)), TrackerAction::SaveAndStop);
    // The first tick saved it, the four after it counted four seconds.
    assert_eq!(secs_of(&saved, "a.exe"), 4);
}

#[test]
fn data_file_paths() {
    let dir = application_data_dir("/home/me/.local/share");
    assert!(dir.ends_with("app-usage-tracker"));
    assert_eq!(usage_file_path("/data"), format!("/data{}usage.json", std::path::MAIN_SEPARATOR));
    assert!(tracker_pid_path("/data").ends_with("tracker.pid"));
    assert!(stop_request_path("/data").ends_with("stop.request"));
}

#[test]
fn saved_applications_stay_filed_under_their_executables() {
    let mut saved = map_of(vec![app("a.exe", "A", 1)]);
    let mut visible = ApplicationMap::new();
    visible.insert("b.exe".to_string(), app("b.exe", "B", 0));
    visible.insert("a.exe".to_string(), app("a.exe", "A", 0));
    update_visible_applications(&mut saved, &visible);
    for i in 0..saved.len() {
        assert_eq!(saved.key_at(i), &saved.app_at(i).executable);
    }
    assert_eq!(saved.key_at(0), "a.exe");
    assert_eq!(saved.key_at(1), "b.exe");
}
