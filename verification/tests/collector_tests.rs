use usage_tracker::application::{AppUsage, Application, ApplicationMap};
use usage_tracker::collector::{
    accepts_window, collect_application, collect_application_named, extract_name_from_path,
    is_valid_application, is_valid_with_executable_name, is_windows_system_path, product_name,
    product_name_field_names, string_file_info_query, window_title,
};
use usage_tracker::time::TimeSpan;

fn app(title: &str, executable: &str) -> Application {
    Application {
        title: title.to_string(),
        name: String::new(),
        display_name: String::new(),
        executable: executable.to_string(),
        pid: 7,
        usage: AppUsage { total_time: TimeSpan::zero() },
    }
}

fn units(s: &str) -> Vec<u16> {
    s.encode_utf16().collect()
}

#[test]
fn ordinary_windows_are_applications() {
    assert!(accepts_window("Inbox - Outlook", "OUTLOOK.EXE", false));
    assert!(accepts_window("  Visual Studio Code ", "Code.exe", true));
}

#[test]
fn blank_title_or_name_is_not_an_application() {
    assert!(!accepts_window("", "notepad.exe", false));
    assert!(!accepts_window(" \t\n ", "notepad.exe", false));
    assert!(!accepts_window("Untitled - Notepad", "", false));
}

#[test]
fn shell_titles_are_blocked_whatever_their_case_and_padding() {
    assert!(!accepts_window("Program Manager", "explorer.exe", false));
    assert!(!accepts_window("  SETTINGS  ", "ApplicationFrameHost.exe", false));
    assert!(!accepts_window("Windows Input Experience", "TextInputHost.exe", false));
    assert!(!accepts_window("NVIDIA GeForce Overlay", "NVIDIA Share.exe", false));
    assert!(!accepts_window("PowerToys Quick Access (Preview)", "PowerToys.exe", false));
    // Only the whole title is blocked, not a title that merely mentions it.
    assert!(accepts_window("Settings - Blender", "blender.exe", false));
}

#[test]
fn helper_windows_are_blocked() {
    assert!(!accepts_window("GracefulShutdownWindow", "app.exe", false));
    assert!(!accepts_window("Slack UIAccessHelperWindow x", "slack.exe", false));
    assert!(!accepts_window("chrome_crashpad", "chrome.exe", false));
    assert!(!accepts_window("Discord", "Update.exe", false));
    assert!(!accepts_window("Discord", "squirrel.exe", false));
    assert!(!accepts_window("Crash", "crashpad_handler.exe", false));
}

#[test]
fn system_components_are_blocked_only_in_the_windows_directory() {
    assert!(!accepts_window("Search", "SearchHost.exe", true));
    assert!(accepts_window("Search", "SearchHost.exe", false));
    assert!(!accepts_window("Start", "StartMenuExperienceHost.exe", true));
    assert!(!accepts_window("Lock", "LockApp.exe", true));
}

#[test]
fn windows_directory_detection() {
    let windir = Some("C:\\Windows");
    assert!(is_windows_system_path("C:\\Windows\\SystemApps\\SearchHost.exe", windir));
    assert!(is_windows_system_path("c:/windows/explorer.exe", windir));
    assert!(is_windows_system_path("C:\\WINDOWS\\x.exe", Some("C:/Windows/")));
    assert!(is_windows_system_path("C:\\Windows\\x.exe", Some("C:\\Windows\\\\")));
    assert!(!is_windows_system_path("C:\\WindowsApps\\x.exe", windir));
    assert!(!is_windows_system_path("C:\\Windows", windir));
    assert!(!is_windows_system_path("D:\\Games\\game.exe", windir));
    assert!(!is_windows_system_path("C:\\Windows\\x.exe", None));
}

#[test]
fn file_names_of_paths() {
    assert_eq!(extract_name_from_path(&"/usr/bin/firefox".to_string()), "firefox");
    assert_eq!(extract_name_from_path(&"/usr/bin/".to_string()), "bin");
    assert_eq!(extract_name_from_path(&"/".to_string()), "");
    assert_eq!(extract_name_from_path(&"".to_string()), "");
    assert_eq!(extract_name_from_path(&"a/..".to_string()), "");
    assert_eq!(extract_name_from_path(&"firefox.exe".to_string()), "firefox.exe");
    assert_eq!(
        extract_name_from_path(&"C:/Program Files/App/app.exe".to_string()),
        "app.exe"
    );
}

#[test]
fn validity_of_forward_slash_paths() {
    let windir = Some("C:\\Windows");
    assert!(is_valid_application(&app("Settings - Notepad", "C:/Apps/notepad.exe"), windir));
    assert!(!is_valid_application(
        &app("Discord Updater", "C:/Users/u/AppData/Local/Discord/Update.exe"),
        windir
    ));
    assert!(!is_valid_application(&app("Search", "C:/Windows/SystemApps/SearchHost.exe"), windir));
    assert!(is_valid_application(&app("Search", "D:/Tools/SearchHost.exe"), windir));
}

#[test]
fn validity_uses_the_executable_file_name() {
    assert!(is_valid_application(&app("Firefox", "/opt/firefox/firefox"), None));
    assert!(!is_valid_application(&app("Firefox", "/opt/firefox/update.exe"), None));
    assert!(!is_valid_application(&app("Firefox", "/"), None));
    assert!(!is_valid_with_executable_name(
        &app("Search", "C:\\Windows\\SystemApps\\SearchHost.exe"),
        "SearchHost.exe",
        Some("C:\\Windows"),
    ));
    assert!(is_valid_with_executable_name(
        &app("Search", "D:\\Tools\\SearchHost.exe"),
        "SearchHost.exe",
        Some("C:\\Windows"),
    ));
}

#[test]
fn window_titles() {
    let mut buffer = [0u16; 512];
    let t = units("Untitled - Notepad");
    buffer[..t.len()].copy_from_slice(&t);
    assert_eq!(window_title(&buffer, t.len() as i32), Some("Untitled - Notepad".to_string()));
    assert_eq!(window_title(&buffer, 8), Some("Untitled".to_string()));
    assert_eq!(window_title(&buffer, 0), None);
}

#[test]
fn version_string_queries() {
    assert_eq!(
        string_file_info_query(0x0409, 0x04b0, "ProductName"),
        "\\StringFileInfo\\040904b0\\ProductName"
    );
    assert_eq!(
        string_file_info_query(0xABCD, 0x0001, "FileDescription"),
        "\\StringFileInfo\\abcd0001\\FileDescription"
    );
    assert_eq!(product_name_field_names(), vec!["ProductName", "FileDescription"]);
}

#[test]
fn product_name_takes_the_first_non_blank_value() {
    assert_eq!(
        product_name(&vec![Some(units(" Firefox ")), Some(units("Firefox browser"))]),
        Some("Firefox".to_string())
    );
    assert_eq!(
        product_name(&vec![Some(units("   ")), Some(units("Text editor\n"))]),
        Some("Text editor".to_string())
    );
    assert_eq!(product_name(&vec![None, Some(units("Paint"))]), Some("Paint".to_string()));
    assert_eq!(product_name(&vec![None, Some(units(""))]), None);
    assert_eq!(product_name(&vec![]), None);
}

#[test]
fn collecting_files_valid_windows_under_their_executable() {
    let mut apps = ApplicationMap::new();
    collect_application_named(
        &mut apps,
        "Inbox".to_string(),
        10,
        "C:\\Program Files\\Mail\\mail.exe".to_string(),
        "mail.exe".to_string(),
        Some("Mail".to_string()),
        Some("C:\\Windows"),
    );
    assert_eq!(apps.len(), 1);
    let key = "C:\\Program Files\\Mail\\mail.exe".to_string();
    let a = apps.get(&key).unwrap();
    assert_eq!(a.title, "Inbox");
    assert_eq!(a.name, "mail.exe");
    assert_eq!(a.display_name, "Mail");
    assert_eq!(a.pid, 10);
    assert_eq!(a.usage.total_time, TimeSpan::zero());

    // A second window of the same executable does not replace the first.
    collect_application_named(
        &mut apps,
        "Calendar".to_string(),
        11,
        "C:\\Program Files\\Mail\\mail.exe".to_string(),
        "mail.exe".to_string(),
        None,
        Some("C:\\Windows"),
    );
    assert_eq!(apps.len(), 1);
    assert_eq!(apps.get(&key).unwrap().title, "Inbox");

    // A window that does not count is not collected.
    collect_application_named(
        &mut apps,
        "Program Manager".to_string(),
        12,
        "C:\\Windows\\explorer.exe".to_string(),
        "explorer.exe".to_string(),
        None,
        Some("C:\\Windows"),
    );
    assert_eq!(apps.len(), 1);
}

#[test]
fn display_name_falls_back_to_the_file_name() {
    let mut apps = ApplicationMap::new();
    collect_application(&mut apps, "Terminal".to_string(), 3, "/usr/bin/xterm".to_string(), None, None);
    let a = apps.get(&"/usr/bin/xterm".to_string()).unwrap();
    assert_eq!(a.name, "xterm");
    assert_eq!(a.display_name, "xterm");
    assert_eq!(apps.key_at(0), "/usr/bin/xterm");
}
