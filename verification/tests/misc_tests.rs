use bootmate::entry::check_directory_access;
use bootmate::entry::detect_sandbox;
use bootmate::entry::SandboxType;
use bootmate::naming::derive_filename;
use bootmate::naming::new_entry;
use bootmate::paths::basename;
use bootmate::paths::has_desktop_extension;

const USER_DIR: &str = "/home/user/.config/autostart";

#[test]
fn snap_detected_from_either_variable() {
    assert_eq!(detect_sandbox(true, false, false), SandboxType::Snap);
    assert_eq!(detect_sandbox(false, true, false), SandboxType::Snap);
    assert_eq!(detect_sandbox(true, true, true), SandboxType::Snap);
}

#[test]
fn flatpak_detected_when_no_snap() {
    assert_eq!(detect_sandbox(false, false, true), SandboxType::Flatpak);
}

#[test]
fn unconfined_without_variables() {
    assert_eq!(detect_sandbox(false, false, false), SandboxType::Unconfined);
}

#[test]
fn access_snapshot_keeps_probes() {
    let a = check_directory_access(true, false, true, false, false, false, true);
    assert!(a.user_autostart);
    assert!(!a.etc_xdg_autostart);
    assert!(a.usr_share_gnome_autostart);
    assert!(!a.usr_share_applications);
    assert_eq!(a.sandbox_type, SandboxType::Flatpak);
}

#[test]
fn filename_lowercased_and_hyphenated() {
    assert_eq!(derive_filename("My App"), "my-app.desktop");
}

#[test]
fn filename_drops_other_characters() {
    assert_eq!(derive_filename("Hello, World! 2"), "hello-world-2.desktop");
}

#[test]
fn filename_of_plain_name() {
    assert_eq!(derive_filename("firefox"), "firefox.desktop");
}

#[test]
fn new_entry_is_enabled_user_entry() {
    let e = new_entry("My App".to_string(), "myapp --run".to_string(), USER_DIR);
    assert_eq!(e.name, "My App");
    assert_eq!(e.command, "myapp --run");
    assert!(e.enabled);
    assert!(e.is_user_entry);
    assert!(e.icon.is_none());
    assert!(e.comment.is_none());
    assert_eq!(e.file_path, format!("{}/my-app.desktop", USER_DIR));
}

#[test]
fn basename_of_ordinary_paths() {
    assert_eq!(basename("/etc/xdg/autostart/a.desktop").unwrap(), "a.desktop");
    assert_eq!(basename("plain.desktop").unwrap(), "plain.desktop");
    assert_eq!(basename("/a/b/").unwrap(), "b");
}

#[test]
fn basename_missing_cases() {
    assert!(basename("/").is_none());
    assert!(basename("").is_none());
    assert!(basename("/a/..").is_none());
    assert!(basename(".").is_none());
}

#[test]
fn desktop_extension_detected() {
    assert!(has_desktop_extension("/etc/xdg/autostart/a.desktop"));
    assert!(has_desktop_extension("b.desktop"));
    assert!(!has_desktop_extension("/etc/xdg/autostart/a.txt"));
    assert!(!has_desktop_extension("/etc/xdg/autostart/desktop"));
    assert!(!has_desktop_extension("/etc/xdg/autostart/.desktop"));
    assert!(!has_desktop_extension("/etc/xdg/autostart/"));
}
