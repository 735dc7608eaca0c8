use bootmate::entry::RepoError;
use bootmate::parse::parse;

const USER_DIR: &str = "/home/user/.config/autostart";

#[test]
fn parses_minimal_block() {
    let content = "[Desktop Entry]\nName=Alpha\nExec=alpha --flag\n";
    let e = parse(content, "/etc/xdg/autostart/a.desktop", USER_DIR).unwrap();
    assert_eq!(e.name, "Alpha");
    assert_eq!(e.command, "alpha --flag");
    assert!(e.enabled);
    assert!(e.icon.is_none());
    assert!(e.comment.is_none());
    assert_eq!(e.file_path, "/etc/xdg/autostart/a.desktop");
    assert!(!e.is_user_entry);
}

#[test]
fn parses_icon_and_comment() {
    let content = "[Desktop Entry]\nName=A\nExec=a\nIcon=app-icon\nComment=Starts A\n";
    let e = parse(content, "/etc/xdg/autostart/a.desktop", USER_DIR).unwrap();
    assert_eq!(e.icon.as_deref(), Some("app-icon"));
    assert_eq!(e.comment.as_deref(), Some("Starts A"));
}

#[test]
fn missing_name_reported() {
    let content = "[Desktop Entry]\nExec=a\n";
    assert_eq!(
        parse(content, "/tmp/a.desktop", USER_DIR).unwrap_err(),
        RepoError::MissingName
    );
}

#[test]
fn missing_exec_reported() {
    let content = "[Desktop Entry]\nName=A\n";
    assert_eq!(
        parse(content, "/tmp/a.desktop", USER_DIR).unwrap_err(),
        RepoError::MissingExec
    );
}

#[test]
fn empty_name_counts_as_missing() {
    let content = "[Desktop Entry]\nName=\nExec=a\n";
    assert_eq!(
        parse(content, "/tmp/a.desktop", USER_DIR).unwrap_err(),
        RepoError::MissingName
    );
}

#[test]
fn no_section_header_fails() {
    let content = "Name=A\nExec=a\n";
    assert!(parse(content, "/tmp/a.desktop", USER_DIR).is_err());
}

#[test]
fn keys_outside_section_ignored() {
    let content = "Name=Out\n[Desktop Entry]\nName=In\nExec=a\n[Other]\nExec=b\n";
    let e = parse(content, "/tmp/a.desktop", USER_DIR).unwrap();
    assert_eq!(e.name, "In");
    assert_eq!(e.command, "a");
}

#[test]
fn comments_and_blanks_ignored() {
    let content = "[Desktop Entry]\n# a comment\n\nName=A\n   \nExec=a\n";
    let e = parse(content, "/tmp/a.desktop", USER_DIR).unwrap();
    assert_eq!(e.name, "A");
}

#[test]
fn unknown_keys_ignored() {
    let content = "[Desktop Entry]\nName=A\nExec=a\nVersion=1.0\nTerminal=false\nType=Application\n";
    let e = parse(content, "/tmp/a.desktop", USER_DIR).unwrap();
    assert_eq!(e.name, "A");
    assert!(e.enabled);
}

#[test]
fn keys_and_values_trimmed() {
    let content = "[Desktop Entry]\n  Name =  Alpha Beta  \nExec=a\n";
    let e = parse(content, "/tmp/a.desktop", USER_DIR).unwrap();
    assert_eq!(e.name, "Alpha Beta");
}

#[test]
fn value_may_contain_equals() {
    let content = "[Desktop Entry]\nName=A\nExec=env VAR=1 run\n";
    let e = parse(content, "/tmp/a.desktop", USER_DIR).unwrap();
    assert_eq!(e.command, "env VAR=1 run");
}

#[test]
fn crlf_line_endings_accepted() {
    let content = "[Desktop Entry]\r\nName=A\r\nExec=a\r\n";
    let e = parse(content, "/tmp/a.desktop", USER_DIR).unwrap();
    assert_eq!(e.name, "A");
    assert_eq!(e.command, "a");
}

#[test]
fn autostart_enabled_false_disables() {
    let content = "[Desktop Entry]\nName=A\nExec=a\nX-GNOME-Autostart-enabled=false\n";
    assert!(!parse(content, "/tmp/a.desktop", USER_DIR).unwrap().enabled);
}

#[test]
fn autostart_enabled_false_any_case_disables() {
    let content = "[Desktop Entry]\nName=A\nExec=a\nX-GNOME-Autostart-enabled=FaLsE\n";
    assert!(!parse(content, "/tmp/a.desktop", USER_DIR).unwrap().enabled);
}

#[test]
fn autostart_enabled_other_value_keeps_enabled() {
    let content = "[Desktop Entry]\nName=A\nExec=a\nX-GNOME-Autostart-enabled=no\n";
    assert!(parse(content, "/tmp/a.desktop", USER_DIR).unwrap().enabled);
}

#[test]
fn hidden_true_disables() {
    let content = "[Desktop Entry]\nName=A\nExec=a\nHidden=true\n";
    assert!(!parse(content, "/tmp/a.desktop", USER_DIR).unwrap().enabled);
}

#[test]
fn hidden_true_any_case_disables() {
    let content = "[Desktop Entry]\nName=A\nExec=a\nHidden=TRUE\n";
    assert!(!parse(content, "/tmp/a.desktop", USER_DIR).unwrap().enabled);
}

#[test]
fn hidden_false_keeps_enabled() {
    let content = "[Desktop Entry]\nName=A\nExec=a\nHidden=false\n";
    assert!(parse(content, "/tmp/a.desktop", USER_DIR).unwrap().enabled);
}

#[test]
fn hidden_wins_over_later_enabled_true() {
    let content =
        "[Desktop Entry]\nName=A\nExec=a\nHidden=true\nX-GNOME-Autostart-enabled=true\n";
    assert!(!parse(content, "/tmp/a.desktop", USER_DIR).unwrap().enabled);
}

#[test]
fn hidden_wins_over_earlier_enabled_true() {
    let content =
        "[Desktop Entry]\nName=A\nExec=a\nX-GNOME-Autostart-enabled=true\nHidden=true\n";
    assert!(!parse(content, "/tmp/a.desktop", USER_DIR).unwrap().enabled);
}

#[test]
fn user_path_detected_by_prefix() {
    let content = "[Desktop Entry]\nName=A\nExec=a\n";
    let e = parse(
        content,
        "/home/user/.config/autostart/a.desktop",
        USER_DIR,
    )
    .unwrap();
    assert!(e.is_user_entry);
}

#[test]
fn substring_elsewhere_is_not_user_path() {
    let content = "[Desktop Entry]\nName=A\nExec=a\n";
    let e = parse(
        content,
        "/srv/home/user/.config/autostart/a.desktop",
        USER_DIR,
    )
    .unwrap();
    assert!(!e.is_user_entry);
}

#[test]
fn error_messages_match() {
    assert_eq!(RepoError::MissingName.message(), "Missing Name field");
    assert_eq!(RepoError::MissingExec.message(), "Missing Exec field");
    assert_eq!(RepoError::InvalidPath.message(), "Invalid file name");
}
