use bootmate::entry::AutostartEntry;
use bootmate::entry::RepoError;
use bootmate::mutate::DeleteAction;
use bootmate::parse::parse;
use bootmate::render::save_content;

const USER_DIR: &str = "/home/user/.config/autostart";

fn sample_entry() -> AutostartEntry {
    AutostartEntry {
        name: "Alpha".to_string(),
        command: "alpha --flag".to_string(),
        icon: Some("alpha-icon".to_string()),
        comment: Some("Starts Alpha".to_string()),
        enabled: true,
        file_path: "/etc/xdg/autostart/alpha.desktop".to_string(),
        is_user_entry: false,
    }
}

#[test]
fn save_content_has_expected_shape() {
    let e = sample_entry();
    let text = save_content(&e, "alpha --new");
    assert_eq!(
        text,
        "[Desktop Entry]\nType=Application\nName=Alpha\nExec=alpha --new\nTerminal=false\n\
         Icon=alpha-icon\nComment=Starts Alpha\nX-GNOME-Autostart-enabled=true\n"
    );
}

#[test]
fn save_content_disabled_flag() {
    let mut e = sample_entry();
    e.enabled = false;
    e.icon = None;
    e.comment = None;
    let text = save_content(&e, "alpha");
    assert_eq!(
        text,
        "[Desktop Entry]\nType=Application\nName=Alpha\nExec=alpha\nTerminal=false\n\
         X-GNOME-Autostart-enabled=false\n"
    );
}

#[test]
fn save_round_trips_through_parse() {
    let e = sample_entry();
    let text = save_content(&e, &e.command);
    let path = format!("{}/alpha.desktop", USER_DIR);
    let back = parse(&text, &path, USER_DIR).unwrap();
    assert_eq!(back.name, e.name);
    assert_eq!(back.command, e.command);
    assert_eq!(back.enabled, e.enabled);
    assert_eq!(back.icon, e.icon);
    assert_eq!(back.comment, e.comment);
    assert!(back.is_user_entry);
}

#[test]
fn save_plan_targets_user_directory() {
    let e = sample_entry();
    let plan = e.save_plan("alpha --new", USER_DIR).unwrap();
    assert_eq!(plan.path, format!("{}/alpha.desktop", USER_DIR));
    assert!(plan.content.contains("Exec=alpha --new\n"));
}

#[test]
fn save_plan_invalid_path_rejected() {
    let mut e = sample_entry();
    e.file_path = "/etc/xdg/autostart/..".to_string();
    assert_eq!(
        e.save_plan("alpha", USER_DIR).unwrap_err(),
        RepoError::InvalidPath
    );
}

#[test]
fn delete_user_entry_removes_its_file() {
    let mut e = sample_entry();
    e.file_path = format!("{}/alpha.desktop", USER_DIR);
    e.is_user_entry = true;
    match e.delete_plan(USER_DIR).unwrap() {
        DeleteAction::RemoveFile { path } => assert_eq!(path, e.file_path),
        DeleteAction::WriteOverride { .. } => panic!("expected a removal"),
    }
}

#[test]
fn delete_system_entry_writes_hidden_override() {
    let e = sample_entry();
    match e.delete_plan(USER_DIR).unwrap() {
        DeleteAction::WriteOverride { path, content } => {
            assert_eq!(path, format!("{}/alpha.desktop", USER_DIR));
            assert_eq!(
                content,
                "[Desktop Entry]\nType=Application\nName=Alpha\nExec=alpha --flag\nHidden=true\n"
            );
            let back = parse(&content, &path, USER_DIR).unwrap();
            assert_eq!(back.name, "Alpha");
            assert!(!back.enabled);
        }
        DeleteAction::RemoveFile { .. } => panic!("expected an override"),
    }
}

#[test]
fn delete_system_entry_twice_same_override() {
    let e = sample_entry();
    let first = e.delete_plan(USER_DIR).unwrap();
    let second = e.delete_plan(USER_DIR).unwrap();
    match (first, second) {
        (
            DeleteAction::WriteOverride {
                path: p1,
                content: c1,
            },
            DeleteAction::WriteOverride {
                path: p2,
                content: c2,
            },
        ) => {
            assert_eq!(p1, p2);
            assert_eq!(c1, c2);
            assert!(c1.contains("Hidden=true\n"));
        }
        _ => panic!("expected overrides both times"),
    }
}

#[test]
fn delete_system_entry_invalid_path_rejected() {
    let mut e = sample_entry();
    e.file_path = "/".to_string();
    assert_eq!(
        e.delete_plan(USER_DIR).unwrap_err(),
        RepoError::InvalidPath
    );
}
