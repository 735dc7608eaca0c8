use bootmate::merge::load_all;
use bootmate::merge::ScannedFile;

const USER_DIR: &str = "/home/user/.config/autostart";

fn user_file(name: &str, body: &str) -> ScannedFile {
    ScannedFile {
        path: format!("{}/{}", USER_DIR, name),
        content: body.to_string(),
    }
}

fn system_file(name: &str, body: &str) -> ScannedFile {
    ScannedFile {
        path: format!("/etc/xdg/autostart/{}", name),
        content: body.to_string(),
    }
}

fn block(name: &str, exec: &str) -> String {
    format!("[Desktop Entry]\nName={}\nExec={}\n", name, exec)
}

#[test]
fn user_entry_overrides_system_entry() {
    let user = vec![user_file("a.desktop", &block("Alpha", "alpha"))];
    let system = vec![system_file("a.desktop", &block("Alpha", "beta"))];
    let r = load_all(&user, &system, USER_DIR);
    assert_eq!(r.len(), 1);
    assert_eq!(r[0].name, "Alpha");
    assert_eq!(r[0].command, "alpha");
    assert!(r[0].is_user_entry);
}

#[test]
fn no_duplicate_names() {
    let user = vec![
        user_file("a.desktop", &block("A", "a1")),
        user_file("b.desktop", &block("A", "a2")),
    ];
    let system = vec![
        system_file("c.desktop", &block("A", "a3")),
        system_file("d.desktop", &block("B", "b1")),
        system_file("e.desktop", &block("B", "b2")),
    ];
    let r = load_all(&user, &system, USER_DIR);
    assert_eq!(r.len(), 2);
    for i in 0..r.len() {
        for j in 0..r.len() {
            if i != j {
                assert_ne!(r[i].name, r[j].name);
            }
        }
    }
    assert_eq!(r[0].command, "a1");
    assert_eq!(r[1].command, "b1");
}

#[test]
fn output_sorted_by_name() {
    let user = vec![
        user_file("z.desktop", &block("Zeta", "z")),
        user_file("m.desktop", &block("Mid", "m")),
    ];
    let system = vec![
        system_file("a.desktop", &block("Alpha", "a")),
        system_file("b.desktop", &block("Beta", "b")),
    ];
    let r = load_all(&user, &system, USER_DIR);
    assert_eq!(r.len(), 4);
    for w in r.windows(2) {
        assert!(w[0].name <= w[1].name);
    }
    assert_eq!(r[0].name, "Alpha");
    assert_eq!(r[3].name, "Zeta");
}

#[test]
fn malformed_file_skipped_silently() {
    let system = vec![
        system_file("a.desktop", &block("A", "a")),
        system_file("broken.desktop", "Name=NoSection\nExec=nope\n"),
        system_file("b.desktop", &block("B", "b")),
        system_file("c.desktop", &block("C", "c")),
    ];
    let r = load_all(&Vec::new(), &system, USER_DIR);
    assert_eq!(r.len(), 3);
    assert_eq!(r[0].name, "A");
    assert_eq!(r[1].name, "B");
    assert_eq!(r[2].name, "C");
}

#[test]
fn non_desktop_files_skipped() {
    let system = vec![
        system_file("a.desktop", &block("A", "a")),
        system_file("notes.txt", &block("B", "b")),
        system_file("README", &block("C", "c")),
        system_file(".desktop", &block("D", "d")),
    ];
    let r = load_all(&Vec::new(), &system, USER_DIR);
    assert_eq!(r.len(), 1);
    assert_eq!(r[0].name, "A");
}

#[test]
fn disabled_override_still_listed() {
    let hidden = "[Desktop Entry]\nName=Ghost\nExec=ghost\nHidden=true\n";
    let user = vec![user_file("g.desktop", hidden)];
    let system = vec![system_file("g.desktop", &block("Ghost", "ghost"))];
    let r = load_all(&user, &system, USER_DIR);
    assert_eq!(r.len(), 1);
    assert_eq!(r[0].name, "Ghost");
    assert!(!r[0].enabled);
    assert!(r[0].is_user_entry);
}

#[test]
fn empty_directories_give_empty_list() {
    let r = load_all(&Vec::new(), &Vec::new(), USER_DIR);
    assert!(r.is_empty());
}

#[test]
fn system_precedence_follows_order() {
    let etc = system_file("a.desktop", &block("A", "from-etc"));
    let gnome = ScannedFile {
        path: "/usr/share/gnome/autostart/a.desktop".to_string(),
        content: block("A", "from-gnome"),
    };
    let r = load_all(&Vec::new(), &vec![etc, gnome], USER_DIR);
    assert_eq!(r.len(), 1);
    assert_eq!(r[0].command, "from-etc");
}
