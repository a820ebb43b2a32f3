use chuhshell::apps::{
    collect_entries, hidden_file_body, load_apps, parse_entry, parse_hidden, toggled_hidden,
    AppEntry, DesktopFields,
};

/// The keys that the Firefox desktop file of the catalog tests holds.
fn firefox_fields() -> DesktopFields {
    DesktopFields {
        kind: Some("Application".to_owned()),
        name: Some("Firefox".to_owned()),
        icon: Some("firefox".to_owned()),
        comment: Some("Browse the web".to_owned()),
        exec_line: Some("/usr/bin/firefox %u".to_owned()),
        hidden: false,
        no_display: false,
    }
}

fn fields(kind: Option<&str>, name: Option<&str>, hidden: bool, no_display: bool) -> DesktopFields {
    DesktopFields {
        kind: kind.map(str::to_owned),
        name: name.map(str::to_owned),
        icon: None,
        comment: None,
        exec_line: None,
        hidden,
        no_display,
    }
}

fn firefox_entry() -> AppEntry {
    AppEntry {
        id: "firefox.desktop".to_owned(),
        name: "Firefox".to_owned(),
        icon: "firefox".to_owned(),
        comment: "Browse the web".to_owned(),
        exec_line: "/usr/bin/firefox %u".to_owned(),
        hidden: false,
    }
}

#[test]
fn parses_application_entry() {
    let app = parse_entry("firefox.desktop", Some(&firefox_fields()), false).expect("valid entry");
    assert_eq!(app.name, "Firefox");
    assert_eq!(app.icon, "firefox");
    assert_eq!(app.exec_line, "/usr/bin/firefox %u");
    assert!(!app.hidden);
}

#[test]
fn rejects_non_application_and_hidden_entries() {
    let link = fields(Some("Link"), Some("Example"), false, false);
    assert!(parse_entry("example.desktop", Some(&link), false).is_none());

    let hidden = fields(Some("Application"), Some("Secret"), true, false);
    assert!(parse_entry("secret.desktop", Some(&hidden), false).is_none());

    let no_display = fields(Some("Application"), Some("Secret"), false, true);
    assert!(parse_entry("secret.desktop", Some(&no_display), false).is_none());
}

#[test]
fn falls_back_to_localized_name_and_default_id() {
    // The localized name is what the key file lookup returns for the locale.
    let localized = fields(Some("Application"), Some("Терминал"), false, false);
    let app = parse_entry("org.example.Terminal.desktop", Some(&localized), false).expect("entry");
    assert_eq!(app.name, "Терминал");

    let unnamed = fields(Some("Application"), None, false, false);
    let app = parse_entry("htop.desktop", Some(&unnamed), false).expect("entry");
    assert_eq!(app.name, "htop");
}

#[test]
fn entries_without_a_desktop_group_or_type_are_handled() {
    assert!(parse_entry("broken.desktop", None, false).is_none());
    let untyped = fields(None, Some("Tool"), false, false);
    assert!(parse_entry("tool.desktop", Some(&untyped), false).is_some());
    let doubled = fields(None, None, false, false);
    assert_eq!(
        parse_entry("a.desktop.desktop", Some(&doubled), false).expect("entry").name,
        "a"
    );
}

#[test]
fn higher_priority_entry_masks_lower_priority_duplicate() {
    let entries = vec![
        ("app.desktop".to_owned(), Some(firefox_fields())),
        (
            "app.desktop".to_owned(),
            Some(fields(Some("Application"), Some("Shadowed"), false, false)),
        ),
    ];
    let apps = collect_entries(&entries, &Vec::new());

    assert_eq!(apps.len(), 1);
    assert_eq!(apps[0].name, "Firefox");
}

#[test]
fn higher_priority_hidden_entry_masks_lower_priority_visible_one() {
    let entries = vec![
        (
            "app.desktop".to_owned(),
            Some(fields(Some("Application"), Some("Hidden One"), true, false)),
        ),
        ("app.desktop".to_owned(), Some(firefox_fields())),
    ];
    let apps = collect_entries(&entries, &Vec::new());

    assert!(apps.is_empty());
}

#[test]
fn non_application_entry_also_masks_lower_priority_duplicate() {
    let entries = vec![
        (
            "app.desktop".to_owned(),
            Some(fields(Some("Link"), Some("Link"), false, false)),
        ),
        ("app.desktop".to_owned(), Some(firefox_fields())),
    ];
    let apps = collect_entries(&entries, &Vec::new());

    assert!(apps.is_empty());
}

#[test]
fn hidden_list_marks_matching_entry() {
    let hidden = vec!["firefox.desktop".to_owned()];
    let apps = collect_entries(
        &vec![("firefox.desktop".to_owned(), Some(firefox_fields()))],
        &hidden,
    );

    assert_eq!(apps.len(), 1);
    assert!(apps[0].hidden);
}

#[test]
fn toggled_hidden_adds_and_removes_the_id() {
    let mut firefox = firefox_entry();
    let apps = vec![firefox.clone()];

    let hidden = toggled_hidden(&apps, "firefox.desktop", Vec::new()).expect("toggle");
    assert!(hidden.contains(&"firefox.desktop".to_owned()));

    firefox.hidden = true;
    let apps = vec![firefox];
    let hidden = toggled_hidden(
        &apps,
        "firefox.desktop",
        vec!["firefox.desktop".to_owned()],
    )
    .expect("toggle");
    assert!(!hidden.contains(&"firefox.desktop".to_owned()));
}

#[test]
fn toggled_hidden_preserves_unknown_persisted_ids() {
    let firefox = firefox_entry();
    let apps = vec![firefox];
    let persisted = vec!["removed-app.desktop".to_owned()];

    let hidden = toggled_hidden(&apps, "firefox.desktop", persisted).expect("toggle");

    assert!(hidden.contains(&"removed-app.desktop".to_owned()));
    assert!(hidden.contains(&"firefox.desktop".to_owned()));
}

#[test]
fn toggled_hidden_rejects_unknown_id() {
    let firefox = firefox_entry();
    let apps = vec![firefox];

    assert!(toggled_hidden(&apps, "missing.desktop", Vec::new()).is_none());
}

#[test]
fn catalog_is_sorted_by_lowercase_name() {
    let entries = vec![
        (
            "b.desktop".to_owned(),
            Some(fields(Some("Application"), Some("beta"), false, false)),
        ),
        (
            "a.desktop".to_owned(),
            Some(fields(Some("Application"), Some("Alpha"), false, false)),
        ),
        (
            "c.desktop".to_owned(),
            Some(fields(Some("Application"), Some("ALPHA"), false, false)),
        ),
    ];
    let apps = load_apps(&entries, &Vec::new());
    let ids: Vec<_> = apps.iter().map(|a| a.id.as_str()).collect();
    assert_eq!(ids, ["a.desktop", "c.desktop", "b.desktop"]);
}

#[test]
fn hidden_file_round_trips() {
    let parsed = parse_hidden("# hidden apps\n  b.desktop \n\na.desktop\nb.desktop\r\n");
    assert_eq!(parsed, ["b.desktop", "a.desktop"]);
    assert_eq!(hidden_file_body(&parsed), "a.desktop\nb.desktop\n");
    assert_eq!(hidden_file_body(&Vec::new()), "");
    assert_eq!(parse_hidden(&hidden_file_body(&parsed)), ["a.desktop", "b.desktop"]);
}
