use chuhshell::niri::{apply_event, focused_window_id, reply_succeeded, EventParts, KeyboardLayouts, Workspace};

fn layouts(current_idx: usize) -> KeyboardLayouts {
    KeyboardLayouts {
        names: vec!["English (US)".to_owned(), "Russian".to_owned()],
        current_idx,
    }
}

#[test]
fn event_updates_keyboard_layout_immediately() {
    let mut workspaces = Vec::new();
    let mut current = layouts(0);
    let event = EventParts {
        workspaces: None,
        layouts: Some(layouts(1)),
        switched: None,
    };

    assert!(apply_event(event, &mut workspaces, &mut current));
    assert_eq!(current.current_idx, 1);
}

#[test]
fn layout_switch_event_updates_current_index() {
    let mut workspaces = Vec::new();
    let mut current = layouts(0);
    let event = EventParts {
        workspaces: None,
        layouts: None,
        switched: Some(1),
    };

    assert!(apply_event(event, &mut workspaces, &mut current));
    assert_eq!(current.current_idx, 1);
}

#[test]
fn event_updates_workspaces() {
    let mut workspaces = Vec::new();
    let mut current = KeyboardLayouts::default();
    let event = EventParts {
        workspaces: Some(vec![Workspace {
            idx: 2,
            name: None,
            is_urgent: false,
            is_active: true,
            is_focused: true,
            active_window_id: Some(42),
        }]),
        layouts: None,
        switched: None,
    };

    assert!(apply_event(event, &mut workspaces, &mut current));
    assert_eq!(workspaces.len(), 1);
    assert_eq!(workspaces[0].active_window_id, Some(42));
}

#[test]
fn irrelevant_event_reports_no_change() {
    let mut workspaces = Vec::new();
    let mut current = KeyboardLayouts::default();
    let event = EventParts {
        workspaces: None,
        layouts: None,
        switched: None,
    };

    assert!(!apply_event(event, &mut workspaces, &mut current));
}

#[test]
fn focused_window_comes_from_the_focused_workspace() {
    let workspace = |idx: i64, focused: bool, window: Option<u64>| Workspace {
        idx,
        name: None,
        is_urgent: false,
        is_active: true,
        is_focused: focused,
        active_window_id: window,
    };
    assert_eq!(
        focused_window_id(&vec![workspace(1, false, Some(7)), workspace(2, true, Some(9))]),
        Some(9)
    );
    assert_eq!(focused_window_id(&vec![workspace(1, false, Some(7))]), None);
    assert_eq!(focused_window_id(&vec![workspace(1, true, None)]), None);
}

#[test]
fn response_ignores_error_reply() {
    assert!(!reply_succeeded(r#"{"Err":"unknown request"}"#));
    assert!(!reply_succeeded(""));
}

#[test]
fn reply_with_ok_member_succeeds() {
    let raw =
        r#"{"Ok":{"KeyboardLayouts":{"names":["English (US)","Russian"],"current_idx":1}}}"#;
    assert!(reply_succeeded(raw));
    assert!(reply_succeeded(r#"{"Ok":"Handled"}"#));
    assert!(!reply_succeeded(r#"["Ok"]"#));
    assert!(!reply_succeeded("not json"));
}
