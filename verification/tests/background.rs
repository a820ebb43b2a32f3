use chuhshell::background::{
    background_button_label, classify, command_name, has_ancestor, launched_desktop_id, matches_window, parse_stat,
    remember_windows, targets_still_current, AppIdentity, ProcessIdentity, ProcessInfo, WindowProcess,
};

fn app(id: &str) -> AppIdentity {
    AppIdentity {
        id: id.to_owned(),
        name: "Example".to_owned(),
        icon: String::new(),
        startup_wm_class: String::new(),
        terminal: false,
        command_path: Some("/usr/bin/sleep".to_owned()),
    }
}

fn process(pid: u32, parent: u32) -> ProcessInfo {
    ProcessInfo {
        identity: ProcessIdentity {
            pid,
            start_time: 10,
        },
        parent,
        executable: "/usr/bin/sleep".to_owned(),
        desktop_id: None,
        flatpak_id: None,
    }
}

#[test]
fn ambiguous_executable_is_not_assigned_to_an_app() {
    let processes = vec![process(10, 1)];
    assert!(classify(
        &vec![app("one.desktop"), app("two.desktop")],
        &Vec::new(),
        &processes,
        &Vec::new()
    )
    .is_empty());
}

#[test]
fn background_targets_only_roots_and_excludes_open_apps() {
    let processes = vec![process(10, 1), process(11, 10)];
    let apps = vec![app("one.desktop")];
    let result = classify(&apps, &Vec::new(), &processes, &Vec::new());
    assert_eq!(result.len(), 1);
    assert_eq!(result[0].targets.len(), 1);
    assert_eq!(result[0].targets[0].pid, 10);
    let windows = vec![WindowProcess {
        pid: Some(11),
        app_id: None,
    }];
    assert!(classify(&apps, &windows, &processes, &Vec::new()).is_empty());
}

#[test]
fn flatpak_helpers_are_grouped_under_the_sandbox_root() {
    let mut first = process(10, 1);
    first.flatpak_id = Some("org.example.App".into());
    let mut helper = process(11, 10);
    helper.flatpak_id = first.flatpak_id.clone();
    helper.executable = "/app/helper".to_owned();
    let processes = vec![first, helper];
    let result = classify(
        &vec![app("org.example.App.desktop")],
        &Vec::new(),
        &processes,
        &Vec::new(),
    );
    assert_eq!(result[0].targets.len(), 1);
    assert_eq!(result[0].targets[0].pid, 10);
}

#[test]
fn interpreter_commands_are_not_application_identity() {
    // The command lines as the shell-style argument parser splits them.
    for command in [
        vec!["python3", "app.py"],
        vec!["env", "A=B", "node", "app.js"],
        vec!["electron", "app"],
        vec!["bash", "-c", "foo"],
    ] {
        let args: Vec<String> = command.iter().map(|a| a.to_string()).collect();
        assert!(command_name(&args).is_none());
    }
}

#[test]
fn ancestry_handles_cycles_and_siblings() {
    let make = |pid, parent| ProcessInfo {
        identity: ProcessIdentity { pid, start_time: 1 },
        parent,
        executable: String::new(),
        desktop_id: None,
        flatpak_id: None,
    };
    let processes = vec![make(1, 1), make(2, 1), make(3, 1)];
    assert!(has_ancestor(2, 1, &processes));
    assert!(!has_ancestor(2, 3, &processes));
}

#[test]
fn command_name_skips_env_assignments_and_options() {
    let args = |list: &[&str]| list.iter().map(|a| a.to_string()).collect::<Vec<String>>();
    assert_eq!(command_name(&args(&["/usr/bin/env", "-i", "A=B", "/opt/app/bin/app", "--x"])), Some(3));
    assert_eq!(command_name(&args(&["/usr/bin/firefox", "%u"])), Some(0));
    assert_eq!(command_name(&args(&["/usr/bin/env", "A=B"])), None);
    assert_eq!(command_name(&args(&["/usr/bin/env", "A=B", "/usr/bin/node", "x"])), None);
    assert_eq!(command_name(&args(&[])), None);
}

#[test]
fn stat_lines_give_parent_and_start_time() {
    let stat = "1234 (my (odd) app) S 77 1234 1234 0 -1 4194560 100 0 0 0 5 3 0 0 20 0 1 0 98765 0 0";
    assert_eq!(parse_stat(stat), Some((77, 98765)));
    let zombie = "99 (x) Z 1 99 99 0 -1 0 0 0 0 0 0 0 0 0 20 0 1 0 5 0 0";
    assert_eq!(parse_stat(zombie), None);
    assert_eq!(parse_stat("12 (short) S 1 2 3"), None);
    assert_eq!(parse_stat("no closing paren"), None);
}

#[test]
fn windows_match_by_desktop_id_or_window_class() {
    let mut a = app("org.gnome.Nautilus.desktop");
    let window = |id: &str| WindowProcess {
        pid: None,
        app_id: Some(id.to_owned()),
    };
    assert!(matches_window(&a, &window("ORG.GNOME.NAUTILUS")));
    assert!(!matches_window(&a, &window("nautilus")));
    a.startup_wm_class = "Nautilus".to_owned();
    assert!(matches_window(&a, &window("nautilus")));
    assert!(!matches_window(&a, &WindowProcess { pid: Some(1), app_id: None }));
}

#[test]
fn windows_of_an_app_keep_it_out_of_the_background() {
    let processes = vec![process(10, 1)];
    let mut apps = vec![app("one.desktop")];
    apps[0].startup_wm_class = "One".to_owned();
    let windows = vec![WindowProcess { pid: Some(500), app_id: Some("one".to_owned()) }];
    assert!(classify(&apps, &windows, &processes, &Vec::new()).is_empty());
    let known = vec![(ProcessIdentity { pid: 10, start_time: 10 }, "one.desktop".to_owned())];
    let mut unpathed = apps.clone();
    unpathed[0].command_path = None;
    let result = classify(&unpathed, &Vec::new(), &processes, &known);
    assert_eq!(result.len(), 1);
    assert_eq!(result[0].desktop_id, "one.desktop");
}

#[test]
fn launch_environment_names_the_desktop_file_of_its_own_process() {
    let environ = b"HOME=/home/me\0GIO_LAUNCHED_DESKTOP_FILE_PID=42\0GIO_LAUNCHED_DESKTOP_FILE=/usr/share/applications/org.example.App.desktop\0";
    assert_eq!(
        launched_desktop_id(environ, 42),
        Some("org.example.App.desktop".to_owned())
    );
    assert_eq!(launched_desktop_id(environ, 43), None);
    let inherited = b"GIO_LAUNCHED_DESKTOP_FILE=/usr/share/applications/a.desktop\0";
    assert_eq!(launched_desktop_id(inherited, 42), None);
    let not_a_number = b"GIO_LAUNCHED_DESKTOP_FILE_PID=x\0GIO_LAUNCHED_DESKTOP_FILE=/a.desktop\0";
    assert_eq!(launched_desktop_id(not_a_number, 42), None);
}

#[test]
fn windows_teach_which_app_a_process_belongs_to() {
    let processes = vec![process(10, 1), process(11, 1)];
    let apps = vec![app("one.desktop"), app("two.desktop")];
    let windows = vec![
        WindowProcess { pid: Some(10), app_id: Some("one".to_owned()) },
        WindowProcess { pid: Some(99), app_id: Some("two".to_owned()) },
        WindowProcess { pid: Some(11), app_id: Some("unknown".to_owned()) },
    ];
    let gone = ProcessIdentity { pid: 12, start_time: 10 };
    let reused = ProcessIdentity { pid: 11, start_time: 3 };
    let known = vec![(gone, "old.desktop".to_owned()), (reused, "two.desktop".to_owned())];
    let result = remember_windows(&known, &apps, &windows, &processes);
    assert_eq!(result, vec![(ProcessIdentity { pid: 10, start_time: 10 }, "one.desktop".to_owned())]);

    let kept = vec![(ProcessIdentity { pid: 11, start_time: 10 }, "two.desktop".to_owned())];
    let relearned = vec![WindowProcess { pid: Some(11), app_id: Some("one".to_owned()) }];
    let result = remember_windows(&kept, &apps, &relearned, &processes);
    assert_eq!(result, vec![(ProcessIdentity { pid: 11, start_time: 10 }, "one.desktop".to_owned())]);
}

#[test]
fn background_button_counts_the_apps() {
    assert_eq!(background_button_label(0), "󰀻");
    assert_eq!(background_button_label(3), "󰀻 3");
    assert_eq!(background_button_label(12), "󰀻 12");
}

#[test]
fn quitting_needs_every_target_still_current() {
    let a = ProcessIdentity { pid: 10, start_time: 5 };
    let b = ProcessIdentity { pid: 11, start_time: 5 };
    let restarted = ProcessIdentity { pid: 10, start_time: 9 };
    assert!(targets_still_current(&vec![a, b], &vec![b, a]));
    assert!(targets_still_current(&Vec::new(), &Vec::new()));
    assert!(!targets_still_current(&vec![a], &vec![restarted]));
    assert!(!targets_still_current(&vec![a, b], &vec![a]));
}
