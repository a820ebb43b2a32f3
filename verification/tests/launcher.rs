use chuhshell::apps::AppEntry;
use chuhshell::launcher::{
    compare_apps, launcher_size, search_rows, search_scores, selection_index, LauncherMode,
};
use std::cmp::Ordering;

#[test]
fn navigation_stays_inside_filtered_results() {
    assert_eq!(selection_index(0, None, 1), None);
    assert_eq!(selection_index(1, Some(0), 5), Some(0));
    assert_eq!(selection_index(3, Some(0), -1), Some(0));
    assert_eq!(selection_index(10, Some(2), 5), Some(7));
}

#[test]
fn launch_frequency_orders_normal_mode_and_search_scores_stay_primary() {
    let names = vec![
        (
            "alpha.desktop".to_owned(),
            ("alpha".to_owned(), String::new()),
        ),
        (
            "beta.desktop".to_owned(),
            ("beta".to_owned(), String::new()),
        ),
    ];
    let counts = vec![("beta.desktop".to_owned(), 9)];
    let scores = vec![
        ("alpha.desktop".to_owned(), 20),
        ("beta.desktop".to_owned(), 10),
    ];
    assert_eq!(
        compare_apps(
            "beta.desktop",
            "alpha.desktop",
            &scores,
            &names,
            &counts,
            LauncherMode::Normal,
            false
        ),
        Ordering::Less
    );
    assert_eq!(
        compare_apps(
            "alpha.desktop",
            "beta.desktop",
            &scores,
            &names,
            &counts,
            LauncherMode::Normal,
            true
        ),
        Ordering::Less
    );
    assert_eq!(
        compare_apps(
            "alpha.desktop",
            "beta.desktop",
            &scores,
            &names,
            &counts,
            LauncherMode::Manage,
            false
        ),
        Ordering::Less
    );
}

#[test]
fn selection_without_previous_row_starts_at_the_top() {
    assert_eq!(selection_index(4, None, -3), Some(0));
    assert_eq!(selection_index(4, Some(3), 1), Some(3));
    assert_eq!(selection_index(4, Some(1), -1), Some(0));
}

#[test]
fn ties_fall_back_to_name_then_id() {
    let names = vec![("x.desktop".to_owned(), ("Same".to_owned(), String::new()))];
    let none: Vec<(String, i64)> = Vec::new();
    let counts: Vec<(String, u64)> = Vec::new();
    // A missing name sorts first.
    assert_eq!(
        compare_apps("y.desktop", "x.desktop", &none, &names, &counts, LauncherMode::Normal, true),
        Ordering::Less
    );
    assert_eq!(
        compare_apps("a", "b", &none, &Vec::new(), &counts, LauncherMode::Normal, false),
        Ordering::Less
    );
    assert_eq!(
        compare_apps("a", "a", &none, &names, &counts, LauncherMode::Manage, true),
        Ordering::Equal
    );
}

#[test]
fn launcher_size_is_held_inside_the_monitor() {
    assert_eq!(launcher_size(500, 1920, 1080), (500, 520));
    assert_eq!(launcher_size(100, 1920, 1080), (180, 520));
    assert_eq!(launcher_size(5000, 1920, 1080), (1080, 520));
    assert_eq!(launcher_size(500, 400, 150), (150, 400));
    assert_eq!(launcher_size(500, 400, 0), (1, 400));
}

fn entry(id: &str, name: &str, hidden: bool) -> AppEntry {
    AppEntry {
        id: id.to_owned(),
        name: name.to_owned(),
        icon: String::new(),
        comment: String::new(),
        exec_line: String::new(),
        hidden,
    }
}

#[test]
fn search_scores_names_then_ids_and_filters_the_rest() {
    let apps = vec![
        entry("org.mozilla.Firefox.desktop", "Firefox", false),
        entry("secret.desktop", "Secret", true),
        entry("gimp.desktop", "GNU Image Manipulation Program", false),
    ];
    let rows = search_rows(&apps, LauncherMode::Normal);
    assert_eq!(rows.len(), 2);
    assert_eq!(rows[0].1, ("firefox".to_owned(), "org.mozilla.firefox.desktop".to_owned()));
    assert_eq!(search_rows(&apps, LauncherMode::Manage).len(), 3);

    let found = search_scores(&rows, "  FIRE ");
    assert_eq!(found.len(), 1);
    assert_eq!(found[0].0, "org.mozilla.Firefox.desktop");
    assert_eq!(found[0].1, 10 + 7 + 3 * (10 + 9));

    let by_id = search_scores(&rows, "gimp");
    assert_eq!(by_id.len(), 1);
    assert_eq!(by_id[0].0, "gimp.desktop");

    assert!(search_scores(&rows, "zzz").is_empty());
    let everything = search_scores(&rows, "   ");
    assert_eq!(everything, vec![
        ("org.mozilla.Firefox.desktop".to_owned(), 0),
        ("gimp.desktop".to_owned(), 0),
    ]);
}
