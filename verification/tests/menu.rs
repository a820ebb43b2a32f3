use chuhshell::launcher::LauncherMode;
use chuhshell::menu::{
    entry_status, list_height, navigation_offset, page_entries, page_title, parent_page, shows_hint,
    MenuAction, NavigationKey, Page,
};

#[test]
fn home_page_leads_to_the_launcher_and_bar_pages() {
    let entries = page_entries(Page::Home);
    let titles: Vec<&str> = entries.iter().map(|e| e.title).collect();
    assert_eq!(
        titles,
        ["App launcher", "Bar", "Settings", "Appearance", "Keybindings", "System"]
    );
    assert_eq!(entries[0].action, MenuAction::Page(Page::Launcher));
    assert_eq!(entries[2].action, MenuAction::Wip);
    assert_eq!(page_title(Page::Home), "chuh menu");
    assert_eq!(parent_page(Page::Home), None);
    assert_eq!(parent_page(Page::Modules), Some(Page::Bar));
    assert_eq!(parent_page(Page::Launcher), Some(Page::Home));
}

#[test]
fn launcher_page_opens_both_launcher_modes() {
    let entries = page_entries(Page::Launcher);
    assert_eq!(entries[0].action, MenuAction::Launch(LauncherMode::Normal));
    assert_eq!(entries[0].hint, "Mod+D");
    assert!(shows_hint(&entries[0]));
    assert_eq!(entries[1].action, MenuAction::Launch(LauncherMode::Manage));
    assert!(!shows_hint(&entries[1]));
    assert!(!shows_hint(&entries[2]));
}

#[test]
fn modules_page_toggles_each_panel_module() {
    let entries = page_entries(Page::Modules);
    assert_eq!(entries.len(), 10);
    assert_eq!(entries[6].title, "Keyboard layout");
    assert_eq!(entries[6].action, MenuAction::Toggle("language"));
    assert_eq!(entry_status(entries[6].action, true), "On");
    assert_eq!(entry_status(entries[6].action, false), "Off");
    assert_eq!(entry_status(MenuAction::Page(Page::Bar), false), "›");
    assert_eq!(entry_status(MenuAction::Wip, false), "WIP");
    assert_eq!(entry_status(MenuAction::Launch(LauncherMode::Normal), true), "");
}

#[test]
fn menu_list_height_follows_the_monitor() {
    assert_eq!(list_height(None), 420);
    assert_eq!(list_height(Some(1080)), 420);
    assert_eq!(list_height(Some(500)), 270);
    assert_eq!(list_height(Some(200)), 100);
    assert_eq!(navigation_offset(NavigationKey::PageUp), -5);
    assert_eq!(navigation_offset(NavigationKey::Down), 1);
}
