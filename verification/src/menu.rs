//! The shell menu: its pages, their entries, and how a page is shown and
//! left.

use vstd::prelude::*;
use vstd::string::*;
use crate::launcher::LauncherMode;

verus! {

/// A page of the menu.
#[derive(Clone, Copy, Debug, PartialEq, Eq, Structural)]
pub enum Page {
    Home,
    Launcher,
    Bar,
    Modules,
}

/// What choosing a menu entry does.
#[derive(Clone, Copy, Debug, PartialEq, Eq)]
pub enum MenuAction {
    /// Show another page.
    Page(Page),
    /// Open the launcher in a mode.
    Launch(LauncherMode),
    /// Switch a panel module on or off, by id.
    Toggle(&'static str),
    /// Not available yet.
    Wip,
}

/// A [`MenuAction`] with its module id as text.
pub enum ActionModel {
    Page(Page),
    Launch(LauncherMode),
    Toggle(Seq<char>),
    Wip,
}

/// The model of an action.
pub open spec fn action_model(a: MenuAction) -> ActionModel {
    match a {
        MenuAction::Page(p) => ActionModel::Page(p),
        MenuAction::Launch(m) => ActionModel::Launch(m),
        MenuAction::Toggle(id) => ActionModel::Toggle(id@),
        MenuAction::Wip => ActionModel::Wip,
    }
}

/// An entry of a menu page: a title, a hint and an action.
#[derive(Clone, Copy, Debug)]
pub struct MenuEntry {
    pub title: &'static str,
    pub hint: &'static str,
    pub action: MenuAction,
}

/// The parts of an entry.
pub open spec fn entry_model(e: MenuEntry) -> (Seq<char>, Seq<char>, ActionModel) {
    (e.title@, e.hint@, action_model(e.action))
}

/// The entries of the modules page: each panel module by title, toggling
/// it.
pub open spec fn module_entries() -> Seq<(Seq<char>, Seq<char>, ActionModel)> {
    crate::config::module_table().map_values(
        |m: (Seq<char>, Seq<char>)| (m.1, ""@, ActionModel::Toggle(m.0)),
    )
}

/// The entries of a page, in order.
pub open spec fn page_entries_spec(page: Page) -> Seq<(Seq<char>, Seq<char>, ActionModel)> {
    match page {
        Page::Home => seq![
            ("App launcher"@, ""@, ActionModel::Page(Page::Launcher)),
            ("Bar"@, ""@, ActionModel::Page(Page::Bar)),
            ("Settings"@, "WIP"@, ActionModel::Wip),
            ("Appearance"@, "WIP"@, ActionModel::Wip),
            ("Keybindings"@, "WIP"@, ActionModel::Wip),
            ("System"@, "WIP"@, ActionModel::Wip),
        ],
        Page::Launcher => seq![
            ("Open app launcher"@, "Mod+D"@, ActionModel::Launch(LauncherMode::Normal)),
            ("Hide/show apps"@, ""@, ActionModel::Launch(LauncherMode::Manage)),
            ("Configure"@, "WIP"@, ActionModel::Wip),
        ],
        Page::Bar => seq![
            ("Modules"@, ""@, ActionModel::Page(Page::Modules)),
            ("Order"@, "WIP"@, ActionModel::Wip),
            ("Configure"@, "WIP"@, ActionModel::Wip),
        ],
        Page::Modules => module_entries(),
    }
}

fn entry(title: &'static str, hint: &'static str, action: MenuAction) -> (r: MenuEntry)
    ensures
        r == (MenuEntry { title, hint, action }),
{
    MenuEntry { title, hint, action }
}

/// The entries of a page (see [`page_entries_spec`]).
pub fn page_entries(page: Page) -> (r: Vec<MenuEntry>)
    ensures
        r@.map_values(|e: MenuEntry| entry_model(e)) == page_entries_spec(page),
{
    let r = match page {
        Page::Home => vec![
            entry("App launcher", "", MenuAction::Page(Page::Launcher)),
            entry("Bar", "", MenuAction::Page(Page::Bar)),
            entry("Settings", "WIP", MenuAction::Wip),
            entry("Appearance", "WIP", MenuAction::Wip),
            entry("Keybindings", "WIP", MenuAction::Wip),
            entry("System", "WIP", MenuAction::Wip),
        ],
        Page::Launcher => vec![
            entry("Open app launcher", "Mod+D", MenuAction::Launch(LauncherMode::Normal)),
            entry("Hide/show apps", "", MenuAction::Launch(LauncherMode::Manage)),
            entry("Configure", "WIP", MenuAction::Wip),
        ],
        Page::Bar => vec![
            entry("Modules", "", MenuAction::Page(Page::Modules)),
            entry("Order", "WIP", MenuAction::Wip),
            entry("Configure", "WIP", MenuAction::Wip),
        ],
        Page::Modules => {
            let table = crate::config::modules();
            let mut out: Vec<MenuEntry> = Vec::new();
            let mut i: usize = 0;
            while i < table.len()
                invariant
                    table@.map_values(|m: (&str, &str)| (m.0@, m.1@)) == crate::config::module_table(),
                    i <= table@.len(),
                    out@.map_values(|e: MenuEntry| entry_model(e)) == module_entries().take(i as int),
                decreases table@.len() - i,
            {
                let ghost before = out@;
                let (id, title) = table[i];
                assert((id@, title@) == crate::config::module_table()[i as int]);
                assert(module_entries()[i as int] == (title@, ""@, ActionModel::Toggle(id@)));
                let e = entry(title, "", MenuAction::Toggle(id));
                out.push(e);
                assert(module_entries().take(i + 1) =~= module_entries().take(i as int).push(
                    module_entries()[i as int],
                ));
                assert(out@.map_values(|e: MenuEntry| entry_model(e)) =~= before.map_values(
                    |e: MenuEntry| entry_model(e),
                ).push(entry_model(e)));
                i += 1;
            }
            assert(module_entries().take(table@.len() as int) =~= module_entries());
            out
        },
    };
    proof {
        if page != Page::Modules {
            assert(r@.map_values(|e: MenuEntry| entry_model(e)) =~= page_entries_spec(page));
        }
    }
    r
}

/// The page a page goes back to: none from the home page.
pub open spec fn parent_spec(page: Page) -> Option<Page> {
    match page {
        Page::Home => None,
        Page::Launcher | Page::Bar => Some(Page::Home),
        Page::Modules => Some(Page::Bar),
    }
}

/// The page a page goes back to (see [`parent_spec`]).
pub fn parent_page(page: Page) -> (r: Option<Page>)
    ensures
        r == parent_spec(page),
{
    match page {
        Page::Home => None,
        Page::Launcher | Page::Bar => Some(Page::Home),
        Page::Modules => Some(Page::Bar),
    }
}

/// The heading of a page.
pub open spec fn page_title_spec(page: Page) -> Seq<char> {
    match page {
        Page::Home => "chuh menu"@,
        Page::Launcher => "App launcher"@,
        Page::Bar => "Bar"@,
        Page::Modules => "Modules"@,
    }
}

/// The heading of a page (see [`page_title_spec`]).
pub fn page_title(page: Page) -> (r: &'static str)
    ensures
        r@ == page_title_spec(page),
{
    match page {
        Page::Home => "chuh menu",
        Page::Launcher => "App launcher",
        Page::Bar => "Bar",
        Page::Modules => "Modules",
    }
}

/// The state shown at the end of an entry's row: "On" or "Off" for a
/// module (by whether it is shown), an arrow for a page, "WIP" for an
/// entry not available yet, nothing for the launcher entries.
pub open spec fn entry_status_spec(action: MenuAction, enabled: bool) -> Seq<char> {
    match action {
        MenuAction::Toggle(_) => if enabled {
            "On"@
        } else {
            "Off"@
        },
        MenuAction::Page(_) => "›"@,
        MenuAction::Wip => "WIP"@,
        MenuAction::Launch(_) => ""@,
    }
}

/// The state shown at the end of an entry's row (see
/// [`entry_status_spec`]); `enabled` tells whether a toggled module is
/// shown.
pub fn entry_status(action: MenuAction, enabled: bool) -> (r: &'static str)
    ensures
        r@ == entry_status_spec(action, enabled),
{
    match action {
        MenuAction::Toggle(_) => if enabled {
            "On"
        } else {
            "Off"
        },
        MenuAction::Page(_) => "›",
        MenuAction::Wip => "WIP",
        MenuAction::Launch(_) => "",
    }
}

/// Whether an entry's hint is shown under its title: when it has one and
/// the entry is available.
pub fn shows_hint(entry: &MenuEntry) -> (r: bool)
    ensures
        r == (entry.hint@.len() > 0 && !(entry.action is Wip)),
{
    crate::text::chars_of(entry.hint).len() > 0 && !matches!(entry.action, MenuAction::Wip)
}

/// The tallest the menu's list may be on a monitor `monitor_height`
/// pixels high (420 when the monitor is unknown): the monitor's height
/// less 230, held between 100 and 420.
pub fn list_height(monitor_height: Option<i32>) -> (r: i32)
    requires
        match monitor_height {
            Some(h) => h >= i32::MIN + 230,
            None => true,
        },
    ensures
        r == match monitor_height {
            None => 420,
            Some(h) => if h - 230 < 100 {
                100
            } else if h - 230 > 420 {
                420
            } else {
                h - 230
            },
        },
{
    match monitor_height {
        None => 420,
        Some(h) => {
            let v = h - 230;
            if v < 100 {
                100
            } else if v > 420 {
                420
            } else {
                v
            }
        },
    }
}

/// The keys that move the selection in a list.
#[derive(Clone, Copy, Debug, PartialEq, Eq, Structural)]
pub enum NavigationKey {
    Up,
    Down,
    PageUp,
    PageDown,
}

/// How far a navigation key moves the selection: one row, or five for
/// the page keys.
pub fn navigation_offset(key: NavigationKey) -> (r: i32)
    ensures
        r == match key {
            NavigationKey::Up => -1i32,
            NavigationKey::Down => 1i32,
            NavigationKey::PageUp => -5i32,
            NavigationKey::PageDown => 5i32,
        },
{
    match key {
        NavigationKey::Up => -1,
        NavigationKey::Down => 1,
        NavigationKey::PageUp => -5,
        NavigationKey::PageDown => 5,
    }
}

/// Going back from any page reaches the home page, which has no page to
/// go back to, and every page entry leads to a page whose way back
/// returns to the page it was chosen on.
pub proof fn law_pages_lead_back(page: Page)
    ensures
        parent_spec(Page::Home) is None,
        parent_spec(page) is Some ==> parent_spec(page)->0 != page,
        match parent_spec(page) {
            Some(p) => match parent_spec(p) {
                Some(q) => parent_spec(q) is None,
                None => p == Page::Home,
            },
            None => page == Page::Home,
        },
        forall|i: int|
            0 <= i < page_entries_spec(page).len() ==> match (#[trigger] page_entries_spec(
                page,
            )[i]).2 {
                ActionModel::Page(next) => parent_spec(next) == Some(page),
                _ => true,
            },
{
}

} // verus!
