//! The optional settings file: device overrides, monitors and the size of
//! the notification history. The file is read and decoded by the caller;
//! this module supplies the defaults and checks what was decoded.

use vstd::prelude::*;
use vstd::string::*;

verus! {

/// The shell's settings.
#[derive(Clone, Debug)]
pub struct Config {
    pub monitors: Vec<String>,
    pub disabled_modules: Vec<String>,
    pub battery: Option<String>,
    pub backlight: Option<String>,
    pub wifi: Option<String>,
    /// The path of a temperature input file.
    pub temperature_sensor: Option<String>,
    pub notification_history_limit: usize,
}

impl Default for Config {
    /// Automatic device selection, all monitors and a 200-entry history.
    fn default() -> (r: Config)
        ensures
            r.monitors@.len() == 0,
            r.disabled_modules@.len() == 0,
            r.battery is None,
            r.backlight is None,
            r.wifi is None,
            r.temperature_sensor is None,
            r.notification_history_limit == 200,
    {
        Config {
            monitors: Vec::new(),
            disabled_modules: Vec::new(),
            battery: None,
            backlight: None,
            wifi: None,
            temperature_sensor: None,
            notification_history_limit: 200,
        }
    }
}

/// Whether a device name is a plain directory name: not empty, without
/// `/`, and neither `.` nor `..`.
pub open spec fn simple_name(name: Seq<char>) -> bool {
    name.len() > 0 && !name.contains('/') && name != "."@ && name != ".."@
}

/// Whether an optional device name is absent or a plain directory name.
pub open spec fn acceptable(name: Option<String>) -> bool {
    match name {
        Some(n) => simple_name(n@),
        None => true,
    }
}

fn acceptable_name(name: &Option<String>) -> (r: bool)
    ensures
        r == acceptable(*name),
{
    match name {
        Some(n) => {
            proof {
                reveal_strlit(".");
                reveal_strlit("..");
            }
            n.unicode_len() > 0 && !crate::text::contains_char(n.as_str(), '/')
                && !crate::text::text_eq(n.as_str(), ".") && !crate::text::text_eq(n.as_str(), "..")
        },
        None => true,
    }
}

/// The history limit held to 10..=1000.
pub open spec fn clamped_limit(limit: usize) -> usize {
    if limit < 10 {
        10
    } else if limit > 1000 {
        1000
    } else {
        limit
    }
}

/// Checks decoded settings: the battery, backlight and Wi-Fi overrides
/// must be plain directory names; the history limit is held to 10..=1000.
pub fn validate(config: Config) -> (r: Result<Config, String>)
    ensures
        match r {
            Ok(c) => {
                &&& acceptable(config.battery) && acceptable(config.backlight) && acceptable(
                    config.wifi,
                )
                &&& c.monitors == config.monitors
                &&& c.disabled_modules == config.disabled_modules
                &&& c.battery == config.battery
                &&& c.backlight == config.backlight
                &&& c.wifi == config.wifi
                &&& c.temperature_sensor == config.temperature_sensor
                &&& c.notification_history_limit == clamped_limit(
                    config.notification_history_limit,
                )
            },
            Err(e) => !(acceptable(config.battery) && acceptable(config.backlight) && acceptable(
                config.wifi,
            )) && e@ == "Device names must be simple directory names"@,
        },
{
    if !acceptable_name(&config.battery) || !acceptable_name(&config.backlight)
        || !acceptable_name(&config.wifi) {
        return Err(crate::text::owned("Device names must be simple directory names"));
    }
    let mut config = config;
    let limit = config.notification_history_limit;
    config.notification_history_limit = if limit < 10 {
        10
    } else if limit > 1000 {
        1000
    } else {
        limit
    };
    Ok(config)
}

/// The panel modules in panel order: id and title.
pub open spec fn module_table() -> Seq<(Seq<char>, Seq<char>)> {
    seq![
        ("workspaces"@, "Workspaces"@),
        ("background-apps"@, "Background apps"@),
        ("clock"@, "Clock"@),
        ("notifications"@, "Notifications"@),
        ("audio"@, "Audio"@),
        ("brightness"@, "Brightness"@),
        ("language"@, "Keyboard layout"@),
        ("temperature"@, "CPU temperature"@),
        ("wifi"@, "Wi-Fi"@),
        ("battery"@, "Battery"@),
    ]
}

/// The panel modules in panel order (see [`module_table`]).
pub fn modules() -> (r: Vec<(&'static str, &'static str)>)
    ensures
        r@.map_values(|m: (&str, &str)| (m.0@, m.1@)) == module_table(),
{
    let r = vec![
        ("workspaces", "Workspaces"),
        ("background-apps", "Background apps"),
        ("clock", "Clock"),
        ("notifications", "Notifications"),
        ("audio", "Audio"),
        ("brightness", "Brightness"),
        ("language", "Keyboard layout"),
        ("temperature", "CPU temperature"),
        ("wifi", "Wi-Fi"),
        ("battery", "Battery"),
    ];
    assert(r@.map_values(|m: (&str, &str)| (m.0@, m.1@)) =~= module_table());
    r
}

/// The test for the module with an id.
pub open spec fn module_with_id(id: Seq<char>) -> spec_fn((Seq<char>, Seq<char>)) -> bool {
    |m: (Seq<char>, Seq<char>)| m.0 == id
}

/// The title of the module with an id; none for an id that names no
/// module.
pub open spec fn module_title_spec(id: Seq<char>) -> Option<Seq<char>> {
    match crate::text::first_where(module_table(), module_with_id(id)) {
        Some(i) => Some(module_table()[i].1),
        None => None,
    }
}

/// The title of a panel module (see [`module_title_spec`]).
pub fn module_title(id: &str) -> (r: Option<&'static str>)
    ensures
        crate::text::opt_str(r) == module_title_spec(id@),
{
    let table = modules();
    let ghost view = table@.map_values(|m: (&str, &str)| (m.0@, m.1@));
    let ghost p = module_with_id(id@);
    let mut i: usize = 0;
    while i < table.len()
        invariant
            view == table@.map_values(|m: (&str, &str)| (m.0@, m.1@)),
            view == module_table(),
            p == module_with_id(id@),
            i <= table@.len(),
            forall|k: int| 0 <= k < i ==> !p(#[trigger] view[k]),
        decreases table@.len() - i,
    {
        assert(view[i as int] == (table@[i as int].0@, table@[i as int].1@));
        if crate::text::text_eq(table[i].0, id) {
            proof {
                crate::text::lemma_first_where(view, p, i as int);
            }
            return Some(table[i].1);
        }
        i += 1;
    }
    proof {
        crate::text::lemma_first_where(view, p, i as int);
    }
    None
}

/// Whether a monitor gets a panel: every monitor when none is configured,
/// else those whose connector name is listed.
pub open spec fn panel_shown(monitors: Seq<Seq<char>>, connector: Option<Seq<char>>) -> bool {
    monitors.len() == 0 || match connector {
        Some(name) => monitors.contains(name),
        None => false,
    }
}

/// Whether a monitor with this connector gets a panel (see
/// [`panel_shown`]).
pub fn shows_panel(monitors: &Vec<String>, connector: Option<&str>) -> (r: bool)
    ensures
        r == panel_shown(crate::apps::texts(monitors@), crate::text::opt_str(connector)),
{
    if monitors.len() == 0 {
        return true;
    }
    match connector {
        Some(name) => crate::apps::holds_text(monitors, name),
        None => false,
    }
}

/// The switched-off modules after a toggle of `id`: switched on when it
/// was off, else switched off.
pub open spec fn toggled_set(disabled: Set<Seq<char>>, id: Seq<char>) -> Set<Seq<char>> {
    if disabled.contains(id) {
        disabled.remove(id)
    } else {
        disabled.insert(id)
    }
}

/// Which panel modules are switched off, by id.
#[derive(Clone, Debug)]
pub struct BarModules {
    disabled: Vec<String>,
}

impl BarModules {
    /// The ids of the modules switched off.
    pub closed spec fn disabled_set(&self) -> Set<Seq<char>> {
        crate::apps::texts(self.disabled@).to_set()
    }

    /// The ids of the modules switched off, as held.
    pub closed spec fn disabled_texts(&self) -> Seq<Seq<char>> {
        crate::apps::texts(self.disabled@)
    }

    /// Each id is held once.
    pub closed spec fn wf(&self) -> bool {
        crate::apps::texts(self.disabled@).no_duplicates()
    }

    /// The modules switched off in the settings.
    pub fn new(disabled: &Vec<String>) -> (r: BarModules)
        ensures
            r.wf(),
            r.disabled_set() == crate::apps::texts(disabled@).to_set(),
    {
        let mut ids: Vec<String> = Vec::new();
        let mut i: usize = 0;
        while i < disabled.len()
            invariant
                i <= disabled@.len(),
                crate::apps::texts(ids@).no_duplicates(),
                forall|x: Seq<char>|
                    #![trigger crate::apps::texts(ids@).contains(x)]
                    crate::apps::texts(ids@).contains(x) <==> exists|j: int|
                        0 <= j < i && #[trigger] disabled@[j]@ == x,
            decreases disabled@.len() - i,
        {
            let ghost old = crate::apps::texts(ids@);
            let present = crate::apps::holds_text(&ids, disabled[i].as_str());
            if !present {
                ids.push(crate::text::owned(disabled[i].as_str()));
                assert(crate::apps::texts(ids@) =~= old.push(disabled@[i as int]@));
            }
            proof {
                assert forall|a: int, b: int|
                    0 <= a < b < crate::apps::texts(ids@).len() implies crate::apps::texts(ids@)[a]
                    != crate::apps::texts(ids@)[b] by {
                    if !present && b == old.len() {
                        assert(crate::apps::texts(ids@)[a] == old[a]);
                    } else {
                        assert(crate::apps::texts(ids@)[a] == old[a] && crate::apps::texts(
                            ids@,
                        )[b] == old[b]);
                    }
                }
                assert forall|x: Seq<char>|
                    #![trigger crate::apps::texts(ids@).contains(x)]
                    crate::apps::texts(ids@).contains(x) <==> exists|j: int|
                        0 <= j < i + 1 && #[trigger] disabled@[j]@ == x by {
                    if old.contains(x) {
                        let q = choose|q: int| 0 <= q < old.len() && old[q] == x;
                        assert(crate::apps::texts(ids@)[q] == x);
                        let j = choose|j: int| 0 <= j < i && #[trigger] disabled@[j]@ == x;
                        assert(0 <= j < i + 1);
                    }
                    if x == disabled@[i as int]@ {
                        if !present {
                            assert(crate::apps::texts(ids@)[old.len() as int] == x);
                        }
                    }
                    if crate::apps::texts(ids@).contains(x) {
                        let q = choose|q: int|
                            0 <= q < crate::apps::texts(ids@).len() && crate::apps::texts(ids@)[q]
                                == x;
                        if q < old.len() {
                            assert(old[q] == x);
                        }
                    }
                    if exists|j: int| 0 <= j < i + 1 && #[trigger] disabled@[j]@ == x {
                        let j = choose|j: int| 0 <= j < i + 1 && #[trigger] disabled@[j]@ == x;
                        if j < i {
                            assert(old.contains(x));
                        }
                    }
                }
            }
            i += 1;
        }
        assert(crate::apps::texts(ids@).to_set() =~= crate::apps::texts(disabled@).to_set()) by {
            assert forall|x: Seq<char>| crate::apps::texts(ids@).contains(x) <==> crate::apps::texts(
                disabled@,
            ).contains(x) by {
                if crate::apps::texts(disabled@).contains(x) {
                    let j = choose|j: int|
                        0 <= j < crate::apps::texts(disabled@).len() && crate::apps::texts(
                            disabled@,
                        )[j] == x;
                    assert(disabled@[j]@ == x);
                }
                if exists|j: int| 0 <= j < disabled@.len() && #[trigger] disabled@[j]@ == x {
                    let j = choose|j: int| 0 <= j < disabled@.len() && #[trigger] disabled@[j]@ == x;
                    assert(crate::apps::texts(disabled@)[j] == x);
                }
            }
        }
        BarModules { disabled: ids }
    }

    /// Whether a module is shown.
    pub fn enabled(&self, id: &str) -> (r: bool)
        ensures
            r == !self.disabled_set().contains(id@),
    {
        !crate::apps::holds_text(&self.disabled, id)
    }

    /// Switches a module on or off and tells whether it is now shown.
    pub fn toggle(&mut self, id: &str) -> (r: bool)
        requires
            old(self).wf(),
        ensures
            final(self).wf(),
            r == old(self).disabled_set().contains(id@),
            final(self).disabled_set() == toggled_set(old(self).disabled_set(), id@),
    {
        let ghost before = crate::apps::texts(self.disabled@);
        let mut i: usize = 0;
        while i < self.disabled.len()
            invariant
                before == crate::apps::texts(self.disabled@),
                before == crate::apps::texts(old(self).disabled@),
                before.no_duplicates(),
                i <= self.disabled@.len(),
                forall|k: int| 0 <= k < i ==> self.disabled@[k]@ != id@,
            decreases self.disabled@.len() - i,
        {
            if crate::text::text_eq(self.disabled[i].as_str(), id) {
                let removed = self.disabled.remove(i);
                proof {
                    let after = crate::apps::texts(self.disabled@);
                    assert(after =~= before.remove(i as int));
                    assert(before[i as int] == id@);
                    assert(after.no_duplicates()) by {
                        assert forall|a: int, b: int| 0 <= a < b < after.len() implies after[a]
                            != after[b] by {
                            let a2 = if a < i {
                                a
                            } else {
                                a + 1
                            };
                            let b2 = if b < i {
                                b
                            } else {
                                b + 1
                            };
                            assert(after[a] == before[a2] && after[b] == before[b2]);
                        }
                    }
                    assert forall|x: Seq<char>| after.to_set().contains(x) <==> before.to_set().remove(
                        id@,
                    ).contains(x) by {
                        if after.contains(x) {
                            let q = choose|q: int| 0 <= q < after.len() && after[q] == x;
                            let q2 = if q < i {
                                q
                            } else {
                                q + 1
                            };
                            assert(before[q2] == x);
                            assert(q2 != i);
                        }
                        if before.contains(x) && x != id@ {
                            let q = choose|q: int| 0 <= q < before.len() && before[q] == x;
                            assert(q != i);
                            if q < i {
                                assert(after[q] == x);
                            } else {
                                assert(after[q - 1] == x);
                            }
                        }
                    }
                    assert(after.to_set() =~= before.to_set().remove(id@));
                    assert(before.contains(id@));
                    assert(before.to_set().contains(id@));
                }
                return true;
            }
            i += 1;
        }
        proof {
            assert(!before.contains(id@)) by {
                if before.contains(id@) {
                    let q = choose|q: int| 0 <= q < before.len() && before[q] == id@;
                    assert(self.disabled@[q]@ == id@);
                }
            }
        }
        self.disabled.push(crate::text::owned(id));
        proof {
            let after = crate::apps::texts(self.disabled@);
            assert(after =~= before.push(id@));
            assert(after.no_duplicates()) by {
                assert forall|a: int, b: int| 0 <= a < b < after.len() implies after[a] != after[b] by {
                    if b == before.len() {
                        assert(after[a] == before[a]);
                        assert(before.contains(before[a]));
                    } else {
                        assert(after[a] == before[a] && after[b] == before[b]);
                    }
                }
            }
            assert forall|x: Seq<char>| after.to_set().contains(x) <==> before.to_set().insert(
                id@,
            ).contains(x) by {
                if after.contains(x) {
                    let q = choose|q: int| 0 <= q < after.len() && after[q] == x;
                    if q < before.len() {
                        assert(before[q] == x);
                    }
                }
                if before.contains(x) {
                    let q = choose|q: int| 0 <= q < before.len() && before[q] == x;
                    assert(after[q] == x);
                }
                if x == id@ {
                    assert(after[before.len() as int] == x);
                }
            }
            assert(after.to_set() =~= before.to_set().insert(id@));
        }
        false
    }

    /// The ids of the modules switched off, in code-point order.
    pub fn disabled_ids(&self) -> (r: Vec<String>)
        ensures
            exists|order: Seq<usize>|
                #[trigger] crate::order::is_stable_order(
                    crate::order::text_keys(self.disabled_texts()),
                    order,
                ) && crate::apps::texts(r@) == crate::order::permuted(self.disabled_texts(), order),
            self.disabled_texts().to_set() == self.disabled_set(),
    {
        let mut keys: Vec<Vec<u32>> = Vec::new();
        let mut i: usize = 0;
        while i < self.disabled.len()
            invariant
                i <= self.disabled@.len(),
                keys@.len() == i,
                forall|k: int|
                    0 <= k < i ==> (#[trigger] keys@[k])@ == crate::order::text_key(
                        self.disabled@[k]@,
                    ),
            decreases self.disabled@.len() - i,
        {
            keys.push(crate::order::key_of_text(self.disabled[i].as_str()));
            i += 1;
        }
        assert(keys@.map_values(|k: Vec<u32>| k@) =~= crate::order::text_keys(
            crate::apps::texts(self.disabled@),
        ));
        let order = crate::order::stable_order(&keys);
        let mut r: Vec<String> = Vec::new();
        let mut k: usize = 0;
        while k < order.len()
            invariant
                crate::order::is_permutation(order@, self.disabled@.len()),
                k <= order@.len(),
                r@.len() == k,
                forall|j: int|
                    0 <= j < k ==> (#[trigger] r@[j])@ == self.disabled@[order@[j] as int]@,
            decreases order@.len() - k,
        {
            r.push(crate::text::owned(self.disabled[order[k]].as_str()));
            k += 1;
        }
        assert(crate::apps::texts(r@) =~= crate::order::permuted(
            crate::apps::texts(self.disabled@),
            order@,
        ));
        assert(crate::order::is_stable_order(
            crate::order::text_keys(self.disabled_texts()),
            order@,
        ));
        r
    }
}

/// Toggling a module changes its state and no other module's, and a
/// second toggle of it restores the modules as they were.
pub proof fn law_toggle_twice_restores(disabled: Set<Seq<char>>, id: Seq<char>)
    ensures
        toggled_set(disabled, id).contains(id) == !disabled.contains(id),
        forall|x: Seq<char>| x != id ==> (#[trigger] toggled_set(disabled, id).contains(x)
            == disabled.contains(x)),
        toggled_set(toggled_set(disabled, id), id) == disabled,
{
    assert(toggled_set(toggled_set(disabled, id), id) =~= disabled);
}

/// The history limit in use always lies in 10..=1000 and keeps any value
/// already there.
pub proof fn law_history_limit_clamped(limit: usize)
    ensures
        10 <= clamped_limit(limit) <= 1000,
        10 <= limit <= 1000 ==> clamped_limit(limit) == limit,
{
}

} // verus!
