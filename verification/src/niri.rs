//! The compositor state the panel follows: workspaces and keyboard
//! layouts, kept up to date by the compositor's event stream.
//!
//! The stream is read and decoded by the caller; an event reaches
//! [`apply_event`] as the parts it carries.

use vstd::prelude::*;
use vstd::string::*;

verus! {

/// The member names of a reply line that holds a JSON object, as
/// `serde_json` reads it into a map; none for a line that is not a JSON
/// object.
pub uninterp spec fn reply_members(line: Seq<char>) -> Option<Seq<Seq<char>>>;

/// Reads a reply line with `serde_json::from_str` into a
/// `serde_json::Map` and gives its keys; the result is the named
/// [`reply_members`]. Nothing more of JSON parsing is stated.
#[verifier::external_body]
fn parse_reply_members(line: &str) -> (r: Option<Vec<String>>)
    ensures
        match r {
            Some(keys) => reply_members(line@) == Some(keys@.map_values(|k: String| k@)),
            None => reply_members(line@) is None,
        },
{
    serde_json::from_str::<serde_json::Map<String, serde_json::Value>>(line).ok().map(
        |members| members.keys().cloned().collect(),
    )
}

/// Whether a reply line of the compositor reports success: a JSON object
/// with an `Ok` member.
pub fn reply_succeeded(line: &str) -> (r: bool)
    ensures
        r == (reply_members(line@) matches Some(m) && m.contains("Ok"@)),
{
    match parse_reply_members(line) {
        Some(keys) => {
            let ghost m = keys@.map_values(|k: String| k@);
            assert(reply_members(line@) == Some(m));
            let mut i: usize = 0;
            while i < keys.len()
                invariant
                    m == keys@.map_values(|k: String| k@),
                    reply_members(line@) == Some(m),
                    i <= keys@.len(),
                    forall|j: int| 0 <= j < i ==> m[j] != "Ok"@,
                decreases keys@.len() - i,
            {
                if crate::text::text_eq(keys[i].as_str(), "Ok") {
                    assert(m[i as int] == "Ok"@ && (i as int) < m.len());
                    assert(m.contains("Ok"@));
                    return true;
                }
                i += 1;
            }
            false
        },
        None => false,
    }
}

/// A workspace as the compositor reports it.
#[derive(Clone, Debug, PartialEq, Eq)]
pub struct Workspace {
    pub idx: i64,
    pub name: Option<String>,
    pub is_urgent: bool,
    pub is_active: bool,
    pub is_focused: bool,
    pub active_window_id: Option<u64>,
}

/// The keyboard layouts and the current one.
#[derive(Clone, Debug, PartialEq, Eq)]
pub struct KeyboardLayouts {
    pub names: Vec<String>,
    pub current_idx: usize,
}

impl Default for KeyboardLayouts {
    fn default() -> (r: KeyboardLayouts)
        ensures
            r.names@.len() == 0,
            r.current_idx == 0,
    {
        KeyboardLayouts { names: Vec::new(), current_idx: 0 }
    }
}

/// The parts of a compositor event that the panel follows: the new
/// workspace list, the new layouts, or the index of the layout switched
/// to. An event the panel does not follow has none.
pub struct EventParts {
    pub workspaces: Option<Vec<Workspace>>,
    pub layouts: Option<KeyboardLayouts>,
    pub switched: Option<u64>,
}

/// Applies an event: the workspace list and layouts it carries replace
/// the old ones, then a layout switch sets the current index. Reports
/// whether anything was applied.
pub fn apply_event(event: EventParts, workspaces: &mut Vec<Workspace>, layouts: &mut KeyboardLayouts) -> (r:
    bool)
    ensures
        r == (event.workspaces is Some || event.layouts is Some || event.switched is Some),
        *final(workspaces) == match event.workspaces {
            Some(w) => w,
            None => *old(workspaces),
        },
        final(layouts).names == match event.layouts {
            Some(l) => l.names,
            None => old(layouts).names,
        },
        final(layouts).current_idx == match event.switched {
            Some(i) => i as usize,
            None => match event.layouts {
                Some(l) => l.current_idx,
                None => old(layouts).current_idx,
            },
        },
{
    let mut changed = false;
    let EventParts { workspaces: next_workspaces, layouts: next_layouts, switched } = event;
    if let Some(next) = next_workspaces {
        *workspaces = next;
        changed = true;
    }
    if let Some(next) = next_layouts {
        *layouts = next;
        changed = true;
    }
    if let Some(idx) = switched {
        layouts.current_idx = idx as usize;
        changed = true;
    }
    changed
}

/// The window focused in the focused workspace.
pub open spec fn focused_window(workspaces: Seq<Workspace>) -> Option<u64> {
    match crate::text::first_where(workspaces, |w: Workspace| w.is_focused) {
        Some(i) => workspaces[i].active_window_id,
        None => None,
    }
}

/// The window focused in the first focused workspace, if any.
pub fn focused_window_id(workspaces: &Vec<Workspace>) -> (r: Option<u64>)
    ensures
        r == focused_window(workspaces@),
{
    let ghost p = |w: Workspace| w.is_focused;
    let mut i: usize = 0;
    while i < workspaces.len()
        invariant
            p == (|w: Workspace| w.is_focused),
            i <= workspaces@.len(),
            forall|k: int| 0 <= k < i ==> !p(#[trigger] workspaces@[k]),
        decreases workspaces@.len() - i,
    {
        if workspaces[i].is_focused {
            proof {
                crate::text::lemma_first_where(workspaces@, p, i as int);
            }
            return workspaces[i].active_window_id;
        }
        i += 1;
    }
    proof {
        crate::text::lemma_first_where(workspaces@, p, i as int);
    }
    None
}

} // verus!
