//! What the panel's modules show for the readings they are given: labels,
//! tooltips and the battery's state classes.

use vstd::prelude::*;
use vstd::string::*;
use crate::modules::BatteryStatus;
use crate::niri::{KeyboardLayouts, Workspace};
use crate::order::{is_stable_order, lex_lt, permuted};
use crate::notifications::layout_label_spec;
use crate::text::decimal;

verus! {

/// The audio module's label: the muted or speaker icon and the volume in
/// percent; dashes while the sound server gives no reading.
pub open spec fn audio_label_spec(reading: Option<(u32, bool)>) -> Seq<char> {
    match reading {
        Some((percent, muted)) => (if muted {
            "󰝟 "@
        } else {
            "󰕾 "@
        }) + decimal(percent as nat) + "%"@,
        None => "󰝟 --"@,
    }
}

/// The audio module's label (see [`audio_label_spec`]); the reading is
/// the rounded volume in percent and whether the output is muted.
pub fn audio_label(reading: Option<(u32, bool)>) -> (r: String)
    ensures
        r@ == audio_label_spec(reading),
{
    match reading {
        Some((percent, muted)) => {
            let mut s = crate::text::owned(
                if muted {
                    "󰝟 "
                } else {
                    "󰕾 "
                },
            );
            let digits = crate::text::decimal_string(percent as u128);
            s.append(digits.as_str());
            s.append("%");
            s
        },
        None => crate::text::owned("󰝟 --"),
    }
}

/// The audio module's tooltip.
pub fn audio_tooltip(reading: Option<(u32, bool)>) -> (r: &'static str)
    ensures
        r@ == match reading {
            Some((_, true)) => "Audio muted"@,
            Some((_, false)) => "Audio volume"@,
            None => "Audio unavailable"@,
        },
{
    match reading {
        Some((_, true)) => "Audio muted",
        Some((_, false)) => "Audio volume",
        None => "Audio unavailable",
    }
}

/// The brightness module's label: the level's icon and percentage, or
/// dashes without a reading.
pub open spec fn brightness_label_spec(level: Option<(u8, Seq<char>)>) -> Seq<char> {
    match level {
        Some((percent, icon)) => icon + " "@ + decimal(percent as nat) + "%"@,
        None => "--"@,
    }
}

/// The brightness module's label (see [`brightness_label_spec`]).
pub fn brightness_label(level: Option<(u8, &str)>) -> (r: String)
    ensures
        r@ == brightness_label_spec(
            match level {
                Some((p, icon)) => Some((p, icon@)),
                None => None,
            },
        ),
{
    match level {
        Some((percent, icon)) => {
            let mut s = crate::text::owned(icon);
            s.append(" ");
            let digits = crate::text::decimal_string(percent as u128);
            s.append(digits.as_str());
            s.append("%");
            s
        },
        None => crate::text::owned("--"),
    }
}

/// The brightness module's tooltip.
pub fn brightness_tooltip(available: bool) -> (r: &'static str)
    ensures
        r@ == if available {
            "Screen brightness — scroll to adjust"@
        } else {
            "Screen brightness unavailable"@
        },
{
    if available {
        "Screen brightness — scroll to adjust"
    } else {
        "Screen brightness unavailable"
    }
}

/// Whole degrees of a temperature in millidegrees, truncated toward zero,
/// as text.
pub open spec fn whole_degrees(millidegrees: int) -> Seq<char> {
    let magnitude = if millidegrees < 0 {
        -millidegrees
    } else {
        millidegrees
    };
    let degrees = (magnitude / 1000) as nat;
    if millidegrees < 0 && degrees > 0 {
        "-"@ + decimal(degrees)
    } else {
        decimal(degrees)
    }
}

/// The temperature module's label: the thermometer and whole degrees, or
/// dashes without a reading.
pub open spec fn temperature_label_spec(millidegrees: Option<i64>) -> Seq<char> {
    match millidegrees {
        Some(t) => "󰔏 "@ + whole_degrees(t as int) + "°C"@,
        None => "󰔏 --°C"@,
    }
}

/// The temperature module's label (see [`temperature_label_spec`]).
pub fn temperature_label(millidegrees: Option<i64>) -> (r: String)
    ensures
        r@ == temperature_label_spec(millidegrees),
{
    match millidegrees {
        Some(t) => {
            let magnitude: u64 = if t < 0 {
                (0 - (t as i128)) as u64
            } else {
                t as u64
            };
            let degrees = magnitude / 1000;
            let mut s = crate::text::owned("󰔏 ");
            if t < 0 && degrees > 0 {
                s.append("-");
            }
            let digits = crate::text::decimal_string(degrees as u128);
            s.append(digits.as_str());
            s.append("°C");
            proof {
                assert(magnitude as int == if (t as int) < 0 {
                    -(t as int)
                } else {
                    t as int
                });
            }
            s
        },
        None => crate::text::owned("󰔏 --°C"),
    }
}

/// The keyboard-layout module's label: the keyboard and the short label
/// of the current layout, or dashes when the index names no layout.
pub open spec fn language_label_spec(layouts: KeyboardLayouts) -> Seq<char> {
    if layouts.current_idx < layouts.names@.len() {
        "󰌌 "@ + layout_label_spec(layouts.names@[layouts.current_idx as int]@)
    } else {
        "󰌌 --"@
    }
}

/// The keyboard-layout module's label (see [`language_label_spec`]).
pub fn language_label(layouts: &KeyboardLayouts) -> (r: String)
    ensures
        r@ == language_label_spec(*layouts),
{
    if layouts.current_idx < layouts.names.len() {
        let mut s = crate::text::owned("󰌌 ");
        let label = crate::notifications::layout_label(layouts.names[layouts.current_idx].as_str());
        s.append(label.as_str());
        s
    } else {
        crate::text::owned("󰌌 --")
    }
}

/// How the battery module is shown: whether it is visible (only with a
/// text), and its warning state class, if the level names one.
pub fn battery_display(battery: &BatteryStatus) -> (r: (bool, Option<&'static str>))
    ensures
        r.0 == (battery.text@.len() > 0),
        crate::text::opt_str(r.1) == if battery.level@ == "warning"@ {
            Some("warning"@)
        } else if battery.level@ == "critical"@ {
            Some("critical"@)
        } else {
            None
        },
{
    let visible = crate::text::chars_of(battery.text.as_str()).len() > 0;
    let class = if crate::text::text_eq(battery.level.as_str(), "warning") {
        Some("warning")
    } else if crate::text::text_eq(battery.level.as_str(), "critical") {
        Some("critical")
    } else {
        None
    };
    (visible, class)
}


/// A workspace button of the panel: the workspace's index, its label and
/// tooltip, and its state classes.
#[derive(Clone, Debug, PartialEq, Eq)]
pub struct WorkspaceButton {
    pub idx: i64,
    pub label: String,
    pub tooltip: String,
    /// The workspace has no window.
    pub empty: bool,
    pub active: bool,
    pub focused: bool,
    pub urgent: bool,
}

/// The parts of a button.
pub open spec fn button_view(b: WorkspaceButton) -> (i64, Seq<char>, Seq<char>, bool, bool, bool, bool) {
    (b.idx, b.label@, b.tooltip@, b.empty, b.active, b.focused, b.urgent)
}

/// An integer as decimal text, with a minus sign when negative.
pub open spec fn signed_decimal(v: int) -> Seq<char> {
    if v < 0 {
        "-"@ + decimal((-v) as nat)
    } else {
        decimal(v as nat)
    }
}

/// The button of a workspace: its name, else a filled dot for the active
/// workspace and a hollow one for the others; "Workspace" and its index
/// as tooltip.
pub open spec fn button_spec(w: Workspace) -> (i64, Seq<char>, Seq<char>, bool, bool, bool, bool) {
    (
        w.idx,
        match w.name {
            Some(n) => n@,
            None => if w.is_active {
                "●"@
            } else {
                "○"@
            },
        },
        "Workspace "@ + signed_decimal(w.idx as int),
        w.active_window_id is None,
        w.is_active,
        w.is_focused,
        w.is_urgent,
    )
}

/// The sort key of a workspace index: the index shifted to be
/// non-negative, as its high and low 32 bits.
pub open spec fn idx_key(idx: i64) -> Seq<u32> {
    let b = idx as int + 0x8000_0000_0000_0000;
    seq![(b / 0x1_0000_0000) as u32, (b % 0x1_0000_0000) as u32]
}

/// The sort keys of workspaces, by index.
pub open spec fn workspace_keys(ws: Seq<Workspace>) -> Seq<Seq<u32>> {
    ws.map_values(|w: Workspace| idx_key(w.idx))
}

/// Index keys order as the indices do.
proof fn lemma_idx_key(a: i64, b: i64)
    ensures
        lex_lt(idx_key(a), idx_key(b)) <==> a < b,
        idx_key(a) == idx_key(b) ==> a == b,
{
    let x = a as int + 0x8000_0000_0000_0000;
    let y = b as int + 0x8000_0000_0000_0000;
    let m = 0x1_0000_0000int;
    assert(0 <= x < m * m && 0 <= y < m * m);
    assert(x == (x / m) * m + x % m && 0 <= x % m < m && 0 <= x / m < m) by (nonlinear_arith)
        requires
            0 <= x < m * m,
            m == 0x1_0000_0000,
    ;
    assert(y == (y / m) * m + y % m && 0 <= y % m < m && 0 <= y / m < m) by (nonlinear_arith)
        requires
            0 <= y < m * m,
            m == 0x1_0000_0000,
    ;
    let ka = idx_key(a);
    let kb = idx_key(b);
    assert(ka[0] == x / m && ka[1] == x % m);
    assert(kb[0] == y / m && kb[1] == y % m);
    assert(ka.drop_first() =~= seq![ka[1]]);
    assert(kb.drop_first() =~= seq![kb[1]]);
    assert(seq![ka[1]].drop_first() =~= Seq::<u32>::empty());
    assert(seq![kb[1]].drop_first() =~= Seq::<u32>::empty());
    assert(lex_lt(ka, kb) <==> (ka[0] < kb[0] || (ka[0] == kb[0] && ka[1] < kb[1]))) by {
        reveal_with_fuel(lex_lt, 3);
        assert(lex_lt(ka.drop_first(), kb.drop_first()) <==> ka[1] < kb[1]);
    }
    assert((x / m < y / m || (x / m == y / m && x % m < y % m)) <==> x < y) by (nonlinear_arith)
        requires
            x == (x / m) * m + x % m,
            y == (y / m) * m + y % m,
            0 <= x % m < m,
            0 <= y % m < m,
            m > 0,
    ;
    if ka == kb {
        assert(ka[0] == kb[0] && ka[1] == kb[1]);
    }
}

fn index_key(idx: i64) -> (r: Vec<u32>)
    ensures
        r@ == idx_key(idx),
{
    let b: u64 = (idx as i128 + 0x8000_0000_0000_0000i128) as u64;
    let r = vec![(b / 0x1_0000_0000) as u32, (b % 0x1_0000_0000) as u32];
    assert(r@ =~= idx_key(idx));
    r
}

fn signed_text(v: i64) -> (r: String)
    ensures
        r@ == signed_decimal(v as int),
{
    if v < 0 {
        let magnitude: u128 = (0 - (v as i128)) as u128;
        let mut s = crate::text::owned("-");
        let digits = crate::text::decimal_string(magnitude);
        s.append(digits.as_str());
        s
    } else {
        crate::text::decimal_string(v as u128)
    }
}

fn workspace_button(w: &Workspace) -> (r: WorkspaceButton)
    ensures
        button_view(r) == button_spec(*w),
{
    let label = match &w.name {
        Some(n) => crate::text::owned(n.as_str()),
        None => crate::text::owned(
            if w.is_active {
                "●"
            } else {
                "○"
            },
        ),
    };
    let mut tooltip = crate::text::owned("Workspace ");
    let number = signed_text(w.idx);
    tooltip.append(number.as_str());
    WorkspaceButton {
        idx: w.idx,
        label,
        tooltip,
        empty: w.active_window_id.is_none(),
        active: w.is_active,
        focused: w.is_focused,
        urgent: w.is_urgent,
    }
}

/// The workspace buttons of the panel: one per workspace, ordered by
/// index (workspaces with equal indices keep their order).
pub fn workspace_buttons(workspaces: &Vec<Workspace>) -> (r: Vec<WorkspaceButton>)
    ensures
        exists|order: Seq<usize>|
            #[trigger] is_stable_order(workspace_keys(workspaces@), order) && r@.map_values(
                |b: WorkspaceButton| button_view(b),
            ) == permuted(workspaces@, order).map_values(|w: Workspace| button_spec(w)),
{
    let mut keys: Vec<Vec<u32>> = Vec::new();
    let mut i: usize = 0;
    while i < workspaces.len()
        invariant
            i <= workspaces@.len(),
            keys@.len() == i,
            forall|k: int| 0 <= k < i ==> (#[trigger] keys@[k])@ == idx_key(workspaces@[k].idx),
        decreases workspaces@.len() - i,
    {
        keys.push(index_key(workspaces[i].idx));
        i += 1;
    }
    assert(keys@.map_values(|k: Vec<u32>| k@) =~= workspace_keys(workspaces@));
    let order = crate::order::stable_order(&keys);
    let mut out: Vec<WorkspaceButton> = Vec::new();
    let mut k: usize = 0;
    while k < order.len()
        invariant
            crate::order::is_permutation(order@, workspaces@.len()),
            k <= order@.len(),
            out@.len() == k,
            forall|j: int|
                0 <= j < k ==> button_view(#[trigger] out@[j]) == button_spec(
                    workspaces@[order@[j] as int],
                ),
        decreases order@.len() - k,
    {
        out.push(workspace_button(&workspaces[order[k]]));
        k += 1;
    }
    assert(out@.map_values(|b: WorkspaceButton| button_view(b)) =~= permuted(
        workspaces@,
        order@,
    ).map_values(|w: Workspace| button_spec(w)));
    out
}

/// The workspace buttons come in order of index.
pub proof fn law_workspace_buttons_by_index(workspaces: Seq<Workspace>, order: Seq<usize>)
    requires
        is_stable_order(workspace_keys(workspaces), order),
    ensures
        forall|i: int, j: int|
            0 <= i < j < order.len() ==> (#[trigger] permuted(workspaces, order)[i]).idx
                <= (#[trigger] permuted(workspaces, order)[j]).idx,
{
    let listed = permuted(workspaces, order);
    let keys = workspace_keys(workspaces);
    assert forall|i: int, j: int|
        0 <= i < j < order.len() implies (#[trigger] listed[i]).idx <= (#[trigger] listed[j]).idx by {
        let a = order[i] as int;
        let b = order[j] as int;
        assert(crate::order::before(keys, a, b));
        lemma_idx_key(workspaces[a].idx, workspaces[b].idx);
        lemma_idx_key(workspaces[b].idx, workspaces[a].idx);
        assert(keys[a] == idx_key(workspaces[a].idx));
        assert(keys[b] == idx_key(workspaces[b].idx));
    }
}

} // verus!
