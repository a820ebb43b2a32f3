//! The application-notification history behind `org.freedesktop.Notifications`.
//!
//! The history decides which notifications exist, which are active, which
//! have a popup or an expiry timer, and which identifiers they carry. Each
//! operation appends the side effects that the windowing layer must carry
//! out (D-Bus signals, popup windows, timers) to an effect list, in the
//! order in which they happen.

use vstd::prelude::*;
use vstd::string::*;
use crate::text::{char_width, fits_bytes, utf8_len};

verus! {

/// Most popups shown at once.
pub const MAX_POPUPS: usize = 4;

/// The largest notification identifier; identifiers run from 1 to this
/// value and then wrap around to 1.
pub const MAX_ID: u32 = 4294967295;

/// Decoded and scaled image data of a notification.
#[derive(Clone, Debug, PartialEq, Eq)]
pub struct ImageData {
    pub width: i32,
    pub height: i32,
    pub stride: i32,
    pub alpha: bool,
    pub bytes: Vec<u8>,
}

/// What a notification shows.
#[derive(Clone, Debug, PartialEq, Eq)]
pub struct NotificationView {
    pub id: u32,
    pub app: String,
    pub icon: String,
    pub summary: String,
    pub body: String,
    pub actions: Vec<(String, String)>,
    pub desktop_id: Option<String>,
    pub resident: bool,
    pub transient: bool,
    pub image: Option<ImageData>,
}

/// A notification held in the history.
#[derive(Clone, Debug, PartialEq, Eq)]
pub struct Entry {
    pub view: NotificationView,
    /// Not yet closed, expired or dismissed.
    pub active: bool,
    /// A popup window shows it.
    pub popup: bool,
    /// An expiry timer runs for it.
    pub timer: bool,
}

/// A side effect that an operation on the history asks for.
#[derive(Clone, Debug, PartialEq, Eq)]
pub enum Effect {
    /// Emit `NotificationClosed(id, reason)`.
    Closed { id: u32, reason: u32 },
    /// Emit `ActionInvoked(id, key)`.
    ActionInvoked { id: u32, key: String },
    /// Close the popup window of `id`.
    ClosePopup { id: u32 },
    /// Open a popup window for `id`.
    OpenPopup { id: u32 },
    /// Redraw the popup window of `id` with its new content.
    UpdatePopup { id: u32 },
    /// Start an expiry timer of `millis` milliseconds for `id`.
    StartTimer { id: u32, millis: u64 },
    /// Cancel the pending expiry timer of `id`.
    CancelTimer { id: u32 },
    /// Forget the expiry timer of `id`, which has already fired.
    ReleaseTimer { id: u32 },
}

/// Whether some entry carries `id`.
pub open spec fn has_id(entries: Seq<Entry>, id: u32) -> bool {
    exists|k: int| 0 <= k < entries.len() && (#[trigger] entries[k]).view.id == id
}

/// Whether some active entry carries `id`.
pub open spec fn has_active(entries: Seq<Entry>, id: u32) -> bool {
    exists|k: int| 0 <= k < entries.len() && (#[trigger] entries[k]).view.id == id && entries[k].active
}

/// No two entries carry the same identifier.
pub open spec fn unique_ids(entries: Seq<Entry>) -> bool {
    forall|i: int, j: int|
        0 <= i < entries.len() && 0 <= j < entries.len() && i != j ==> (#[trigger] entries[i]).view.id
            != (#[trigger] entries[j]).view.id
}

/// Number of entries that have a popup.
pub open spec fn popup_count(entries: Seq<Entry>) -> nat
    decreases entries.len(),
{
    if entries.len() == 0 {
        0
    } else {
        popup_count(entries.drop_last()) + if entries.last().popup {
            1nat
        } else {
            0nat
        }
    }
}

/// The bound on the history length: the configured limit, but at least one
/// entry (a new notification is always kept).
pub open spec fn capacity(limit: nat) -> nat {
    if limit == 0 {
        1
    } else {
        limit
    }
}

/// The invariant of the history.
#[verifier::opaque]
pub open spec fn well_formed(entries: Seq<Entry>, limit: nat) -> bool {
    &&& unique_ids(entries)
    &&& forall|k: int| 0 <= k < entries.len() ==> (#[trigger] entries[k]).view.id != 0
    &&& forall|k: int|
        0 <= k < entries.len() && !(#[trigger] entries[k]).active ==> !entries[k].popup
            && !entries[k].timer
    &&& popup_count(entries) <= MAX_POPUPS
    &&& entries.len() <= capacity(limit)
    &&& limit < MAX_ID
}

/// The effects of closing the entry `e` for `reason`: its timer is cancelled
/// (or, when it expired, released), its popup closed, and the signal sent.
pub open spec fn close_effects(e: Entry, reason: u32) -> Seq<Effect> {
    let timer = if e.timer {
        if reason != 1 {
            seq![Effect::CancelTimer { id: e.view.id }]
        } else {
            seq![Effect::ReleaseTimer { id: e.view.id }]
        }
    } else {
        Seq::empty()
    };
    let popup = if e.popup {
        seq![Effect::ClosePopup { id: e.view.id }]
    } else {
        Seq::empty()
    };
    timer + popup + seq![Effect::Closed { id: e.view.id, reason }]
}

/// The entry `e` after it was closed.
pub open spec fn closed_entry(e: Entry) -> Entry {
    Entry { active: false, popup: false, timer: false, ..e }
}

/// The entries after the active entry at `k` was closed for `reason`.
pub open spec fn after_close(entries: Seq<Entry>, k: int, reason: u32) -> Seq<Entry> {
    if entries[k].view.transient || reason == 3 {
        entries.remove(k)
    } else {
        entries.update(k, closed_entry(entries[k]))
    }
}

/// The effects of clearing `entries`, first entry first.
pub open spec fn clear_effects(entries: Seq<Entry>) -> Seq<Effect>
    decreases entries.len(),
{
    if entries.len() == 0 {
        Seq::empty()
    } else {
        let e = entries.last();
        let timer = if e.timer {
            seq![Effect::CancelTimer { id: e.view.id }]
        } else {
            Seq::empty()
        };
        let popup = if e.popup {
            seq![Effect::ClosePopup { id: e.view.id }]
        } else {
            Seq::empty()
        };
        let signal = if e.active {
            seq![Effect::Closed { id: e.view.id, reason: 2 }]
        } else {
            Seq::empty()
        };
        clear_effects(entries.drop_last()) + timer + popup + signal
    }
}

/// The identifier that follows `id`, wrapping from [`MAX_ID`] to 1.
pub open spec fn next_id(id: u32) -> u32 {
    if id == MAX_ID {
        1
    } else {
        (id + 1) as u32
    }
}

/// The `t`-th identifier after `start` in the wrapping order, for `t < MAX_ID`.
pub open spec fn cyclic(start: u32, t: int) -> u32 {
    if start + t <= MAX_ID {
        (start + t) as u32
    } else {
        (start + t - MAX_ID) as u32
    }
}

/// The first identifier, from `start` on in the wrapping order, that no
/// entry carries, trying at most `fuel` identifiers after `start`.
pub open spec fn first_free(entries: Seq<Entry>, start: u32, fuel: nat) -> u32
    decreases fuel,
{
    if !has_id(entries, start) || fuel == 0 {
        start
    } else {
        first_free(entries, next_id(start), (fuel - 1) as nat)
    }
}

/// The index of the entry that an eviction removes: the first inactive
/// entry, or else the first entry.
pub open spec fn victim(entries: Seq<Entry>) -> int {
    if exists|k: int| 0 <= k < entries.len() && !(#[trigger] entries[k]).active {
        choose|k: int|
            0 <= k < entries.len() && !(#[trigger] entries[k]).active && forall|j: int|
                0 <= j < k ==> (#[trigger] entries[j]).active
    } else {
        0
    }
}

/// The index of the entry that carries `id` (there is at most one).
pub open spec fn position(entries: Seq<Entry>, id: u32) -> int {
    choose|k: int| 0 <= k < entries.len() && (#[trigger] entries[k]).view.id == id
}

pub proof fn lemma_popup_count_update(s: Seq<Entry>, k: int, e: Entry)
    requires
        0 <= k < s.len(),
    ensures
        popup_count(s.update(k, e)) + (if s[k].popup {
            1nat
        } else {
            0nat
        }) == popup_count(s) + (if e.popup {
            1nat
        } else {
            0nat
        }),
    decreases s.len(),
{
    if k == s.len() - 1 {
        assert(s.update(k, e).drop_last() =~= s.drop_last());
    } else {
        lemma_popup_count_update(s.drop_last(), k, e);
        assert(s.update(k, e).drop_last() =~= s.drop_last().update(k, e));
    }
}

pub proof fn lemma_popup_count_remove(s: Seq<Entry>, k: int)
    requires
        0 <= k < s.len(),
    ensures
        popup_count(s.remove(k)) + (if s[k].popup {
            1nat
        } else {
            0nat
        }) == popup_count(s),
    decreases s.len(),
{
    if k == s.len() - 1 {
        assert(s.remove(k) =~= s.drop_last());
    } else {
        lemma_popup_count_remove(s.drop_last(), k);
        assert(s.remove(k).drop_last() =~= s.drop_last().remove(k));
    }
}

pub proof fn lemma_popup_count_push(s: Seq<Entry>, e: Entry)
    ensures
        popup_count(s.push(e)) == popup_count(s) + (if e.popup {
            1nat
        } else {
            0nat
        }),
{
    assert(s.push(e).drop_last() =~= s);
}

/// Removing an entry or replacing it by one with the same identifier keeps
/// the invariant, as long as no popup is added.
pub proof fn lemma_well_formed_remove(s: Seq<Entry>, limit: nat, k: int)
    requires
        well_formed(s, limit),
        0 <= k < s.len(),
    ensures
        well_formed(s.remove(k), limit),
{
    reveal(well_formed);
    lemma_popup_count_remove(s, k);
    let r = s.remove(k);
    assert forall|i: int, j: int|
        0 <= i < r.len() && 0 <= j < r.len() && i != j implies (#[trigger] r[i]).view.id
        != (#[trigger] r[j]).view.id by {
        let a = if i < k {
            i
        } else {
            i + 1
        };
        let b = if j < k {
            j
        } else {
            j + 1
        };
        assert(r[i] == s[a] && r[j] == s[b]);
    }
}

pub proof fn lemma_well_formed_close(s: Seq<Entry>, limit: nat, k: int)
    requires
        well_formed(s, limit),
        0 <= k < s.len(),
    ensures
        well_formed(s.update(k, closed_entry(s[k])), limit),
{
    reveal(well_formed);
    lemma_popup_count_update(s, k, closed_entry(s[k]));
    let r = s.update(k, closed_entry(s[k]));
    assert forall|i: int, j: int|
        0 <= i < r.len() && 0 <= j < r.len() && i != j implies (#[trigger] r[i]).view.id
        != (#[trigger] r[j]).view.id by {
        assert(r[i].view.id == s[i].view.id && r[j].view.id == s[j].view.id);
    }
    assert forall|i: int| 0 <= i < r.len() implies (#[trigger] r[i]).view.id != 0 by {
        assert(r[i].view.id == s[i].view.id);
    }
}

/// The entry that carries an identifier is unique.
pub proof fn lemma_position(s: Seq<Entry>, limit: nat, k: int)
    requires
        well_formed(s, limit),
        0 <= k < s.len(),
    ensures
        position(s, s[k].view.id) == k,
{
    reveal(well_formed);
    let id = s[k].view.id;
    let p = position(s, id);
    assert(0 <= p < s.len() && s[p].view.id == id);
}

/// Whether a new notification that does not replace `replaces_id` makes
/// room by evicting an entry first.
pub open spec fn evicts(entries: Seq<Entry>, limit: nat, replaces_id: u32) -> bool {
    !has_active(entries, replaces_id) && entries.len() >= limit && entries.len() > 0
}

/// The index of the first entry with a popup.
pub open spec fn first_popup(entries: Seq<Entry>) -> int {
    choose|j: int|
        0 <= j < entries.len() && (#[trigger] entries[j]).popup && forall|i: int|
            0 <= i < j ==> !(#[trigger] entries[i]).popup
}

/// The entries after the popup of the entry at `k` is shown: an existing
/// popup is redrawn; otherwise, when [`MAX_POPUPS`] popups are open, the
/// oldest one is closed first.
pub open spec fn popup_entries(entries: Seq<Entry>, k: int) -> Seq<Entry> {
    if entries[k].popup {
        entries
    } else if popup_count(entries) >= MAX_POPUPS {
        let j = first_popup(entries);
        entries.update(j, Entry { popup: false, ..entries[j] }).update(
            k,
            Entry { popup: true, ..entries[k] },
        )
    } else {
        entries.update(k, Entry { popup: true, ..entries[k] })
    }
}

/// The effects of showing the popup of the entry at `k`.
pub open spec fn popup_effects(entries: Seq<Entry>, k: int) -> Seq<Effect> {
    if entries[k].popup {
        seq![Effect::UpdatePopup { id: entries[k].view.id }]
    } else if popup_count(entries) >= MAX_POPUPS {
        seq![
            Effect::ClosePopup { id: entries[first_popup(entries)].view.id },
            Effect::OpenPopup { id: entries[k].view.id },
        ]
    } else {
        seq![Effect::OpenPopup { id: entries[k].view.id }]
    }
}

/// The expiry delay for a requested timeout: the server default of six
/// seconds for a negative request, else the request in milliseconds.
pub open spec fn expiry_millis(timeout: i32) -> u64 {
    if timeout < 0 {
        6000
    } else {
        timeout as u64
    }
}

/// `view` carrying identifier `id`.
pub open spec fn with_id(view: NotificationView, id: u32) -> NotificationView {
    NotificationView { id, ..view }
}

pub proof fn lemma_next_cyclic(start: u32, t: int)
    requires
        1 <= start,
        0 <= t < MAX_ID,
    ensures
        t < MAX_ID - 1 ==> next_id(cyclic(start, t)) == cyclic(start, t + 1),
        cyclic(start, t) != 0,
{
}

/// What the invariant says of one entry.
pub proof fn lemma_well_formed_entry(s: Seq<Entry>, limit: nat, k: int)
    requires
        well_formed(s, limit),
        0 <= k < s.len(),
    ensures
        !s[k].active ==> !s[k].popup && !s[k].timer,
        s[k].view.id != 0,
        popup_count(s) <= MAX_POPUPS,
        s.len() <= capacity(limit),
        limit < MAX_ID,
{
    reveal(well_formed);
}

/// Showing a popup changes only popup flags, and the shown entry has one.
pub proof fn lemma_popup_entries(s: Seq<Entry>, k: int)
    requires
        0 <= k < s.len(),
    ensures
        popup_entries(s, k).len() == s.len(),
        popup_entries(s, k)[k].popup,
        forall|i: int|
            0 <= i < s.len() ==> (#[trigger] popup_entries(s, k)[i]).view == s[i].view
                && popup_entries(s, k)[i].active == s[i].active && popup_entries(s, k)[i].timer
                == s[i].timer,
{
    if !s[k].popup && popup_count(s) >= MAX_POPUPS {
        if forall|i: int| 0 <= i < s.len() ==> !(#[trigger] s[i]).popup {
            lemma_no_popups(s);
        }
        let w = choose|i: int| 0 <= i < s.len() && (#[trigger] s[i]).popup;
        lemma_first_popup_exists(s, w);
    }
}

/// Some entry with a popup makes the first such entry well defined.
pub proof fn lemma_first_popup_exists(s: Seq<Entry>, w: int)
    requires
        0 <= w < s.len(),
        s[w].popup,
    ensures
        0 <= first_popup(s) < s.len(),
        s[first_popup(s)].popup,
        forall|i: int| 0 <= i < first_popup(s) ==> !(#[trigger] s[i]).popup,
    decreases w,
{
    if exists|i: int| 0 <= i < w && (#[trigger] s[i]).popup {
        let i = choose|i: int| 0 <= i < w && (#[trigger] s[i]).popup;
        lemma_first_popup_exists(s, i);
    } else {
        assert(0 <= w < s.len() && s[w].popup && forall|i: int| 0 <= i < w ==> !(#[trigger] s[i]).popup);
    }
}

/// The eviction victim of a non-empty history is one of its entries.
pub proof fn lemma_victim_in_range(s: Seq<Entry>)
    requires
        s.len() > 0,
    ensures
        0 <= victim(s) < s.len(),
{
    if exists|k: int| 0 <= k < s.len() && !(#[trigger] s[k]).active {
        let w = choose|k: int| 0 <= k < s.len() && !(#[trigger] s[k]).active;
        lemma_first_inactive_exists(s, w);
    }
}

proof fn lemma_first_inactive_exists(s: Seq<Entry>, w: int)
    requires
        0 <= w < s.len(),
        !s[w].active,
    ensures
        exists|k: int|
            0 <= k < s.len() && !(#[trigger] s[k]).active && forall|j: int|
                0 <= j < k ==> (#[trigger] s[j]).active,
    decreases w,
{
    if exists|i: int| 0 <= i < w && !(#[trigger] s[i]).active {
        let i = choose|i: int| 0 <= i < w && !(#[trigger] s[i]).active;
        lemma_first_inactive_exists(s, i);
    } else {
        assert(0 <= w < s.len() && !s[w].active && forall|j: int| 0 <= j < w ==> (#[trigger] s[j]).active);
    }
}

/// What the invariant says of the whole history.
pub proof fn lemma_well_formed_len(s: Seq<Entry>, limit: nat)
    requires
        well_formed(s, limit),
    ensures
        popup_count(s) <= MAX_POPUPS,
        s.len() <= capacity(limit),
        limit < MAX_ID,
{
    reveal(well_formed);
}

pub proof fn lemma_no_popups(s: Seq<Entry>)
    requires
        forall|i: int| 0 <= i < s.len() ==> !(#[trigger] s[i]).popup,
    ensures
        popup_count(s) == 0,
    decreases s.len(),
{
    if s.len() > 0 {
        assert(!s[s.len() - 1].popup);
        lemma_no_popups(s.drop_last());
    }
}

/// At most `entries.len()` consecutive identifiers are taken.
pub proof fn lemma_taken_run(entries: Seq<Entry>, start: u32, tries: int)
    requires
        unique_ids(entries),
        1 <= start,
        0 <= tries < MAX_ID,
        forall|t: int| 0 <= t <= tries ==> has_id(entries, #[trigger] cyclic(start, t)),
    ensures
        tries < entries.len(),
{
    let tried = Seq::new((tries + 1) as nat, |t: int| cyclic(start, t));
    let ids = entries.map_values(|e: Entry| e.view.id);
    assert(tried.no_duplicates()) by {
        assert forall|a: int, b: int| 0 <= a < tried.len() && 0 <= b < tried.len() && a != b implies tried[a]
            != tried[b] by {
            assert(tried[a] == cyclic(start, a) && tried[b] == cyclic(start, b));
        }
    }
    tried.unique_seq_to_set();
    ids.lemma_cardinality_of_set();
    assert(tried.to_set().subset_of(ids.to_set())) by {
        assert forall|x: u32| tried.to_set().contains(x) implies ids.to_set().contains(x) by {
            let t = choose|t: int| 0 <= t < tried.len() && tried[t] == x;
            assert(tried[t] == cyclic(start, t));
            assert(has_id(entries, cyclic(start, t)));
            let k = choose|k: int| 0 <= k < entries.len() && (#[trigger] entries[k]).view.id == x;
            assert(ids[k] == x);
        }
    }
    vstd::set_lib::lemma_len_subset(tried.to_set(), ids.to_set());
}

pub proof fn lemma_well_formed_update(s: Seq<Entry>, limit: nat, k: int, e: Entry)
    requires
        well_formed(s, limit),
        0 <= k < s.len(),
        e.view.id == s[k].view.id,
        !e.active ==> !e.popup && !e.timer,
        e.popup ==> s[k].popup || popup_count(s) < MAX_POPUPS,
    ensures
        well_formed(s.update(k, e), limit),
        popup_count(s.update(k, e)) + (if s[k].popup {
            1nat
        } else {
            0nat
        }) == popup_count(s) + (if e.popup {
            1nat
        } else {
            0nat
        }),
{
    reveal(well_formed);
    lemma_popup_count_update(s, k, e);
    let r = s.update(k, e);
    assert forall|i: int, j: int|
        0 <= i < r.len() && 0 <= j < r.len() && i != j implies (#[trigger] r[i]).view.id
        != (#[trigger] r[j]).view.id by {
        assert(r[i].view.id == s[i].view.id && r[j].view.id == s[j].view.id);
    }
    assert forall|i: int| 0 <= i < r.len() implies (#[trigger] r[i]).view.id != 0 by {
        assert(r[i].view.id == s[i].view.id);
    }
}

pub proof fn lemma_well_formed_push(s: Seq<Entry>, limit: nat, e: Entry)
    requires
        well_formed(s, limit),
        s.len() < capacity(limit),
        !has_id(s, e.view.id),
        e.view.id != 0,
        e.active,
        !e.popup,
    ensures
        well_formed(s.push(e), limit),
{
    reveal(well_formed);
    lemma_popup_count_push(s, e);
    let r = s.push(e);
    assert forall|i: int, j: int|
        0 <= i < r.len() && 0 <= j < r.len() && i != j implies (#[trigger] r[i]).view.id
        != (#[trigger] r[j]).view.id by {
        if i < s.len() && j < s.len() {
            assert(r[i] == s[i] && r[j] == s[j]);
        } else if i < s.len() {
            assert(r[i] == s[i]);
        } else {
            assert(r[j] == s[j]);
        }
    }
}

/// The entries left after the eviction that a new notification needs.
pub open spec fn evicted(entries: Seq<Entry>, limit: nat, replaces_id: u32) -> Seq<Entry> {
    if evicts(entries, limit, replaces_id) {
        entries.remove(victim(entries))
    } else {
        entries
    }
}

/// The effects of that eviction: the victim is dismissed if still active.
pub open spec fn evict_effects(entries: Seq<Entry>, limit: nat, replaces_id: u32) -> Seq<Effect> {
    if evicts(entries, limit, replaces_id) && entries[victim(entries)].active {
        close_effects(entries[victim(entries)], 2)
    } else {
        Seq::empty()
    }
}

/// The identifier from which the search for a free one starts.
pub open spec fn start_id(next: u32) -> u32 {
    if next == 0 {
        1
    } else {
        next
    }
}

pub proof fn lemma_victim(s: Seq<Entry>, k: int)
    requires
        0 <= k < s.len(),
        !s[k].active,
        forall|i: int| 0 <= i < k ==> (#[trigger] s[i]).active,
    ensures
        victim(s) == k,
{
    let v = victim(s);
    assert(0 <= v < s.len() && !s[v].active && forall|i: int| 0 <= i < v ==> (#[trigger] s[i]).active);
    if v < k {
        assert(s[v].active);
    }
    if v > k {
        assert(s[k].active);
    }
}

pub proof fn lemma_active_position(s: Seq<Entry>, limit: nat, id: u32)
    requires
        well_formed(s, limit),
        has_id(s, id),
    ensures
        0 <= position(s, id) < s.len(),
        s[position(s, id)].view.id == id,
        has_active(s, id) == s[position(s, id)].active,
{
    reveal(well_formed);
    let k = choose|k: int| 0 <= k < s.len() && (#[trigger] s[k]).view.id == id;
    lemma_position(s, limit, k);
}

/// The length-bounded notification history.
pub struct History {
    entries: Vec<Entry>,
    next_id: u32,
    limit: usize,
}

impl History {
    /// The entries, oldest first.
    pub closed spec fn entries_view(&self) -> Seq<Entry> {
        self.entries@
    }

    /// The configured length limit.
    pub closed spec fn limit_view(&self) -> nat {
        self.limit as nat
    }

    /// The identifier tried first for the next new notification.
    pub closed spec fn next_view(&self) -> u32 {
        self.next_id
    }

    /// The invariant of the history.
    pub closed spec fn wf(&self) -> bool {
        well_formed(self.entries@, self.limit as nat)
    }

    /// An empty history that keeps at most `limit` notifications.
    pub fn new(limit: usize) -> (h: History)
        requires
            limit < MAX_ID,
        ensures
            h.wf(),
            h.entries_view() == Seq::<Entry>::empty(),
            h.limit_view() == limit,
            h.next_view() == 1,
    {
        proof {
            reveal(well_formed);
        }
        History { entries: Vec::new(), next_id: 1, limit }
    }

    /// The entries, oldest first.
    pub fn entries(&self) -> (r: &Vec<Entry>)
        ensures
            r@ == self.entries_view(),
    {
        &self.entries
    }

    /// Number of entries.
    pub fn len(&self) -> (r: usize)
        ensures
            r == self.entries_view().len(),
    {
        self.entries.len()
    }

    /// Number of entries that have a popup.
    pub fn popups(&self) -> (r: usize)
        requires
            self.wf(),
        ensures
            r == popup_count(self.entries_view()),
    {
        let mut n: usize = 0;
        let mut i: usize = 0;
        while i < self.entries.len()
            invariant
                i <= self.entries@.len(),
                n == popup_count(self.entries@.take(i as int)),
                n <= i,
            decreases self.entries@.len() - i,
        {
            assert(self.entries@.take(i + 1).drop_last() =~= self.entries@.take(i as int));
            if self.entries[i].popup {
                n += 1;
            }
            i += 1;
        }
        assert(self.entries@.take(self.entries@.len() as int) =~= self.entries@);
        n
    }

    /// Index of the entry that carries `id`.
    pub fn index_of(&self, id: u32) -> (r: Option<usize>)
        ensures
            r matches Some(k) ==> k < self.entries_view().len() && self.entries_view()[k as int].view.id
                == id,
            r is None ==> !has_id(self.entries_view(), id),
    {
        let mut i: usize = 0;
        while i < self.entries.len()
            invariant
                i <= self.entries@.len(),
                forall|k: int| 0 <= k < i ==> (#[trigger] self.entries@[k]).view.id != id,
            decreases self.entries@.len() - i,
        {
            if self.entries[i].view.id == id {
                return Some(i);
            }
            i += 1;
        }
        None
    }

    /// Index of the active entry that carries `id`.
    pub fn active_index(&self, id: u32) -> (r: Option<usize>)
        ensures
            r matches Some(k) ==> k < self.entries_view().len() && self.entries_view()[k as int].view.id
                == id && self.entries_view()[k as int].active,
            r is None ==> !has_active(self.entries_view(), id),
    {
        let mut i: usize = 0;
        while i < self.entries.len()
            invariant
                i <= self.entries@.len(),
                forall|k: int|
                    0 <= k < i ==> (#[trigger] self.entries@[k]).view.id != id
                        || !self.entries@[k].active,
            decreases self.entries@.len() - i,
        {
            if self.entries[i].view.id == id && self.entries[i].active {
                return Some(i);
            }
            i += 1;
        }
        None
    }

    /// Closes the active notification `id` for `reason` (1 expired,
    /// 2 dismissed, 3 closed by its sender). A transient notification, or
    /// one that its sender closed, leaves the history; any other stays as
    /// an inactive entry. Returns whether an active notification `id` was
    /// there.
    pub fn close(&mut self, id: u32, reason: u32, effects: &mut Vec<Effect>) -> (r: bool)
        requires
            old(self).wf(),
        ensures
            final(self).wf(),
            r == has_active(old(self).entries_view(), id),
            !r ==> final(self).entries_view() == old(self).entries_view() && final(effects)@
                == old(effects)@,
            r ==> {
                let k = position(old(self).entries_view(), id);
                &&& final(self).entries_view() == after_close(old(self).entries_view(), k, reason)
                &&& final(effects)@ == old(effects)@ + close_effects(
                    old(self).entries_view()[k],
                    reason,
                )
            },
            final(self).limit_view() == old(self).limit_view(),
            final(self).next_view() == old(self).next_view(),
    {
        match self.active_index(id) {
            None => false,
            Some(k) => {
                proof {
                    lemma_position(self.entries@, self.limit as nat, k as int);
                    lemma_well_formed_close(self.entries@, self.limit as nat, k as int);
                    lemma_well_formed_remove(self.entries@, self.limit as nat, k as int);
                }
                let ghost before = self.entries@;
                let ghost effects_before = effects@;
                let mut e = self.entries.remove(k);
                if e.timer {
                    if reason != 1 {
                        effects.push(Effect::CancelTimer { id });
                    } else {
                        effects.push(Effect::ReleaseTimer { id });
                    }
                }
                if e.popup {
                    effects.push(Effect::ClosePopup { id });
                }
                let transient = e.view.transient;
                e.active = false;
                e.popup = false;
                e.timer = false;
                if !(transient || reason == 3) {
                    self.entries.insert(k, e);
                    assert(self.entries@ =~= before.update(k as int, closed_entry(before[k as int])));
                } else {
                    assert(self.entries@ =~= before.remove(k as int));
                }
                effects.push(Effect::Closed { id, reason });
                assert(effects@ =~= effects_before + close_effects(before[k as int], reason));
                true
            },
        }
    }
    /// Dismisses notification `id`: closes it if active (reason 2) and
    /// deletes it from the history.
    pub fn remove(&mut self, id: u32, effects: &mut Vec<Effect>)
        requires
            old(self).wf(),
        ensures
            final(self).wf(),
            !has_id(final(self).entries_view(), id),
            has_id(old(self).entries_view(), id) ==> final(self).entries_view() == old(
                self,
            ).entries_view().remove(position(old(self).entries_view(), id)),
            !has_id(old(self).entries_view(), id) ==> final(self).entries_view() == old(
                self,
            ).entries_view(),
            final(effects)@ == old(effects)@ + if has_active(old(self).entries_view(), id) {
                close_effects(old(self).entries_view()[position(old(self).entries_view(), id)], 2)
            } else {
                Seq::empty()
            },
            final(self).limit_view() == old(self).limit_view(),
            final(self).next_view() == old(self).next_view(),
    {
        proof {
            reveal(well_formed);
        }
        let ghost before = self.entries@;
        proof {
            if has_id(before, id) {
                let k = choose|k: int| 0 <= k < before.len() && (#[trigger] before[k]).view.id == id;
                lemma_position(before, self.limit as nat, k);
            }
        }
        self.close(id, 2, effects);
        let ghost middle = self.entries@;
        match self.index_of(id) {
            None => {
                proof {
                    if has_id(before, id) {
                        let k = position(before, id);
                        if !before[k].active {
                            assert(middle[k].view.id == id);
                        }
                        assert(before[k].active);
                        if !before[k].view.transient {
                            assert(middle[k].view.id == id);
                        }
                        assert(middle =~= before.remove(k));
                    }
                }
            },
            Some(k) => {
                proof {
                    lemma_well_formed_remove(self.entries@, self.limit as nat, k as int);
                    let p = position(before, id);
                    if has_active(before, id) {
                        assert(before[p].active);
                        if before[p].view.transient {
                            assert(middle =~= before.remove(p));
                            let j = if k < p {
                                k as int
                            } else {
                                k + 1
                            };
                            assert(middle[k as int] == before[j]);
                            assert(false);
                        }
                        assert(middle =~= before.update(p, closed_entry(before[p])));
                        assert(middle[k as int].view.id == before[k as int].view.id);
                        assert(k == p);
                    } else {
                        assert(middle[k as int].view.id == id);
                        assert(has_id(before, id));
                        assert(k == p);
                    }
                }
                self.entries.remove(k);
                proof {
                    let p = position(before, id);
                    if has_active(before, id) {
                        assert(self.entries@ =~= before.remove(p));
                    }
                }
            },
        }
        proof {
            if has_id(self.entries@, id) {
                let j = choose|j: int|
                    0 <= j < self.entries@.len() && (#[trigger] self.entries@[j]).view.id == id;
                let p = position(before, id);
                let b = if j < p {
                    j
                } else {
                    j + 1
                };
                assert(self.entries@[j] == before[b]);
            }
        }
    }

    /// Invokes the action `key` of the active notification `id`: the
    /// signal is sent, and a notification that is not resident is closed
    /// (reason 2). Nothing happens when `id` is not active.
    pub fn invoke_action(&mut self, id: u32, key: String, effects: &mut Vec<Effect>)
        requires
            old(self).wf(),
        ensures
            final(self).wf(),
            !has_active(old(self).entries_view(), id) ==> final(self).entries_view() == old(
                self,
            ).entries_view() && final(effects)@ == old(effects)@,
            has_active(old(self).entries_view(), id) ==> {
                let k = position(old(self).entries_view(), id);
                let e = old(self).entries_view()[k];
                &&& final(self).entries_view() == if e.view.resident {
                    old(self).entries_view()
                } else {
                    after_close(old(self).entries_view(), k, 2)
                }
                &&& final(effects)@ == old(effects)@ + seq![Effect::ActionInvoked { id, key }]
                    + if e.view.resident {
                    Seq::empty()
                } else {
                    close_effects(e, 2)
                }
            },
            final(self).limit_view() == old(self).limit_view(),
            final(self).next_view() == old(self).next_view(),
    {
        match self.active_index(id) {
            None => {},
            Some(k) => {
                proof {
                    lemma_position(self.entries@, self.limit as nat, k as int);
                }
                let ghost effects_before = effects@;
                let ghost entry = self.entries@[k as int];
                let ghost signal = Effect::ActionInvoked { id, key };
                effects.push(Effect::ActionInvoked { id, key });
                if !self.entries[k].view.resident {
                    self.close(id, 2, effects);
                    assert(effects@ =~= effects_before + seq![signal] + close_effects(entry, 2));
                } else {
                    assert(effects@ =~= effects_before + seq![signal]);
                }
            },
        }
    }

    /// Clears the history: every timer is cancelled, every popup closed,
    /// and every active notification reported closed (reason 2).
    pub fn clear(&mut self, effects: &mut Vec<Effect>)
        requires
            old(self).wf(),
        ensures
            final(self).wf(),
            final(self).entries_view() == Seq::<Entry>::empty(),
            final(effects)@ == old(effects)@ + clear_effects(old(self).entries_view()),
            final(self).limit_view() == old(self).limit_view(),
            final(self).next_view() == old(self).next_view(),
    {
        proof {
            reveal(well_formed);
        }
        let ghost before = self.entries@;
        let ghost effects_before = effects@;
        let mut i: usize = 0;
        while i < self.entries.len()
            invariant
                self.entries@ == before,
                i <= before.len(),
                effects@ == effects_before + clear_effects(before.take(i as int)),
            decreases before.len() - i,
        {
            let ghost prefix = effects@;
            let id = self.entries[i].view.id;
            if self.entries[i].timer {
                effects.push(Effect::CancelTimer { id });
            }
            if self.entries[i].popup {
                effects.push(Effect::ClosePopup { id });
            }
            if self.entries[i].active {
                effects.push(Effect::Closed { id, reason: 2 });
            }
            proof {
                let t = before.take(i + 1);
                assert(t.drop_last() =~= before.take(i as int));
                assert(t.last() == before[i as int]);
                assert(effects@ =~= effects_before + clear_effects(t));
            }
            i += 1;
        }
        assert(before.take(before.len() as int) =~= before);
        self.entries = Vec::new();
        assert(popup_count(self.entries@) == 0);
    }

    /// Forgets the popup of notification `id`, whose window the windowing
    /// layer has closed because it no longer fits on the screen.
    pub fn release_popup(&mut self, id: u32)
        requires
            old(self).wf(),
        ensures
            final(self).wf(),
            has_id(old(self).entries_view(), id) ==> {
                let k = position(old(self).entries_view(), id);
                final(self).entries_view() == old(self).entries_view().update(
                    k,
                    Entry { popup: false, ..old(self).entries_view()[k] },
                )
            },
            !has_id(old(self).entries_view(), id) ==> final(self).entries_view() == old(
                self,
            ).entries_view(),
            final(self).limit_view() == old(self).limit_view(),
            final(self).next_view() == old(self).next_view(),
    {
        proof {
            reveal(well_formed);
        }
        match self.index_of(id) {
            None => {},
            Some(k) => {
                proof {
                    lemma_position(self.entries@, self.limit as nat, k as int);
                }
                let ghost before = self.entries@;
                let mut e = self.entries.remove(k);
                let ghost old_e = e;
                e.popup = false;
                self.entries.insert(k, e);
                proof {
                    assert(self.entries@ =~= before.update(k as int, Entry { popup: false, ..old_e }));
                    lemma_popup_count_update(before, k as int, Entry { popup: false, ..old_e });
                    let r = self.entries@;
                    assert forall|i: int, j: int|
                        0 <= i < r.len() && 0 <= j < r.len() && i != j implies (#[trigger] r[i]).view.id
                        != (#[trigger] r[j]).view.id by {
                        assert(r[i].view.id == before[i].view.id && r[j].view.id == before[j].view.id);
                    }
                    assert forall|i: int| 0 <= i < r.len() implies (#[trigger] r[i]).view.id != 0 by {
                        assert(r[i].view.id == before[i].view.id);
                    }
                    assert forall|i: int| 0 <= i < r.len() && !(#[trigger] r[i]).active implies !r[i].popup
                        && !r[i].timer by {
                        assert(r[i].active == before[i].active);
                    }
                }
            },
        }
    }
    /// Index of the first inactive entry.
    fn first_inactive(&self) -> (r: Option<usize>)
        ensures
            r matches Some(k) ==> k < self.entries@.len() && !self.entries@[k as int].active
                && forall|i: int| 0 <= i < k ==> (#[trigger] self.entries@[i]).active,
            r is None ==> forall|i: int|
                0 <= i < self.entries@.len() ==> (#[trigger] self.entries@[i]).active,
    {
        let mut i: usize = 0;
        while i < self.entries.len()
            invariant
                i <= self.entries@.len(),
                forall|j: int| 0 <= j < i ==> (#[trigger] self.entries@[j]).active,
            decreases self.entries@.len() - i,
        {
            if !self.entries[i].active {
                return Some(i);
            }
            i += 1;
        }
        None
    }

    /// Index of the first entry with a popup.
    fn first_popup_index(&self) -> (r: Option<usize>)
        ensures
            r matches Some(j) ==> j < self.entries@.len() && j == first_popup(self.entries@)
                && self.entries@[j as int].popup,
            r is None ==> forall|i: int|
                0 <= i < self.entries@.len() ==> !(#[trigger] self.entries@[i]).popup,
    {
        let mut i: usize = 0;
        while i < self.entries.len()
            invariant
                i <= self.entries@.len(),
                forall|j: int| 0 <= j < i ==> !(#[trigger] self.entries@[j]).popup,
            decreases self.entries@.len() - i,
        {
            if self.entries[i].popup {
                proof {
                    let f = first_popup(self.entries@);
                    assert(0 <= f < self.entries@.len() && self.entries@[f].popup && forall|j: int|
                        0 <= j < f ==> !(#[trigger] self.entries@[j]).popup);
                    if f < i {
                        assert(!self.entries@[f].popup);
                    }
                    if f > i {
                        assert(!self.entries@[i as int].popup);
                    }
                }
                return Some(i);
            }
            i += 1;
        }
        None
    }

    /// The identifier for a new notification: the first one, from the
    /// stored next identifier on, that no entry carries.
    fn allocate_id(&self) -> (r: u32)
        requires
            self.wf(),
        ensures
            r == first_free(
                self.entries@,
                if self.next_id == 0 {
                    1
                } else {
                    self.next_id
                },
                self.entries@.len(),
            ),
            !has_id(self.entries@, r),
            r != 0,
    {
        proof {
            reveal(well_formed);
        }
        let start: u32 = if self.next_id == 0 {
            1
        } else {
            self.next_id
        };
        let ghost fuel = self.entries@.len();
        assert(fuel < MAX_ID);
        let mut id = start;
        let ghost mut tries: int = 0;
        assert(cyclic(start, 0) == start);
        loop
            invariant
                1 <= start,
                start == (if self.next_id == 0 {
                    1
                } else {
                    self.next_id
                }),
                well_formed(self.entries@, self.limit as nat),
                fuel == self.entries@.len(),
                fuel < MAX_ID,
                0 <= tries <= fuel,
                id == cyclic(start, tries),
                forall|t: int| 0 <= t < tries ==> has_id(self.entries@, #[trigger] cyclic(start, t)),
                first_free(self.entries@, start, fuel) == first_free(
                    self.entries@,
                    id,
                    (fuel - tries) as nat,
                ),
            decreases fuel - tries,
        {
            match self.index_of(id) {
                None => {
                    proof {
                        lemma_next_cyclic(start, tries);
                        assert(!has_id(self.entries@, id));
                        assert(first_free(self.entries@, id, (fuel - tries) as nat) == id);
                    }
                    return id;
                },
                Some(_) => {
                    proof {
                        reveal(well_formed);
                        assert(has_id(self.entries@, cyclic(start, tries)));
                        lemma_taken_run(self.entries@, start, tries);
                        lemma_next_cyclic(start, tries);
                    }
                    id = if id == MAX_ID {
                        1
                    } else {
                        id + 1
                    };
                    proof {
                        tries = tries + 1;
                    }
                },
            }
        }
    }

    /// Closes the oldest popup to make room for another one.
    #[verifier::rlimit(40)]
    fn close_oldest_popup(&mut self, effects: &mut Vec<Effect>)
        requires
            old(self).wf(),
            popup_count(old(self).entries@) >= MAX_POPUPS,
        ensures
            final(self).wf(),
            popup_count(final(self).entries@) < MAX_POPUPS,
            0 <= first_popup(old(self).entries@) < old(self).entries@.len(),
            old(self).entries@[first_popup(old(self).entries@)].popup,
            final(self).entries@ == old(self).entries@.update(
                first_popup(old(self).entries@),
                Entry { popup: false, ..old(self).entries@[first_popup(old(self).entries@)] },
            ),
            final(effects)@ == old(effects)@.push(
                Effect::ClosePopup { id: old(self).entries@[first_popup(old(self).entries@)].view.id },
            ),
            final(self).limit == old(self).limit,
            final(self).next_id == old(self).next_id,
    {
        let ghost before = self.entries@;
        match self.first_popup_index() {
            None => {
                proof {
                    lemma_no_popups(self.entries@);
                    assert(false);
                }
            },
            Some(j) => {
                let mut e = self.entries.remove(j);
                let ghost ej = e;
                e.popup = false;
                let closed = e.view.id;
                self.entries.insert(j, e);
                proof {
                    lemma_well_formed_entry(before, self.limit as nat, j as int);
                    assert(self.entries@ =~= before.update(j as int, Entry { popup: false, ..ej }));
                    lemma_well_formed_update(
                        before,
                        self.limit as nat,
                        j as int,
                        Entry { popup: false, ..ej },
                    );
                }
                effects.push(Effect::ClosePopup { id: closed });
            },
        }
    }

    /// Shows the popup of the entry at `k`.
    #[verifier::rlimit(40)]
    fn show_popup(&mut self, k: usize, effects: &mut Vec<Effect>)
        requires
            old(self).wf(),
            k < old(self).entries@.len(),
            old(self).entries@[k as int].active,
        ensures
            final(self).wf(),
            final(self).entries@ == popup_entries(old(self).entries@, k as int),
            final(effects)@ == old(effects)@ + popup_effects(old(self).entries@, k as int),
            final(self).limit == old(self).limit,
            final(self).next_id == old(self).next_id,
    {
        let id = self.entries[k].view.id;
        if self.entries[k].popup {
            effects.push(Effect::UpdatePopup { id });
            return;
        }
        let ghost before = self.entries@;
        let ghost effects_before = effects@;
        if self.popups() >= MAX_POPUPS {
            self.close_oldest_popup(effects);
        }
        let ghost middle = self.entries@;
        assert(middle[k as int] == before[k as int]);
        let mut e = self.entries.remove(k);
        let ghost ek = e;
        e.popup = true;
        self.entries.insert(k, e);
        proof {
            assert(self.entries@ =~= middle.update(k as int, Entry { popup: true, ..ek }));
            lemma_well_formed_update(middle, self.limit as nat, k as int, Entry { popup: true, ..ek });
        }
        effects.push(Effect::OpenPopup { id });
        assert(self.entries@ =~= popup_entries(before, k as int));
        assert(effects@ =~= effects_before + popup_effects(before, k as int));
    }
    /// Evicts the first inactive entry, or else the oldest one.
    fn evict(&mut self, effects: &mut Vec<Effect>)
        requires
            old(self).wf(),
            old(self).entries@.len() > 0,
        ensures
            final(self).wf(),
            final(self).entries@ == old(self).entries@.remove(victim(old(self).entries@)),
            final(effects)@ == old(effects)@ + if old(self).entries@[victim(old(self).entries@)].active {
                close_effects(old(self).entries@[victim(old(self).entries@)], 2)
            } else {
                Seq::empty()
            },
            final(self).limit == old(self).limit,
            final(self).next_id == old(self).next_id,
    {
        let ghost before = self.entries@;
        let v = match self.first_inactive() {
            Some(i) => {
                proof {
                    lemma_victim(before, i as int);
                }
                i
            },
            None => {
                proof {
                    assert(!(exists|k: int| 0 <= k < before.len() && !(#[trigger] before[k]).active));
                }
                0
            },
        };
        let victim_id = self.entries[v].view.id;
        proof {
            lemma_position(before, self.limit as nat, v as int);
            lemma_active_position(before, self.limit as nat, victim_id);
        }
        self.remove(victim_id, effects);
    }

    /// Puts a new entry showing `view` at the end of the history.
    fn place_new(&mut self, view: NotificationView) -> (r: u32)
        requires
            old(self).wf(),
            old(self).entries@.len() < capacity(old(self).limit as nat),
        ensures
            final(self).wf(),
            r == first_free(old(self).entries@, start_id(old(self).next_id), old(self).entries@.len()),
            !has_id(old(self).entries@, r),
            r != 0,
            final(self).entries@ == old(self).entries@.push(
                Entry { view: with_id(view, r), active: true, popup: false, timer: false },
            ),
            final(self).next_id == next_id(r),
            final(self).limit == old(self).limit,
    {
        let id = self.allocate_id();
        let mut view = view;
        view.id = id;
        let entry = Entry { view, active: true, popup: false, timer: false };
        proof {
            lemma_well_formed_push(self.entries@, self.limit as nat, entry);
        }
        self.entries.push(entry);
        self.next_id = if id == MAX_ID {
            1
        } else {
            id + 1
        };
        id
    }

    /// Replaces the view of the active entry at `k`, cancelling its timer.
    fn place_replacement(&mut self, k: usize, view: NotificationView, effects: &mut Vec<Effect>)
        requires
            old(self).wf(),
            k < old(self).entries@.len(),
            old(self).entries@[k as int].active,
        ensures
            final(self).wf(),
            final(self).entries@ == old(self).entries@.update(
                k as int,
                Entry {
                    view: with_id(view, old(self).entries@[k as int].view.id),
                    active: true,
                    popup: old(self).entries@[k as int].popup,
                    timer: false,
                },
            ),
            final(effects)@ == old(effects)@ + if old(self).entries@[k as int].timer {
                seq![Effect::CancelTimer { id: old(self).entries@[k as int].view.id }]
            } else {
                Seq::empty()
            },
            final(self).limit == old(self).limit,
            final(self).next_id == old(self).next_id,
    {
        let ghost before = self.entries@;
        let ghost effects_before = effects@;
        let e = self.entries.remove(k);
        let id = e.view.id;
        if e.timer {
            effects.push(Effect::CancelTimer { id });
        }
        let mut view = view;
        view.id = id;
        let entry = Entry { view, active: true, popup: e.popup, timer: false };
        proof {
            lemma_well_formed_entry(before, self.limit as nat, k as int);
            lemma_well_formed_update(before, self.limit as nat, k as int, entry);
        }
        self.entries.insert(k, entry);
        assert(self.entries@ =~= before.update(k as int, entry));
        assert(effects@ =~= effects_before + if before[k as int].timer {
            seq![Effect::CancelTimer { id }]
        } else {
            Seq::empty()
        });
    }

    /// Starts the expiry timer of the active entry at `k`.
    fn start_timer(&mut self, k: usize, timeout: i32, effects: &mut Vec<Effect>)
        requires
            old(self).wf(),
            k < old(self).entries@.len(),
            old(self).entries@[k as int].active,
            timeout != 0,
        ensures
            final(self).wf(),
            final(self).entries@ == old(self).entries@.update(
                k as int,
                Entry { timer: true, ..old(self).entries@[k as int] },
            ),
            final(effects)@ == old(effects)@.push(
                Effect::StartTimer {
                    id: old(self).entries@[k as int].view.id,
                    millis: expiry_millis(timeout),
                },
            ),
            final(self).limit == old(self).limit,
            final(self).next_id == old(self).next_id,
    {
        let ghost before = self.entries@;
        let millis: u64 = if timeout < 0 {
            6000
        } else {
            timeout as u64
        };
        let mut e = self.entries.remove(k);
        let ghost old_e = e;
        effects.push(Effect::StartTimer { id: e.view.id, millis });
        e.timer = true;
        proof {
            lemma_well_formed_update(before, self.limit as nat, k as int, e);
        }
        self.entries.insert(k, e);
        assert(self.entries@ =~= before.update(k as int, Entry { timer: true, ..old_e }));
    }

    /// Adds or replaces a notification and returns its identifier.
    ///
    /// When `replaces_id` names an active notification, its content is
    /// replaced in place and it keeps its identifier, its place and its
    /// popup. Otherwise a new notification gets the first free identifier
    /// from the stored next one on (wrapping after [`MAX_ID`] to 1), after
    /// the first inactive (or else the oldest) entry was evicted if the
    /// history was full. The popup is then shown, and a non-zero `timeout`
    /// starts an expiry timer (six seconds when negative).
    #[verifier::rlimit(80)]
    pub fn notify(
        &mut self,
        replaces_id: u32,
        view: NotificationView,
        timeout: i32,
        effects: &mut Vec<Effect>,
    ) -> (r: u32)
        requires
            old(self).wf(),
        ensures
            final(self).wf(),
            r != 0,
            ({
                let o = old(self).entries_view();
                let lim = old(self).limit_view();
                let rep = has_active(o, replaces_id);
                let o1 = evicted(o, lim, replaces_id);
                let k = if rep {
                    position(o, replaces_id)
                } else {
                    o1.len() as int
                };
                let e = Entry {
                    view: with_id(view, r),
                    active: true,
                    popup: rep && o[k].popup,
                    timer: false,
                };
                let o2 = if rep {
                    o1.update(k, e)
                } else {
                    o1.push(e)
                };
                let o3 = popup_entries(o2, k);
                &&& r == if rep {
                    replaces_id
                } else {
                    first_free(o1, start_id(old(self).next_view()), o1.len())
                }
                &&& final(self).entries_view() == if timeout != 0 {
                    o3.update(k, Entry { timer: true, ..o3[k] })
                } else {
                    o3
                }
                &&& final(effects)@ == old(effects)@ + evict_effects(o, lim, replaces_id) + (if rep
                    && o[k].timer {
                    seq![Effect::CancelTimer { id: r }]
                } else {
                    Seq::empty()
                }) + popup_effects(o2, k) + (if timeout != 0 {
                    seq![Effect::StartTimer { id: r, millis: expiry_millis(timeout) }]
                } else {
                    Seq::empty()
                })
                &&& final(self).next_view() == if rep {
                    old(self).next_view()
                } else {
                    next_id(r)
                }
                &&& rep ==> r == replaces_id && final(self).entries_view().len() == o.len()
                &&& !rep ==> !has_id(o1, r)
                &&& 0 <= k < final(self).entries_view().len()
                &&& final(self).entries_view()[k].view == with_id(view, r)
                &&& final(self).entries_view()[k].active
            }),
            final(self).limit_view() == old(self).limit_view(),
    {
        let ghost o = self.entries@;
        let ghost lim = self.limit as nat;
        let ghost effects0 = effects@;
        proof {
            lemma_well_formed_len(o, lim);
        }
        let rep_index = self.active_index(replaces_id);
        if rep_index.is_none() && self.entries.len() >= self.limit && self.entries.len() > 0 {
            self.evict(effects);
        }
        let ghost o1 = self.entries@;
        let ghost effects1 = effects@;
        let ghost rep = has_active(o, replaces_id);
        proof {
            assert(o1 == evicted(o, lim, replaces_id));
            assert(effects1 =~= effects0 + evict_effects(o, lim, replaces_id));
            lemma_well_formed_len(o1, lim);
        }
        let k: usize;
        let id: u32;
        match rep_index {
            Some(i) => {
                proof {
                    lemma_position(o, lim, i as int);
                    lemma_well_formed_entry(o, lim, i as int);
                }
                id = replaces_id;
                self.place_replacement(i, view, effects);
                k = i;
            },
            None => {
                proof {
                    if evicts(o, lim, replaces_id) {
                        lemma_victim_in_range(o);
                        assert(o1.len() == o.len() - 1);
                    } else if o.len() > 0 {
                        assert(o.len() < lim);
                    }
                    assert(o1.len() < capacity(lim));
                }
                id = self.place_new(view);
                k = self.entries.len() - 1;
            },
        }
        let ghost o2 = self.entries@;
        let ghost effects2 = effects@;
        let ghost e = Entry { view: with_id(view, id), active: true, popup: rep && o[k as int].popup, timer: false };
        proof {
            if rep {
                assert(o2 == o1.update(k as int, e));
            } else {
                assert(o2 == o1.push(e));
            }
            assert(effects2 =~= effects1 + (if rep && o[k as int].timer {
                seq![Effect::CancelTimer { id }]
            } else {
                Seq::empty()
            }));
            assert(k < o2.len());
            assert(o2[k as int] == e);
        }
        self.show_popup(k, effects);
        let ghost o3 = self.entries@;
        let ghost effects3 = effects@;
        proof {
            assert(o3 == popup_entries(o2, k as int));
            lemma_popup_entries(o2, k as int);
            assert(o3.len() == o2.len());
            assert(o3[k as int].view == e.view && o3[k as int].active);
        }
        if timeout != 0 {
            self.start_timer(k, timeout, effects);
        }
        proof {
            assert(self.entries@[k as int].view == with_id(view, id));
            assert(effects@ =~= effects0 + evict_effects(o, lim, replaces_id) + (if rep && o[k as int].timer {
                seq![Effect::CancelTimer { id }]
            } else {
                Seq::empty()
            }) + popup_effects(o2, k as int) + (if timeout != 0 {
                seq![Effect::StartTimer { id, millis: expiry_millis(timeout) }]
            } else {
                Seq::empty()
            }));
        }
        id
    }
}

/// Number of leading characters of `s` whose UTF-8 encoding fits in `max`
/// bytes.
pub open spec fn fit_count(s: Seq<char>, max: nat) -> nat
    decreases s.len(),
{
    if s.len() == 0 || char_width(s[0]) > max {
        0
    } else {
        1 + fit_count(s.drop_first(), (max - char_width(s[0])) as nat)
    }
}

/// `s` cut to its longest prefix whose UTF-8 encoding has at most `max`
/// bytes, so that no character is split.
pub open spec fn limit_text(s: Seq<char>, max: nat) -> Seq<char> {
    s.take(fit_count(s, max) as int)
}

proof fn lemma_fit_count_step(s: Seq<char>, n: int, max: nat, used: nat)
    requires
        0 <= n < s.len(),
        used + char_width(s[n]) <= max,
    ensures
        fit_count(s.skip(n), (max - used) as nat) == 1 + fit_count(
            s.skip(n + 1),
            (max - used - char_width(s[n])) as nat,
        ),
{
    assert(s.skip(n).drop_first() =~= s.skip(n + 1));
    assert(s.skip(n)[0] == s[n]);
}

/// Cuts `value` to at most `max` bytes of UTF-8 without splitting a
/// character.
pub fn limited(value: &str, max: usize) -> (r: String)
    ensures
        r@ == limit_text(value@, max as nat),
{
    let v = crate::text::chars_of(value);
    let mut n: usize = 0;
    let mut used: usize = 0;
    assert(v@.skip(0) =~= v@);
    while n < v.len()
        invariant
            v@ == value@,
            n <= v.len(),
            used <= max,
            fit_count(v@, max as nat) == n + fit_count(v@.skip(n as int), (max - used) as nat),
        ensures
            fit_count(v@, max as nat) == n,
        decreases v.len() - n,
    {
        let c = v[n] as u32;
        let w: usize = if c < 0x80 {
            1
        } else if c < 0x800 {
            2
        } else if c < 0x10000 {
            3
        } else {
            4
        };
        if w > max - used {
            proof {
                assert(v@.skip(n as int)[0] == v@[n as int]);
            }
            break;
        }
        proof {
            lemma_fit_count_step(v@, n as int, max as nat, used as nat);
        }
        used = used + w;
        n += 1;
    }
    let r = crate::text::string_of(&v.as_slice()[0..n]);
    assert(r@ =~= value@.take(n as int));
    r
}

/// Whether the notification parameters describe an acceptable image:
/// positive dimensions up to 4096, 8 bits per sample, 3 channels (4 with
/// alpha), rows long enough, all rows present, and at most 1 MiB of data.
pub open spec fn image_acceptable(
    width: int,
    height: int,
    stride: int,
    alpha: bool,
    bits: int,
    channels: int,
    len: int,
) -> bool {
    &&& 0 < width <= 4096
    &&& 0 < height <= 4096
    &&& bits == 8
    &&& channels == if alpha {
        4int
    } else {
        3int
    }
    &&& stride >= width * channels
    &&& (height - 1) * stride + width * channels <= len
    &&& len <= 1024 * 1024
}

/// One side of the image after scaling it down to fit 64 pixels, rounded
/// to the nearest pixel and at least 1.
pub open spec fn scaled_side(side: int, largest: int) -> int {
    if largest <= 64 {
        side
    } else {
        let s = (128 * side + largest) / (2 * largest);
        if s < 1 {
            1
        } else {
            s
        }
    }
}

/// The byte of the scaled image at index `i` (row-major, `channels` per
/// pixel) taken from the source pixel nearest to its top-left corner.
pub open spec fn scaled_byte(
    bytes: Seq<u8>,
    width: int,
    height: int,
    stride: int,
    channels: int,
    w: int,
    h: int,
    i: int,
) -> u8 {
    let p = i / channels;
    let y = p / w;
    let x = p % w;
    bytes[(y * height / h) * stride + (x * width / w) * channels + i % channels]
}

impl ImageData {
    /// Validates raw `image-data` and scales it down to at most 64 pixels
    /// on each side.
    pub fn decode(
        width: i32,
        height: i32,
        stride: i32,
        alpha: bool,
        bits: i32,
        channels: i32,
        bytes: &[u8],
    ) -> (r: Option<ImageData>)
        ensures
            r is Some <==> image_acceptable(
                width as int,
                height as int,
                stride as int,
                alpha,
                bits as int,
                channels as int,
                bytes@.len() as int,
            ),
            r matches Some(img) ==> {
                let largest = if width > height {
                    width as int
                } else {
                    height as int
                };
                let w = scaled_side(width as int, largest);
                let h = scaled_side(height as int, largest);
                &&& img.width == w
                &&& img.height == h
                &&& img.stride == w * channels
                &&& img.alpha == alpha
                &&& img.bytes@.len() == w * h * channels
                &&& forall|i: int|
                    0 <= i < img.bytes@.len() ==> #[trigger] img.bytes@[i] == scaled_byte(
                        bytes@,
                        width as int,
                        height as int,
                        stride as int,
                        channels as int,
                        w,
                        h,
                        i,
                    )
            },
    {
        let wanted: i32 = if alpha {
            4
        } else {
            3
        };
        if width <= 0 || height <= 0 || width > 4096 || height > 4096 || bits != 8 || channels
            != wanted {
            return None;
        }
        assert(0 < width * channels <= 16384) by (nonlinear_arith)
            requires
                0 < width <= 4096,
                3 <= channels <= 4,
        ;
        if stride < width * channels {
            return None;
        }
        let row = (width * channels) as u64;
        let rows = (height - 1) as u64;
        assert(rows * (stride as u64) <= 4095 * 2147483647) by (nonlinear_arith)
            requires
                rows <= 4095,
                0 <= stride <= 2147483647,
        ;
        let needed: u64 = rows * (stride as u64) + row;
        if needed > bytes.len() as u64 || bytes.len() > 1024 * 1024 {
            return None;
        }
        let largest: i32 = if width > height {
            width
        } else {
            height
        };
        let (w, h) = if largest <= 64 {
            (width, height)
        } else {
            let a = (128 * width + largest) / (2 * largest);
            let b = (128 * height + largest) / (2 * largest);
            (if a < 1 {
                1
            } else {
                a
            }, if b < 1 {
                1
            } else {
                b
            })
        };
        proof {
            lemma_scaled_side(width as int, largest as int);
            lemma_scaled_side(height as int, largest as int);
        }
        let out_stride: i32 = w * channels;
        let mut out: Vec<u8> = Vec::new();
        let mut y: i32 = 0;
        while y < h
            invariant
                0 < w <= 4096,
                0 < h <= 4096,
                w <= width,
                h <= height,
                0 <= y <= h,
                0 < width <= 4096,
                0 < height <= 4096,
                channels == 3 || channels == 4,
                stride >= width * channels,
                (height - 1) * stride + width * channels <= bytes@.len(),
                bytes@.len() <= 1024 * 1024,
                out@.len() == y * w * channels,
                forall|i: int|
                    0 <= i < out@.len() ==> #[trigger] out@[i] == scaled_byte(
                        bytes@,
                        width as int,
                        height as int,
                        stride as int,
                        channels as int,
                        w as int,
                        h as int,
                        i,
                    ),
            decreases h - y,
        {
            let mut x: i32 = 0;
            while x < w
                invariant
                    0 < w <= 4096,
                    0 < h <= 4096,
                    w <= width,
                    h <= height,
                    0 <= y < h,
                    0 <= x <= w,
                    0 < width <= 4096,
                    0 < height <= 4096,
                    channels == 3 || channels == 4,
                    stride >= width * channels,
                    (height - 1) * stride + width * channels <= bytes@.len(),
                    bytes@.len() <= 1024 * 1024,
                    out@.len() == (y * w + x) * channels,
                    forall|i: int|
                        0 <= i < out@.len() ==> #[trigger] out@[i] == scaled_byte(
                            bytes@,
                            width as int,
                            height as int,
                            stride as int,
                            channels as int,
                            w as int,
                            h as int,
                            i,
                        ),
                decreases w - x,
            {
                proof {
                    lemma_scaled_index(y as int, h as int, height as int);
                    lemma_scaled_index(x as int, w as int, width as int);
                }
                let sy = y * height / h;
                let sx = x * width / w;
                proof {
                    lemma_source_bounds(
                        sy as int,
                        sx as int,
                        height as int,
                        width as int,
                        stride as int,
                        channels as int,
                        bytes@.len() as int,
                    );
                }
                let source = (sy * stride + sx * channels) as usize;
                let mut c: usize = 0;
                while c < channels as usize
                    invariant
                        0 < w <= 4096,
                        0 < h <= 4096,
                        0 <= y < h,
                        0 <= x < w,
                        channels == 3 || channels == 4,
                        c <= channels,
                        sy as int == (y as int) * (height as int) / (h as int),
                        sx as int == (x as int) * (width as int) / (w as int),
                        source == sy * stride + sx * channels,
                        source + channels <= bytes@.len(),
                        bytes@.len() <= 1024 * 1024,
                        out@.len() == (y * w + x) * channels + c,
                        forall|i: int|
                            0 <= i < out@.len() ==> #[trigger] out@[i] == scaled_byte(
                                bytes@,
                                width as int,
                                height as int,
                                stride as int,
                                channels as int,
                                w as int,
                                h as int,
                                i,
                            ),
                    decreases channels - c,
                {
                    let ghost i = out@.len() as int;
                    proof {
                        lemma_pixel_of(y as int, x as int, w as int, channels as int, c as int);
                    }
                    out.push(bytes[source + c]);
                    c += 1;
                }
                proof {
                    assert((y * w + x) * channels + channels == (y * w + x + 1) * channels) by (nonlinear_arith);
                }
                x += 1;
            }
            proof {
                assert((y * w + w) * channels == (y + 1) * w * channels) by (nonlinear_arith);
            }
            y += 1;
        }
        proof {
            assert(h * w * channels == w * h * channels) by (nonlinear_arith);
        }
        Some(ImageData { width: w, height: h, stride: out_stride, alpha, bytes: out })
    }
}

proof fn lemma_scaled_side(side: int, largest: int)
    requires
        0 < side <= largest <= 4096,
    ensures
        0 < scaled_side(side, largest) <= side,
        scaled_side(side, largest) <= 4096,
        largest > 64 ==> (128 * side + largest) / (2 * largest) <= 64,
{
    if largest > 64 {
        assert((128 * side + largest) / (2 * largest) <= 64) by (nonlinear_arith)
            requires
                0 < side <= largest,
        ;
        assert((128 * side + largest) / (2 * largest) <= side) by (nonlinear_arith)
            requires
                0 < side <= largest,
                largest > 64,
        ;
    }
}

proof fn lemma_scaled_index(i: int, n: int, side: int)
    requires
        0 <= i < n,
        0 < n <= side,
        side <= 4096,
    ensures
        0 <= i * side / n < side,
        i * side <= 4096 * 4096,
{
    assert(0 <= i * side / n < side) by (nonlinear_arith)
        requires
            0 <= i < n,
            0 < n <= side,
    ;
    assert(i * side <= 4096 * 4096) by (nonlinear_arith)
        requires
            0 <= i < n,
            0 < n <= side,
            side <= 4096,
    ;
}

proof fn lemma_source_bounds(
    sy: int,
    sx: int,
    height: int,
    width: int,
    stride: int,
    channels: int,
    len: int,
)
    requires
        0 <= sy < height,
        0 <= sx < width,
        0 < channels,
        stride >= width * channels,
        (height - 1) * stride + width * channels <= len,
        len <= 1024 * 1024,
    ensures
        0 <= sy * stride + sx * channels,
        sy * stride + sx * channels + channels <= len,
{
    assert(sy * stride <= (height - 1) * stride) by (nonlinear_arith)
        requires
            0 <= sy < height,
            stride >= 0,
    ;
    assert(sx * channels + channels <= width * channels) by (nonlinear_arith)
        requires
            0 <= sx < width,
            channels > 0,
    ;
    assert(0 <= sy * stride) by (nonlinear_arith)
        requires
            0 <= sy,
            stride >= 0,
    ;
    assert(0 <= sx * channels) by (nonlinear_arith)
        requires
            0 <= sx,
            channels >= 0,
    ;
}

proof fn lemma_pixel_of(y: int, x: int, w: int, channels: int, c: int)
    requires
        0 <= y,
        0 <= x < w,
        0 <= c < channels,
    ensures
        ((y * w + x) * channels + c) / channels == y * w + x,
        ((y * w + x) * channels + c) % channels == c,
        (y * w + x) / w == y,
        (y * w + x) % w == x,
{
    assert(((y * w + x) * channels + c) / channels == y * w + x) by (nonlinear_arith)
        requires
            0 <= c < channels,
            y * w + x >= 0,
    ;
    assert(((y * w + x) * channels + c) % channels == c) by (nonlinear_arith)
        requires
            0 <= c < channels,
            y * w + x >= 0,
    ;
    assert((y * w + x) / w == y) by (nonlinear_arith)
        requires
            0 <= x < w,
            0 <= y,
    ;
    assert((y * w + x) % w == x) by (nonlinear_arith)
        requires
            0 <= x < w,
            0 <= y,
    ;
}

/// The actions announced in a `Notify` call, as key and label pairs: the
/// first eight pairs of the flat list, without those whose key is longer
/// than 256 bytes, with labels cut to 128 bytes.
pub open spec fn action_pairs(raw: Seq<Seq<char>>, k: nat) -> Seq<(Seq<char>, Seq<char>)>
    decreases k,
{
    if k == 0 {
        Seq::empty()
    } else {
        let key = raw[2 * k - 2];
        let rest = action_pairs(raw, (k - 1) as nat);
        if utf8_len(key) <= 256 {
            rest.push((key, limit_text(raw[2 * k - 1], 128)))
        } else {
            rest
        }
    }
}

/// How many pairs of the flat action list are considered.
pub open spec fn pair_count(len: nat) -> nat {
    if len / 2 < 8 {
        len / 2
    } else {
        8
    }
}

/// The actions of a `Notify` call.
pub fn actions_of(raw: &Vec<String>) -> (r: Vec<(String, String)>)
    ensures
        r@.map_values(|p: (String, String)| (p.0@, p.1@)) == action_pairs(
            raw@.map_values(|s: String| s@),
            pair_count(raw@.len()),
        ),
{
    let ghost texts = raw@.map_values(|s: String| s@);
    let count: usize = if raw.len() / 2 < 8 {
        raw.len() / 2
    } else {
        8
    };
    let mut out: Vec<(String, String)> = Vec::new();
    let mut k: usize = 0;
    while k < count
        invariant
            texts == raw@.map_values(|s: String| s@),
            count == pair_count(raw@.len()),
            count <= raw@.len() / 2,
            k <= count,
            out@.map_values(|p: (String, String)| (p.0@, p.1@)) == action_pairs(texts, k as nat),
        decreases count - k,
    {
        let key = &raw[2 * k];
        let label = &raw[2 * k + 1];
        assert(texts[2 * k as int] == key@ && texts[2 * k + 1] == label@);
        let ghost before = out@;
        if fits_bytes(key.as_str(), 256) {
            let pair = (crate::text::owned(key.as_str()), limited(label.as_str(), 128));
            out.push(pair);
            assert(out@.map_values(|p: (String, String)| (p.0@, p.1@)) =~= before.map_values(
                |p: (String, String)| (p.0@, p.1@),
            ).push((key@, limit_text(label@, 128))));
        }
        k += 1;
    }
    out
}

/// The expiry timeout of a notification: none for critical urgency (2),
/// else the requested one.
pub fn requested_timeout(urgency: u8, timeout: i32) -> (r: i32)
    ensures
        r == if urgency == 2 {
            0
        } else {
            timeout
        },
{
    if urgency == 2 {
        0
    } else {
        timeout
    }
}

/// The name shown for an application that gave none.
pub open spec fn unnamed_app() -> Seq<char> {
    "Application"@
}

/// The view of a `Notify` call, its identifier still 0: an empty
/// application name becomes "Application", an empty icon falls back to the
/// `image-path` hint, and texts are cut to 128 (application), 1024 (icon),
/// 256 (summary, desktop entry) and 4096 (body) bytes.
pub fn notification_view(
    app: &str,
    icon: &str,
    image_path: Option<&str>,
    summary: &str,
    body: &str,
    raw_actions: &Vec<String>,
    desktop_id: Option<&str>,
    resident: bool,
    transient: bool,
    image: Option<ImageData>,
) -> (r: NotificationView)
    ensures
        r.id == 0,
        r.app@ == limit_text(
            if app@.len() == 0 {
                unnamed_app()
            } else {
                app@
            },
            128,
        ),
        r.icon@ == limit_text(
            match image_path {
                Some(p) if icon@.len() == 0 => p@,
                _ => icon@,
            },
            1024,
        ),
        r.summary@ == limit_text(summary@, 256),
        r.body@ == limit_text(body@, 4096),
        r.actions@.map_values(|p: (String, String)| (p.0@, p.1@)) == action_pairs(
            raw_actions@.map_values(|s: String| s@),
            pair_count(raw_actions@.len()),
        ),
        match desktop_id {
            Some(d) => r.desktop_id matches Some(x) && x@ == limit_text(d@, 256),
            None => r.desktop_id is None,
        },
        r.resident == resident,
        r.transient == transient,
        r.image == image,
{
    let app_name = if app.unicode_len() == 0 {
        "Application"
    } else {
        app
    };
    let icon_name = match image_path {
        Some(p) => if icon.unicode_len() == 0 {
            p
        } else {
            icon
        },
        None => icon,
    };
    let desktop = match desktop_id {
        Some(d) => Some(limited(d, 256)),
        None => None,
    };
    NotificationView {
        id: 0,
        app: limited(app_name, 128),
        icon: limited(icon_name, 1024),
        summary: limited(summary, 256),
        body: limited(body, 4096),
        actions: actions_of(raw_actions),
        desktop_id: desktop,
        resident,
        transient,
        image,
    }
}

proof fn lemma_utf8_len_front(s: Seq<char>)
    requires
        s.len() > 0,
    ensures
        utf8_len(s) == char_width(s[0]) + utf8_len(s.drop_first()),
    decreases s.len(),
{
    if s.len() > 1 {
        lemma_utf8_len_front(s.drop_last());
        assert(s.drop_last().drop_first() =~= s.drop_first().drop_last());
        assert(s.drop_last()[0] == s[0]);
        assert(s.drop_first().last() == s.last());
        assert(utf8_len(s) == utf8_len(s.drop_last()) + char_width(s.last()));
        assert(utf8_len(s.drop_first()) == utf8_len(s.drop_first().drop_last()) + char_width(
            s.drop_first().last(),
        ));
    } else {
        assert(s.drop_first().len() == 0);
        assert(s.drop_last().len() == 0);
        assert(s.last() == s[0]);
        assert(utf8_len(s) == utf8_len(s.drop_last()) + char_width(s.last()));
    }
}

proof fn lemma_fit_count(s: Seq<char>, max: nat)
    ensures
        fit_count(s, max) <= s.len(),
        utf8_len(s.take(fit_count(s, max) as int)) <= max,
        fit_count(s, max) < s.len() ==> utf8_len(s.take(fit_count(s, max) + 1int)) > max,
    decreases s.len(),
{
    let k = fit_count(s, max);
    if s.len() == 0 {
        assert(s.take(0).len() == 0);
    } else if char_width(s[0]) > max {
        assert(s.take(0).len() == 0);
        lemma_utf8_len_front(s.take(1));
        assert(s.take(1)[0] == s[0]);
        assert(s.take(1).drop_first().len() == 0);
    } else {
        let rest = s.drop_first();
        let m = (max - char_width(s[0])) as nat;
        lemma_fit_count(rest, m);
        let j = fit_count(rest, m);
        assert(k == j + 1);
        lemma_utf8_len_front(s.take(k as int));
        assert(s.take(k as int)[0] == s[0]);
        assert(s.take(k as int).drop_first() =~= rest.take(j as int));
        if k < s.len() {
            lemma_utf8_len_front(s.take(k + 1int));
            assert(s.take(k + 1int)[0] == s[0]);
            assert(s.take(k + 1int).drop_first() =~= rest.take(j + 1int));
        }
    }
}

/// Texts of a notification have size limits: a limited text is the
/// longest prefix of the text whose UTF-8 encoding fits the limit, so no
/// character is split.
pub proof fn law_text_limit(s: Seq<char>, max: nat)
    ensures
        s.len() >= limit_text(s, max).len(),
        limit_text(s, max) == s.take(limit_text(s, max).len() as int),
        utf8_len(limit_text(s, max)) <= max,
        limit_text(s, max).len() < s.len() ==> utf8_len(s.take(limit_text(s, max).len() + 1int))
            > max,
{
    lemma_fit_count(s, max);
}

/// Images of a notification have size limits: an accepted image is
/// scaled to between 1 and 64 pixels on each side.
pub proof fn law_image_side_limit(width: int, height: int)
    requires
        0 < width <= 4096,
        0 < height <= 4096,
    ensures
        ({
            let largest = if width > height {
                width
            } else {
                height
            };
            &&& 1 <= scaled_side(width, largest) <= 64
            &&& 1 <= scaled_side(height, largest) <= 64
        }),
{
    let largest = if width > height {
        width
    } else {
        height
    };
    if largest > 64 {
        assert((128 * width + largest) / (2 * largest) <= 64) by (nonlinear_arith)
            requires
                0 < width <= largest,
        ;
        assert((128 * height + largest) / (2 * largest) <= 64) by (nonlinear_arith)
            requires
                0 < height <= largest,
        ;
    }
}

/// The label of an action button: "Open" for an unlabelled default
/// action, else the action's label.
pub open spec fn action_label_spec(key: Seq<char>, label: Seq<char>) -> Seq<char> {
    if label.len() == 0 && key == "default"@ {
        "Open"@
    } else {
        label
    }
}

/// The label of an action button (see [`action_label_spec`]).
pub fn action_label(key: &str, label: &str) -> (r: String)
    ensures
        r@ == action_label_spec(key@, label@),
{
    proof {
        reveal_strlit("default");
    }
    if crate::text::chars_of(label).len() == 0 && crate::text::text_eq(key, "default") {
        crate::text::owned("Open")
    } else {
        crate::text::owned(label)
    }
}

/// What a notification offers besides its text: its action buttons while
/// it is active and has actions, and, once it is no longer active, a
/// button that opens the application that sent it, when the sender named
/// one.
pub fn offered_buttons(view: &NotificationView, active: bool) -> (r: (bool, bool))
    ensures
        r.0 == (active && view.actions@.len() > 0),
        r.1 == (!active && view.desktop_id is Some),
{
    (active && view.actions.len() > 0, !active && view.desktop_id.is_some())
}

/// The label of a notification button: the bell, followed by the number of
/// notifications when there are any.
pub fn button_label(count: usize) -> (r: String)
    ensures
        r@ == if count == 0 {
            "󰂚"@
        } else {
            "󰂚 "@ + crate::text::decimal(count as nat)
        },
{
    if count == 0 {
        crate::text::owned("󰂚")
    } else {
        let mut s = crate::text::owned("󰂚 ");
        let digits = crate::text::decimal_string(count as u128);
        s.append(digits.as_str());
        s
    }
}

/// The tooltip of a notification button.
pub fn button_tooltip(owned: bool) -> (r: &'static str)
    ensures
        r@ == if owned {
            "Notifications"@
        } else {
            "Notification service unavailable or owned by another daemon"@
        },
{
    if owned {
        "Notifications"
    } else {
        "Notification service unavailable or owned by another daemon"
    }
}

/// What closing an active notification leaves in the history: closed by
/// its sender (reason 3), or transient, it is gone and the history is one
/// shorter; closed otherwise (expired, dismissed) it stays, no longer
/// active, and the history keeps its length. No other notification comes
/// or goes.
pub proof fn law_close_outcome(entries: Seq<Entry>, id: u32, reason: u32)
    requires
        unique_ids(entries),
        has_active(entries, id),
    ensures
        ({
            let k = position(entries, id);
            let after = after_close(entries, k, reason);
            &&& (reason == 3 || entries[k].view.transient) ==> !has_id(after, id) && after.len() + 1
                == entries.len()
            &&& !(reason == 3 || entries[k].view.transient) ==> has_id(after, id) && !has_active(
                after,
                id,
            ) && after.len() == entries.len()
            &&& forall|x: u32| x != id ==> (has_id(after, x) <==> has_id(entries, x))
        }),
{
    let k = position(entries, id);
    let after = after_close(entries, k, reason);
    assert(0 <= k < entries.len() && entries[k].view.id == id);
    if reason == 3 || entries[k].view.transient {
        assert(after == entries.remove(k));
        if has_id(after, id) {
            let q = choose|q: int| 0 <= q < after.len() && (#[trigger] after[q]).view.id == id;
            if q < k {
                assert(after[q] == entries[q]);
            } else {
                assert(after[q] == entries[q + 1]);
            }
        }
        assert forall|x: u32| x != id implies (has_id(after, x) <==> has_id(entries, x)) by {
            if has_id(after, x) {
                let q = choose|q: int| 0 <= q < after.len() && (#[trigger] after[q]).view.id == x;
                if q < k {
                    assert(after[q] == entries[q]);
                } else {
                    assert(after[q] == entries[q + 1]);
                }
            }
            if has_id(entries, x) {
                let q = choose|q: int| 0 <= q < entries.len() && (#[trigger] entries[q]).view.id == x;
                assert(q != k);
                if q < k {
                    assert(after[q] == entries[q]);
                } else {
                    assert(after[q - 1] == entries[q]);
                }
            }
        }
    } else {
        assert(after == entries.update(k, closed_entry(entries[k])));
        assert(after[k].view.id == id);
        if has_active(after, id) {
            let q = choose|q: int|
                0 <= q < after.len() && (#[trigger] after[q]).view.id == id && after[q].active;
            assert(q != k);
            assert(after[q] == entries[q]);
        }
        assert forall|x: u32| x != id implies (has_id(after, x) <==> has_id(entries, x)) by {
            if has_id(after, x) {
                let q = choose|q: int| 0 <= q < after.len() && (#[trigger] after[q]).view.id == x;
                assert(after[q].view.id == entries[q].view.id);
            }
            if has_id(entries, x) {
                let q = choose|q: int| 0 <= q < entries.len() && (#[trigger] entries[q]).view.id == x;
                assert(after[q].view.id == entries[q].view.id);
            }
        }
    }
}

/// The history stays within its bounds in every reachable state: at most
/// its capacity of entries, at most [`MAX_POPUPS`] popups, distinct
/// non-zero identifiers, and no popup or timer on a closed entry.
pub proof fn law_history_bounded(h: History)
    requires
        h.wf(),
    ensures
        h.entries_view().len() <= capacity(h.limit_view()),
        popup_count(h.entries_view()) <= MAX_POPUPS,
        unique_ids(h.entries_view()),
        forall|k: int|
            0 <= k < h.entries_view().len() ==> (#[trigger] h.entries_view()[k]).view.id != 0,
        forall|k: int|
            0 <= k < h.entries_view().len() && !(#[trigger] h.entries_view()[k]).active
                ==> !h.entries_view()[k].popup && !h.entries_view()[k].timer,
{
    h.lemma_bounds();
}

impl History {
    proof fn lemma_bounds(&self)
        requires
            self.wf(),
        ensures
            self.entries_view().len() <= capacity(self.limit_view()),
            popup_count(self.entries_view()) <= MAX_POPUPS,
            unique_ids(self.entries_view()),
            forall|k: int|
                0 <= k < self.entries_view().len() ==> (#[trigger] self.entries_view()[k]).view.id
                    != 0,
            forall|k: int|
                0 <= k < self.entries_view().len() && !(#[trigger] self.entries_view()[k]).active
                    ==> !self.entries_view()[k].popup && !self.entries_view()[k].timer,
    {
        reveal(well_formed);
    }
}

} // verus!
