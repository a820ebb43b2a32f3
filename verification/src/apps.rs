//! The application catalog: which desktop entries are listed, under which
//! names, and which of them the user has hidden from the launcher.
//!
//! Desktop files are read and their keys looked up by the caller; the
//! values found are handed over as [`DesktopFields`].

use vstd::prelude::*;
use vstd::string::*;
use crate::order::{is_stable_order, permuted, text_key, text_keys};
use crate::text::{first_where, joined, lines_of, lowercase, opt_view, trimmed};

verus! {

/// A listed application.
#[derive(Clone, Debug)]
pub struct AppEntry {
    pub id: String,
    pub name: String,
    pub icon: String,
    pub comment: String,
    pub exec_line: String,
    pub hidden: bool,
}

/// An [`AppEntry`] with its texts as character sequences.
pub struct AppModel {
    pub id: Seq<char>,
    pub name: Seq<char>,
    pub icon: Seq<char>,
    pub comment: Seq<char>,
    pub exec_line: Seq<char>,
    pub hidden: bool,
}

impl View for AppEntry {
    type V = AppModel;

    open spec fn view(&self) -> AppModel {
        AppModel {
            id: self.id@,
            name: self.name@,
            icon: self.icon@,
            comment: self.comment@,
            exec_line: self.exec_line@,
            hidden: self.hidden,
        }
    }
}

/// The models of a list of entries.
pub open spec fn apps_view(apps: Seq<AppEntry>) -> Seq<AppModel> {
    apps.map_values(|a: AppEntry| a@)
}

/// The keys of a desktop file's `[Desktop Entry]` group that decide its
/// listing, as looked up (for the current locale): a missing or unreadable
/// key is `None`, or `false` for the boolean keys.
#[derive(Clone, Debug)]
pub struct DesktopFields {
    pub kind: Option<String>,
    pub name: Option<String>,
    pub icon: Option<String>,
    pub comment: Option<String>,
    pub exec_line: Option<String>,
    pub hidden: bool,
    pub no_display: bool,
}

/// `s` without any number of trailing copies of `suffix`, as
/// `str::trim_end_matches` leaves it.
pub open spec fn without_suffix(s: Seq<char>, suffix: Seq<char>) -> Seq<char>
    decreases s.len(),
{
    if suffix.len() > 0 && s.len() >= suffix.len() && s.subrange(s.len() - suffix.len(), s.len() as int)
        == suffix {
        without_suffix(s.subrange(0, s.len() - suffix.len()), suffix)
    } else {
        s
    }
}

/// A missing text read as empty.
pub open spec fn or_empty(o: Option<String>) -> Seq<char> {
    match o {
        Some(s) => s@,
        None => Seq::empty(),
    }
}

/// The entry a desktop file lists: none for a file without a desktop
/// group, for a type other than "Application", and for a hidden or
/// no-display entry; the name falls back to the id without ".desktop".
pub open spec fn entry_spec(id: Seq<char>, fields: Option<DesktopFields>, hidden: bool) -> Option<
    AppModel,
> {
    match fields {
        None => None,
        Some(f) => if (f.kind matches Some(k) && k@ != "Application"@) || f.hidden || f.no_display {
            None
        } else {
            Some(
                AppModel {
                    id,
                    name: match f.name {
                        Some(n) => n@,
                        None => without_suffix(id, ".desktop"@),
                    },
                    icon: or_empty(f.icon),
                    comment: or_empty(f.comment),
                    exec_line: or_empty(f.exec_line),
                    hidden,
                },
            )
        },
    }
}

fn strip_suffix_all(s: &str, suffix: &str) -> (r: String)
    ensures
        r@ == without_suffix(s@, suffix@),
{
    let v = crate::text::chars_of(s);
    let x = crate::text::chars_of(suffix);
    let mut end: usize = v.len();
    if x.len() == 0 {
        return crate::text::owned(s);
    }
    assert(v@.take(end as int) =~= v@);
    while end >= x.len() && ends_with_at(&v, end, &x)
        invariant
            v@ == s@,
            x@ == suffix@,
            x@.len() > 0,
            end <= v@.len(),
            without_suffix(s@, suffix@) == without_suffix(v@.take(end as int), suffix@),
        decreases end,
    {
        assert(v@.take(end as int).subrange(end - x@.len(), end as int) =~= v@.subrange(
            end - x@.len(),
            end as int,
        ));
        assert(v@.take(end as int).subrange(0, end - x@.len()) =~= v@.take(end - x@.len()));
        end = end - x.len();
    }
    proof {
        if end >= x@.len() {
            assert(v@.take(end as int).subrange(end - x@.len(), end as int) =~= v@.subrange(
                end - x@.len(),
                end as int,
            ));
        }
    }
    crate::text::string_of(&v.as_slice()[0..end])
}

fn ends_with_at(v: &Vec<char>, end: usize, x: &Vec<char>) -> (r: bool)
    requires
        x@.len() <= end <= v@.len(),
    ensures
        r == (v@.subrange(end - x@.len(), end as int) == x@),
{
    let start = end - x.len();
    let mut k: usize = 0;
    while k < x.len()
        invariant
            x@.len() <= end <= v@.len(),
            start == end - x@.len(),
            k <= x@.len(),
            forall|j: int| 0 <= j < k ==> v@[start + j] == x@[j],
        decreases x@.len() - k,
    {
        if v[start + k] != x[k] {
            assert(v@.subrange(start as int, end as int)[k as int] != x@[k as int]);
            return false;
        }
        k += 1;
    }
    assert(v@.subrange(start as int, end as int) =~= x@);
    true
}

fn text_or_empty(o: &Option<String>) -> (r: String)
    ensures
        r@ == or_empty(*o),
{
    match o {
        Some(s) => crate::text::owned(s.as_str()),
        None => String::new(),
    }
}

/// The entry a desktop file lists (see [`entry_spec`]); `fields` is `None`
/// for a file that is not a key file with a `[Desktop Entry]` group.
pub fn parse_entry(id: &str, fields: Option<&DesktopFields>, hidden: bool) -> (r: Option<AppEntry>)
    ensures
        match r {
            Some(a) => entry_spec(
                id@,
                match fields {
                    Some(f) => Some(*f),
                    None => None,
                },
                hidden,
            ) == Some(a@),
            None => entry_spec(
                id@,
                match fields {
                    Some(f) => Some(*f),
                    None => None,
                },
                hidden,
            ) is None,
        },
{
    let f = match fields {
        Some(f) => f,
        None => return None,
    };
    proof {
        reveal_strlit("Application");
    }
    let other_kind = match &f.kind {
        Some(k) => !crate::text::text_eq(k.as_str(), "Application"),
        None => false,
    };
    if other_kind || f.hidden || f.no_display {
        return None;
    }
    let name = match &f.name {
        Some(n) => crate::text::owned(n.as_str()),
        None => strip_suffix_all(id, ".desktop"),
    };
    Some(
        AppEntry {
            id: crate::text::owned(id),
            name,
            icon: text_or_empty(&f.icon),
            comment: text_or_empty(&f.comment),
            exec_line: text_or_empty(&f.exec_line),
            hidden,
        },
    )
}

/// The texts of a list of strings.
pub open spec fn texts(v: Seq<String>) -> Seq<Seq<char>> {
    v.map_values(|s: String| s@)
}

/// Whether a list of strings holds a text.
pub fn holds_text(list: &Vec<String>, x: &str) -> (r: bool)
    ensures
        r == texts(list@).contains(x@),
{
    let mut i: usize = 0;
    while i < list.len()
        invariant
            i <= list@.len(),
            forall|k: int| 0 <= k < i ==> list@[k]@ != x@,
        decreases list@.len() - i,
    {
        if crate::text::text_eq(list[i].as_str(), x) {
            assert(texts(list@)[i as int] == x@);
            return true;
        }
        i += 1;
    }
    assert forall|k: int| 0 <= k < texts(list@).len() implies texts(list@)[k] != x@ by {
        assert(texts(list@)[k] == list@[k]@);
    }
    false
}

/// Whether the entry at `k` repeats the id of an earlier one.
pub open spec fn id_seen_before(entries: Seq<(String, Option<DesktopFields>)>, k: int) -> bool {
    exists|j: int| 0 <= j < k && entries[j].0@ == entries[k].0@
}

/// The entries listed from the desktop files in order of priority: a file
/// masks every later file of the same id, whether or not it lists an
/// entry; an entry is marked hidden when its id is in `hidden`.
pub open spec fn collected(entries: Seq<(String, Option<DesktopFields>)>, hidden: Set<Seq<char>>) -> Seq<
    AppModel,
>
    decreases entries.len(),
{
    if entries.len() == 0 {
        Seq::empty()
    } else {
        let before = collected(entries.drop_last(), hidden);
        let k = entries.len() - 1;
        if id_seen_before(entries, k) {
            before
        } else {
            match entry_spec(entries[k].0@, entries[k].1, hidden.contains(entries[k].0@)) {
                Some(a) => before.push(a),
                None => before,
            }
        }
    }
}

/// The entries listed from the desktop files (see [`collected`]).
pub fn collect_entries(entries: &Vec<(String, Option<DesktopFields>)>, hidden: &Vec<String>) -> (r:
    Vec<AppEntry>)
    ensures
        apps_view(r@) == collected(entries@, texts(hidden@).to_set()),
{
    let ghost hs = texts(hidden@).to_set();
    let mut seen: Vec<String> = Vec::new();
    let mut apps: Vec<AppEntry> = Vec::new();
    let mut i: usize = 0;
    assert(apps_view(apps@) =~= collected(entries@.take(0), hs));
    while i < entries.len()
        invariant
            hs == texts(hidden@).to_set(),
            i <= entries@.len(),
            apps_view(apps@) == collected(entries@.take(i as int), hs),
            forall|x: Seq<char>|
                texts(seen@).contains(x) <==> exists|j: int| 0 <= j < i && #[trigger] entries@[j].0@ == x,
        decreases entries@.len() - i,
    {
        let ghost before = apps_view(apps@);
        let ghost pre = entries@.take(i + 1);
        assert(pre.drop_last() =~= entries@.take(i as int));
        assert(pre[i as int] == entries@[i as int]);
        let id = &entries[i].0;
        let ghost old_seen = texts(seen@);
        let repeated = holds_text(&seen, id.as_str());
        assert(repeated == id_seen_before(pre, i as int)) by {
            if repeated {
                let j = choose|j: int| 0 <= j < i && #[trigger] entries@[j].0@ == id@;
                assert(pre[j] == entries@[j]);
            }
            if id_seen_before(pre, i as int) {
                let j = choose|j: int| 0 <= j < i && pre[j].0@ == pre[i as int].0@;
                assert(pre[j] == entries@[j]);
                assert(texts(seen@).contains(id@));
            }
        }
        if !repeated {
            let marked = holds_text(hidden, id.as_str());
            assert(marked == hs.contains(id@));
            let fields = match &entries[i].1 {
                Some(f) => Some(f),
                None => None,
            };
            match parse_entry(id.as_str(), fields, marked) {
                Some(app) => {
                    apps.push(app);
                    assert(apps_view(apps@) =~= before.push(app@));
                },
                None => {},
            }
            seen.push(crate::text::owned(id.as_str()));
            assert(texts(seen@) =~= old_seen.push(id@));
        }
        assert forall|x: Seq<char>|
            texts(seen@).contains(x) <==> exists|j: int|
                0 <= j < i + 1 && #[trigger] entries@[j].0@ == x by {
            if old_seen.contains(x) {
                let k = choose|k: int| 0 <= k < old_seen.len() && old_seen[k] == x;
                assert(texts(seen@)[k] == x);
                let j = choose|j: int| 0 <= j < i && #[trigger] entries@[j].0@ == x;
                assert(0 <= j < i + 1 && entries@[j].0@ == x);
            } else if x == id@ {
                if !repeated {
                    assert(texts(seen@)[old_seen.len() as int] == x);
                }
                assert(entries@[i as int].0@ == x);
            } else {
                if texts(seen@).contains(x) {
                    let k = choose|k: int| 0 <= k < texts(seen@).len() && texts(seen@)[k] == x;
                    if k < old_seen.len() {
                        assert(old_seen[k] == x);
                    }
                }
                assert forall|j: int| 0 <= j < i + 1 implies #[trigger] entries@[j].0@ != x by {
                    if j < i && entries@[j].0@ == x {
                        assert(exists|j: int| 0 <= j < i && #[trigger] entries@[j].0@ == x);
                    }
                }
            }
        }
        i += 1;
    }
    assert(entries@.take(entries@.len() as int) =~= entries@);
    apps
}

/// Entries are listed by lowercase name.
pub open spec fn app_keys(apps: Seq<AppModel>) -> Seq<Seq<u32>> {
    apps.map_values(|a: AppModel| text_key(lowercase(a.name)))
}

/// The catalog from the desktop files in order of priority: the
/// [`collected`] entries stably sorted by lowercase name.
pub fn load_apps(entries: &Vec<(String, Option<DesktopFields>)>, hidden: &Vec<String>) -> (r: Vec<
    AppEntry,
>)
    ensures
        exists|order: Seq<usize>|
            #[trigger] is_stable_order(
                app_keys(collected(entries@, texts(hidden@).to_set())),
                order,
            ) && apps_view(r@) == permuted(collected(entries@, texts(hidden@).to_set()), order),
{
    let apps = collect_entries(entries, hidden);
    let ghost av = apps_view(apps@);
    let mut keys: Vec<Vec<u32>> = Vec::new();
    let mut i: usize = 0;
    while i < apps.len()
        invariant
            i <= apps@.len(),
            keys@.len() == i,
            forall|k: int|
                0 <= k < i ==> (#[trigger] keys@[k])@ == text_key(lowercase(apps@[k].name@)),
        decreases apps@.len() - i,
    {
        let lower = crate::text::to_lowercase(apps[i].name.as_str());
        keys.push(crate::order::key_of_text(lower.as_str()));
        i += 1;
    }
    assert(keys@.map_values(|k: Vec<u32>| k@) =~= app_keys(av));
    let order = crate::order::stable_order(&keys);
    let r = crate::order::apply_order(apps, &order);
    assert(apps_view(r@) =~= permuted(av, order@));
    r
}

/// The test for an entry with an id.
pub open spec fn with_id(id: Seq<char>) -> spec_fn(AppModel) -> bool {
    |a: AppModel| a.id == id
}

/// Whether some entry has the id `x`.
pub open spec fn known(apps: Seq<AppModel>, x: Seq<char>) -> bool {
    exists|i: int| 0 <= i < apps.len() && #[trigger] apps[i].id == x
}

/// Whether, among the first `n` entries, one with id `x` is to be hidden:
/// the toggled id when its entry (`target_hidden`) is shown, any other id
/// when its entry is hidden.
pub open spec fn hidden_among(
    apps: Seq<AppModel>,
    id: Seq<char>,
    target_hidden: bool,
    n: int,
    x: Seq<char>,
) -> bool {
    exists|j: int|
        0 <= j < n && #[trigger] apps[j].id == x && (if x == id {
            !target_hidden
        } else {
            apps[j].hidden
        })
}

/// The hidden ids after toggling `id`: the listed ids that are hidden,
/// with `id` flipped, plus the persisted ids of entries no longer listed;
/// nothing when no entry has `id`.
pub open spec fn toggled_spec(apps: Seq<AppModel>, id: Seq<char>, persisted: Set<Seq<char>>) -> Option<
    Set<Seq<char>>,
> {
    match first_where(apps, with_id(id)) {
        None => None,
        Some(t) => Some(
            Set::new(
                |x: Seq<char>|
                    hidden_among(apps, id, apps[t].hidden, apps.len() as int, x) || (persisted.contains(
                        x,
                    ) && !known(apps, x)),
            ),
        ),
    }
}

proof fn lemma_push_text(old: Seq<Seq<char>>, new: Seq<Seq<char>>, y: Seq<char>, pushed: bool)
    requires
        pushed ==> new == old.push(y),
        !pushed ==> new == old,
        pushed ==> !old.contains(y),
        old.no_duplicates(),
    ensures
        forall|x: Seq<char>| new.contains(x) <==> (old.contains(x) || (pushed && x == y)),
        new.no_duplicates(),
{
    if pushed {
        assert forall|x: Seq<char>| new.contains(x) <==> (old.contains(x) || x == y) by {
            if old.contains(x) {
                let k = choose|k: int| 0 <= k < old.len() && old[k] == x;
                assert(new[k] == x);
            }
            if x == y {
                assert(new[old.len() as int] == x);
            }
            if new.contains(x) {
                let k = choose|k: int| 0 <= k < new.len() && new[k] == x;
                if k < old.len() {
                    assert(old[k] == x);
                }
            }
        }
        assert forall|a: int, b: int| 0 <= a < b < new.len() implies new[a] != new[b] by {
            if b == old.len() {
                assert(old[a] == new[a]);
            }
        }
    }
}

fn app_known(apps: &[AppEntry], x: &str) -> (r: bool)
    ensures
        r == known(apps_view(apps@), x@),
{
    let ghost av = apps_view(apps@);
    let mut i: usize = 0;
    while i < apps.len()
        invariant
            av == apps_view(apps@),
            i <= apps@.len(),
            forall|k: int| 0 <= k < i ==> av[k].id != x@,
        decreases apps@.len() - i,
    {
        assert(av[i as int] == apps@[i as int]@);
        if crate::text::text_eq(apps[i].id.as_str(), x) {
            assert(av[i as int].id == x@);
            return true;
        }
        i += 1;
    }
    false
}

fn position_of_id(apps: &[AppEntry], id: &str) -> (r: Option<usize>)
    ensures
        match r {
            Some(t) => first_where(apps_view(apps@), with_id(id@)) == Some(t as int),
            None => first_where(apps_view(apps@), with_id(id@)) is None,
        },
{
    let ghost av = apps_view(apps@);
    let ghost p = with_id(id@);
    let mut t: usize = 0;
    while t < apps.len()
        invariant
            av == apps_view(apps@),
            p == with_id(id@),
            t <= apps@.len(),
            forall|k: int| 0 <= k < t ==> !p(#[trigger] av[k]),
        decreases apps@.len() - t,
    {
        assert(av[t as int] == apps@[t as int]@);
        if crate::text::text_eq(apps[t].id.as_str(), id) {
            proof {
                crate::text::lemma_first_where(av, p, t as int);
            }
            return Some(t);
        }
        t += 1;
    }
    proof {
        crate::text::lemma_first_where(av, p, t as int);
    }
    None
}

/// The hidden ids after toggling the visibility of `id` (see
/// [`toggled_spec`]); `persisted` holds the ids read from the hidden-apps
/// file. Each id is listed once.
pub fn toggled_hidden(apps: &[AppEntry], id: &str, persisted: Vec<String>) -> (r: Option<Vec<String>>)
    ensures
        match r {
            None => toggled_spec(apps_view(apps@), id@, texts(persisted@).to_set()) is None,
            Some(v) => toggled_spec(apps_view(apps@), id@, texts(persisted@).to_set()) == Some(
                texts(v@).to_set(),
            ) && texts(v@).no_duplicates(),
        },
{
    let ghost av = apps_view(apps@);
    let ghost p = with_id(id@);
    // The entry whose visibility is toggled.
    let t = match position_of_id(apps, id) {
        Some(t) => t,
        None => return None,
    };
    proof {
        crate::text::lemma_first_where_found(av, p);
    }
    assert(av[t as int] == apps@[t as int]@);
    let target_hidden = apps[t].hidden;
    let mut hidden: Vec<String> = Vec::new();
    let mut i: usize = 0;
    while i < apps.len()
        invariant
            av == apps_view(apps@),
            target_hidden == av[t as int].hidden,
            i <= apps@.len(),
            texts(hidden@).no_duplicates(),
            forall|x: Seq<char>|
                texts(hidden@).contains(x) <==> hidden_among(av, id@, target_hidden, i as int, x),
        decreases apps@.len() - i,
    {
        assert(av[i as int] == apps@[i as int]@);
        let app_id = apps[i].id.as_str();
        let selected = if crate::text::text_eq(app_id, id) {
            !target_hidden
        } else {
            apps[i].hidden
        };
        let ghost old = texts(hidden@);
        let present = holds_text(&hidden, app_id);
        let pushed = selected && !present;
        if pushed {
            hidden.push(crate::text::owned(app_id));
            assert(texts(hidden@) =~= old.push(app_id@));
        }
        proof {
            lemma_push_text(old, texts(hidden@), app_id@, pushed);
            assert forall|x: Seq<char>|
                texts(hidden@).contains(x) <==> hidden_among(av, id@, target_hidden, i + 1, x) by {
                if hidden_among(av, id@, target_hidden, i + 1, x) && !hidden_among(
                    av,
                    id@,
                    target_hidden,
                    i as int,
                    x,
                ) {
                    let j = choose|j: int|
                        0 <= j < i + 1 && #[trigger] av[j].id == x && (if x == id@ {
                            !target_hidden
                        } else {
                            av[j].hidden
                        });
                    assert(j == i);
                }
                if hidden_among(av, id@, target_hidden, i as int, x) {
                    let j = choose|j: int|
                        0 <= j < i && #[trigger] av[j].id == x && (if x == id@ {
                            !target_hidden
                        } else {
                            av[j].hidden
                        });
                    assert(0 <= j < i + 1 && av[j].id == x);
                }
                if selected && x == app_id@ {
                    assert(av[i as int].id == x);
                }
            }
        }
        i += 1;
    }
    let ghost listed = texts(hidden@);
    let mut k: usize = 0;
    while k < persisted.len()
        invariant
            av == apps_view(apps@),
            target_hidden == av[t as int].hidden,
            k <= persisted@.len(),
            texts(hidden@).no_duplicates(),
            forall|x: Seq<char>|
                #![trigger texts(hidden@).contains(x)]
                texts(hidden@).contains(x) <==> (hidden_among(
                    av,
                    id@,
                    target_hidden,
                    apps@.len() as int,
                    x,
                ) || (exists|q: int| 0 <= q < k && #[trigger] persisted@[q]@ == x) && !known(av, x)),
        decreases persisted@.len() - k,
    {
        let item = persisted[k].as_str();
        let ghost old = texts(hidden@);
        let unknown = !app_known(apps, item);
        let present = holds_text(&hidden, item);
        let pushed = unknown && !present;
        if pushed {
            hidden.push(crate::text::owned(item));
            assert(texts(hidden@) =~= old.push(item@));
        }
        proof {
            lemma_push_text(old, texts(hidden@), item@, pushed);
            assert forall|x: Seq<char>|
                #![trigger texts(hidden@).contains(x)]
                texts(hidden@).contains(x) <==> (hidden_among(
                    av,
                    id@,
                    target_hidden,
                    apps@.len() as int,
                    x,
                ) || (exists|q: int| 0 <= q < k + 1 && #[trigger] persisted@[q]@ == x) && !known(
                    av,
                    x,
                )) by {
                let h = hidden_among(av, id@, target_hidden, apps@.len() as int, x);
                let e_old = exists|q: int| 0 <= q < k && #[trigger] persisted@[q]@ == x;
                let e_new = exists|q: int| 0 <= q < k + 1 && #[trigger] persisted@[q]@ == x;
                assert(e_new == (e_old || x == item@)) by {
                    if e_new {
                        let q = choose|q: int| 0 <= q < k + 1 && #[trigger] persisted@[q]@ == x;
                        if q < k {
                            assert(e_old);
                        }
                    }
                    if e_old {
                        let q = choose|q: int| 0 <= q < k && #[trigger] persisted@[q]@ == x;
                        assert(0 <= q < k + 1 && persisted@[q]@ == x);
                    }
                    if x == item@ {
                        assert(persisted@[k as int]@ == x);
                    }
                }
                assert(old.contains(x) == (h || (e_old && !known(av, x))));
                assert(texts(hidden@).contains(x) == (old.contains(x) || (pushed && x == item@)));
                if x == item@ {
                    assert(present == old.contains(x));
                    assert(unknown == !known(av, x));
                }
            }
        }
        k += 1;
    }
    proof {
        let ps = texts(persisted@).to_set();
        let spec = Set::new(
            |x: Seq<char>|
                hidden_among(av, id@, av[t as int].hidden, av.len() as int, x) || (ps.contains(x)
                    && !known(av, x)),
        );
        assert forall|x: Seq<char>| #[trigger] texts(hidden@).to_set().contains(x) == spec.contains(
            x,
        ) by {
            if ps.contains(x) {
                let q = choose|q: int| 0 <= q < texts(persisted@).len() && texts(persisted@)[q] == x;
                assert(persisted@[q]@ == x);
            }
            if exists|q: int| 0 <= q < persisted@.len() && #[trigger] persisted@[q]@ == x {
                let q = choose|q: int| 0 <= q < persisted@.len() && #[trigger] persisted@[q]@ == x;
                assert(texts(persisted@)[q] == x);
            }
        }
        assert(texts(hidden@).to_set() =~= spec);
    }
    Some(hidden)
}

/// Whether a line of the hidden-apps file names an id: not blank, not a
/// `#` comment.
pub open spec fn names_id(line: Seq<char>) -> bool {
    trimmed(line).len() > 0 && trimmed(line)[0] != '#'
}

/// The ids that the hidden-apps file lists: its trimmed lines, without
/// blank lines and comments.
pub open spec fn hidden_ids(contents: Seq<char>) -> Set<Seq<char>> {
    Set::new(
        |x: Seq<char>|
            exists|i: int|
                0 <= i < lines_of(contents).len() && names_id(#[trigger] lines_of(contents)[i])
                    && trimmed(lines_of(contents)[i]) == x,
    )
}

/// The ids that the hidden-apps file lists (see [`hidden_ids`]), each
/// once.
pub fn parse_hidden(contents: &str) -> (r: Vec<String>)
    ensures
        texts(r@).to_set() == hidden_ids(contents@),
        texts(r@).no_duplicates(),
{
    let ls = crate::text::lines(contents);
    let ghost lv = lines_of(contents@);
    let mut ids: Vec<String> = Vec::new();
    let mut i: usize = 0;
    while i < ls.len()
        invariant
            ls@.map_values(|l: String| l@) == lv,
            lv == lines_of(contents@),
            i <= ls@.len(),
            texts(ids@).no_duplicates(),
            forall|x: Seq<char>|
                #![trigger texts(ids@).contains(x)]
                texts(ids@).contains(x) <==> exists|j: int|
                    0 <= j < i && names_id(#[trigger] lv[j]) && trimmed(lv[j]) == x,
        decreases ls@.len() - i,
    {
        assert(lv[i as int] == ls@[i as int]@);
        let line = crate::text::trim(ls[i].as_str());
        let v = crate::text::chars_of(line.as_str());
        let ghost old = texts(ids@);
        let wanted = v.len() > 0 && v[0] != '#';
        let present = holds_text(&ids, line.as_str());
        let pushed = wanted && !present;
        if pushed {
            ids.push(line);
            assert(texts(ids@) =~= old.push(trimmed(lv[i as int])));
        }
        proof {
            lemma_push_text(old, texts(ids@), trimmed(lv[i as int]), pushed);
            assert forall|x: Seq<char>|
                #![trigger texts(ids@).contains(x)]
                texts(ids@).contains(x) <==> exists|j: int|
                    0 <= j < i + 1 && names_id(#[trigger] lv[j]) && trimmed(lv[j]) == x by {
                let e_old = exists|j: int|
                    0 <= j < i && names_id(#[trigger] lv[j]) && trimmed(lv[j]) == x;
                let e_new = exists|j: int|
                    0 <= j < i + 1 && names_id(#[trigger] lv[j]) && trimmed(lv[j]) == x;
                assert(e_new == (e_old || (wanted && x == trimmed(lv[i as int])))) by {
                    if e_new {
                        let j = choose|j: int|
                            0 <= j < i + 1 && names_id(#[trigger] lv[j]) && trimmed(lv[j]) == x;
                        if j < i {
                            assert(e_old);
                        }
                    }
                    if e_old {
                        let j = choose|j: int|
                            0 <= j < i && names_id(#[trigger] lv[j]) && trimmed(lv[j]) == x;
                        assert(0 <= j < i + 1 && names_id(lv[j]));
                    }
                    if wanted && x == trimmed(lv[i as int]) {
                        assert(names_id(lv[i as int]));
                    }
                }
                assert(old.contains(x) == e_old);
            }
        }
        i += 1;
    }
    proof {
        assert(texts(ids@).to_set() =~= hidden_ids(contents@));
    }
    ids
}

/// The text of the hidden-apps file for ids in order: one per line, with
/// a final line break; empty for no ids.
pub open spec fn hidden_body_spec(ids: Seq<Seq<char>>) -> Seq<char> {
    if ids.len() == 0 {
        Seq::empty()
    } else {
        joined(ids, "\n"@) + "\n"@
    }
}

/// The text of the hidden-apps file: the ids sorted (see
/// [`hidden_body_spec`]).
pub fn hidden_file_body(hidden: &Vec<String>) -> (r: String)
    ensures
        exists|order: Seq<usize>|
            #[trigger] is_stable_order(text_keys(texts(hidden@)), order)
                && r@ == hidden_body_spec(permuted(texts(hidden@), order)),
{
    let mut keys: Vec<Vec<u32>> = Vec::new();
    let mut i: usize = 0;
    while i < hidden.len()
        invariant
            i <= hidden@.len(),
            keys@.len() == i,
            forall|k: int| 0 <= k < i ==> (#[trigger] keys@[k])@ == text_key(hidden@[k]@),
        decreases hidden@.len() - i,
    {
        keys.push(crate::order::key_of_text(hidden[i].as_str()));
        i += 1;
    }
    assert(keys@.map_values(|k: Vec<u32>| k@) =~= text_keys(texts(hidden@)));
    let order = crate::order::stable_order(&keys);
    let mut sorted: Vec<String> = Vec::new();
    let mut k: usize = 0;
    while k < order.len()
        invariant
            crate::order::is_permutation(order@, hidden@.len()),
            k <= order@.len(),
            sorted@.len() == k,
            forall|j: int| 0 <= j < k ==> (#[trigger] sorted@[j])@ == hidden@[order@[j] as int]@,
        decreases order@.len() - k,
    {
        sorted.push(crate::text::owned(hidden[order[k]].as_str()));
        k += 1;
    }
    assert(texts(sorted@) =~= permuted(texts(hidden@), order@));
    let mut body = crate::text::join(&sorted, "\n");
    if sorted.len() > 0 {
        body.append("\n");
    } else {
        assert(body@ =~= Seq::<char>::empty());
    }
    body
}

/// An id that the hidden-apps file can hold: not empty, without
/// surrounding white space, not read as a comment, and on one line.
pub open spec fn storable_id(id: Seq<char>) -> bool {
    &&& id.len() > 0
    &&& trimmed(id) == id
    &&& id[0] != '#'
    &&& !id.contains('\n')
}

/// Reading the hidden-apps file back gives the ids it was written from,
/// in whatever order they were written.
pub proof fn law_hidden_file_round_trip(ids: Seq<Seq<char>>, order: Seq<usize>)
    requires
        is_stable_order(text_keys(ids), order),
        forall|i: int| 0 <= i < ids.len() ==> storable_id(#[trigger] ids[i]),
    ensures
        hidden_ids(hidden_body_spec(permuted(ids, order))) == ids.to_set(),
{
    let parts = permuted(ids, order);
    let body = hidden_body_spec(parts);
    assert(text_keys(ids).len() == ids.len());
    if ids.len() == 0 {
        assert(body =~= Seq::<char>::empty());
        assert(crate::text::split_char(body, '\n') =~= seq![Seq::<char>::empty()]);
        assert(lines_of(body).len() == 0);
        assert(hidden_ids(body) =~= Set::<Seq<char>>::empty());
        assert(ids.to_set() =~= Set::<Seq<char>>::empty());
    } else {
        assert forall|i: int| 0 <= i < parts.len() implies storable_id(#[trigger] parts[i]) by {
            assert(parts[i] == ids[order[i] as int]);
        }
        assert forall|i: int|
            0 <= i < parts.len() implies !(#[trigger] parts[i]).contains('\n') && (parts[i].len()
                == 0 || parts[i].last() != '\r') by {
            assert(storable_id(parts[i]));
            crate::text::lemma_trimmed_fixed(parts[i]);
        }
        crate::text::lemma_lines_of_joined(parts);
        assert(lines_of(body) == parts);
        assert forall|x: Seq<char>| #[trigger]
            hidden_ids(body).contains(x) <==> ids.to_set().contains(x) by {
            if hidden_ids(body).contains(x) {
                let i = choose|i: int|
                    0 <= i < lines_of(body).len() && names_id(#[trigger] lines_of(body)[i])
                        && trimmed(lines_of(body)[i]) == x;
                assert(storable_id(parts[i]));
                assert(ids[order[i] as int] == x);
                assert(ids.contains(x));
            }
            if ids.to_set().contains(x) {
                let j = choose|j: int| 0 <= j < ids.len() && ids[j] == x;
                crate::order::lemma_permutation_onto(order, ids.len(), j);
                let i = choose|i: int| 0 <= i < order.len() && order[i] == j;
                assert(parts[i] == x);
                assert(storable_id(parts[i]));
                assert(names_id(lines_of(body)[i]));
            }
        }
        assert(hidden_ids(body) =~= ids.to_set());
    }
}

/// Toggling flips the visibility of the toggled id and of nothing else:
/// the id is hidden afterwards exactly when its entry was shown, every
/// other listed id keeps the state of its entries, and the persisted ids
/// of entries no longer listed are kept as they were.
pub proof fn law_toggle_flips_only_the_id(
    apps: Seq<AppModel>,
    id: Seq<char>,
    persisted: Set<Seq<char>>,
)
    requires
        known(apps, id),
    ensures
        toggled_spec(apps, id, persisted) is Some,
        ({
            let s = toggled_spec(apps, id, persisted)->0;
            let t = first_where(apps, with_id(id))->0;
            &&& s.contains(id) == !apps[t].hidden
            &&& forall|x: Seq<char>|
                x != id && known(apps, x) ==> (#[trigger] s.contains(x) <==> exists|i: int|
                    0 <= i < apps.len() && apps[i].id == x && apps[i].hidden)
            &&& forall|x: Seq<char>| !known(apps, x) ==> (#[trigger] s.contains(x) == persisted.contains(x))
        }),
{
    crate::text::lemma_first_where_found(apps, with_id(id));
    let i = choose|i: int| 0 <= i < apps.len() && #[trigger] apps[i].id == id;
    if first_where(apps, with_id(id)) is None {
        assert(!with_id(id)(apps[i]));
    }
    let t = first_where(apps, with_id(id))->0;
    let s = toggled_spec(apps, id, persisted)->0;
    assert(s.contains(id) == !apps[t].hidden) by {
        assert(apps[t].id == id);
        if !apps[t].hidden {
            assert(hidden_among(apps, id, apps[t].hidden, apps.len() as int, id));
        }
    }
    assert forall|x: Seq<char>| !known(apps, x) implies (#[trigger] s.contains(x) == persisted.contains(x)) by {
        if hidden_among(apps, id, apps[t].hidden, apps.len() as int, x) {
            let j = choose|j: int|
                0 <= j < apps.len() && #[trigger] apps[j].id == x && (if x == id {
                    !apps[t].hidden
                } else {
                    apps[j].hidden
                });
            assert(known(apps, x));
        }
    }
}

} // verus!
