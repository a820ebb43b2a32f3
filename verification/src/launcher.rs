//! The launcher's search, ordering of applications and keyboard
//! navigation.

use vstd::prelude::*;
use std::cmp::Ordering;
use crate::order::{lex_lt, text_key};
use crate::apps::AppEntry;
use crate::fuzzy::fuzzy_i64;
use crate::text::{lowercase, trimmed};

verus! {

/// Whether the launcher starts applications or hides and shows them.
#[derive(Clone, Copy, Debug, PartialEq, Eq, Structural)]
pub enum LauncherMode {
    Normal,
    Manage,
}

/// The value stored under a key in an association list: the first pair
/// with that key.
pub open spec fn lookup<V>(pairs: Seq<(String, V)>, key: Seq<char>) -> Option<V>
    decreases pairs.len(),
{
    if pairs.len() == 0 {
        None
    } else if pairs[0].0@ == key {
        Some(pairs[0].1)
    } else {
        lookup(pairs.drop_first(), key)
    }
}

/// Three-way comparison of integers: -1, 0 or 1.
pub open spec fn compare_int(a: int, b: int) -> int {
    if a < b {
        -1
    } else if a > b {
        1
    } else {
        0
    }
}

/// Three-way comparison of texts in code-point order.
pub open spec fn compare_text(a: Seq<char>, b: Seq<char>) -> int {
    if lex_lt(text_key(a), text_key(b)) {
        -1
    } else if lex_lt(text_key(b), text_key(a)) {
        1
    } else {
        0
    }
}

/// Three-way comparison of optional values, a missing one first.
pub open spec fn compare_option_int(a: Option<int>, b: Option<int>) -> int {
    match (a, b) {
        (None, None) => 0,
        (None, Some(_)) => -1,
        (Some(_), None) => 1,
        (Some(x), Some(y)) => compare_int(x, y),
    }
}

/// Three-way comparison of optional texts, a missing one first.
pub open spec fn compare_option_text(a: Option<Seq<char>>, b: Option<Seq<char>>) -> int {
    match (a, b) {
        (None, None) => 0,
        (None, Some(_)) => -1,
        (Some(_), None) => 1,
        (Some(x), Some(y)) => compare_text(x, y),
    }
}

/// The first non-zero comparison.
pub open spec fn then(first: int, second: int) -> int {
    if first != 0 {
        first
    } else {
        second
    }
}

/// The score of an id, if it has one.
pub open spec fn score_of(scores: Seq<(String, i64)>, id: Seq<char>) -> Option<int> {
    match lookup(scores, id) {
        Some(s) => Some(s as int),
        None => None,
    }
}

/// The launch count of an id, 0 when it has none.
pub open spec fn count_of(counts: Seq<(String, u64)>, id: Seq<char>) -> int {
    match lookup(counts, id) {
        Some(c) => c as int,
        None => 0,
    }
}

/// The name of an id, if it has one.
pub open spec fn name_of(names: Seq<(String, (String, String))>, id: Seq<char>) -> Option<Seq<char>> {
    match lookup(names, id) {
        Some(n) => Some(n.0@),
        None => None,
    }
}

/// How two applications are ordered in the launcher (negative: `a`
/// first): while searching by falling score, in normal mode by falling
/// launch count, then by name, then by id.
pub open spec fn app_order(
    a: Seq<char>,
    b: Seq<char>,
    scores: Seq<(String, i64)>,
    names: Seq<(String, (String, String))>,
    counts: Seq<(String, u64)>,
    mode: LauncherMode,
    searching: bool,
) -> int {
    let by_score = if searching {
        compare_option_int(score_of(scores, b), score_of(scores, a))
    } else {
        0
    };
    let by_count = if mode == LauncherMode::Normal {
        compare_int(count_of(counts, b), count_of(counts, a))
    } else {
        0
    };
    then(
        by_score,
        then(by_count, then(compare_option_text(name_of(names, a), name_of(names, b)), compare_text(a, b))),
    )
}

/// The sign of an ordering.
pub open spec fn ordering_sign(o: Ordering) -> int {
    match o {
        Ordering::Less => -1,
        Ordering::Equal => 0,
        Ordering::Greater => 1,
    }
}

fn find_pair<V: Copy>(pairs: &Vec<(String, V)>, key: &str) -> (r: Option<V>)
    ensures
        r == lookup(pairs@, key@),
{
    let mut i: usize = 0;
    assert(pairs@.skip(0) =~= pairs@);
    while i < pairs.len()
        invariant
            i <= pairs@.len(),
            lookup(pairs@, key@) == lookup(pairs@.skip(i as int), key@),
        decreases pairs@.len() - i,
    {
        assert(pairs@.skip(i as int).drop_first() =~= pairs@.skip(i + 1));
        assert(pairs@.skip(i as int)[0] == pairs@[i as int]);
        if crate::text::text_eq(pairs[i].0.as_str(), key) {
            return Some(pairs[i].1);
        }
        i += 1;
    }
    assert(pairs@.skip(i as int).len() == 0);
    None
}

fn find_name<'a>(names: &'a Vec<(String, (String, String))>, key: &str) -> (r: Option<&'a str>)
    ensures
        match r {
            Some(n) => name_of(names@, key@) == Some(n@),
            None => name_of(names@, key@) is None,
        },
{
    let mut i: usize = 0;
    assert(names@.skip(0) =~= names@);
    while i < names.len()
        invariant
            i <= names@.len(),
            lookup(names@, key@) == lookup(names@.skip(i as int), key@),
        decreases names@.len() - i,
    {
        assert(names@.skip(i as int).drop_first() =~= names@.skip(i + 1));
        assert(names@.skip(i as int)[0] == names@[i as int]);
        if crate::text::text_eq(names[i].0.as_str(), key) {
            return Some(names[i].1.0.as_str());
        }
        i += 1;
    }
    assert(names@.skip(i as int).len() == 0);
    None
}

fn compare_texts(a: &str, b: &str) -> (r: i8)
    ensures
        r == compare_text(a@, b@),
{
    if crate::order::text_less(a, b) {
        -1
    } else if crate::order::text_less(b, a) {
        1
    } else {
        0
    }
}

fn compare_values(a: i128, b: i128) -> (r: i8)
    ensures
        r == compare_int(a as int, b as int),
{
    if a < b {
        -1
    } else if a > b {
        1
    } else {
        0
    }
}

fn app_order_value(
    a_id: &str,
    b_id: &str,
    scores: &Vec<(String, i64)>,
    names: &Vec<(String, (String, String))>,
    counts: &Vec<(String, u64)>,
    mode: LauncherMode,
    searching: bool,
) -> (r: i8)
    ensures
        r == app_order(a_id@, b_id@, scores@, names@, counts@, mode, searching),
{
    let by_score: i8 = if searching {
        match (find_pair(scores, b_id), find_pair(scores, a_id)) {
            (None, None) => 0,
            (None, Some(_)) => -1,
            (Some(_), None) => 1,
            (Some(x), Some(y)) => compare_values(x as i128, y as i128),
        }
    } else {
        0
    };
    if by_score != 0 {
        return by_score;
    }
    let by_count: i8 = if mode == LauncherMode::Normal {
        let cb: u64 = match find_pair(counts, b_id) {
            Some(c) => c,
            None => 0,
        };
        let ca: u64 = match find_pair(counts, a_id) {
            Some(c) => c,
            None => 0,
        };
        compare_values(cb as i128, ca as i128)
    } else {
        0
    };
    if by_count != 0 {
        return by_count;
    }
    let by_name: i8 = match (find_name(names, a_id), find_name(names, b_id)) {
        (None, None) => 0,
        (None, Some(_)) => -1,
        (Some(_), None) => 1,
        (Some(x), Some(y)) => compare_texts(x, y),
    };
    if by_name != 0 {
        return by_name;
    }
    compare_texts(a_id, b_id)
}

/// How two applications are ordered in the launcher (see [`app_order`]);
/// the score, name and launch-count tables are keyed by application id.
pub fn compare_apps(
    a_id: &str,
    b_id: &str,
    scores: &Vec<(String, i64)>,
    names: &Vec<(String, (String, String))>,
    counts: &Vec<(String, u64)>,
    mode: LauncherMode,
    searching: bool,
) -> (r: Ordering)
    ensures
        ordering_sign(r) == app_order(a_id@, b_id@, scores@, names@, counts@, mode, searching),
{
    let v = app_order_value(a_id, b_id, scores, names, counts, mode, searching);
    if v < 0 {
        Ordering::Less
    } else if v > 0 {
        Ordering::Greater
    } else {
        Ordering::Equal
    }
}

/// A launcher row as text: the application's id, with its lowercased
/// name and id.
pub open spec fn row_view(row: (String, (String, String))) -> (Seq<char>, (Seq<char>, Seq<char>)) {
    (row.0@, (row.1.0@, row.1.1@))
}

/// The rows of a list, as text.
pub open spec fn rows_view(rows: Seq<(String, (String, String))>) -> Seq<
    (Seq<char>, (Seq<char>, Seq<char>)),
> {
    rows.map_values(|row: (String, (String, String))| row_view(row))
}

/// The launcher's rows, in catalog order: every application in manage
/// mode, only the shown ones otherwise; each keyed by its id, with its
/// name and id lowercased for searching.
pub open spec fn search_rows_spec(apps: Seq<AppEntry>, mode: LauncherMode) -> Seq<
    (Seq<char>, (Seq<char>, Seq<char>)),
>
    decreases apps.len(),
{
    if apps.len() == 0 {
        Seq::empty()
    } else {
        let before = search_rows_spec(apps.drop_last(), mode);
        let app = apps.last();
        if mode == LauncherMode::Manage || !app.hidden {
            before.push((app.id@, (lowercase(app.name@), lowercase(app.id@))))
        } else {
            before
        }
    }
}

/// The launcher's rows (see [`search_rows_spec`]).
pub fn search_rows(apps: &Vec<AppEntry>, mode: LauncherMode) -> (r: Vec<(String, (String, String))>)
    ensures
        rows_view(r@) == search_rows_spec(apps@, mode),
{
    let mut rows: Vec<(String, (String, String))> = Vec::new();
    let mut i: usize = 0;
    while i < apps.len()
        invariant
            i <= apps@.len(),
            rows_view(rows@) == search_rows_spec(apps@.take(i as int), mode),
        decreases apps@.len() - i,
    {
        assert(apps@.take(i + 1).drop_last() =~= apps@.take(i as int));
        assert(apps@.take(i + 1).last() == apps@[i as int]);
        let app = &apps[i];
        let listed = match mode {
            LauncherMode::Manage => true,
            LauncherMode::Normal => !app.hidden,
        };
        if listed {
            let ghost before = rows@;
            let row = (
                crate::text::owned(app.id.as_str()),
                (crate::text::to_lowercase(app.name.as_str()), crate::text::to_lowercase(app.id.as_str())),
            );
            rows.push(row);
            assert(rows_view(rows@) =~= rows_view(before).push(row_view(row)));
        }
        i += 1;
    }
    assert(apps@.take(apps@.len() as int) =~= apps@);
    rows
}

/// The score of a row: by its name, else by its id.
pub open spec fn row_score(row: (Seq<char>, (Seq<char>, Seq<char>)), query: Seq<char>) -> Option<i64> {
    match fuzzy_i64(row.1.0, query) {
        Some(v) => Some(v),
        None => fuzzy_i64(row.1.1, query),
    }
}

/// The rows that a lowercased, trimmed query keeps, each with its score,
/// in row order.
pub open spec fn search_spec(rows: Seq<(Seq<char>, (Seq<char>, Seq<char>))>, query: Seq<char>) -> Seq<
    (Seq<char>, i64),
>
    decreases rows.len(),
{
    if rows.len() == 0 {
        Seq::empty()
    } else {
        let before = search_spec(rows.drop_last(), query);
        match row_score(rows.last(), query) {
            Some(v) => before.push((rows.last().0, v)),
            None => before,
        }
    }
}

/// The score table as text.
pub open spec fn scores_view(scores: Seq<(String, i64)>) -> Seq<(Seq<char>, i64)> {
    scores.map_values(|p: (String, i64)| (p.0@, p.1))
}

/// The rows a search keeps, with their scores (see [`search_spec`]); the
/// query is trimmed and lowercased first. Rows without a score are
/// filtered out of the list.
pub fn search_scores(rows: &Vec<(String, (String, String))>, query: &str) -> (r: Vec<(String, i64)>)
    ensures
        scores_view(r@) == search_spec(rows_view(rows@), lowercase(trimmed(query@))),
{
    let trimmed_query = crate::text::trim(query);
    let q = crate::text::to_lowercase(trimmed_query.as_str());
    let ghost rv = rows_view(rows@);
    let mut out: Vec<(String, i64)> = Vec::new();
    let mut i: usize = 0;
    while i < rows.len()
        invariant
            rv == rows_view(rows@),
            q@ == lowercase(trimmed(query@)),
            i <= rows@.len(),
            scores_view(out@) == search_spec(rv.take(i as int), q@),
        decreases rows@.len() - i,
    {
        assert(rv.take(i + 1).drop_last() =~= rv.take(i as int));
        assert(rv.take(i + 1).last() == row_view(rows@[i as int]));
        let row = &rows[i];
        let found = match crate::fuzzy::score_lowercase(row.1.0.as_str(), q.as_str()) {
            Some(v) => Some(v),
            None => crate::fuzzy::score_lowercase(row.1.1.as_str(), q.as_str()),
        };
        if let Some(v) = found {
            let ghost before = out@;
            let entry = (crate::text::owned(row.0.as_str()), v);
            out.push(entry);
            assert(scores_view(out@) =~= scores_view(before).push((row.0@, v)));
        }
        i += 1;
    }
    assert(rv.take(rows@.len() as int) =~= rv);
    out
}

/// An empty search keeps every row, each with a score of 0: clearing the
/// search shows the whole list again and activates nothing that was
/// filtered out.
pub proof fn law_empty_search_keeps_every_row(rows: Seq<(Seq<char>, (Seq<char>, Seq<char>))>)
    ensures
        search_spec(rows, Seq::empty()) == rows.map_values(
            |row: (Seq<char>, (Seq<char>, Seq<char>))| (row.0, 0i64),
        ),
    decreases rows.len(),
{
    if rows.len() > 0 {
        law_empty_search_keeps_every_row(rows.drop_last());
        assert(rows.map_values(|row: (Seq<char>, (Seq<char>, Seq<char>))| (row.0, 0i64))
            =~= rows.drop_last().map_values(
            |row: (Seq<char>, (Seq<char>, Seq<char>))| (row.0, 0i64),
        ).push((rows.last().0, 0i64)));
    } else {
        assert(rows.map_values(|row: (Seq<char>, (Seq<char>, Seq<char>))| (row.0, 0i64))
            =~= Seq::<(Seq<char>, i64)>::empty());
    }
}

/// The launcher's height and width on a monitor of `width` by `height`
/// pixels: the stored height held between 180 (or the monitor's height,
/// when smaller) and the monitor's height (at least 1), and a width of 520
/// or the monitor's width, when smaller.
pub open spec fn launcher_size_spec(stored_height: i32, width: i32, height: i32) -> (i32, i32) {
    let max_h: i32 = if height > 1 {
        height
    } else {
        1
    };
    let min_h: i32 = if 180 < max_h {
        180
    } else {
        max_h
    };
    let h: i32 = if stored_height < min_h {
        min_h
    } else if stored_height > max_h {
        max_h
    } else {
        stored_height
    };
    (h, if 520 < width {
        520
    } else {
        width
    })
}

/// The launcher's height and width (see [`launcher_size_spec`]); its
/// position within the monitor is set by fractions of the free space.
pub fn launcher_size(stored_height: i32, width: i32, height: i32) -> (r: (i32, i32))
    ensures
        r == launcher_size_spec(stored_height, width, height),
{
    let max_h: i32 = if height > 1 {
        height
    } else {
        1
    };
    let min_h: i32 = if 180 < max_h {
        180
    } else {
        max_h
    };
    let h: i32 = if stored_height < min_h {
        min_h
    } else if stored_height > max_h {
        max_h
    } else {
        stored_height
    };
    (h, if 520 < width {
        520
    } else {
        width
    })
}

/// The row selected after moving by `offset` among `len` rows: nothing
/// without rows, the first row without a selection, else the moved
/// position held inside the list.
pub open spec fn selection_spec(len: usize, selected: Option<usize>, offset: i32) -> Option<int> {
    if len == 0 {
        None
    } else {
        match selected {
            None => Some(0),
            Some(index) => {
                let moved = (index as i64) + offset;
                let last = (len as i64) - 1;
                Some(
                    if moved < 0 {
                        0
                    } else if moved > last {
                        last
                    } else {
                        moved
                    },
                )
            },
        }
    }
}

/// The row selected after moving by `offset` (see [`selection_spec`]);
/// with rows, the result is one of them.
pub fn selection_index(len: usize, selected: Option<usize>, offset: i32) -> (r: Option<usize>)
    requires
        match selected {
            Some(index) => len <= i64::MAX && i64::MIN <= (index as i64) + offset <= i64::MAX,
            None => true,
        },
    ensures
        match r {
            Some(i) => selection_spec(len, selected, offset) == Some(i as int) && i < len,
            None => selection_spec(len, selected, offset) is None && len == 0,
        },
{
    if len == 0 {
        return None;
    }
    match selected {
        None => Some(0),
        Some(index) => {
            let moved: i64 = index as i64 + offset as i64;
            let last: i64 = len as i64 - 1;
            let clamped: i64 = if moved < 0 {
                0
            } else if moved > last {
                last
            } else {
                moved
            };
            assert(0 <= clamped);
            Some(clamped as usize)
        },
    }
}

proof fn lemma_compare_text_antisymmetric(a: Seq<char>, b: Seq<char>)
    ensures
        compare_text(a, b) == -compare_text(b, a),
        compare_text(a, b) == 0 ==> a == b,
{
    crate::order::lemma_lex_total(text_key(a), text_key(b));
    if lex_lt(text_key(a), text_key(b)) {
        crate::order::lemma_lex_asymmetric(text_key(a), text_key(b));
    }
    if lex_lt(text_key(b), text_key(a)) {
        crate::order::lemma_lex_asymmetric(text_key(b), text_key(a));
    }
    if text_key(a) == text_key(b) {
        assert forall|i: int| 0 <= i < a.len() implies a[i] == b[i] by {
            assert(text_key(a)[i] == text_key(b)[i]);
            assert(text_key(a)[i] == a[i] as u32);
            assert(text_key(b)[i] == b[i] as u32);
            vstd::utf8::char_u32_cast(a[i], a[i] as u32);
            vstd::utf8::char_u32_cast(b[i], b[i] as u32);
        }
        assert(a =~= b);
    }
}

/// The launcher's ranking: while searching, an application with a score
/// comes before one without and a higher score comes first; when the
/// scores do not decide (equal, or no search), in normal mode the
/// application launched more often comes first, whether or not a search
/// is running; in manage mode launch counts play no part.
pub proof fn law_launcher_ranking(
    a: Seq<char>,
    b: Seq<char>,
    scores: Seq<(String, i64)>,
    names: Seq<(String, (String, String))>,
    counts: Seq<(String, u64)>,
    mode: LauncherMode,
    searching: bool,
)
    ensures
        searching && lookup(scores, a) is Some && lookup(scores, b) is None ==> app_order(
            a,
            b,
            scores,
            names,
            counts,
            mode,
            searching,
        ) < 0,
        searching && (lookup(scores, a) matches Some(x) && lookup(scores, b) matches Some(y) && x
            > y) ==> app_order(a, b, scores, names, counts, mode, searching) < 0,
        (!searching || lookup(scores, a) == lookup(scores, b)) && mode == LauncherMode::Normal && (
        match lookup(counts, a) {
            Some(c) => c as int,
            None => 0,
        }) > (match lookup(counts, b) {
            Some(c) => c as int,
            None => 0,
        }) ==> app_order(a, b, scores, names, counts, mode, searching) < 0,
        (!searching || lookup(scores, a) == lookup(scores, b)) && mode == LauncherMode::Manage
            ==> app_order(a, b, scores, names, counts, mode, searching) == app_order(
            a,
            b,
            scores,
            names,
            Seq::empty(),
            mode,
            searching,
        ),
{
}

/// Swapping two applications reverses their order in the launcher, and
/// only an application compares equal to itself: the order is a strict
/// total order on ids.
pub proof fn law_app_order_antisymmetric(
    a: Seq<char>,
    b: Seq<char>,
    scores: Seq<(String, i64)>,
    names: Seq<(String, (String, String))>,
    counts: Seq<(String, u64)>,
    mode: LauncherMode,
    searching: bool,
)
    ensures
        app_order(a, b, scores, names, counts, mode, searching) == -app_order(
            b,
            a,
            scores,
            names,
            counts,
            mode,
            searching,
        ),
        app_order(a, b, scores, names, counts, mode, searching) == 0 ==> a == b,
{
    lemma_compare_text_antisymmetric(a, b);
    match (name_of(names, a), name_of(names, b)) {
        (Some(x), Some(y)) => lemma_compare_text_antisymmetric(x, y),
        _ => {},
    }
}

} // verus!
