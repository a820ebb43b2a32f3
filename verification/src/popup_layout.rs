//! Placement of notification popups: stacked upwards from the bottom of
//! their monitor, newest lowest, each as high as its content; a popup that
//! does not fit is closed.

use vstd::prelude::*;
use crate::text::opt_view;

verus! {

/// A shown popup as placement sees it: the connector of its monitor (if
/// known), its measured height and the height of its monitor.
#[derive(Clone, Debug)]
pub struct PopupSlot {
    pub monitor: Option<String>,
    pub height: i32,
    pub available: i32,
}

/// The first bottom margin on a monitor.
pub open spec fn first_bottom() -> int {
    140
}

/// The bottom margin of each popup (`None` for one that is closed), and
/// the next free bottom margin of each monitor, after placing `ps` in
/// order: a popup goes at its monitor's next free margin when it fits
/// with 48 pixels to spare, which then moves up by its height and a gap
/// of 10.
pub open spec fn placed(ps: Seq<PopupSlot>) -> (Seq<Option<int>>, Map<Option<Seq<char>>, int>)
    decreases ps.len(),
{
    if ps.len() == 0 {
        (Seq::empty(), Map::empty())
    } else {
        let before = placed(ps.drop_last());
        let p = ps.last();
        let key = opt_view(p.monitor);
        let bottom = if before.1.contains_key(key) {
            before.1[key]
        } else {
            first_bottom()
        };
        if bottom + p.height + 48 > p.available {
            (before.0.push(None), before.1)
        } else {
            (before.0.push(Some(bottom)), before.1.insert(key, bottom + p.height + 10))
        }
    }
}

/// Whether each monitor appears once in a list of free margins.
pub open spec fn unique_monitors(list: Seq<(Option<String>, i32)>) -> bool {
    forall|i: int, j: int|
        0 <= i < list.len() && 0 <= j < list.len() && i != j ==> opt_view(#[trigger] list[i].0)
            != opt_view(#[trigger] list[j].0)
}

/// The free margins that a list holds, by monitor.
pub open spec fn margins_of(list: Seq<(Option<String>, i32)>) -> Map<Option<Seq<char>>, int> {
    Map::new(
        |k: Option<Seq<char>>| exists|i: int| 0 <= i < list.len() && opt_view(#[trigger] list[i].0) == k,
        |k: Option<Seq<char>>|
            list[choose|i: int| 0 <= i < list.len() && opt_view(#[trigger] list[i].0) == k].1 as int,
    )
}

proof fn lemma_margins_at(list: Seq<(Option<String>, i32)>, i: int)
    requires
        unique_monitors(list),
        0 <= i < list.len(),
    ensures
        margins_of(list).contains_key(opt_view(list[i].0)),
        margins_of(list)[opt_view(list[i].0)] == list[i].1 as int,
{
    let k = opt_view(list[i].0);
    assert(exists|j: int| 0 <= j < list.len() && opt_view(#[trigger] list[j].0) == k);
    let j = choose|j: int| 0 <= j < list.len() && opt_view(#[trigger] list[j].0) == k;
    assert(i == j);
}

proof fn lemma_margins_set(list: Seq<(Option<String>, i32)>, s: int, entry: (Option<String>, i32))
    requires
        unique_monitors(list),
        0 <= s < list.len(),
        opt_view(list[s].0) == opt_view(entry.0),
    ensures
        unique_monitors(list.update(s, entry)),
        margins_of(list.update(s, entry)) == margins_of(list).insert(
            opt_view(entry.0),
            entry.1 as int,
        ),
{
    let after = list.update(s, entry);
    assert forall|a: int, b: int|
        0 <= a < after.len() && 0 <= b < after.len() && a != b implies opt_view(
        #[trigger] after[a].0,
    ) != opt_view(#[trigger] after[b].0) by {
        assert(opt_view(after[a].0) == opt_view(list[a].0));
        assert(opt_view(after[b].0) == opt_view(list[b].0));
    }
    let target = margins_of(list).insert(opt_view(entry.0), entry.1 as int);
    lemma_margins_at(after, s);
    assert forall|k: Option<Seq<char>>| #[trigger]
        margins_of(after).contains_key(k) <==> target.contains_key(k) by {
        if margins_of(after).contains_key(k) {
            let q = choose|q: int| 0 <= q < after.len() && opt_view(#[trigger] after[q].0) == k;
            assert(opt_view(list[q].0) == k);
            lemma_margins_at(list, q);
        }
        if margins_of(list).contains_key(k) {
            let q = choose|q: int| 0 <= q < list.len() && opt_view(#[trigger] list[q].0) == k;
            assert(opt_view(after[q].0) == k);
        }
    }
    assert forall|k: Option<Seq<char>>| #[trigger]
        margins_of(after).contains_key(k) implies margins_of(after)[k] == target[k] by {
        let q = choose|q: int| 0 <= q < after.len() && opt_view(#[trigger] after[q].0) == k;
        lemma_margins_at(after, q);
        if q != s {
            assert(after[q] == list[q]);
            lemma_margins_at(list, q);
        }
    }
    assert(margins_of(after) =~= target);
}

proof fn lemma_margins_push(list: Seq<(Option<String>, i32)>, entry: (Option<String>, i32))
    requires
        unique_monitors(list),
        forall|q: int| 0 <= q < list.len() ==> opt_view(list[q].0) != opt_view(entry.0),
    ensures
        unique_monitors(list.push(entry)),
        margins_of(list.push(entry)) == margins_of(list).insert(opt_view(entry.0), entry.1 as int),
{
    let after = list.push(entry);
    let n = list.len() as int;
    assert forall|a: int, b: int|
        0 <= a < after.len() && 0 <= b < after.len() && a != b implies opt_view(
        #[trigger] after[a].0,
    ) != opt_view(#[trigger] after[b].0) by {
        if a < n {
            assert(after[a] == list[a]);
        }
        if b < n {
            assert(after[b] == list[b]);
        }
    }
    let target = margins_of(list).insert(opt_view(entry.0), entry.1 as int);
    lemma_margins_at(after, n);
    assert forall|k: Option<Seq<char>>| #[trigger]
        margins_of(after).contains_key(k) <==> target.contains_key(k) by {
        if margins_of(after).contains_key(k) {
            let q = choose|q: int| 0 <= q < after.len() && opt_view(#[trigger] after[q].0) == k;
            if q < n {
                assert(opt_view(list[q].0) == k);
                lemma_margins_at(list, q);
            }
        }
        if margins_of(list).contains_key(k) {
            let q = choose|q: int| 0 <= q < list.len() && opt_view(#[trigger] list[q].0) == k;
            assert(opt_view(after[q].0) == k);
        }
    }
    assert forall|k: Option<Seq<char>>| #[trigger]
        margins_of(after).contains_key(k) implies margins_of(after)[k] == target[k] by {
        let q = choose|q: int| 0 <= q < after.len() && opt_view(#[trigger] after[q].0) == k;
        lemma_margins_at(after, q);
        if q < n {
            assert(after[q] == list[q]);
            lemma_margins_at(list, q);
        }
    }
    assert(margins_of(after) =~= target);
}

fn same_monitor(a: &Option<String>, b: &Option<String>) -> (r: bool)
    ensures
        r == (opt_view(*a) == opt_view(*b)),
{
    match (a, b) {
        (Some(x), Some(y)) => crate::text::text_eq(x.as_str(), y.as_str()),
        (None, None) => true,
        _ => false,
    }
}

fn monitor_slot(list: &Vec<(Option<String>, i32)>, monitor: &Option<String>) -> (r: Option<usize>)
    ensures
        match r {
            Some(s) => s < list@.len() && opt_view(list@[s as int].0) == opt_view(*monitor),
            None => forall|q: int| 0 <= q < list@.len() ==> opt_view(list@[q].0) != opt_view(*monitor),
        },
{
    let mut j: usize = 0;
    while j < list.len()
        invariant
            j <= list@.len(),
            forall|q: int| 0 <= q < j ==> opt_view(list@[q].0) != opt_view(*monitor),
        decreases list@.len() - j,
    {
        if same_monitor(&list[j].0, monitor) {
            return Some(j);
        }
        j += 1;
    }
    None
}

/// The bottom margins of popups as integers.
pub open spec fn margins_view(r: Seq<Option<i32>>) -> Seq<Option<int>> {
    r.map_values(
        |m: Option<i32>|
            match m {
                Some(x) => Some(x as int),
                None => None,
            },
    )
}

/// The bottom margin of each popup, newest first, or `None` for a popup
/// that does not fit and is closed (see [`placed`]). Heights are the
/// measured, non-negative heights of the popups' content.
pub fn place_popups(popups: &Vec<PopupSlot>) -> (r: Vec<Option<i32>>)
    requires
        forall|i: int| 0 <= i < popups@.len() ==> 0 <= #[trigger] popups@[i].height,
    ensures
        margins_view(r@) == placed(popups@).0,
{
    let mut tops: Vec<(Option<String>, i32)> = Vec::new();
    let mut out: Vec<Option<i32>> = Vec::new();
    let mut i: usize = 0;
    assert(popups@.take(0) =~= Seq::<PopupSlot>::empty());
    while i < popups.len()
        invariant
            forall|k: int| 0 <= k < popups@.len() ==> 0 <= #[trigger] popups@[k].height,
            i <= popups@.len(),
            unique_monitors(tops@),
            forall|q: int| 0 <= q < tops@.len() ==> first_bottom() <= #[trigger] tops@[q].1,
            margins_of(tops@) == placed(popups@.take(i as int)).1,
            margins_view(out@) == placed(popups@.take(i as int)).0,
        decreases popups@.len() - i,
    {
        let ghost before = tops@;
        let ghost out_before = out@;
        assert(popups@.take(i + 1).drop_last() =~= popups@.take(i as int));
        assert(popups@.take(i + 1).last() == popups@[i as int]);
        let p = &popups[i];
        let slot = monitor_slot(&tops, &p.monitor);
        let bottom: i32 = match slot {
            Some(s) => {
                proof {
                    lemma_margins_at(before, s as int);
                }
                tops[s].1
            },
            None => 140,
        };
        if (bottom as i64) + (p.height as i64) + 48 > p.available as i64 {
            out.push(None);
        } else {
            out.push(Some(bottom));
            let next: i32 = bottom + p.height + 10;
            let ghost entry = (p.monitor, next);
            match slot {
                Some(s) => {
                    tops.set(s, (p.monitor.clone(), next));
                    proof {
                        assert(tops@ == before.update(s as int, entry));
                        lemma_margins_set(before, s as int, entry);
                    }
                },
                None => {
                    tops.push((p.monitor.clone(), next));
                    proof {
                        assert(tops@ == before.push(entry));
                        lemma_margins_push(before, entry);
                    }
                },
            }
            assert forall|q: int| 0 <= q < tops@.len() implies first_bottom() <= #[trigger]
                tops@[q].1 by {
                if tops@[q].1 != next {
                    assert(tops@[q] == before[q]);
                }
            }
        }
        assert(margins_view(out@) =~= margins_view(out_before).push(
            if (bottom as int) + p.height + 48 > p.available {
                None
            } else {
                Some(bottom as int)
            },
        ));
        i += 1;
    }
    assert(popups@.take(popups@.len() as int) =~= popups@);
    out
}


/// What placement keeps between popups: every placed popup fits its
/// monitor above the first margin, and its monitor's next free margin
/// lies above it.
proof fn lemma_placed(ps: Seq<PopupSlot>)
    requires
        forall|i: int| 0 <= i < ps.len() ==> 0 <= #[trigger] ps[i].height,
    ensures
        placed(ps).0.len() == ps.len(),
        forall|k: Option<Seq<char>>| #[trigger]
            placed(ps).1.contains_key(k) ==> first_bottom() <= placed(ps).1[k],
        forall|i: int|
            0 <= i < ps.len() && #[trigger] placed(ps).0[i] is Some ==> {
                let m = placed(ps).0[i]->0;
                let k = opt_view(ps[i].monitor);
                &&& first_bottom() <= m
                &&& m + ps[i].height + 48 <= ps[i].available
                &&& placed(ps).1.contains_key(k)
                &&& m + ps[i].height + 10 <= placed(ps).1[k]
            },
    decreases ps.len(),
{
    if ps.len() > 0 {
        let front = ps.drop_last();
        assert forall|i: int| 0 <= i < front.len() implies 0 <= #[trigger] front[i].height by {
            assert(front[i] == ps[i]);
        }
        lemma_placed(front);
        let before = placed(front);
        let after = placed(ps);
        let p = ps.last();
        let key = opt_view(p.monitor);
        let n = front.len() as int;
        assert(p == ps[n]);
        assert forall|i: int|
            0 <= i < ps.len() && #[trigger] after.0[i] is Some implies {
                let m = after.0[i]->0;
                let k = opt_view(ps[i].monitor);
                &&& first_bottom() <= m
                &&& m + ps[i].height + 48 <= ps[i].available
                &&& after.1.contains_key(k)
                &&& m + ps[i].height + 10 <= after.1[k]
            } by {
            if i < n {
                assert(after.0[i] == before.0[i]);
                assert(ps[i] == front[i]);
            }
        }
    }
}

/// Placed popups fit their monitor with 48 pixels to spare and sit at the
/// first margin or above, and two placed popups on one monitor never
/// overlap: the later one sits above the earlier one with a gap of 10.
pub proof fn law_popups_fit_without_overlap(ps: Seq<PopupSlot>)
    requires
        forall|i: int| 0 <= i < ps.len() ==> 0 <= #[trigger] ps[i].height,
    ensures
        placed(ps).0.len() == ps.len(),
        forall|i: int|
            0 <= i < ps.len() && #[trigger] placed(ps).0[i] is Some ==> first_bottom()
                <= placed(ps).0[i]->0 && placed(ps).0[i]->0 + ps[i].height + 48 <= ps[i].available,
        forall|i: int, j: int|
            0 <= i < j < ps.len() && #[trigger] placed(ps).0[i] is Some && #[trigger] placed(
                ps,
            ).0[j] is Some && opt_view(ps[i].monitor) == opt_view(ps[j].monitor) ==> placed(
                ps,
            ).0[i]->0 + ps[i].height + 10 <= placed(ps).0[j]->0,
    decreases ps.len(),
{
    lemma_placed(ps);
    if ps.len() > 0 {
        let front = ps.drop_last();
        assert forall|i: int| 0 <= i < front.len() implies 0 <= #[trigger] front[i].height by {
            assert(front[i] == ps[i]);
        }
        law_popups_fit_without_overlap(front);
        lemma_placed(front);
        let before = placed(front);
        let after = placed(ps);
        let n = front.len() as int;
        assert forall|i: int, j: int|
            0 <= i < j < ps.len() && #[trigger] after.0[i] is Some && #[trigger] after.0[j] is Some
                && opt_view(ps[i].monitor) == opt_view(ps[j].monitor) implies after.0[i]->0
            + ps[i].height + 10 <= after.0[j]->0 by {
            assert(after.0[i] == before.0[i]);
            assert(ps[i] == front[i]);
            if j < n {
                assert(after.0[j] == before.0[j]);
                assert(ps[j] == front[j]);
            } else {
                assert(before.0[i] is Some);
            }
        }
    }
}

} // verus!
