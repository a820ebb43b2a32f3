//! Fuzzy matching of launcher queries against application names.
//!
//! The query's characters are matched in order against the earliest
//! possible characters of the candidate. Each match earns 10 points, 9 more
//! when it directly follows the previous match and 7 more at the start of a
//! word, and loses a sixth of its position.

use vstd::prelude::*;
use vstd::string::*;
use crate::text::{alphanumeric, lowercase, trimmed};

verus! {

/// The first index from `start` on at which `x` occurs in `cand`.
pub open spec fn first_at(cand: Seq<char>, x: char, start: int) -> Option<int>
    decreases cand.len() - start,
{
    if start < 0 || start >= cand.len() {
        None
    } else if cand[start] == x {
        Some(start)
    } else {
        first_at(cand, x, start + 1)
    }
}

/// Points for matching a query character at `found`, after a previous
/// match at `prev`.
pub open spec fn gain(cand: Seq<char>, found: int, prev: Option<int>) -> int {
    10 + (if prev == Some(found - 1) {
        9int
    } else {
        0int
    }) + (if found == 0 || !alphanumeric(cand[found - 1]) {
        7int
    } else {
        0int
    }) - found / 6
}

/// Matches `query` against `cand` from `cursor` on, having scored `acc`.
pub open spec fn fuzzy_run(
    cand: Seq<char>,
    query: Seq<char>,
    cursor: int,
    prev: Option<int>,
    acc: int,
) -> Option<int>
    decreases query.len(),
{
    if query.len() == 0 {
        Some(acc)
    } else {
        match first_at(cand, query[0], cursor) {
            None => None,
            Some(found) => fuzzy_run(
                cand,
                query.drop_first(),
                found + 1,
                Some(found),
                acc + gain(cand, found, prev),
            ),
        }
    }
}

/// The score of an already lowercased query against an already lowercased
/// candidate.
pub open spec fn fuzzy_score(cand: Seq<char>, query: Seq<char>) -> Option<int> {
    if query.len() == 0 {
        Some(0)
    } else {
        fuzzy_run(cand, query, 0, None, 0)
    }
}

/// The score as the scorer's `i64` sum gives it: none where the query
/// does not match, and none where the score leaves the range of `i64`
/// (where that sum would overflow).
pub open spec fn fuzzy_i64(cand: Seq<char>, query: Seq<char>) -> Option<i64> {
    match fuzzy_score(cand, query) {
        Some(v) => if i64::MIN <= v <= i64::MAX {
            Some(v as i64)
        } else {
            None
        },
        None => None,
    }
}

/// Whether `q` occurs in `c` as a (not necessarily contiguous) subsequence.
pub open spec fn is_subsequence(q: Seq<char>, c: Seq<char>) -> bool
    decreases c.len(),
{
    if q.len() == 0 {
        true
    } else if c.len() == 0 {
        false
    } else if q[0] == c[0] {
        is_subsequence(q.drop_first(), c.drop_first())
    } else {
        is_subsequence(q, c.drop_first())
    }
}

proof fn lemma_first_at(cand: Seq<char>, x: char, start: int)
    requires
        0 <= start <= cand.len(),
    ensures
        first_at(cand, x, start) matches Some(f) ==> start <= f < cand.len() && cand[f] == x
            && forall|j: int| start <= j < f ==> cand[j] != x,
        first_at(cand, x, start) is None ==> forall|j: int| start <= j < cand.len() ==> cand[j] != x,
    decreases cand.len() - start,
{
    if start < cand.len() && cand[start] != x {
        lemma_first_at(cand, x, start + 1);
    }
}

/// Matching the first character of `q` at its earliest occurrence loses no
/// subsequence.
proof fn lemma_greedy(q: Seq<char>, cand: Seq<char>, start: int)
    requires
        q.len() > 0,
        0 <= start <= cand.len(),
    ensures
        first_at(cand, q[0], start) matches Some(f) ==> (is_subsequence(q, cand.skip(start))
            == is_subsequence(q.drop_first(), cand.skip(f + 1))),
        first_at(cand, q[0], start) is None ==> !is_subsequence(q, cand.skip(start)),
    decreases cand.len() - start,
{
    let c = cand.skip(start);
    if start == cand.len() {
        assert(c.len() == 0);
    } else {
        assert(c[0] == cand[start]);
        assert(c.drop_first() =~= cand.skip(start + 1));
        if cand[start] != q[0] {
            lemma_greedy(q, cand, start + 1);
        }
    }
}

/// The matcher succeeds exactly when the query is a subsequence of the
/// rest of the candidate.
proof fn lemma_run_some(cand: Seq<char>, query: Seq<char>, cursor: int, prev: Option<int>, acc: int)
    requires
        0 <= cursor <= cand.len(),
    ensures
        fuzzy_run(cand, query, cursor, prev, acc) is Some <==> is_subsequence(
            query,
            cand.skip(cursor),
        ),
    decreases query.len(),
{
    if query.len() > 0 {
        lemma_first_at(cand, query[0], cursor);
        lemma_greedy(query, cand, cursor);
        match first_at(cand, query[0], cursor) {
            None => {},
            Some(f) => {
                lemma_run_some(
                    cand,
                    query.drop_first(),
                    f + 1,
                    Some(f),
                    acc + gain(cand, f, prev),
                );
            },
        }
    }
}

/// A query matches exactly when its characters occur in order in the
/// candidate (both lowercased, the query trimmed).
pub proof fn law_score_matches_subsequences(cand: Seq<char>, query: Seq<char>)
    ensures
        fuzzy_score(cand, query) is Some <==> is_subsequence(query, cand),
{
    if query.len() > 0 {
        lemma_run_some(cand, query, 0, None, 0);
        assert(cand.skip(0) =~= cand);
    }
}

/// Scores an already lowercased `query` against an already lowercased
/// `candidate` (see [`fuzzy_i64`]).
pub fn score_lowercase(candidate: &str, query: &str) -> (r: Option<i64>)
    ensures
        r == fuzzy_i64(candidate@, query@),
{
    let chars = crate::text::chars_of(candidate);
    let needles = crate::text::chars_of(query);
    if needles.len() == 0 {
        return Some(0);
    }
    let ghost cand = chars@;
    let ghost n = chars@.len();
    let mut score: i128 = 0;
    let mut cursor: usize = 0;
    let mut previous: Option<usize> = None;
    let mut qi: usize = 0;
    assert(query@.skip(0) =~= query@);
    while qi < needles.len()
        invariant
            chars@ == cand,
            cand == candidate@,
            n == cand.len(),
            n <= usize::MAX,
            needles@ == query@,
            needles@.len() > 0,
            qi <= needles@.len(),
            qi <= cursor <= n,
            previous matches Some(p) ==> p + 1 == cursor,
            -(qi as int) * (n / 6) <= score <= 26 * qi,
            fuzzy_score(cand, query@) == fuzzy_run(
                cand,
                query@.skip(qi as int),
                cursor as int,
                match previous {
                    Some(p) => Some(p as int),
                    None => None,
                },
                score as int,
            ),
        decreases needles@.len() - qi,
    {
        let needle = needles[qi];
        let ghost rest = query@.skip(qi as int);
        assert(rest[0] == needle);
        assert(rest.drop_first() =~= query@.skip(qi + 1));
        proof {
            lemma_first_at(cand, needle, cursor as int);
        }
        let mut i: usize = cursor;
        while i < chars.len() && chars[i] != needle
            invariant
                chars@ == cand,
                cursor <= i <= cand.len(),
                first_at(cand, needle, cursor as int) == first_at(cand, needle, i as int),
            decreases cand.len() - i,
        {
            i += 1;
        }
        if i == chars.len() {
            return None;
        }
        let found = i;
        let mut gained: i128 = 10;
        match previous {
            Some(p) => {
                if found == p + 1 {
                    gained = gained + 9;
                }
            },
            None => {},
        }
        if found == 0 || !crate::text::is_alphanumeric(chars[found - 1]) {
            gained = gained + 7;
        }
        let penalty = (found as i128) / 6;
        proof {
            assert(gained as int - penalty as int == gain(
                cand,
                found as int,
                match previous {
                    Some(p) => Some(p as int),
                    None => None,
                },
            ));
            assert(penalty <= n / 6);
            assert(-(qi as int) * (n / 6) - (n / 6) == -((qi + 1) as int) * (n / 6)) by (nonlinear_arith);
            assert((qi as int) * (n / 6) <= 18446744073709551615 * 3074457345618258602) by (nonlinear_arith)
                requires
                    0 <= qi <= n,
                    n <= 18446744073709551615,
                    0 <= n / 6 <= 3074457345618258602,
            ;
            assert(score as int + gained as int - penalty as int >= -((qi + 1) as int) * (n / 6));
            assert(-(qi as int) * (n / 6) == -((qi as int) * (n / 6))) by (nonlinear_arith);
            assert(score + gained <= 26 * qi + 26);
        }
        score = score + gained - penalty;
        previous = Some(found);
        cursor = found + 1;
        qi += 1;
    }
    proof {
        assert(query@.skip(qi as int).len() == 0);
    }
    if i64::MIN as i128 <= score && score <= i64::MAX as i128 {
        Some(score as i64)
    } else {
        None
    }
}

/// The score of `query` against `candidate`: both are lowercased and the
/// query trimmed; an empty query scores 0, a query whose characters do not
/// occur in order in the candidate does not match, and otherwise the
/// score is [`fuzzy_i64`]'s.
pub fn score(candidate: &str, query: &str) -> (r: Option<i64>)
    ensures
        ({
            let c = lowercase(candidate@);
            let q = lowercase(trimmed(query@));
            if q.len() == 0 {
                r == Some(0i64)
            } else {
                r == fuzzy_i64(c, q)
            }
        }),
{
    let trimmed_query = crate::text::trim(query);
    let q = crate::text::to_lowercase(trimmed_query.as_str());
    if q.unicode_len() == 0 {
        return Some(0);
    }
    let c = crate::text::to_lowercase(candidate);
    score_lowercase(c.as_str(), q.as_str())
}

} // verus!
