//! Lexicographic ordering of keys and stable sorting by key.
//!
//! Texts are ordered by their code points, which is the order of their
//! UTF-8 bytes that `str`'s `Ord` uses. A stable sort by key is the sort by
//! the pair of the key and the starting position, which has a unique
//! result; [`stable_order`] computes that order of positions.

use vstd::prelude::*;

verus! {

/// Strict lexicographic order of integer sequences (a proper prefix comes
/// first).
pub open spec fn lex_lt(a: Seq<u32>, b: Seq<u32>) -> bool
    decreases a.len(),
{
    if a.len() == 0 {
        b.len() > 0
    } else if b.len() == 0 {
        false
    } else if a[0] < b[0] {
        true
    } else if a[0] > b[0] {
        false
    } else {
        lex_lt(a.drop_first(), b.drop_first())
    }
}

pub proof fn lemma_lex_irreflexive(a: Seq<u32>)
    ensures
        !lex_lt(a, a),
    decreases a.len(),
{
    if a.len() > 0 {
        lemma_lex_irreflexive(a.drop_first());
    }
}

pub proof fn lemma_lex_transitive(a: Seq<u32>, b: Seq<u32>, c: Seq<u32>)
    requires
        lex_lt(a, b),
        lex_lt(b, c),
    ensures
        lex_lt(a, c),
    decreases a.len(),
{
    if a.len() > 0 && b.len() > 0 && c.len() > 0 && a[0] == b[0] && b[0] == c[0] {
        lemma_lex_transitive(a.drop_first(), b.drop_first(), c.drop_first());
    }
}

pub proof fn lemma_lex_total(a: Seq<u32>, b: Seq<u32>)
    ensures
        a =~= b || lex_lt(a, b) || lex_lt(b, a),
    decreases a.len(),
{
    if a.len() > 0 && b.len() > 0 && a[0] == b[0] {
        lemma_lex_total(a.drop_first(), b.drop_first());
        if a.drop_first() =~= b.drop_first() {
            assert(a =~= seq![a[0]] + a.drop_first());
            assert(b =~= seq![b[0]] + b.drop_first());
        }
    }
}

pub proof fn lemma_lex_asymmetric(a: Seq<u32>, b: Seq<u32>)
    requires
        lex_lt(a, b),
    ensures
        !lex_lt(b, a),
{
    if lex_lt(b, a) {
        lemma_lex_transitive(a, b, a);
        lemma_lex_irreflexive(a);
    }
}

/// Whether position `i` comes before position `j` when sorting stably by
/// `keys`.
pub open spec fn before(keys: Seq<Seq<u32>>, i: int, j: int) -> bool {
    lex_lt(keys[i], keys[j]) || (keys[i] == keys[j] && i < j)
}

/// Whether `order` lists each position `0..n` once.
pub open spec fn is_permutation(order: Seq<usize>, n: nat) -> bool {
    &&& order.len() == n
    &&& order.no_duplicates()
    &&& forall|i: int| 0 <= i < order.len() ==> #[trigger] order[i] < n
}

/// Whether `order` lists positions in the stable order of `keys`.
pub open spec fn sorted_by(keys: Seq<Seq<u32>>, order: Seq<usize>) -> bool {
    forall|i: int, j: int|
        0 <= i < j < order.len() ==> before(keys, #[trigger] order[i] as int, #[trigger] order[j] as int)
}

/// `order` is the stable sorting order of `keys`.
pub open spec fn is_stable_order(keys: Seq<Seq<u32>>, order: Seq<usize>) -> bool {
    is_permutation(order, keys.len()) && sorted_by(keys, order)
}

proof fn lemma_before_total(keys: Seq<Seq<u32>>, i: int, j: int)
    requires
        i != j,
    ensures
        before(keys, i, j) || before(keys, j, i),
        !(before(keys, i, j) && before(keys, j, i)),
{
    lemma_lex_total(keys[i], keys[j]);
    if lex_lt(keys[i], keys[j]) {
        lemma_lex_asymmetric(keys[i], keys[j]);
        if keys[i] == keys[j] {
            lemma_lex_irreflexive(keys[i]);
        }
    }
    if lex_lt(keys[j], keys[i]) {
        lemma_lex_asymmetric(keys[j], keys[i]);
        if keys[i] == keys[j] {
            lemma_lex_irreflexive(keys[i]);
        }
    }
}

proof fn lemma_before_transitive(keys: Seq<Seq<u32>>, i: int, j: int, k: int)
    requires
        before(keys, i, j),
        before(keys, j, k),
    ensures
        before(keys, i, k),
{
    if lex_lt(keys[i], keys[j]) && lex_lt(keys[j], keys[k]) {
        lemma_lex_transitive(keys[i], keys[j], keys[k]);
    }
}

/// Strict lexicographic comparison.
pub fn lex_less(a: &Vec<u32>, b: &Vec<u32>) -> (r: bool)
    ensures
        r == lex_lt(a@, b@),
{
    let mut i: usize = 0;
    assert(a@.skip(0) =~= a@ && b@.skip(0) =~= b@);
    while i < a.len() && i < b.len()
        invariant
            i <= a@.len(),
            i <= b@.len(),
            lex_lt(a@, b@) == lex_lt(a@.skip(i as int), b@.skip(i as int)),
        decreases a@.len() - i,
    {
        let ghost x = a@.skip(i as int);
        let ghost y = b@.skip(i as int);
        assert(x[0] == a@[i as int] && y[0] == b@[i as int]);
        if a[i] < b[i] {
            return true;
        }
        if a[i] > b[i] {
            return false;
        }
        assert(x.drop_first() =~= a@.skip(i + 1));
        assert(y.drop_first() =~= b@.skip(i + 1));
        i += 1;
    }
    i == a.len() && i < b.len()
}

/// Whether two keys are equal.
pub fn keys_equal(a: &Vec<u32>, b: &Vec<u32>) -> (r: bool)
    ensures
        r == (a@ == b@),
{
    if a.len() != b.len() {
        return false;
    }
    let mut i: usize = 0;
    while i < a.len()
        invariant
            a@.len() == b@.len(),
            i <= a@.len(),
            forall|k: int| 0 <= k < i ==> a@[k] == b@[k],
        decreases a@.len() - i,
    {
        if a[i] != b[i] {
            return false;
        }
        i += 1;
    }
    assert(a@ =~= b@);
    true
}

/// Whether the key at `x` is not after the key at `k`.
fn key_not_after(keys: &Vec<Vec<u32>>, x: usize, k: usize) -> (r: bool)
    requires
        x < keys@.len(),
        k < keys@.len(),
    ensures
        r == (lex_lt(keys@[x as int]@, keys@[k as int]@) || keys@[x as int]@ == keys@[k as int]@),
{
    lex_less(&keys[x], &keys[k]) || keys_equal(&keys[x], &keys[k])
}

/// The positions of `keys` in stable sorted order.
pub fn stable_order(keys: &Vec<Vec<u32>>) -> (order: Vec<usize>)
    ensures
        is_stable_order(keys@.map_values(|k: Vec<u32>| k@), order@),
{
    let ghost kv = keys@.map_values(|k: Vec<u32>| k@);
    let mut order: Vec<usize> = Vec::new();
    let mut k: usize = 0;
    while k < keys.len()
        invariant
            kv == keys@.map_values(|k: Vec<u32>| k@),
            k <= keys@.len(),
            is_permutation(order@, k as nat),
            sorted_by(kv, order@),
        decreases keys@.len() - k,
    {
        let mut p: usize = 0;
        while p < order.len() && key_not_after(keys, order[p], k)
            invariant
                kv == keys@.map_values(|k: Vec<u32>| k@),
                k < keys@.len(),
                is_permutation(order@, k as nat),
                p <= order@.len(),
                forall|q: int| 0 <= q < p ==> before(kv, #[trigger] order@[q] as int, k as int),
            decreases order@.len() - p,
        {
            proof {
                let x = order@[p as int];
                assert(kv[x as int] == keys@[x as int]@);
                assert(kv[k as int] == keys@[k as int]@);
            }
            p += 1;
        }
        proof {
            if p < order@.len() {
                let x = order@[p as int];
                assert(kv[x as int] == keys@[x as int]@);
                assert(kv[k as int] == keys@[k as int]@);
                assert(!before(kv, x as int, k as int));
                lemma_before_total(kv, x as int, k as int);
            }
        }
        let ghost old_order = order@;
        order.insert(p, k);
        proof {
            assert(order@ =~= old_order.insert(p as int, k));
            assert forall|i: int, j: int| 0 <= i < j < order@.len() implies before(
                kv,
                #[trigger] order@[i] as int,
                #[trigger] order@[j] as int,
            ) by {
                if i < p && j < p {
                    assert(order@[i] == old_order[i] && order@[j] == old_order[j]);
                } else if i < p && j == p {
                    assert(order@[i] == old_order[i]);
                } else if i < p {
                    assert(order@[i] == old_order[i] && order@[j] == old_order[j - 1]);
                } else if i == p {
                    assert(order@[j] == old_order[j - 1]);
                    let x = old_order[p as int];
                    if j - 1 > p {
                        assert(before(kv, x as int, old_order[j - 1] as int));
                        lemma_before_transitive(kv, k as int, x as int, old_order[j - 1] as int);
                    }
                } else {
                    assert(order@[i] == old_order[i - 1] && order@[j] == old_order[j - 1]);
                }
            }
            assert forall|a: int, b: int| 0 <= a < order@.len() && 0 <= b < order@.len() && a != b implies order@[a]
                != order@[b] by {
                if a != p && b != p {
                    let a1 = if a < p {
                        a
                    } else {
                        a - 1
                    };
                    let b1 = if b < p {
                        b
                    } else {
                        b - 1
                    };
                    assert(order@[a] == old_order[a1] && order@[b] == old_order[b1]);
                } else if a == p {
                    let b1 = if b < p {
                        b
                    } else {
                        b - 1
                    };
                    assert(order@[b] == old_order[b1]);
                } else {
                    let a1 = if a < p {
                        a
                    } else {
                        a - 1
                    };
                    assert(order@[a] == old_order[a1]);
                }
            }
            assert forall|i: int| 0 <= i < order@.len() implies #[trigger] order@[i] < k + 1 by {
                if i < p {
                    assert(order@[i] == old_order[i]);
                } else if i > p {
                    assert(order@[i] == old_order[i - 1]);
                }
            }
        }
        k += 1;
    }
    order
}

/// The key of a text: its code points.
pub open spec fn text_key(s: Seq<char>) -> Seq<u32> {
    s.map_values(|c: char| c as u32)
}

/// The keys of a list of texts.
pub open spec fn text_keys(s: Seq<Seq<char>>) -> Seq<Seq<u32>> {
    s.map_values(|x: Seq<char>| text_key(x))
}

/// Executable [`text_key`].
pub fn key_of_text(s: &str) -> (r: Vec<u32>)
    ensures
        r@ == text_key(s@),
{
    let v = crate::text::chars_of(s);
    let mut out: Vec<u32> = Vec::new();
    let mut i: usize = 0;
    while i < v.len()
        invariant
            v@ == s@,
            i <= v@.len(),
            out@ == text_key(v@.take(i as int)),
        decreases v@.len() - i,
    {
        out.push(v[i] as u32);
        i += 1;
        assert(out@ =~= text_key(v@.take(i as int)));
    }
    assert(v@.take(v@.len() as int) =~= v@);
    out
}

/// Whether one text comes before another in code-point order.
pub fn text_less(a: &str, b: &str) -> (r: bool)
    ensures
        r == lex_lt(text_key(a@), text_key(b@)),
{
    lex_less(&key_of_text(a), &key_of_text(b))
}

/// The reordering of `items` by `order`.
pub open spec fn permuted<T>(items: Seq<T>, order: Seq<usize>) -> Seq<T> {
    order.map_values(|i: usize| items[i as int])
}

/// Reorders `items` by a permutation of their positions.
pub fn apply_order<T>(items: Vec<T>, order: &Vec<usize>) -> (r: Vec<T>)
    requires
        is_permutation(order@, items@.len()),
    ensures
        r@ == permuted(items@, order@),
{
    let ghost given = items@;
    let mut slots: Vec<Option<T>> = Vec::new();
    let mut items = items;
    let ghost n = given.len();
    // Move the items into slots, last first.
    while items.len() > 0
        invariant
            items@ == given.take(items@.len() as int),
            slots@.len() + items@.len() == n,
            n == given.len(),
            forall|i: int|
                0 <= i < slots@.len() ==> #[trigger] slots@[i] == Some(
                    given[n - 1 - i],
                ),
        decreases items@.len(),
    {
        let x = items.pop().unwrap();
        slots.push(Some(x));
        assert(items@ =~= given.take(items@.len() as int));
    }
    let mut out: Vec<T> = Vec::new();
    let mut i: usize = 0;
    while i < order.len()
        invariant
            is_permutation(order@, n),
            n == given.len(),
            slots@.len() == n,
            i <= order@.len(),
            out@ == permuted(given, order@.take(i as int)),
            forall|j: int|
                0 <= j < n ==> (#[trigger] slots@[n - 1 - j] == Some(given[j])) || exists|q: int|
                    0 <= q < i && order@[q] == j,
            forall|q: int| 0 <= q < i ==> #[trigger] slots@[n - 1 - order@[q]] is None,
            forall|j: int| 0 <= j < n ==> #[trigger] slots@[n - 1 - j] is None || slots@[n - 1 - j] == Some(given[j]),
        decreases order@.len() - i,
    {
        let j = order[i];
        let slot = n_minus_one_minus(slots.len(), j);
        proof {
            if slots@[n - 1 - j] is None {
                let q = choose|q: int| 0 <= q < i && order@[q] == j;
                assert(order@[q] == order@[i as int]);
            }
        }
        let taken = slots.remove(slot);
        slots.insert(slot, None);
        match taken {
            Some(x) => {
                out.push(x);
            },
            None => {
                proof {
                    assert(false);
                }
            },
        }
        proof {
            assert(out@ =~= permuted(given, order@.take(i + 1)));
        }
        i += 1;
    }
    assert(order@.take(order@.len() as int) =~= order@);
    out
}

fn n_minus_one_minus(n: usize, j: usize) -> (r: usize)
    requires
        j < n,
    ensures
        r == n - 1 - j,
{
    n - 1 - j
}

/// A permutation of `0..n` lists every position.
pub proof fn lemma_permutation_onto(order: Seq<usize>, n: nat, j: int)
    requires
        is_permutation(order, n),
        0 <= j < n,
    ensures
        exists|i: int| 0 <= i < order.len() && order[i] == j,
{
    if !exists|i: int| 0 <= i < order.len() && order[i] == j {
        let ints = order.map_values(|x: usize| x as int);
        assert(ints.no_duplicates()) by {
            assert forall|a: int, b: int| 0 <= a < b < ints.len() implies ints[a] != ints[b] by {
                assert(order[a] != order[b]);
            }
        }
        ints.unique_seq_to_set();
        let range = vstd::set_lib::set_int_range(0, n as int).remove(j);
        vstd::set_lib::lemma_int_range(0, n as int);
        assert(ints.to_set().subset_of(range)) by {
            assert forall|x: int| ints.to_set().contains(x) implies range.contains(x) by {
                let i = choose|i: int| 0 <= i < ints.len() && ints[i] == x;
                assert(order[i] < n);
            }
        }
        vstd::set_lib::lemma_len_subset(ints.to_set(), range);
    }
}

} // verus!
