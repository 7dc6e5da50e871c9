//! Stable insertion sort: the order in which sessions, worktrees and panes are
//! listed.
use vstd::prelude::*;

use crate::text::{chars_eq, chars_le, chars_lt, seq_le, seq_lt, views};

verus! {

/// `x` inserted into `t` after every element that `le` puts no later than
/// `x`, scanning from the end: on a sorted `t` this keeps `t` sorted and puts
/// `x` after the elements equal to it.
pub open spec fn insert_sorted<T>(t: Seq<T>, x: T, le: spec_fn(T, T) -> bool) -> Seq<T>
    decreases t.len(),
{
    if t.len() == 0 || le(t.last(), x) {
        t.push(x)
    } else {
        insert_sorted(t.drop_last(), x, le).push(t.last())
    }
}

/// Stable sort of `s` by `le`: elements that `le` ranks alike keep their order.
pub open spec fn sort_stable<T>(s: Seq<T>, le: spec_fn(T, T) -> bool) -> Seq<T>
    decreases s.len(),
{
    if s.len() == 0 {
        s
    } else {
        insert_sorted(sort_stable(s.drop_last(), le), s.last(), le)
    }
}

/// Where [`insert_sorted`] puts `x`.
pub open spec fn insert_pos<T>(t: Seq<T>, x: T, le: spec_fn(T, T) -> bool) -> int
    decreases t.len(),
{
    if t.len() == 0 || le(t.last(), x) {
        t.len() as int
    } else {
        insert_pos(t.drop_last(), x, le)
    }
}

pub proof fn lemma_insert_pos<T>(t: Seq<T>, x: T, le: spec_fn(T, T) -> bool)
    ensures
        0 <= insert_pos(t, x, le) <= t.len(),
        insert_sorted(t, x, le) == t.insert(insert_pos(t, x, le), x),
    decreases t.len(),
{
    if t.len() == 0 || le(t.last(), x) {
        assert(t.push(x) =~= t.insert(t.len() as int, x));
    } else {
        lemma_insert_pos(t.drop_last(), x, le);
        let p = insert_pos(t, x, le);
        assert(t.drop_last().insert(p, x).push(t.last()) =~= t.insert(p, x));
    }
}

pub proof fn lemma_insert_sorted_map<A, B>(
    t: Seq<A>,
    x: A,
    f: spec_fn(A) -> B,
    la: spec_fn(A, A) -> bool,
    lb: spec_fn(B, B) -> bool,
)
    requires
        forall|a: A, b: A| #[trigger] la(a, b) == lb(f(a), f(b)),
    ensures
        insert_sorted(t, x, la).map_values(f) == insert_sorted(t.map_values(f), f(x), lb),
    decreases t.len(),
{
    let tm = t.map_values(f);
    if t.len() == 0 {
        assert(t.push(x).map_values(f) =~= tm.push(f(x)));
    } else {
        assert(tm.last() == f(t.last()));
        assert(la(t.last(), x) == lb(f(t.last()), f(x)));
        if la(t.last(), x) {
            assert(t.push(x).map_values(f) =~= tm.push(f(x)));
        } else {
            lemma_insert_sorted_map(t.drop_last(), x, f, la, lb);
            assert(t.drop_last().map_values(f) =~= tm.drop_last());
            assert(insert_sorted(t.drop_last(), x, la).push(t.last()).map_values(f)
                =~= insert_sorted(t.drop_last(), x, la).map_values(f).push(f(t.last())));
        }
    }
}

/// Sorting commutes with a map whose orders agree.
pub proof fn lemma_sort_map<A, B>(
    s: Seq<A>,
    f: spec_fn(A) -> B,
    la: spec_fn(A, A) -> bool,
    lb: spec_fn(B, B) -> bool,
)
    requires
        forall|a: A, b: A| #[trigger] la(a, b) == lb(f(a), f(b)),
    ensures
        sort_stable(s, la).map_values(f) == sort_stable(s.map_values(f), lb),
    decreases s.len(),
{
    let sm = s.map_values(f);
    if s.len() == 0 {
        assert(s.map_values(f) =~= sm);
    } else {
        lemma_sort_map(s.drop_last(), f, la, lb);
        assert(s.drop_last().map_values(f) =~= sm.drop_last());
        lemma_insert_sorted_map(sort_stable(s.drop_last(), la), s.last(), f, la, lb);
    }
}

/// The order of indices by the key each one selects.
pub open spec fn key_order(keys: Seq<Seq<char>>) -> spec_fn(usize, usize) -> bool {
    |i: usize, j: usize| seq_le(keys[i as int], keys[j as int])
}

/// Lexicographic order on pairs of character sequences.
pub open spec fn pair_le(a: (Seq<char>, Seq<char>), b: (Seq<char>, Seq<char>)) -> bool {
    seq_lt(a.0, b.0) || (a.0 == b.0 && seq_le(a.1, b.1))
}

/// The order of pairs of character sequences.
pub open spec fn pair_order() -> spec_fn((Seq<char>, Seq<char>), (Seq<char>, Seq<char>)) -> bool {
    |a: (Seq<char>, Seq<char>), b: (Seq<char>, Seq<char>)| pair_le(a, b)
}

/// The order of indices by the pair that each one selects.
pub open spec fn pair_key_order(firsts: Seq<Seq<char>>, seconds: Seq<Seq<char>>) -> spec_fn(
    usize,
    usize,
) -> bool {
    |i: usize, j: usize|
        pair_le((firsts[i as int], seconds[i as int]), (firsts[j as int], seconds[j as int]))
}

/// The elements of `s` that `idx` selects, in the order of `idx`.
pub open spec fn pick<T>(s: Seq<T>, idx: Seq<usize>) -> Seq<T> {
    Seq::new(idx.len(), |q: int| s[idx[q] as int])
}

/// All indices are below `n`.
pub open spec fn indices_below(idx: Seq<usize>, n: int) -> bool {
    forall|k: int| 0 <= k < idx.len() ==> idx[k] < n
}

proof fn lemma_insert_keeps_bounds(t: Seq<usize>, p: int, x: usize, n: int)
    requires
        indices_below(t, n),
        x < n,
        0 <= p <= t.len(),
    ensures
        indices_below(t.insert(p, x), n),
{
    let r = t.insert(p, x);
    assert forall|k: int| 0 <= k < r.len() implies r[k] < n by {
        if k < p {
            assert(r[k] == t[k]);
        } else if k > p {
            assert(r[k] == t[k - 1]);
        }
    }
}

/// `idx` stably sorted by `le`, which `index_le` decides on indices below `n`.
fn sort_indices_with<F: Fn(usize, usize) -> bool>(
    idx: &Vec<usize>,
    n: usize,
    index_le: F,
    Ghost(le): Ghost<spec_fn(usize, usize) -> bool>,
) -> (r: Vec<usize>)
    requires
        indices_below(idx@, n as int),
        forall|i: usize, j: usize| i < n && j < n ==> #[trigger] index_le.requires((i, j)),
        forall|i: usize, j: usize, b: bool|
            i < n && j < n && #[trigger] index_le.ensures((i, j), b) ==> b == le(i, j),
    ensures
        r@ == sort_stable(idx@, le),
        indices_below(r@, n as int),
{
    let mut out: Vec<usize> = Vec::new();
    let mut i: usize = 0;
    assert(idx@.take(0) =~= Seq::<usize>::empty());
    while i < idx.len()
        invariant
            i <= idx@.len(),
            indices_below(idx@, n as int),
            indices_below(out@, n as int),
            forall|i: usize, j: usize| i < n && j < n ==> #[trigger] index_le.requires((i, j)),
            forall|i: usize, j: usize, b: bool|
                i < n && j < n && #[trigger] index_le.ensures((i, j), b) ==> b == le(i, j),
            out@ == sort_stable(idx@.take(i as int), le),
        decreases idx@.len() - i,
    {
        let x = idx[i];
        let mut p = out.len();
        proof {
            lemma_insert_pos(out@, x, le);
        }
        assert(out@.take(p as int) =~= out@);
        loop
            invariant
                p <= out@.len(),
                x < n,
                indices_below(out@, n as int),
                forall|i: usize, j: usize| i < n && j < n ==> #[trigger] index_le.requires((i, j)),
                forall|i: usize, j: usize, b: bool|
                    i < n && j < n && #[trigger] index_le.ensures((i, j), b) ==> b == le(i, j),
                insert_pos(out@, x, le) == insert_pos(out@.take(p as int), x, le),
            ensures
                p <= out@.len(),
                insert_pos(out@, x, le) == insert_pos(out@.take(p as int), x, le),
                p > 0 ==> le(out@.take(p as int).last(), x),
            decreases p,
        {
            if p == 0 {
                break;
            }
            let before = index_le(out[p - 1], x);
            if before {
                break;
            }
            assert(out@.take(p as int).drop_last() =~= out@.take(p - 1));
            p = p - 1;
        }
        proof {
            lemma_insert_pos(out@.take(p as int), x, le);
            lemma_insert_keeps_bounds(out@, p as int, x, n as int);
        }
        out.insert(p, x);
        assert(idx@.take(i + 1).drop_last() =~= idx@.take(i as int));
        i = i + 1;
    }
    assert(idx@.take(idx@.len() as int) =~= idx@);
    out
}

/// `idx` stably sorted by the keys its elements select.
pub fn sort_indices_by_key(keys: &Vec<Vec<char>>, idx: &Vec<usize>) -> (r: Vec<usize>)
    requires
        indices_below(idx@, keys@.len() as int),
    ensures
        r@ == sort_stable(idx@, key_order(views(keys@))),
        indices_below(r@, keys@.len() as int),
{
    let index_le = |i: usize, j: usize| -> (b: bool)
        requires
            i < keys@.len(),
            j < keys@.len(),
        ensures
            b == key_order(views(keys@))(i, j),
        { chars_le(keys[i].as_slice(), keys[j].as_slice()) };
    sort_indices_with(idx, keys.len(), index_le, Ghost(key_order(views(keys@))))
}

/// Whether pair `i` sorts no later than pair `j`.
fn pair_index_le(firsts: &Vec<Vec<char>>, seconds: &Vec<Vec<char>>, i: usize, j: usize) -> (r: bool)
    requires
        i < firsts@.len(),
        j < firsts@.len(),
        firsts@.len() == seconds@.len(),
    ensures
        r == pair_key_order(views(firsts@), views(seconds@))(i, j),
{
    let a = firsts[i].as_slice();
    let b = firsts[j].as_slice();
    chars_lt(a, b) || (chars_eq(a, b) && chars_le(seconds[i].as_slice(), seconds[j].as_slice()))
}

/// `idx` stably sorted by the pairs its elements select.
pub fn sort_indices_by_pair(firsts: &Vec<Vec<char>>, seconds: &Vec<Vec<char>>, idx: &Vec<usize>) -> (r:
    Vec<usize>)
    requires
        firsts@.len() == seconds@.len(),
        indices_below(idx@, firsts@.len() as int),
    ensures
        r@ == sort_stable(idx@, pair_key_order(views(firsts@), views(seconds@))),
        indices_below(r@, firsts@.len() as int),
{
    let index_le = |i: usize, j: usize| -> (b: bool)
        requires
            i < firsts@.len(),
            j < firsts@.len(),
            firsts@.len() == seconds@.len(),
        ensures
            b == pair_key_order(views(firsts@), views(seconds@))(i, j),
        { pair_index_le(firsts, seconds, i, j) };
    sort_indices_with(idx, firsts.len(), index_le, Ghost(pair_key_order(views(firsts@), views(seconds@))))
}

// ---------------------------------------------------------------------------
// What sorting gives
// ---------------------------------------------------------------------------

/// `le` is total and transitive.
pub open spec fn total_preorder<T>(le: spec_fn(T, T) -> bool) -> bool {
    &&& forall|a: T, b: T| #[trigger] le(a, b) || le(b, a)
    &&& forall|a: T, b: T, c: T| #[trigger] le(a, b) && #[trigger] le(b, c) ==> le(a, c)
}

/// Every element sorts no later than the ones after it.
pub open spec fn sorted_by<T>(s: Seq<T>, le: spec_fn(T, T) -> bool) -> bool {
    forall|i: int, j: int| 0 <= i < j < s.len() ==> le(#[trigger] s[i], #[trigger] s[j])
}

proof fn lemma_insert_pos_bounds<T>(t: Seq<T>, x: T, le: spec_fn(T, T) -> bool)
    ensures
        forall|i: int| insert_pos(t, x, le) <= i < t.len() ==> !le(#[trigger] t[i], x),
        insert_pos(t, x, le) > 0 ==> le(t[insert_pos(t, x, le) - 1], x),
    decreases t.len(),
{
    if t.len() == 0 || le(t.last(), x) {
    } else {
        let init = t.drop_last();
        lemma_insert_pos_bounds(init, x, le);
        lemma_insert_pos(init, x, le);
        assert forall|i: int| insert_pos(t, x, le) <= i < t.len() implies !le(#[trigger] t[i], x) by {
            if i < t.len() - 1 {
                assert(t[i] == init[i]);
            }
        }
        if insert_pos(t, x, le) > 0 {
            assert(t[insert_pos(t, x, le) - 1] == init[insert_pos(t, x, le) - 1]);
        }
    }
}

/// Sorting keeps the length and the elements.
pub proof fn lemma_sort_elems<T>(s: Seq<T>, le: spec_fn(T, T) -> bool)
    ensures
        sort_stable(s, le).len() == s.len(),
        forall|x: T| sort_stable(s, le).contains(x) <==> s.contains(x),
    decreases s.len(),
{
    if s.len() > 0 {
        let init = s.drop_last();
        let t = sort_stable(init, le);
        lemma_sort_elems(init, le);
        lemma_insert_pos(t, s.last(), le);
        let p = insert_pos(t, s.last(), le);
        let r = t.insert(p, s.last());
        assert forall|x: T| r.contains(x) <==> s.contains(x) by {
            if r.contains(x) {
                let k = choose|k: int| 0 <= k < r.len() && r[k] == x;
                if k < p {
                    assert(t[k] == x);
                    assert(t.contains(x));
                    assert(init.contains(x));
                    let m = choose|m: int| 0 <= m < init.len() && init[m] == x;
                    assert(s[m] == x);
                } else if k == p {
                    assert(s[s.len() - 1] == x);
                } else {
                    assert(t[k - 1] == x);
                    assert(t.contains(x));
                    assert(init.contains(x));
                    let m = choose|m: int| 0 <= m < init.len() && init[m] == x;
                    assert(s[m] == x);
                }
            }
            if s.contains(x) {
                let k = choose|k: int| 0 <= k < s.len() && s[k] == x;
                if k == s.len() - 1 {
                    assert(r[p] == x);
                } else {
                    assert(init[k] == x);
                    assert(init.contains(x));
                    assert(t.contains(x));
                    let m = choose|m: int| 0 <= m < t.len() && t[m] == x;
                    if m < p {
                        assert(r[m] == x);
                    } else {
                        assert(r[m + 1] == x);
                    }
                }
            }
        }
    }
}

/// Sorting a sequence without repetitions gives one without repetitions.
pub proof fn lemma_sort_no_duplicates<T>(s: Seq<T>, le: spec_fn(T, T) -> bool)
    requires
        s.no_duplicates(),
    ensures
        sort_stable(s, le).no_duplicates(),
    decreases s.len(),
{
    if s.len() > 0 {
        let init = s.drop_last();
        let x = s.last();
        let t = sort_stable(init, le);
        assert(init.no_duplicates()) by {
            assert forall|i: int, j: int| 0 <= i < init.len() && 0 <= j < init.len() && i != j implies init[i] != init[j] by {
                assert(init[i] == s[i] && init[j] == s[j]);
            }
        }
        lemma_sort_no_duplicates(init, le);
        lemma_sort_elems(init, le);
        lemma_insert_pos(t, x, le);
        assert(!init.contains(x)) by {
            if init.contains(x) {
                let m = choose|m: int| 0 <= m < init.len() && init[m] == x;
                assert(s[m] == s[s.len() - 1]);
            }
        }
        assert(!t.contains(x));
        let p = insert_pos(t, x, le);
        let r = t.insert(p, x);
        assert forall|i: int, j: int| 0 <= i < r.len() && 0 <= j < r.len() && i != j implies r[i] != r[j] by {
            if i != p && j != p {
                let ti = if i < p { i } else { i - 1 };
                let tj = if j < p { j } else { j - 1 };
                assert(r[i] == t[ti] && r[j] == t[tj]);
            } else if i == p {
                let tj = if j < p { j } else { j - 1 };
                assert(r[j] == t[tj]);
            } else {
                let ti = if i < p { i } else { i - 1 };
                assert(r[i] == t[ti]);
            }
        }
    }
}

/// Sorting rearranges: the sorted sequence has the same elements, each as
/// often.
pub proof fn lemma_sort_multiset<T>(s: Seq<T>, le: spec_fn(T, T) -> bool)
    ensures
        sort_stable(s, le).to_multiset() == s.to_multiset(),
    decreases s.len(),
{
    if s.len() > 0 {
        let init = s.drop_last();
        let t = sort_stable(init, le);
        lemma_sort_multiset(init, le);
        lemma_insert_pos(t, s.last(), le);
        vstd::seq_lib::to_multiset_insert(t, insert_pos(t, s.last(), le), s.last());
        vstd::seq_lib::to_multiset_build(init, s.last());
        assert(init.push(s.last()) =~= s);
    }
}

/// Sorting keeps apart what `f` keeps apart.
pub proof fn lemma_sort_distinct_by<T, K>(s: Seq<T>, le: spec_fn(T, T) -> bool, f: spec_fn(T) -> K)
    requires
        forall|i: int, j: int| 0 <= i < j < s.len() ==> f(#[trigger] s[i]) != f(#[trigger] s[j]),
    ensures
        forall|i: int, j: int|
            0 <= i < j < sort_stable(s, le).len() ==> f(#[trigger] sort_stable(s, le)[i]) != f(
                #[trigger] sort_stable(s, le)[j],
            ),
    decreases s.len(),
{
    if s.len() > 0 {
        let init = s.drop_last();
        let x = s.last();
        let t = sort_stable(init, le);
        assert forall|i: int, j: int| 0 <= i < j < init.len() implies f(#[trigger] init[i]) != f(
            #[trigger] init[j],
        ) by {
            assert(init[i] == s[i] && init[j] == s[j]);
        }
        lemma_sort_distinct_by(init, le, f);
        lemma_sort_elems(init, le);
        lemma_insert_pos(t, x, le);
        assert forall|k: int| 0 <= k < t.len() implies f(#[trigger] t[k]) != f(x) by {
            assert(t.contains(t[k]));
            assert(init.contains(t[k]));
            let m = choose|m: int| 0 <= m < init.len() && init[m] == t[k];
            assert(s[m] == init[m]);
        }
        let p = insert_pos(t, x, le);
        let r = t.insert(p, x);
        assert forall|i: int, j: int| 0 <= i < j < r.len() implies f(#[trigger] r[i]) != f(#[trigger] r[j]) by {
            if i != p && j != p {
                let ti = if i < p { i } else { i - 1 };
                let tj = if j < p { j } else { j - 1 };
                assert(r[i] == t[ti] && r[j] == t[tj]);
            } else if i == p {
                assert(r[j] == t[j - 1]);
            } else {
                assert(r[i] == t[i]);
            }
        }
    }
}

/// Two sorted sequences without repeats that hold the same elements are
/// equal, when the order ranks no two of those elements alike.
pub proof fn lemma_sorted_unique<T>(a: Seq<T>, b: Seq<T>, le: spec_fn(T, T) -> bool)
    requires
        sorted_by(a, le),
        sorted_by(b, le),
        a.no_duplicates(),
        b.no_duplicates(),
        forall|x: T| a.contains(x) <==> b.contains(x),
        forall|x: T, y: T| a.contains(x) && a.contains(y) && #[trigger] le(x, y) && #[trigger] le(y, x) ==> x == y,
    ensures
        a == b,
    decreases a.len(),
{
    if a.len() == 0 {
        if b.len() > 0 {
            assert(b.contains(b[0]));
        }
        assert(a =~= b);
    } else {
        if b.len() == 0 {
            assert(a.contains(a[0]));
        }
        let x = a.last();
        let y = b.last();
        assert(a.contains(x));
        assert(b.contains(y));
        let ka = choose|k: int| 0 <= k < a.len() && a[k] == y;
        let kb = choose|k: int| 0 <= k < b.len() && b[k] == x;
        if x != y {
            assert(ka != a.len() - 1);
            assert(kb != b.len() - 1);
            assert(le(a[ka], a[a.len() - 1]));
            assert(le(b[kb], b[b.len() - 1]));
        }
        let a2 = a.drop_last();
        let b2 = b.drop_last();
        assert forall|z: T| a2.contains(z) <==> b2.contains(z) by {
            if a2.contains(z) {
                let i = choose|i: int| 0 <= i < a2.len() && a2[i] == z;
                assert(a[i] == z && a.contains(z));
                assert(z != x);
                let j = choose|j: int| 0 <= j < b.len() && b[j] == z;
                assert(j != b.len() - 1);
                assert(b2[j] == z);
            }
            if b2.contains(z) {
                let i = choose|i: int| 0 <= i < b2.len() && b2[i] == z;
                assert(b[i] == z && b.contains(z));
                assert(z != y);
                let j = choose|j: int| 0 <= j < a.len() && a[j] == z;
                assert(j != a.len() - 1);
                assert(a2[j] == z);
            }
        }
        assert forall|i: int, j: int| 0 <= i < j < a2.len() implies le(#[trigger] a2[i], #[trigger] a2[j]) by {
            assert(a2[i] == a[i] && a2[j] == a[j]);
        }
        assert forall|i: int, j: int| 0 <= i < j < b2.len() implies le(#[trigger] b2[i], #[trigger] b2[j]) by {
            assert(b2[i] == b[i] && b2[j] == b[j]);
        }
        assert forall|z: T, w: T| a2.contains(z) && a2.contains(w) && #[trigger] le(z, w) && #[trigger] le(w, z) implies z == w by {
            let i = choose|i: int| 0 <= i < a2.len() && a2[i] == z;
            let j = choose|j: int| 0 <= j < a2.len() && a2[j] == w;
            assert(a[i] == z && a[j] == w);
            assert(a.contains(z) && a.contains(w));
        }
        assert(a2.no_duplicates()) by {
            assert forall|i: int, j: int| 0 <= i < a2.len() && 0 <= j < a2.len() && i != j implies a2[i] != a2[j] by {
                assert(a2[i] == a[i] && a2[j] == a[j]);
            }
        }
        assert(b2.no_duplicates()) by {
            assert forall|i: int, j: int| 0 <= i < b2.len() && 0 <= j < b2.len() && i != j implies b2[i] != b2[j] by {
                assert(b2[i] == b[i] && b2[j] == b[j]);
            }
        }
        lemma_sorted_unique(a2, b2, le);
        assert(a =~= a2.push(x));
        assert(b =~= b2.push(y));
    }
}

/// A rearrangement keeps apart what `f` keeps apart, and keeps the elements.
pub proof fn lemma_perm_distinct_by<T, K>(a: Seq<T>, b: Seq<T>, f: spec_fn(T) -> K)
    requires
        a.to_multiset() == b.to_multiset(),
        forall|i: int, j: int| 0 <= i < j < a.len() ==> f(#[trigger] a[i]) != f(#[trigger] a[j]),
    ensures
        forall|i: int, j: int| 0 <= i < j < b.len() ==> f(#[trigger] b[i]) != f(#[trigger] b[j]),
        forall|x: T| a.contains(x) <==> b.contains(x),
{
    a.to_multiset_ensures();
    b.to_multiset_ensures();
    assert(a.no_duplicates()) by {
        assert forall|i: int, j: int| 0 <= i < a.len() && 0 <= j < a.len() && i != j implies a[i] != a[j] by {
            if i < j {
                assert(f(a[i]) != f(a[j]));
            } else {
                assert(f(a[j]) != f(a[i]));
            }
        }
    }
    assert forall|x: T| a.contains(x) <==> b.contains(x) by {
        vstd::seq_lib::to_multiset_contains(a, x);
        vstd::seq_lib::to_multiset_contains(b, x);
    }
    a.lemma_multiset_has_no_duplicates();
    assert forall|x: T| b.to_multiset().contains(x) implies b.to_multiset().count(x) == 1 by {
        assert(a.to_multiset().count(x) == b.to_multiset().count(x));
    }
    b.lemma_multiset_has_no_duplicates_conv();
    assert forall|i: int, j: int| 0 <= i < j < b.len() implies f(#[trigger] b[i]) != f(#[trigger] b[j]) by {
        assert(b.contains(b[i]) && b.contains(b[j]));
        assert(a.contains(b[i]) && a.contains(b[j]));
        let p = choose|p: int| 0 <= p < a.len() && a[p] == b[i];
        let q = choose|q: int| 0 <= q < a.len() && a[q] == b[j];
        assert(b[i] != b[j]);
        assert(p != q);
        if p < q {
            assert(f(a[p]) != f(a[q]));
        } else {
            assert(f(a[q]) != f(a[p]));
        }
    }
}

/// Sorting by a total preorder gives a sorted sequence.
pub proof fn lemma_sort_sorted<T>(s: Seq<T>, le: spec_fn(T, T) -> bool)
    requires
        total_preorder(le),
    ensures
        sorted_by(sort_stable(s, le), le),
    decreases s.len(),
{
    if s.len() > 0 {
        let init = s.drop_last();
        let x = s.last();
        let t = sort_stable(init, le);
        lemma_sort_sorted(init, le);
        lemma_insert_pos(t, x, le);
        lemma_insert_pos_bounds(t, x, le);
        let p = insert_pos(t, x, le);
        let r = t.insert(p, x);
        assert forall|i: int, j: int| 0 <= i < j < r.len() implies le(#[trigger] r[i], #[trigger] r[j]) by {
            if j < p {
                assert(r[i] == t[i] && r[j] == t[j]);
            } else if i > p {
                assert(r[i] == t[i - 1] && r[j] == t[j - 1]);
            } else if i == p {
                // x, then an element after the insertion point.
                assert(r[j] == t[j - 1]);
                assert(!le(t[j - 1], x));
                assert(le(t[j - 1], x) || le(x, t[j - 1]));
            } else if j == p {
                // an element before the insertion point, then x.
                assert(r[i] == t[i]);
                assert(le(t[p - 1], x));
                if i < p - 1 {
                    assert(le(t[i], t[p - 1]));
                }
            } else {
                assert(i < p && p < j);
                assert(r[i] == t[i] && r[j] == t[j - 1]);
            }
        }
    }
}

} // verus!
