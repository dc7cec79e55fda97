//! Stable sorting by an integer key: what it is, and what it keeps.

use vstd::prelude::*;

verus! {

/// Whether the keys of `s` never fall from one element to a later one.
pub open spec fn is_sorted_by<T>(s: Seq<T>, key: spec_fn(T) -> int) -> bool {
    forall|i: int, j: int| 0 <= i < j < s.len() ==> key(s[i]) <= key(s[j])
}

/// Whether `rel` holds from each element of `s` to each later one.
pub open spec fn holds_in_order<T>(s: Seq<T>, rel: spec_fn(T, T) -> bool) -> bool {
    forall|i: int, j: int| 0 <= i < j < s.len() ==> rel(s[i], s[j])
}

/// Whether, from each element of `s` to each later one, the key rises, or
/// stays and `rel` holds.
pub open spec fn is_ordered_by<T>(
    s: Seq<T>,
    key: spec_fn(T) -> int,
    rel: spec_fn(T, T) -> bool,
) -> bool {
    forall|i: int, j: int|
        0 <= i < j < s.len() ==> key(s[i]) < key(s[j]) || (key(s[i]) == key(s[j]) && rel(
            s[i],
            s[j],
        ))
}

/// The test for an element whose key is `k`.
pub open spec fn has_key<T>(key: spec_fn(T) -> int, k: int) -> spec_fn(T) -> bool {
    |x: T| key(x) == k
}

/// The elements of `s` whose key is `k`, in their order.
pub open spec fn with_key<T>(s: Seq<T>, key: spec_fn(T) -> int, k: int) -> Seq<T> {
    s.filter(has_key(key, k))
}

/// `sorted` with `x` put behind the last element whose key is not greater
/// than that of `x`.
pub open spec fn insert_by_key<T>(sorted: Seq<T>, x: T, key: spec_fn(T) -> int) -> Seq<T>
    decreases sorted.len(),
{
    if sorted.len() == 0 || key(sorted.last()) <= key(x) {
        sorted.push(x)
    } else {
        insert_by_key(sorted.drop_last(), x, key).push(sorted.last())
    }
}

/// The elements of `s` in the order of their keys, those of one key in the
/// order that they have in `s`.
pub open spec fn stable_sort<T>(s: Seq<T>, key: spec_fn(T) -> int) -> Seq<T>
    decreases s.len(),
{
    if s.len() == 0 {
        s
    } else {
        insert_by_key(stable_sort(s.drop_last(), key), s.last(), key)
    }
}

/// Whether `r` is in the order of the keys and holds, for each key, the
/// elements that `s` has of that key, in the order that they have in `s`.
pub open spec fn is_stable_sort_of<T>(r: Seq<T>, s: Seq<T>, key: spec_fn(T) -> int) -> bool {
    &&& is_sorted_by(r, key)
    &&& forall|k: int| #[trigger] with_key(r, key, k) == with_key(s, key, k)
}

/// Filtering a sequence with one element more keeps that element or not.
pub proof fn lemma_filter_push<T>(s: Seq<T>, x: T, pred: spec_fn(T) -> bool)
    ensures
        s.push(x).filter(pred) == if pred(x) {
            s.filter(pred).push(x)
        } else {
            s.filter(pred)
        },
{
    reveal(Seq::filter);
    assert(s.push(x).drop_last() =~= s);
}

/// A filter keeps the elements that pass it, and no others.
pub proof fn lemma_filter_elements<T>(s: Seq<T>, pred: spec_fn(T) -> bool)
    ensures
        forall|x: T| #[trigger] s.filter(pred).contains(x) <==> s.contains(x) && pred(x),
    decreases s.len(),
{
    reveal(Seq::filter);
    if s.len() > 0 {
        let front = s.drop_last();
        lemma_filter_elements(front, pred);
        assert forall|x: T| #[trigger] s.filter(pred).contains(x) <==> s.contains(x) && pred(
            x,
        ) by {
            if s.filter(pred).contains(x) {
                let i = choose|i: int| 0 <= i < s.filter(pred).len() && s.filter(pred)[i] == x;
                if pred(s.last()) && i == s.filter(pred).len() - 1 {
                    assert(s[s.len() - 1] == x);
                } else {
                    assert(front.filter(pred)[i] == x);
                    assert(front.filter(pred).contains(x));
                    let j = choose|j: int| 0 <= j < front.len() && front[j] == x;
                    assert(s[j] == x);
                }
            }
            if s.contains(x) && pred(x) {
                let j = choose|j: int| 0 <= j < s.len() && s[j] == x;
                if j == s.len() - 1 {
                    assert(s.filter(pred)[s.filter(pred).len() - 1] == x);
                } else {
                    assert(front[j] == x);
                    assert(front.filter(pred).contains(x));
                    let i = choose|i: int|
                        0 <= i < front.filter(pred).len() && front.filter(pred)[i] == x;
                    assert(s.filter(pred)[i] == x);
                }
            }
        }
    }
}

/// A filter that no element passes leaves nothing.
pub proof fn lemma_filter_none<T>(s: Seq<T>, pred: spec_fn(T) -> bool)
    requires
        forall|i: int| 0 <= i < s.len() ==> !pred(#[trigger] s[i]),
    ensures
        s.filter(pred) == Seq::<T>::empty(),
{
    lemma_filter_elements(s, pred);
    let kept = s.filter(pred);
    if kept.len() > 0 {
        assert(kept.contains(kept[0]));
        let i = choose|i: int| 0 <= i < s.len() && s[i] == kept[0];
        assert(!pred(s[i]));
    }
    assert(kept =~= Seq::<T>::empty());
}

/// A filter that every element passes changes nothing.
pub proof fn lemma_filter_all<T>(s: Seq<T>, pred: spec_fn(T) -> bool)
    requires
        forall|i: int| 0 <= i < s.len() ==> pred(#[trigger] s[i]),
    ensures
        s.filter(pred) == s,
    decreases s.len(),
{
    reveal(Seq::filter);
    if s.len() > 0 {
        lemma_filter_all(s.drop_last(), pred);
        assert(s.drop_last().push(s.last()) =~= s);
    }
}

/// What holds from each element to each later one still holds after a
/// filter.
pub proof fn lemma_filter_holds_in_order<T>(
    s: Seq<T>,
    pred: spec_fn(T) -> bool,
    rel: spec_fn(T, T) -> bool,
)
    requires
        holds_in_order(s, rel),
    ensures
        holds_in_order(s.filter(pred), rel),
    decreases s.len(),
{
    reveal(Seq::filter);
    if s.len() > 0 {
        let front = s.drop_last();
        assert forall|i: int, j: int| 0 <= i < j < front.len() implies rel(front[i], front[j]) by {
            assert(front[i] == s[i] && front[j] == s[j]);
        }
        lemma_filter_holds_in_order(front, pred, rel);
        lemma_filter_elements(front, pred);
        let kept = s.filter(pred);
        assert forall|i: int, j: int| 0 <= i < j < kept.len() implies rel(kept[i], kept[j]) by {
            if pred(s.last()) && j == kept.len() - 1 {
                assert(front.filter(pred)[i] == kept[i]);
                assert(front.filter(pred).contains(kept[i]));
                let m = choose|m: int| 0 <= m < front.len() && front[m] == kept[i];
                assert(s[m] == kept[i]);
                assert(rel(s[m], s[s.len() - 1]));
            } else {
                assert(front.filter(pred)[i] == kept[i]);
                assert(front.filter(pred)[j] == kept[j]);
            }
        }
    }
}

/// Two filters, one after the other, may change places.
pub proof fn lemma_filter_commutes<T>(s: Seq<T>, p: spec_fn(T) -> bool, q: spec_fn(T) -> bool)
    ensures
        s.filter(p).filter(q) == s.filter(q).filter(p),
    decreases s.len(),
{
    reveal(Seq::filter);
    if s.len() > 0 {
        let front = s.drop_last();
        let x = s.last();
        lemma_filter_commutes(front, p, q);
        lemma_filter_push(front.filter(p), x, q);
        lemma_filter_push(front.filter(q), x, p);
    }
}

/// Inserting adds one element.
pub proof fn lemma_insert_len<T>(sorted: Seq<T>, x: T, key: spec_fn(T) -> int)
    ensures
        insert_by_key(sorted, x, key).len() == sorted.len() + 1,
    decreases sorted.len(),
{
    if !(sorted.len() == 0 || key(sorted.last()) <= key(x)) {
        lemma_insert_len(sorted.drop_last(), x, key);
    }
}

/// Inserting adds `x` and nothing else.
pub proof fn lemma_insert_elements<T>(sorted: Seq<T>, x: T, key: spec_fn(T) -> int)
    ensures
        forall|y: T| #[trigger]
            insert_by_key(sorted, x, key).contains(y) <==> y == x || sorted.contains(y),
    decreases sorted.len(),
{
    let r = insert_by_key(sorted, x, key);
    if sorted.len() == 0 || key(sorted.last()) <= key(x) {
        assert forall|y: T| #[trigger] r.contains(y) <==> y == x || sorted.contains(y) by {
            if r.contains(y) {
                let i = choose|i: int| 0 <= i < r.len() && r[i] == y;
                if i < sorted.len() {
                    assert(sorted[i] == y);
                }
            }
            if sorted.contains(y) {
                let i = choose|i: int| 0 <= i < sorted.len() && sorted[i] == y;
                assert(r[i] == y);
            }
            if y == x {
                assert(r[r.len() - 1] == y);
            }
        }
    } else {
        let front = sorted.drop_last();
        let inner = insert_by_key(front, x, key);
        lemma_insert_elements(front, x, key);
        assert forall|y: T| #[trigger] r.contains(y) <==> y == x || sorted.contains(y) by {
            if r.contains(y) {
                let i = choose|i: int| 0 <= i < r.len() && r[i] == y;
                if i < inner.len() {
                    assert(inner[i] == y);
                    assert(inner.contains(y));
                    if y != x {
                        let j = choose|j: int| 0 <= j < front.len() && front[j] == y;
                        assert(sorted[j] == y);
                    }
                } else {
                    assert(sorted[sorted.len() - 1] == y);
                }
            }
            if sorted.contains(y) {
                let j = choose|j: int| 0 <= j < sorted.len() && sorted[j] == y;
                if j < front.len() {
                    assert(front[j] == y);
                    assert(inner.contains(y));
                    let i = choose|i: int| 0 <= i < inner.len() && inner[i] == y;
                    assert(r[i] == y);
                } else {
                    assert(r[r.len() - 1] == y);
                }
            }
            if y == x {
                assert(inner.contains(x));
                let i = choose|i: int| 0 <= i < inner.len() && inner[i] == x;
                assert(r[i] == x);
            }
        }
    }
}

/// Inserting `x` adds it to the elements of its key, behind them, and leaves
/// those of every other key as they are.
pub proof fn lemma_insert_with_key<T>(sorted: Seq<T>, x: T, key: spec_fn(T) -> int, k: int)
    ensures
        with_key(insert_by_key(sorted, x, key), key, k) == if key(x) == k {
            with_key(sorted, key, k).push(x)
        } else {
            with_key(sorted, key, k)
        },
    decreases sorted.len(),
{
    let pred = has_key(key, k);
    if sorted.len() == 0 || key(sorted.last()) <= key(x) {
        lemma_filter_push(sorted, x, pred);
    } else {
        let front = sorted.drop_last();
        lemma_insert_with_key(front, x, key, k);
        lemma_filter_push(insert_by_key(front, x, key), sorted.last(), pred);
        lemma_filter_push(front, sorted.last(), pred);
        assert(front.push(sorted.last()) =~= sorted);
    }
}

/// Inserting into an ordered sequence an element that `rel` holds to from
/// each of its elements leaves it ordered.
pub proof fn lemma_insert_ordered<T>(
    sorted: Seq<T>,
    x: T,
    key: spec_fn(T) -> int,
    rel: spec_fn(T, T) -> bool,
)
    requires
        is_ordered_by(sorted, key, rel),
        forall|i: int| 0 <= i < sorted.len() ==> rel(#[trigger] sorted[i], x),
    ensures
        is_ordered_by(insert_by_key(sorted, x, key), key, rel),
    decreases sorted.len(),
{
    let r = insert_by_key(sorted, x, key);
    if sorted.len() == 0 || key(sorted.last()) <= key(x) {
        assert forall|i: int, j: int| 0 <= i < j < r.len() implies key(r[i]) < key(r[j]) || (key(
            r[i],
        ) == key(r[j]) && rel(r[i], r[j])) by {
            if j == sorted.len() {
                if i < sorted.len() - 1 {
                    assert(key(sorted[i]) <= key(sorted[sorted.len() - 1]));
                }
                assert(rel(sorted[i], x));
            } else {
                assert(r[i] == sorted[i] && r[j] == sorted[j]);
            }
        }
    } else {
        let front = sorted.drop_last();
        let last = sorted.last();
        let inner = insert_by_key(front, x, key);
        assert forall|i: int, j: int| 0 <= i < j < front.len() implies key(front[i]) < key(
            front[j],
        ) || (key(front[i]) == key(front[j]) && rel(front[i], front[j])) by {
            assert(front[i] == sorted[i] && front[j] == sorted[j]);
        }
        assert forall|i: int| 0 <= i < front.len() implies rel(#[trigger] front[i], x) by {
            assert(front[i] == sorted[i]);
        }
        lemma_insert_ordered(front, x, key, rel);
        lemma_insert_elements(front, x, key);
        lemma_insert_len(front, x, key);
        assert forall|i: int, j: int| 0 <= i < j < r.len() implies key(r[i]) < key(r[j]) || (key(
            r[i],
        ) == key(r[j]) && rel(r[i], r[j])) by {
            if j == inner.len() {
                assert(inner[i] == r[i]);
                assert(inner.contains(r[i]));
                if r[i] != x {
                    let m = choose|m: int| 0 <= m < front.len() && front[m] == r[i];
                    assert(sorted[m] == r[i]);
                    assert(sorted[sorted.len() - 1] == last);
                }
            } else {
                assert(inner[i] == r[i] && inner[j] == r[j]);
            }
        }
    }
}

/// Sorting keeps the number of elements.
pub proof fn lemma_stable_sort_len<T>(s: Seq<T>, key: spec_fn(T) -> int)
    ensures
        stable_sort(s, key).len() == s.len(),
    decreases s.len(),
{
    if s.len() > 0 {
        lemma_stable_sort_len(s.drop_last(), key);
        lemma_insert_len(stable_sort(s.drop_last(), key), s.last(), key);
    }
}

/// Sorting keeps the elements.
pub proof fn lemma_stable_sort_elements<T>(s: Seq<T>, key: spec_fn(T) -> int)
    ensures
        forall|x: T| #[trigger] stable_sort(s, key).contains(x) <==> s.contains(x),
    decreases s.len(),
{
    if s.len() > 0 {
        let front = s.drop_last();
        lemma_stable_sort_elements(front, key);
        lemma_insert_elements(stable_sort(front, key), s.last(), key);
        assert forall|x: T| #[trigger] stable_sort(s, key).contains(x) <==> s.contains(x) by {
            if s.contains(x) {
                let i = choose|i: int| 0 <= i < s.len() && s[i] == x;
                if i < front.len() {
                    assert(front[i] == x);
                    assert(front.contains(x));
                }
            }
            if front.contains(x) {
                let i = choose|i: int| 0 <= i < front.len() && front[i] == x;
                assert(s[i] == x);
            }
            if x == s.last() {
                assert(s[s.len() - 1] == x);
            }
        }
    }
}

/// Sorting keeps, for each key, the elements of that key in their order.
pub proof fn lemma_stable_sort_with_key<T>(s: Seq<T>, key: spec_fn(T) -> int, k: int)
    ensures
        with_key(stable_sort(s, key), key, k) == with_key(s, key, k),
    decreases s.len(),
{
    if s.len() > 0 {
        let front = s.drop_last();
        lemma_stable_sort_with_key(front, key, k);
        lemma_insert_with_key(stable_sort(front, key), s.last(), key, k);
        lemma_filter_push(front, s.last(), has_key(key, k));
        assert(front.push(s.last()) =~= s);
    }
}

/// Sorting is stable: what held from each element to each later one still
/// holds between elements of one key, and the keys are in order.
pub proof fn lemma_stable_sort_ordered<T>(
    s: Seq<T>,
    key: spec_fn(T) -> int,
    rel: spec_fn(T, T) -> bool,
)
    requires
        holds_in_order(s, rel),
    ensures
        is_ordered_by(stable_sort(s, key), key, rel),
        is_sorted_by(stable_sort(s, key), key),
    decreases s.len(),
{
    if s.len() > 0 {
        let front = s.drop_last();
        let sorted = stable_sort(front, key);
        assert forall|i: int, j: int| 0 <= i < j < front.len() implies rel(front[i], front[j]) by {
            assert(front[i] == s[i] && front[j] == s[j]);
        }
        lemma_stable_sort_ordered(front, key, rel);
        lemma_stable_sort_elements(front, key);
        assert forall|i: int| 0 <= i < sorted.len() implies rel(#[trigger] sorted[i], s.last()) by {
            assert(sorted.contains(sorted[i]));
            let m = choose|m: int| 0 <= m < front.len() && front[m] == sorted[i];
            assert(s[m] == sorted[i]);
            assert(rel(s[m], s[s.len() - 1]));
        }
        lemma_insert_ordered(sorted, s.last(), key, rel);
    }
}

/// The result of sorting is in the order of the keys.
pub proof fn lemma_stable_sort_sorted<T>(s: Seq<T>, key: spec_fn(T) -> int)
    ensures
        is_stable_sort_of(stable_sort(s, key), s, key),
{
    let rel = |a: T, b: T| true;
    lemma_stable_sort_ordered(s, key, rel);
    assert forall|k: int| #[trigger]
        with_key(stable_sort(s, key), key, k) == with_key(s, key, k) by {
        lemma_stable_sort_with_key(s, key, k);
    }
}

/// Two sequences in the order of the keys that hold, for each key, the same
/// elements in the same order are one sequence.
pub proof fn lemma_sorted_unique<T>(a: Seq<T>, b: Seq<T>, key: spec_fn(T) -> int)
    requires
        is_sorted_by(a, key),
        is_sorted_by(b, key),
        forall|k: int| #[trigger] with_key(a, key, k) == with_key(b, key, k),
    ensures
        a == b,
    decreases a.len(),
{
    reveal(Seq::filter);
    if a.len() == 0 {
        if b.len() > 0 {
            let k = key(b.last());
            lemma_filter_push(b.drop_last(), b.last(), has_key(key, k));
            assert(b.drop_last().push(b.last()) =~= b);
            assert(with_key(b, key, k).len() > 0);
            assert(with_key(a, key, k).len() == 0);
        }
        assert(a =~= b);
    } else {
        let x = a.last();
        let m = key(x);
        let a0 = a.drop_last();
        assert(a0.push(x) =~= a);
        lemma_filter_push(a0, x, has_key(key, m));
        assert(with_key(a, key, m) == with_key(a0, key, m).push(x));
        assert(with_key(b, key, m) == with_key(a, key, m));
        if b.len() == 0 {
            assert(with_key(b, key, m).len() == 0);
            assert(false);
        }
        let y = b.last();
        let n = key(y);
        let b0 = b.drop_last();
        assert(b0.push(y) =~= b);
        lemma_filter_push(b0, y, has_key(key, n));
        assert(with_key(b, key, n) == with_key(b0, key, n).push(y));
        assert(with_key(a, key, n) == with_key(b, key, n));
        lemma_filter_elements(a, has_key(key, n));
        lemma_filter_elements(b, has_key(key, m));
        assert(with_key(a, key, n).last() == y);
        assert(with_key(a, key, n).contains(y));
        assert(a.contains(y));
        let i = choose|i: int| 0 <= i < a.len() && a[i] == y;
        assert(n <= m) by {
            if i < a.len() - 1 {
                assert(key(a[i]) <= key(a[a.len() - 1]));
            }
        }
        assert(with_key(b, key, m).last() == x);
        assert(with_key(b, key, m).contains(x));
        assert(b.contains(x));
        let j = choose|j: int| 0 <= j < b.len() && b[j] == x;
        assert(m <= n) by {
            if j < b.len() - 1 {
                assert(key(b[j]) <= key(b[b.len() - 1]));
            }
        }
        assert(with_key(a0, key, m).push(x) == with_key(b0, key, m).push(y));
        assert(x == y) by {
            assert(with_key(a0, key, m).push(x).last() == x);
            assert(with_key(b0, key, m).push(y).last() == y);
        }
        assert forall|k: int| #[trigger] with_key(a0, key, k) == with_key(b0, key, k) by {
            lemma_filter_push(a0, x, has_key(key, k));
            lemma_filter_push(b0, y, has_key(key, k));
            assert(with_key(a, key, k) == with_key(b, key, k));
            if k == m {
                assert(with_key(a0, key, m).push(x).drop_last() =~= with_key(a0, key, m));
                assert(with_key(b0, key, m).push(y).drop_last() =~= with_key(b0, key, m));
            }
        }
        assert(is_sorted_by(a0, key)) by {
            assert forall|i: int, j: int| 0 <= i < j < a0.len() implies key(a0[i]) <= key(
                a0[j],
            ) by {
                assert(a0[i] == a[i] && a0[j] == a[j]);
            }
        }
        assert(is_sorted_by(b0, key)) by {
            assert forall|i: int, j: int| 0 <= i < j < b0.len() implies key(b0[i]) <= key(
                b0[j],
            ) by {
                assert(b0[i] == b[i] && b0[j] == b[j]);
            }
        }
        lemma_sorted_unique(a0, b0, key);
    }
}

/// A stable sort of `s` is the stable sort of `s`.
pub proof fn lemma_stable_sort_unique<T>(r: Seq<T>, s: Seq<T>, key: spec_fn(T) -> int)
    requires
        is_stable_sort_of(r, s, key),
    ensures
        r == stable_sort(s, key),
{
    lemma_stable_sort_sorted(s, key);
    let sorted = stable_sort(s, key);
    assert forall|k: int| #[trigger] with_key(r, key, k) == with_key(sorted, key, k) by {
        assert(with_key(r, key, k) == with_key(s, key, k));
        assert(with_key(sorted, key, k) == with_key(s, key, k));
    }
    lemma_sorted_unique(r, sorted, key);
}

/// Sorting a sequence that is in order changes nothing.
pub proof fn lemma_stable_sort_of_sorted<T>(s: Seq<T>, key: spec_fn(T) -> int)
    requires
        is_sorted_by(s, key),
    ensures
        stable_sort(s, key) == s,
{
    lemma_stable_sort_unique(s, s, key);
}

} // verus!
