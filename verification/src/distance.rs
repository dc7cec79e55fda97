//! Edit distance between two sequences: its definition, the rolling-row
//! computation, and the laws that make it a metric.

use vstd::prelude::*;
use vstd::std_specs::cmp::PartialEqSpec;
use vstd::std_specs::iter::IteratorSpec;

verus! {

/// The cost of turning `x` into `y` by substitution: nothing where they are
/// equal, one edit where they differ.
pub open spec fn substitution_cost<T>(x: T, y: T) -> nat {
    if x == y {
        0
    } else {
        1
    }
}

/// The least of three numbers.
pub open spec fn min3(x: nat, y: nat, z: nat) -> nat {
    if x <= y && x <= z {
        x
    } else if y <= z {
        y
    } else {
        z
    }
}

/// The Levenshtein distance of `a` and `b`: the least number of insertions,
/// deletions and substitutions of single elements that turns `a` into `b`.
///
/// Against an empty sequence every element of the other is one edit. Else the
/// last elements are either dropped from `a`, added from `b`, or paired with
/// each other, and the cheapest of the three counts.
pub open spec fn edit_distance<T>(a: Seq<T>, b: Seq<T>) -> nat
    decreases a.len() + b.len(),
{
    if a.len() == 0 {
        b.len()
    } else if b.len() == 0 {
        a.len()
    } else {
        min3(
            edit_distance(a.drop_last(), b) + 1,
            edit_distance(a, b.drop_last()) + 1,
            edit_distance(a.drop_last(), b.drop_last()) + substitution_cost(a.last(), b.last()),
        )
    }
}

/// The distance lies between the difference of the two lengths and the
/// greater of them.
pub proof fn lemma_edit_distance_bounds<T>(a: Seq<T>, b: Seq<T>)
    ensures
        edit_distance(a, b) >= a.len() - b.len(),
        edit_distance(a, b) >= b.len() - a.len(),
        edit_distance(a, b) <= a.len() || edit_distance(a, b) <= b.len(),
    decreases a.len() + b.len(),
{
    if a.len() > 0 && b.len() > 0 {
        lemma_edit_distance_bounds(a.drop_last(), b);
        lemma_edit_distance_bounds(a, b.drop_last());
        lemma_edit_distance_bounds(a.drop_last(), b.drop_last());
    }
}

/// The distance does not depend on the order of the two arguments.
pub proof fn lemma_edit_distance_symmetric<T>(a: Seq<T>, b: Seq<T>)
    ensures
        edit_distance(a, b) == edit_distance(b, a),
    decreases a.len() + b.len(),
{
    if a.len() > 0 && b.len() > 0 {
        lemma_edit_distance_symmetric(a.drop_last(), b);
        lemma_edit_distance_symmetric(a, b.drop_last());
        lemma_edit_distance_symmetric(a.drop_last(), b.drop_last());
    }
}

/// The distance is zero for identical sequences and for no others.
pub proof fn lemma_edit_distance_zero_iff_equal<T>(a: Seq<T>, b: Seq<T>)
    ensures
        edit_distance(a, b) == 0 <==> a == b,
    decreases a.len() + b.len(),
{
    if a.len() > 0 && b.len() > 0 {
        lemma_edit_distance_zero_iff_equal(a.drop_last(), b.drop_last());
        if a.drop_last() == b.drop_last() && a.last() == b.last() {
            assert(a =~= a.drop_last().push(a.last()));
            assert(b =~= b.drop_last().push(b.last()));
        }
    } else if a.len() == 0 && b.len() == 0 {
        assert(a =~= b);
    }
}

/// Going from `a` to `c` directly never takes more edits than going by way
/// of `b`.
pub proof fn lemma_edit_distance_triangle<T>(a: Seq<T>, b: Seq<T>, c: Seq<T>)
    ensures
        edit_distance(a, c) <= edit_distance(a, b) + edit_distance(b, c),
    decreases a.len() + b.len() + c.len(),
{
    if a.len() == 0 || b.len() == 0 || c.len() == 0 {
        lemma_edit_distance_bounds(a, b);
        lemma_edit_distance_bounds(b, c);
        lemma_edit_distance_bounds(a, c);
    } else {
        let a0 = a.drop_last();
        let b0 = b.drop_last();
        let c0 = c.drop_last();
        let ab = edit_distance(a, b);
        let bc = edit_distance(b, c);
        if ab == edit_distance(a0, b) + 1 {
            lemma_edit_distance_triangle(a0, b, c);
        } else if bc == edit_distance(b, c0) + 1 {
            lemma_edit_distance_triangle(a, b, c0);
        } else if ab == edit_distance(a, b0) + 1 {
            if bc == edit_distance(b0, c) + 1 {
                lemma_edit_distance_triangle(a, b0, c);
            } else {
                lemma_edit_distance_triangle(a, b0, c0);
            }
        } else {
            if bc == edit_distance(b0, c) + 1 {
                lemma_edit_distance_triangle(a0, b0, c);
            } else {
                lemma_edit_distance_triangle(a0, b0, c0);
            }
        }
    }
}

/// The code points of `s`, one for each character and in the same order.
pub open spec fn code_points(s: Seq<char>) -> Seq<u32> {
    s.map_values(|c: char| c as u32)
}

/// Two characters with one code point are one character.
proof fn lemma_code_point_identifies(x: char, y: char)
    ensures
        x as u32 == y as u32 <==> x == y,
{
}

/// Two strings are as far apart as their code points are.
proof fn lemma_edit_distance_of_code_points(a: Seq<char>, b: Seq<char>)
    ensures
        edit_distance(code_points(a), code_points(b)) == edit_distance(a, b),
    decreases a.len() + b.len(),
{
    if a.len() > 0 && b.len() > 0 {
        assert(code_points(a).drop_last() =~= code_points(a.drop_last()));
        assert(code_points(b).drop_last() =~= code_points(b.drop_last()));
        lemma_edit_distance_of_code_points(a.drop_last(), b);
        lemma_edit_distance_of_code_points(a, b.drop_last());
        lemma_edit_distance_of_code_points(a.drop_last(), b.drop_last());
        lemma_code_point_identifies(a.last(), b.last());
    }
}

/// Whether `==` on `T` is equality of values.
pub open spec fn decides_equality<T: PartialEq>() -> bool {
    forall|x: T, y: T| #[trigger] x.eq_spec(&y) <==> x == y
}

/// The cost of turning `x` into `y` by substitution under the `==` of their
/// types: nothing where they compare equal, one edit where they do not.
pub open spec fn comparison_cost<T: PartialEq<U>, U>(x: T, y: U) -> nat {
    if x.eq_spec(&y) {
        0
    } else {
        1
    }
}

/// The edit distance of `a` and `b` where elements count as equal that
/// compare equal under the `==` of their types.
pub open spec fn generic_distance<T: PartialEq<U>, U>(a: Seq<T>, b: Seq<U>) -> nat
    decreases a.len() + b.len(),
{
    if a.len() == 0 {
        b.len()
    } else if b.len() == 0 {
        a.len()
    } else {
        min3(
            generic_distance(a.drop_last(), b) + 1,
            generic_distance(a, b.drop_last()) + 1,
            generic_distance(a.drop_last(), b.drop_last()) + comparison_cost(a.last(), b.last()),
        )
    }
}

/// The distance under `==` is at most the greater of the two lengths.
pub proof fn lemma_generic_distance_bound<T: PartialEq<U>, U>(a: Seq<T>, b: Seq<U>)
    ensures
        generic_distance(a, b) <= a.len() || generic_distance(a, b) <= b.len(),
    decreases a.len() + b.len(),
{
    if a.len() > 0 && b.len() > 0 {
        lemma_generic_distance_bound(a.drop_last(), b.drop_last());
    }
}

/// Where `==` is equality of values, the distance under `==` is the
/// Levenshtein distance.
pub proof fn lemma_generic_distance_is_edit_distance<T: PartialEq>(a: Seq<T>, b: Seq<T>)
    requires
        decides_equality::<T>(),
    ensures
        generic_distance(a, b) == edit_distance(a, b),
    decreases a.len() + b.len(),
{
    if a.len() > 0 && b.len() > 0 {
        lemma_generic_distance_is_edit_distance(a.drop_last(), b);
        lemma_generic_distance_is_edit_distance(a, b.drop_last());
        lemma_generic_distance_is_edit_distance(a.drop_last(), b.drop_last());
    }
}

/// The row of distances from the empty sequence to each non-empty prefix of
/// a sequence of `len` elements: the prefix of `k + 1` elements is `k + 1`
/// insertions away.
fn first_row(len: usize) -> (row: Vec<usize>)
    ensures
        row.len() == len,
        forall|k: int| 0 <= k < len ==> row[k] == k + 1,
{
    let mut row: Vec<usize> = Vec::new();
    let mut j: usize = 0;
    while j < len
        invariant
            j <= len,
            row.len() == j,
            forall|k: int| 0 <= k < j ==> row[k] == k + 1,
        decreases len - j,
    {
        row.push(j + 1);
        j += 1;
    }
    row
}

/// Computes the edit distance of two slices over any two element types
/// that `==` compares, in one row of working space as long as `b`.
pub fn generic_levenshtein<T: PartialEq<U>, U>(a: &[T], b: &[U]) -> (distance: usize)
    requires
        <T as PartialEqSpec<U>>::obeys_eq_spec(),
    ensures
        distance == generic_distance(a@, b@),
{
    let a_len = a.len();
    let b_len = b.len();
    let mut cache = first_row(b_len);
    let mut result = b_len;
    let mut i: usize = 0;
    proof {
        assert(a@.take(0) =~= Seq::<T>::empty());
        assert(b@.take(b_len as int) =~= b@);
    }
    while i < a_len
        invariant
            i <= a_len,
            a_len == a@.len(),
            b_len == b@.len(),
            cache.len() == b_len,
            <T as PartialEqSpec<U>>::obeys_eq_spec(),
            result == generic_distance(a@.take(i as int), b@),
            forall|k: int|
                0 <= k < b_len ==> cache[k] == generic_distance(a@.take(i as int), b@.take(k + 1)),
        decreases a_len - i,
    {
        let ghost upper = a@.take(i as int);
        let ghost lower = a@.take(i + 1);
        assert(lower.drop_last() =~= upper);
        assert(b@.take(0).len() == 0);
        result = i + 1;
        let mut diagonal = i;
        let mut j: usize = 0;
        while j < b_len
            invariant
                j <= b_len,
                i < a_len,
                a_len == a@.len(),
                b_len == b@.len(),
                cache.len() == b_len,
                <T as PartialEqSpec<U>>::obeys_eq_spec(),
                upper == a@.take(i as int),
                lower == a@.take(i + 1),
                lower.drop_last() == upper,
                result == generic_distance(lower, b@.take(j as int)),
                diagonal == generic_distance(upper, b@.take(j as int)),
                forall|k: int| 0 <= k < j ==> cache[k] == generic_distance(lower, b@.take(k + 1)),
                forall|k: int|
                    j <= k < b_len ==> cache[k] == generic_distance(upper, b@.take(k + 1)),
            decreases b_len - j,
        {
            let ghost shorter = b@.take(j as int);
            let ghost longer = b@.take(j + 1);
            proof {
                assert(longer.drop_last() =~= shorter);
                lemma_generic_distance_bound(upper, shorter);
            }
            let changed = if a[i] == b[j] {
                diagonal
            } else {
                diagonal + 1
            };
            let above = cache[j];
            let nearest = if result < above {
                result
            } else {
                above
            };
            result = if nearest < changed {
                nearest + 1
            } else {
                changed
            };
            diagonal = above;
            cache.set(j, result);
            j += 1;
        }
        proof {
            assert(b@.take(b_len as int) =~= b@);
        }
        i += 1;
    }
    proof {
        assert(a@.take(a_len as int) =~= a@);
    }
    result
}

/// The code points of a string slice, in order.
fn to_code_points(s: &str) -> (points: Vec<u32>)
    ensures
        points@ == code_points(s@),
{
    broadcast use vstd::string::group_string_axioms;

    let mut points: Vec<u32> = Vec::new();
    let mut rest = s.chars();
    loop
        invariant
            code_points(s@) =~= points@ + code_points(rest.remaining()),
            rest.decrease() is Some,
        ensures
            points@ =~= code_points(s@),
        decreases rest.decrease()->0,
    {
        match rest.next() {
            Some(c) => {
                points.push(c as u32);
            },
            None => {
                break ;
            },
        }
    }
    points
}

/// The edit distance of two strings, counted in characters: zero for equal
/// strings and for no others.
pub fn levenshtein(a: &str, b: &str) -> (distance: usize)
    ensures
        distance == edit_distance(a@, b@),
        distance == 0 <==> a@ == b@,
{
    let a_points = to_code_points(a);
    let b_points = to_code_points(b);
    proof {
        lemma_edit_distance_of_code_points(a@, b@);
        lemma_generic_distance_is_edit_distance(a_points@, b_points@);
        lemma_edit_distance_zero_iff_equal(a@, b@);
    }
    generic_levenshtein(a_points.as_slice(), b_points.as_slice())
}

} // verus!
