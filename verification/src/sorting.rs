//! Sorting candidates, by distance or by the kind of their typo, without
//! disturbing the order of those that tie.

use crate::candidate::{SimilarWord, SimilarWordView};
use crate::stable::{
    has_key, is_sorted_by, is_stable_sort_of, lemma_filter_none, lemma_filter_push,
    lemma_stable_sort_of_sorted, lemma_stable_sort_sorted, lemma_stable_sort_unique, stable_sort,
    with_key,
};
use crate::typo::{is_same_kind, same_kind, TypoType};
use vstd::prelude::*;
use vstd::std_specs::iter::VerusForLoopWrapper;

verus! {

/// Whether `order` has an entry of the kind of `typo_type`.
pub open spec fn is_listed(typo_type: TypoType, order: Seq<TypoType>) -> bool {
    exists|i: int| 0 <= i < order.len() && same_kind(#[trigger] order[i], typo_type)
}

/// Whether `i` is the place of the last entry of `order` that is of the kind
/// of `typo_type`.
pub open spec fn is_last_listing(typo_type: TypoType, order: Seq<TypoType>, i: int) -> bool {
    &&& 0 <= i < order.len()
    &&& same_kind(order[i], typo_type)
    &&& forall|j: int| i < j < order.len() ==> !same_kind(#[trigger] order[j], typo_type)
}

/// The rank of a typo type under a priority order: the place of the last
/// entry of its kind, and the length of the order where it has none, so that
/// kinds without an entry come last.
pub open spec fn typo_rank(typo_type: TypoType, order: Seq<TypoType>) -> int {
    if is_listed(typo_type, order) {
        choose|i: int| is_last_listing(typo_type, order, i)
    } else {
        order.len() as int
    }
}

/// The key of a candidate when sorting by distance.
pub open spec fn by_distance() -> spec_fn(SimilarWordView) -> int {
    |word: SimilarWordView| word.levenshtein_length as int
}

/// The key of a candidate when sorting by the kind of its typo.
pub open spec fn by_typo_type(order: Seq<TypoType>) -> spec_fn(SimilarWordView) -> int {
    |word: SimilarWordView| typo_rank(word.typo_type, order)
}

/// What candidates are sorted by.
pub enum SortKey<'a> {
    /// The edit distance to the query.
    Distance,
    /// The rank of the typo type under a priority order.
    TypoType(&'a Vec<TypoType>),
}

impl<'a> SortKey<'a> {
    /// The key as a function on candidates.
    pub open spec fn key(&self) -> spec_fn(SimilarWordView) -> int {
        match self {
            SortKey::Distance => by_distance(),
            SortKey::TypoType(order) => by_typo_type(order@),
        }
    }

    /// The key of one candidate.
    pub fn of(&self, word: &SimilarWord) -> (k: usize)
        ensures
            k == (self.key())(word@),
    {
        match self {
            SortKey::Distance => word.levenshtein_length,
            SortKey::TypoType(order) => rank_of(&word.typo_type, order),
        }
    }
}

/// The rank of `typo_type` under `order`.
pub fn rank_of(typo_type: &TypoType, order: &Vec<TypoType>) -> (rank: usize)
    ensures
        rank == typo_rank(*typo_type, order@),
{
    let mut i: usize = order.len();
    while i > 0
        invariant
            i <= order.len(),
            forall|j: int| i <= j < order.len() ==> !same_kind(#[trigger] order@[j], *typo_type),
        decreases i,
    {
        i -= 1;
        if is_same_kind(&order[i], typo_type) {
            proof {
                assert(is_last_listing(*typo_type, order@, i as int));
                let chosen = choose|c: int| is_last_listing(*typo_type, order@, c);
                assert(chosen == i);
            }
            return i;
        }
    }
    order.len()
}

/// The view of a list with one candidate more.
proof fn lemma_deep_view_push(before: Vec<SimilarWord>, after: Vec<SimilarWord>, word: SimilarWord)
    requires
        after@ == before@.push(word),
    ensures
        after.deep_view() == before.deep_view().push(word@),
{
    assert(after.deep_view() =~= before.deep_view().push(word@));
}

/// Whether `merged` is what a stable merge has put out after taking the
/// first `i` candidates of `left` and the first `j` of `right`.
spec fn is_merged(
    merged: Seq<SimilarWordView>,
    left: Seq<SimilarWordView>,
    right: Seq<SimilarWordView>,
    key: spec_fn(SimilarWordView) -> int,
    i: int,
    j: int,
) -> bool {
    &&& 0 <= i <= left.len()
    &&& 0 <= j <= right.len()
    &&& is_sorted_by(merged, key)
    &&& forall|k: int| #[trigger]
        with_key(merged, key, k) == with_key(left.take(i), key, k) + with_key(
            right.take(j),
            key,
            k,
        )
    &&& forall|m: int|
        0 <= m < merged.len() && i < left.len() ==> key(#[trigger] merged[m]) <= key(left[i])
    &&& forall|m: int|
        0 <= m < merged.len() && j < right.len() ==> key(#[trigger] merged[m]) <= key(right[j])
    &&& forall|n: int| 0 <= n < j && i < left.len() ==> key(#[trigger] right[n]) < key(left[i])
}

/// Taking the next candidate of `left` keeps the merge.
proof fn lemma_merge_takes_left(
    merged: Seq<SimilarWordView>,
    left: Seq<SimilarWordView>,
    right: Seq<SimilarWordView>,
    key: spec_fn(SimilarWordView) -> int,
    i: int,
    j: int,
)
    requires
        is_merged(merged, left, right, key, i, j),
        is_sorted_by(left, key),
        i < left.len(),
        j < right.len() ==> key(left[i]) <= key(right[j]),
    ensures
        is_merged(merged.push(left[i]), left, right, key, i + 1, j),
{
    let x = left[i];
    let next = merged.push(x);
    assert(left.take(i + 1) =~= left.take(i).push(x));
    assert forall|k: int| #[trigger]
        with_key(next, key, k) == with_key(left.take(i + 1), key, k) + with_key(
            right.take(j),
            key,
            k,
        ) by {
        lemma_filter_push(merged, x, has_key(key, k));
        lemma_filter_push(left.take(i), x, has_key(key, k));
        assert(with_key(merged, key, k) == with_key(left.take(i), key, k) + with_key(
            right.take(j),
            key,
            k,
        ));
        if key(x) == k {
            lemma_filter_none(right.take(j), has_key(key, k));
            assert(with_key(next, key, k) =~= with_key(left.take(i + 1), key, k) + with_key(
                right.take(j),
                key,
                k,
            ));
        }
    }
    assert(is_sorted_by(next, key)) by {
        assert forall|a: int, b: int| 0 <= a < b < next.len() implies key(next[a]) <= key(
            next[b],
        ) by {
            if b < merged.len() {
                assert(key(merged[a]) <= key(merged[b]));
            } else {
                assert(key(merged[a]) <= key(left[i]));
            }
        }
    }
    assert forall|m: int| 0 <= m < next.len() && i + 1 < left.len() implies key(
        #[trigger] next[m],
    ) <= key(left[i + 1]) by {
        assert(key(left[i]) <= key(left[i + 1]));
        if m < merged.len() {
            assert(key(merged[m]) <= key(left[i]));
        }
    }
    assert forall|m: int| 0 <= m < next.len() && j < right.len() implies key(#[trigger] next[m])
        <= key(right[j]) by {
        if m < merged.len() {
            assert(key(merged[m]) <= key(right[j]));
        }
    }
    assert forall|n: int| 0 <= n < j && i + 1 < left.len() implies key(#[trigger] right[n]) < key(
        left[i + 1],
    ) by {
        assert(key(left[i]) <= key(left[i + 1]));
    }
}

/// Taking the next candidate of `right` keeps the merge.
proof fn lemma_merge_takes_right(
    merged: Seq<SimilarWordView>,
    left: Seq<SimilarWordView>,
    right: Seq<SimilarWordView>,
    key: spec_fn(SimilarWordView) -> int,
    i: int,
    j: int,
)
    requires
        is_merged(merged, left, right, key, i, j),
        is_sorted_by(right, key),
        j < right.len(),
        i < left.len() ==> key(right[j]) < key(left[i]),
    ensures
        is_merged(merged.push(right[j]), left, right, key, i, j + 1),
{
    let y = right[j];
    let next = merged.push(y);
    assert(right.take(j + 1) =~= right.take(j).push(y));
    assert forall|k: int| #[trigger]
        with_key(next, key, k) == with_key(left.take(i), key, k) + with_key(
            right.take(j + 1),
            key,
            k,
        ) by {
        lemma_filter_push(merged, y, has_key(key, k));
        lemma_filter_push(right.take(j), y, has_key(key, k));
        assert(with_key(merged, key, k) == with_key(left.take(i), key, k) + with_key(
            right.take(j),
            key,
            k,
        ));
        assert(with_key(next, key, k) =~= with_key(left.take(i), key, k) + with_key(
            right.take(j + 1),
            key,
            k,
        ));
    }
    assert(is_sorted_by(next, key)) by {
        assert forall|a: int, b: int| 0 <= a < b < next.len() implies key(next[a]) <= key(
            next[b],
        ) by {
            if b < merged.len() {
                assert(key(merged[a]) <= key(merged[b]));
            } else {
                assert(key(merged[a]) <= key(right[j]));
            }
        }
    }
    assert forall|m: int| 0 <= m < next.len() && j + 1 < right.len() implies key(
        #[trigger] next[m],
    ) <= key(right[j + 1]) by {
        assert(key(right[j]) <= key(right[j + 1]));
        if m < merged.len() {
            assert(key(merged[m]) <= key(right[j]));
        }
    }
    assert forall|m: int| 0 <= m < next.len() && i < left.len() implies key(#[trigger] next[m])
        <= key(left[i]) by {
        if m < merged.len() {
            assert(key(merged[m]) <= key(left[i]));
        }
    }
}

/// A merge that has taken every candidate is a stable sort of the two lists
/// one after the other.
proof fn lemma_merge_done(
    merged: Seq<SimilarWordView>,
    left: Seq<SimilarWordView>,
    right: Seq<SimilarWordView>,
    key: spec_fn(SimilarWordView) -> int,
)
    requires
        is_merged(merged, left, right, key, left.len() as int, right.len() as int),
    ensures
        is_stable_sort_of(merged, left + right, key),
{
    assert(left.take(left.len() as int) =~= left);
    assert(right.take(right.len() as int) =~= right);
    assert forall|k: int| #[trigger] with_key(merged, key, k) == with_key(left + right, key, k) by {
        Seq::filter_distributes_over_add(left, right, has_key(key, k));
        assert(with_key(merged, key, k) == with_key(left.take(left.len() as int), key, k)
            + with_key(right.take(right.len() as int), key, k));
    }
}

/// Merges two sorted lists into one; where keys tie, the candidates of
/// `left` come first.
fn merge(left: Vec<SimilarWord>, right: Vec<SimilarWord>, by: &SortKey<'_>) -> (merged: Vec<
    SimilarWord,
>)
    requires
        is_sorted_by(left.deep_view(), by.key()),
        is_sorted_by(right.deep_view(), by.key()),
    ensures
        is_stable_sort_of(merged.deep_view(), left.deep_view() + right.deep_view(), by.key()),
{
    broadcast use vstd::std_specs::vec::axiom_spec_into_iter;

    let ghost from_left = left.deep_view();
    let ghost from_right = right.deep_view();
    let ghost left_words = left@;
    let ghost right_words = right@;
    let ghost key = by.key();
    let left_len = left.len();
    let right_len = right.len();
    let mut merged: Vec<SimilarWord> = Vec::new();
    let mut left_rest = VerusForLoopWrapper::new(left.into_iter(), Ghost(None));
    let mut right_rest = VerusForLoopWrapper::new(right.into_iter(), Ghost(None));
    let mut i: usize = 0;
    let mut j: usize = 0;
    let mut l = if left_len > 0 {
        left_rest.next()
    } else {
        None
    };
    let mut r = if right_len > 0 {
        right_rest.next()
    } else {
        None
    };
    proof {
        assert(from_left.take(0) =~= Seq::empty());
        assert(from_right.take(0) =~= Seq::empty());
        assert(merged.deep_view() =~= Seq::empty());
        assert forall|k: int| #[trigger]
            with_key(merged.deep_view(), key, k) == with_key(from_left.take(0), key, k) + with_key(
                from_right.take(0),
                key,
                k,
            ) by {
            lemma_filter_none(Seq::<SimilarWordView>::empty(), has_key(key, k));
        }
    }
    while i < left_len || j < right_len
        invariant
            key == by.key(),
            left_len == left_words.len() == from_left.len(),
            right_len == right_words.len() == from_right.len(),
            forall|m: int| 0 <= m < left_len ==> (#[trigger] left_words[m])@ == from_left[m],
            forall|m: int| 0 <= m < right_len ==> (#[trigger] right_words[m])@ == from_right[m],
            is_sorted_by(from_left, key),
            is_sorted_by(from_right, key),
            i <= left_len,
            j <= right_len,
            left_rest.wf(),
            right_rest.wf(),
            left_rest.seq() == left_words,
            right_rest.seq() == right_words,
            i < left_len ==> l == Some(left_words[i as int]) && left_rest.index() == i + 1,
            j < right_len ==> r == Some(right_words[j as int]) && right_rest.index() == j + 1,
            is_merged(merged.deep_view(), from_left, from_right, key, i as int, j as int),
        decreases (left_len - i) + (right_len - j),
    {
        let ghost before = merged;
        let take_left = if i < left_len && j < right_len {
            match (&l, &r) {
                (Some(x), Some(y)) => !(by.of(y) < by.of(x)),
                _ => true,
            }
        } else {
            i < left_len
        };
        if take_left {
            let word = l.unwrap();
            proof {
                lemma_merge_takes_left(
                    merged.deep_view(),
                    from_left,
                    from_right,
                    key,
                    i as int,
                    j as int,
                );
            }
            merged.push(word);
            proof {
                lemma_deep_view_push(before, merged, word);
            }
            i += 1;
            l = if i < left_len {
                left_rest.next()
            } else {
                None
            };
        } else {
            let word = r.unwrap();
            proof {
                lemma_merge_takes_right(
                    merged.deep_view(),
                    from_left,
                    from_right,
                    key,
                    i as int,
                    j as int,
                );
            }
            merged.push(word);
            proof {
                lemma_deep_view_push(before, merged, word);
            }
            j += 1;
            r = if j < right_len {
                right_rest.next()
            } else {
                None
            };
        }
    }
    proof {
        lemma_merge_done(merged.deep_view(), from_left, from_right, key);
    }
    merged
}

/// Sorts candidates by `by`, keeping those of one key in their order.
pub fn sort_words(words: Vec<SimilarWord>, by: &SortKey<'_>) -> (sorted: Vec<SimilarWord>)
    ensures
        sorted.deep_view() == stable_sort(words.deep_view(), by.key()),
    decreases words.len(),
{
    let ghost all = words.deep_view();
    let ghost key = by.key();
    if words.len() <= 1 {
        proof {
            lemma_stable_sort_of_sorted(all, key);
        }
        return words;
    }
    let mut left = words;
    let middle = left.len() / 2;
    let right = left.split_off(middle);
    let ghost first = left.deep_view();
    let ghost second = right.deep_view();
    let left = sort_words(left, by);
    let right = sort_words(right, by);
    proof {
        lemma_stable_sort_sorted(first, key);
        lemma_stable_sort_sorted(second, key);
    }
    let merged = merge(left, right, by);
    proof {
        assert(first + second =~= all);
        assert forall|k: int| #[trigger]
            with_key(merged.deep_view(), key, k) == with_key(all, key, k) by {
            Seq::filter_distributes_over_add(first, second, has_key(key, k));
            Seq::filter_distributes_over_add(
                left.deep_view(),
                right.deep_view(),
                has_key(key, k),
            );
            assert(with_key(left.deep_view(), key, k) == with_key(first, key, k));
            assert(with_key(right.deep_view(), key, k) == with_key(second, key, k));
            assert(with_key(merged.deep_view(), key, k) == with_key(
                left.deep_view() + right.deep_view(),
                key,
                k,
            ));
        }
        lemma_stable_sort_unique(merged.deep_view(), all, key);
    }
    merged
}

impl SimilarWord {
    /// Sorts candidates by the rank of their typo type under
    /// `sort_typo_type_setting`, keeping those of one rank in their order.
    pub fn sort_by_typo_type(
        similar_word_list: &mut Vec<SimilarWord>,
        sort_typo_type_setting: &Vec<TypoType>,
    )
        ensures
            final(similar_word_list).deep_view() == stable_sort(
                old(similar_word_list).deep_view(),
                by_typo_type(sort_typo_type_setting@),
            ),
    {
        let mut words: Vec<SimilarWord> = Vec::new();
        std::mem::swap(similar_word_list, &mut words);
        let sorted = sort_words(words, &SortKey::TypoType(sort_typo_type_setting));
        *similar_word_list = sorted;
    }
}

} // verus!
