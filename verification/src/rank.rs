//! Ranking: candidates in the order of their distance, cut off, classified,
//! put in the order of their typo types, and cut to a number.

use crate::candidate::{SimilarWord, SimilarWordView, TypoCheckError};
use crate::classify::{
    classify_substitution, edge_typo_of, find_missing_or_extra_chars, substitution_typo,
};
use crate::sorting::{by_distance, by_typo_type, sort_words, SortKey};
use crate::stable::{
    has_key, holds_in_order, is_ordered_by, is_sorted_by, lemma_filter_all, lemma_filter_commutes,
    lemma_filter_elements, lemma_filter_holds_in_order, lemma_filter_push, lemma_sorted_unique,
    lemma_stable_sort_elements, lemma_stable_sort_len, lemma_stable_sort_ordered,
    lemma_stable_sort_sorted, lemma_stable_sort_unique, lemma_stable_sort_with_key, stable_sort,
    with_key,
};
use crate::tables::{close_keyboard_placement_list, similar_shape_list};
use crate::text::chars_of;
use crate::typo::{CharacterPositon, TypoType};
use vstd::prelude::*;
use vstd::std_specs::iter::VerusForLoopWrapper;

verus! {

/// Whether a distance cutoff is one that a check accepts: none, or two and
/// more.
pub open spec fn is_valid_cutoff(cutoff: Option<usize>) -> bool {
    match cutoff {
        Some(limit) => limit >= 2,
        None => true,
    }
}

/// The test for a candidate that a cutoff lets through.
pub open spec fn within_cutoff(cutoff: Option<usize>) -> spec_fn(SimilarWordView) -> bool {
    |word: SimilarWordView|
        match cutoff {
            Some(limit) => word.levenshtein_length <= limit,
            None => true,
        }
}

/// A candidate after classification. Only one at distance one is looked at:
/// as a substitution where it has as many characters as the query is said to
/// have, and as a character too many or too few else.
pub open spec fn classified(
    query: Seq<char>,
    query_len: nat,
    word: SimilarWordView,
) -> SimilarWordView {
    if word.levenshtein_length != 1 {
        word
    } else if query_len == word.spelling.len() {
        SimilarWordView {
            typo_type: substitution_typo(query, word.spelling, word.typo_type),
            ..word
        }
    } else {
        SimilarWordView { typo_type: edge_typo_of(query, word.spelling, word.typo_type), ..word }
    }
}

/// Classification against one query, as a function on candidates.
pub open spec fn classify_for(query: Seq<char>, query_len: nat) -> spec_fn(
    SimilarWordView,
) -> SimilarWordView {
    |word: SimilarWordView| classified(query, query_len, word)
}

/// The priority order that holds where the caller gives none: extra
/// characters, missing characters, similar shapes, keyboard placement, and
/// the rest.
pub open spec fn default_order() -> Seq<TypoType> {
    seq![
        TypoType::ExtraCharacters { character: 'A', position: CharacterPositon::Head },
        TypoType::MissingCharacters { character: 'Z', position: CharacterPositon::Tail },
        TypoType::SimilarShapes,
        TypoType::CloseKeyboardPlacement,
        TypoType::UndefinedType,
    ]
}

/// The priority order that a caller's choice stands for.
pub open spec fn order_or_default(order: Option<&Vec<TypoType>>) -> Seq<TypoType> {
    match order {
        Some(given) => given@,
        None => default_order(),
    }
}

/// The first `limit` elements of `s`, and all of `s` where it has no more.
pub open spec fn at_most<T>(s: Seq<T>, limit: nat) -> Seq<T> {
    if s.len() <= limit {
        s
    } else {
        s.take(limit as int)
    }
}

/// The ranking of `words` for a query: sorted by distance, those beyond the
/// cutoff dropped, the rest classified, sorted by the rank of their typo
/// types under `order`, and cut to `limit`. Both sorts keep ties in the order
/// they had.
pub open spec fn ranked(
    query: Seq<char>,
    query_len: nat,
    words: Seq<SimilarWordView>,
    cutoff: Option<usize>,
    limit: nat,
    order: Seq<TypoType>,
) -> Seq<SimilarWordView> {
    let nearest_first = stable_sort(words, by_distance());
    let kept = nearest_first.filter(within_cutoff(cutoff));
    let typed = kept.map_values(classify_for(query, query_len));
    at_most(stable_sort(typed, by_typo_type(order)), limit)
}

/// The relation of a candidate to one that is no nearer to the query.
pub open spec fn no_farther() -> spec_fn(SimilarWordView, SimilarWordView) -> bool {
    |a: SimilarWordView, b: SimilarWordView| a.levenshtein_length <= b.levenshtein_length
}

/// Classifying a candidate a second time changes nothing, and classifying
/// never changes a distance.
pub proof fn lemma_classified_once(query: Seq<char>, query_len: nat, word: SimilarWordView)
    ensures
        classified(query, query_len, classified(query, query_len, word)) == classified(
            query,
            query_len,
            word,
        ),
        classified(query, query_len, word).levenshtein_length == word.levenshtein_length,
        classified(query, query_len, word).spelling == word.spelling,
{
}

/// A sequence in the order of the distances is one in which no candidate is
/// farther than a later one, and the other way round.
proof fn lemma_sorted_by_distance(s: Seq<SimilarWordView>)
    ensures
        is_sorted_by(s, by_distance()) <==> holds_in_order(s, no_farther()),
{
    if is_sorted_by(s, by_distance()) {
        assert forall|i: int, j: int| 0 <= i < j < s.len() implies no_farther()(s[i], s[j]) by {
            assert(by_distance()(s[i]) <= by_distance()(s[j]));
        }
    }
    if holds_in_order(s, no_farther()) {
        assert forall|i: int, j: int| 0 <= i < j < s.len() implies by_distance()(s[i])
            <= by_distance()(s[j]) by {
            assert(no_farther()(s[i], s[j]));
        }
    }
}

/// What holds of every stage of a ranking: the candidates that are kept are
/// within the cutoff and classified, and those of one typo rank stand in the
/// order of their distance.
proof fn lemma_ranked_stages(
    query: Seq<char>,
    query_len: nat,
    words: Seq<SimilarWordView>,
    cutoff: Option<usize>,
    limit: nat,
    order: Seq<TypoType>,
)
    ensures
        ({
            let result = ranked(query, query_len, words, cutoff, limit, order);
            &&& result.len() <= limit
            &&& result.len() <= words.len()
            &&& is_ordered_by(result, by_typo_type(order), no_farther())
            &&& is_sorted_by(result, by_typo_type(order))
            &&& forall|i: int|
                0 <= i < result.len() ==> {
                    &&& within_cutoff(cutoff)(#[trigger] result[i])
                    &&& classified(query, query_len, result[i]) == result[i]
                }
        }),
{
    let nearest_first = stable_sort(words, by_distance());
    let kept = nearest_first.filter(within_cutoff(cutoff));
    let classify = classify_for(query, query_len);
    let typed = kept.map_values(classify);
    let ordered = stable_sort(typed, by_typo_type(order));
    let result = at_most(ordered, limit);
    lemma_stable_sort_sorted(words, by_distance());
    lemma_stable_sort_len(words, by_distance());
    lemma_sorted_by_distance(nearest_first);
    lemma_filter_holds_in_order(nearest_first, within_cutoff(cutoff), no_farther());
    lemma_filter_elements(nearest_first, within_cutoff(cutoff));
    nearest_first.lemma_filter_len(within_cutoff(cutoff));
    assert forall|i: int, j: int| 0 <= i < j < typed.len() implies no_farther()(
        typed[i],
        typed[j],
    ) by {
        lemma_classified_once(query, query_len, kept[i]);
        lemma_classified_once(query, query_len, kept[j]);
        assert(no_farther()(kept[i], kept[j]));
    }
    lemma_stable_sort_ordered(typed, by_typo_type(order), no_farther());
    lemma_stable_sort_elements(typed, by_typo_type(order));
    lemma_stable_sort_len(typed, by_typo_type(order));
    assert forall|i: int| 0 <= i < result.len() implies {
        &&& within_cutoff(cutoff)(#[trigger] result[i])
        &&& classified(query, query_len, result[i]) == result[i]
    } by {
        assert(ordered[i] == result[i]);
        assert(ordered.contains(result[i]));
        assert(typed.contains(result[i]));
        let m = choose|m: int| 0 <= m < typed.len() && typed[m] == result[i];
        lemma_classified_once(query, query_len, kept[m]);
        assert(kept.contains(kept[m]));
    }
    assert forall|i: int, j: int| 0 <= i < j < result.len() implies by_typo_type(order)(result[i])
        < by_typo_type(order)(result[j]) || (by_typo_type(order)(result[i]) == by_typo_type(order)(
        result[j],
    ) && no_farther()(result[i], result[j])) by {
        assert(ordered[i] == result[i] && ordered[j] == result[j]);
    }
}

/// Every candidate of a ranking is one of the given candidates, classified.
pub proof fn lemma_ranked_from_words(
    query: Seq<char>,
    query_len: nat,
    words: Seq<SimilarWordView>,
    cutoff: Option<usize>,
    limit: nat,
    order: Seq<TypoType>,
)
    ensures
        forall|i: int|
            0 <= i < ranked(query, query_len, words, cutoff, limit, order).len() ==> exists|j: int|
                0 <= j < words.len() && #[trigger] ranked(
                    query,
                    query_len,
                    words,
                    cutoff,
                    limit,
                    order,
                )[i] == classified(query, query_len, #[trigger] words[j]),
{
    let nearest_first = stable_sort(words, by_distance());
    let kept = nearest_first.filter(within_cutoff(cutoff));
    let typed = kept.map_values(classify_for(query, query_len));
    let ordered = stable_sort(typed, by_typo_type(order));
    let result = ranked(query, query_len, words, cutoff, limit, order);
    lemma_stable_sort_elements(words, by_distance());
    lemma_filter_elements(nearest_first, within_cutoff(cutoff));
    lemma_stable_sort_elements(typed, by_typo_type(order));
    assert forall|i: int| 0 <= i < result.len() implies exists|j: int|
        0 <= j < words.len() && #[trigger] result[i] == classified(
            query,
            query_len,
            #[trigger] words[j],
        ) by {
        assert(ordered[i] == result[i]);
        assert(ordered.contains(result[i]));
        assert(typed.contains(result[i]));
        let m = choose|m: int| 0 <= m < typed.len() && typed[m] == result[i];
        assert(kept.contains(kept[m]));
        assert(nearest_first.contains(kept[m]));
        assert(words.contains(kept[m]));
        let j = choose|j: int| 0 <= j < words.len() && words[j] == kept[m];
        assert(result[i] == classified(query, query_len, words[j]));
    }
}

/// Whether `found` holds no candidate beyond the cutoff and no more
/// candidates than the limit, in the order of the ranks of their typo types,
/// those of one rank in the order of their distance.
pub open spec fn is_bounded_ranking(
    found: Seq<SimilarWordView>,
    cutoff: Option<usize>,
    limit: nat,
    order: Seq<TypoType>,
) -> bool {
    &&& found.len() <= limit
    &&& forall|i: int|
        0 <= i < found.len() ==> (cutoff matches Some(farthest) ==> (
        #[trigger] found[i]).levenshtein_length <= farthest)
    &&& forall|i: int, j: int|
        0 <= i < j < found.len() ==> typo_rank_of(#[trigger] found[i], order) <= typo_rank_of(
            #[trigger] found[j],
            order,
        )
    &&& forall|i: int, j: int|
        0 <= i < j < found.len() && typo_rank_of(#[trigger] found[i], order) == typo_rank_of(
            #[trigger] found[j],
            order,
        ) ==> found[i].levenshtein_length <= found[j].levenshtein_length
}

/// A ranking holds no candidate beyond the cutoff and no more candidates
/// than the limit, in the order of the ranks of their typo types, those of
/// one rank in the order of their distance.
pub proof fn lemma_ranked_bounds(
    query: Seq<char>,
    query_len: nat,
    words: Seq<SimilarWordView>,
    cutoff: Option<usize>,
    limit: nat,
    order: Seq<TypoType>,
)
    ensures
        is_bounded_ranking(
            ranked(query, query_len, words, cutoff, limit, order),
            cutoff,
            limit,
            order,
        ),
{
    lemma_ranked_stages(query, query_len, words, cutoff, limit, order);
    let result = ranked(query, query_len, words, cutoff, limit, order);
    assert forall|i: int| 0 <= i < result.len() implies (cutoff matches Some(farthest) ==> (
    #[trigger] result[i]).levenshtein_length <= farthest) by {
        assert(within_cutoff(cutoff)(result[i]));
    }
    assert forall|i: int, j: int| 0 <= i < j < result.len() implies typo_rank_of(
        #[trigger] result[i],
        order,
    ) <= typo_rank_of(#[trigger] result[j], order) by {
        assert(by_typo_type(order)(result[i]) <= by_typo_type(order)(result[j]));
    }
    assert forall|i: int, j: int|
        0 <= i < j < result.len() && typo_rank_of(#[trigger] result[i], order) == typo_rank_of(
            #[trigger] result[j],
            order,
        ) implies result[i].levenshtein_length <= result[j].levenshtein_length by {
        assert(by_typo_type(order)(result[i]) < by_typo_type(order)(result[j]) || (by_typo_type(
            order,
        )(result[i]) == by_typo_type(order)(result[j]) && no_farther()(result[i], result[j])));
    }
}

/// The rank of a candidate's typo type under `order`.
pub open spec fn typo_rank_of(word: SimilarWordView, order: Seq<TypoType>) -> int {
    by_typo_type(order)(word)
}

/// Ranking a ranking again, for the same query and with the same cutoff,
/// limit and order, gives it back unchanged.
pub proof fn lemma_ranked_idempotent(
    query: Seq<char>,
    query_len: nat,
    words: Seq<SimilarWordView>,
    cutoff: Option<usize>,
    limit: nat,
    order: Seq<TypoType>,
)
    ensures
        ranked(
            query,
            query_len,
            ranked(query, query_len, words, cutoff, limit, order),
            cutoff,
            limit,
            order,
        ) == ranked(query, query_len, words, cutoff, limit, order),
{
    let first = ranked(query, query_len, words, cutoff, limit, order);
    let rank = by_typo_type(order);
    let distance = by_distance();
    lemma_ranked_stages(query, query_len, words, cutoff, limit, order);

    // The second pass: sorting by distance keeps every candidate, and neither
    // the cutoff nor classification changes one.
    let nearest_first = stable_sort(first, distance);
    lemma_stable_sort_sorted(first, distance);
    lemma_stable_sort_elements(first, distance);
    lemma_stable_sort_len(first, distance);
    assert forall|i: int| 0 <= i < nearest_first.len() implies {
        &&& within_cutoff(cutoff)(#[trigger] nearest_first[i])
        &&& classified(query, query_len, nearest_first[i]) == nearest_first[i]
    } by {
        assert(nearest_first.contains(nearest_first[i]));
        assert(first.contains(nearest_first[i]));
    }
    lemma_filter_all(nearest_first, within_cutoff(cutoff));
    let kept = nearest_first.filter(within_cutoff(cutoff));
    let typed = kept.map_values(classify_for(query, query_len));
    assert(typed =~= nearest_first);

    // Sorting by rank then restores the first ranking: for each rank both
    // hold the same candidates in the order of their distance.
    lemma_sorted_by_distance(nearest_first);
    assert forall|r: int| #[trigger]
        with_key(first, rank, r) == with_key(nearest_first, rank, r) by {
        let a = with_key(first, rank, r);
        let b = with_key(nearest_first, rank, r);
        let of_rank = has_key(rank, r);
        lemma_filter_holds_in_order(nearest_first, of_rank, no_farther());
        lemma_sorted_by_distance(b);
        let in_order = |x: SimilarWordView, y: SimilarWordView|
            rank(x) < rank(y) || (rank(x) == rank(y) && no_farther()(x, y));
        assert(holds_in_order(first, in_order));
        lemma_filter_holds_in_order(first, of_rank, in_order);
        lemma_filter_elements(first, of_rank);
        assert forall|i: int, j: int| 0 <= i < j < a.len() implies no_farther()(a[i], a[j]) by {
            assert(a.contains(a[i]) && a.contains(a[j]));
            assert(in_order(a[i], a[j]));
        }
        lemma_sorted_by_distance(a);
        assert forall|d: int| #[trigger] with_key(a, distance, d) == with_key(b, distance, d) by {
            lemma_filter_commutes(first, of_rank, has_key(distance, d));
            lemma_filter_commutes(nearest_first, of_rank, has_key(distance, d));
            lemma_stable_sort_with_key(first, distance, d);
        }
        lemma_sorted_unique(a, b, distance);
    }
    lemma_stable_sort_unique(first, nearest_first, rank);
}

/// The default priority order.
fn default_sort_order() -> (order: Vec<TypoType>)
    ensures
        order@ == default_order(),
{
    let order = vec![
        TypoType::ExtraCharacters { character: 'A', position: CharacterPositon::Head },
        TypoType::MissingCharacters { character: 'Z', position: CharacterPositon::Tail },
        TypoType::SimilarShapes,
        TypoType::CloseKeyboardPlacement,
        TypoType::UndefinedType,
    ];
    assert(order@ =~= default_order());
    order
}

/// Drops the candidates beyond the cutoff and classifies the rest.
fn keep_and_classify(
    check_word: &str,
    check_word_length: usize,
    words: Vec<SimilarWord>,
    cutoff: Option<usize>,
) -> (typed: Vec<SimilarWord>)
    ensures
        typed.deep_view() == words.deep_view().filter(within_cutoff(cutoff)).map_values(
            classify_for(check_word@, check_word_length as nat),
        ),
{
    broadcast use vstd::std_specs::vec::axiom_spec_into_iter;

    let ghost all = words.deep_view();
    let ghost given = words@;
    let ghost keep = within_cutoff(cutoff);
    let ghost classify = classify_for(check_word@, check_word_length as nat);
    let groups = similar_shape_list();
    let keys = close_keyboard_placement_list();
    let query = chars_of(check_word);
    let count = words.len();
    let mut rest = VerusForLoopWrapper::new(words.into_iter(), Ghost(None));
    let mut typed: Vec<SimilarWord> = Vec::new();
    let mut n: usize = 0;
    proof {
        reveal(Seq::filter);
        assert(all.take(0) =~= Seq::empty());
        assert(typed.deep_view() =~= all.take(0).filter(keep).map_values(classify));
    }
    while n < count
        invariant
            n <= count == given.len() == all.len(),
            forall|m: int| 0 <= m < count ==> (#[trigger] given[m])@ == all[m],
            rest.wf(),
            rest.seq() == given,
            rest.index() == n,
            keep == within_cutoff(cutoff),
            classify == classify_for(check_word@, check_word_length as nat),
            query@ == check_word@,
            crate::tables::is_shape_table(groups@),
            crate::tables::is_keyboard_table(keys@),
            typed.deep_view() == all.take(n as int).filter(keep).map_values(classify),
        decreases count - n,
    {
        let ghost before = typed;
        let next = rest.next();
        let word = next.unwrap();
        let kept = match cutoff {
            Some(limit) => word.levenshtein_length <= limit,
            None => true,
        };
        proof {
            assert(word@ == all[n as int]);
            assert(all.take(n + 1) =~= all.take(n as int).push(word@));
            lemma_filter_push(all.take(n as int), word@, keep);
            assert(kept == keep(word@));
        }
        if kept {
            let word = if word.levenshtein_length == 1 {
                let spelling = chars_of(word.spelling.as_str());
                if check_word_length == spelling.len() {
                    let typo_type = classify_substitution(
                        &query,
                        &spelling,
                        word.typo_type,
                        &groups,
                        &keys,
                    );
                    SimilarWord {
                        spelling: word.spelling,
                        levenshtein_length: word.levenshtein_length,
                        typo_type,
                    }
                } else {
                    find_missing_or_extra_chars(check_word, word)
                }
            } else {
                word
            };
            typed.push(word);
            proof {
                assert(word@ == classify(all[n as int]));
                assert(typed.deep_view() =~= before.deep_view().push(word@));
                assert(all.take(n as int).filter(keep).push(all[n as int]).map_values(classify)
                    =~= all.take(n as int).filter(keep).map_values(classify).push(word@));
            }
        }
        n += 1;
    }
    proof {
        assert(all.take(count as int) =~= all);
    }
    typed
}

/// Ranks the candidates for `check_word`: sorts them by distance, drops
/// those beyond the cutoff, classifies those at distance one, sorts by the
/// priority of the typo types, and keeps the first `pickup_similar_word_num`.
/// A cutoff below two is refused.
pub fn get_top_similar_words(
    check_word: String,
    check_word_length: usize,
    similar_word_list: Vec<SimilarWord>,
    output_levenshtein_cutoff: Option<usize>,
    pickup_similar_word_num: usize,
    sort_order_of_typo_type: Option<&Vec<TypoType>>,
) -> (top: Result<Vec<SimilarWord>, TypoCheckError>)
    ensures
        match top {
            Ok(words) => is_valid_cutoff(output_levenshtein_cutoff) && words.deep_view() == ranked(
                check_word@,
                check_word_length as nat,
                similar_word_list.deep_view(),
                output_levenshtein_cutoff,
                pickup_similar_word_num as nat,
                order_or_default(sort_order_of_typo_type),
            ),
            Err(error) => !is_valid_cutoff(output_levenshtein_cutoff) && error
                == TypoCheckError::InvalidConfiguration,
        },
        match top {
            Ok(words) => is_bounded_ranking(
                words.deep_view(),
                output_levenshtein_cutoff,
                pickup_similar_word_num as nat,
                order_or_default(sort_order_of_typo_type),
            ),
            Err(_) => true,
        },
{
    proof {
        lemma_ranked_bounds(
            check_word@,
            check_word_length as nat,
            similar_word_list.deep_view(),
            output_levenshtein_cutoff,
            pickup_similar_word_num as nat,
            order_or_default(sort_order_of_typo_type),
        );
    }
    if let Some(cutoff) = output_levenshtein_cutoff {
        if cutoff < 2 {
            return Err(TypoCheckError::InvalidConfiguration);
        }
    }
    let nearest_first = sort_words(similar_word_list, &SortKey::Distance);
    let typed = keep_and_classify(
        check_word.as_str(),
        check_word_length,
        nearest_first,
        output_levenshtein_cutoff,
    );
    let default_sort_typo_type = default_sort_order();
    let sort_typo_type = match sort_order_of_typo_type {
        Some(given) => given,
        None => &default_sort_typo_type,
    };
    let mut ordered = sort_words(typed, &SortKey::TypoType(sort_typo_type));
    if ordered.len() > pickup_similar_word_num {
        let ghost before = ordered.deep_view();
        ordered.truncate(pickup_similar_word_num);
        assert(ordered.deep_view() =~= before.take(pickup_similar_word_num as int));
    }
    Ok(ordered)
}

} // verus!
