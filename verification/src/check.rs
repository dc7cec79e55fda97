//! Checking one word: the search for candidates in the buckets around its
//! length, and the answer.

use crate::candidate::{
    unclassified, SimilarWord, SimilarWordView, TypoCheckError, TypoCheckResult,
    TypoCheckResultView,
};
use crate::dictionary::{
    holds_word, is_dictionary, Dictionary, BUCKET_COUNT, LONGEST_WORD, SHORTEST_WORD,
};
use crate::distance::{edit_distance, lemma_edit_distance_zero_iff_equal, levenshtein};
use crate::rank::{
    classified, get_top_similar_words, is_bounded_ranking, is_valid_cutoff,
    lemma_classified_once, lemma_ranked_bounds, lemma_ranked_from_words, order_or_default,
    ranked,
};
use crate::text::{lowercase_of, to_lowercase};
use crate::typo::TypoType;
use vstd::prelude::*;
use vstd::slice::slice_subrange;

verus! {

/// How far the search window reaches from the bucket of the query's length:
/// as far as the cutoff, and two buckets where there is none.
pub open spec fn search_range(cutoff: Option<usize>) -> int {
    match cutoff {
        Some(range) => range as int,
        None => 2,
    }
}

/// The place of the bucket that holds the words of `len` characters.
pub open spec fn bucket_index(len: nat) -> int {
    len - SHORTEST_WORD
}

/// The first bucket of the search window around the bucket at `index`:
/// `range` buckets down, and the first bucket where there are not as many.
pub open spec fn window_start(index: int, range: int) -> int {
    if index >= range {
        index - range
    } else {
        0
    }
}

/// The place behind the last bucket of the search window around the bucket
/// at `index`: `range` buckets up, and the number of buckets where there are
/// not as many. The bucket at this place is not searched any more.
pub open spec fn window_end(index: int, range: int) -> int {
    if index + range <= BUCKET_COUNT {
        index + range
    } else {
        BUCKET_COUNT as int
    }
}

/// The candidate that a search makes of a word: the word with its distance
/// to the query, not classified.
pub open spec fn measured(query: Seq<char>) -> spec_fn(Seq<char>) -> SimilarWordView {
    |word: Seq<char>| unclassified(word, edit_distance(query, word))
}

/// The candidates that a search makes of one bucket, in the order of its
/// words.
pub open spec fn scanned(query: Seq<char>, bucket: Seq<Seq<char>>) -> Seq<SimilarWordView> {
    bucket.map_values(measured(query))
}

/// The candidates that a search makes of some buckets, bucket after bucket.
pub open spec fn scanned_all(query: Seq<char>, buckets: Seq<Seq<Seq<char>>>) -> Seq<
    SimilarWordView,
>
    decreases buckets.len(),
{
    if buckets.len() == 0 {
        Seq::empty()
    } else {
        scanned_all(query, buckets.drop_last()) + scanned(query, buckets.last())
    }
}

/// The candidates for a query that the bucket of its length does not hold:
/// the words of its length first, then those of the shorter lengths in the
/// window, then those of the longer ones. The window reaches `range` buckets
/// down and one bucket less up, as far as there are buckets.
pub open spec fn candidates(buckets: Seq<Seq<Seq<char>>>, query: Seq<char>, range: int) -> Seq<
    SimilarWordView,
> {
    let index = bucket_index(query.len());
    scanned(query, buckets[index]) + scanned_all(
        query,
        buckets.subrange(window_start(index, range), index),
    ) + scanned_all(query, buckets.subrange(index + 1, window_end(index, range)))
}

/// What a check of a query in lower case returns. A cutoff below two is
/// refused, whatever the query. A query of one character has neither a match
/// nor candidates. A query without characters, or longer than the longest
/// word, is refused. A query that the bucket of its length holds is matched.
/// Any other has the candidates of the search window, ranked.
pub open spec fn check_outcome(
    buckets: Seq<Seq<Seq<char>>>,
    query: Seq<char>,
    cutoff: Option<usize>,
    limit: nat,
    order: Seq<TypoType>,
) -> Result<TypoCheckResultView, TypoCheckError> {
    if !is_valid_cutoff(cutoff) {
        Err(TypoCheckError::InvalidConfiguration)
    } else if query.len() == 1 {
        Ok(TypoCheckResultView { match_word: None, similar_word_list: None })
    } else if query.len() < SHORTEST_WORD || query.len() > LONGEST_WORD {
        Err(TypoCheckError::UnsupportedLength)
    } else if buckets[bucket_index(query.len())].contains(query) {
        Ok(TypoCheckResultView { match_word: Some(query), similar_word_list: None })
    } else {
        Ok(
            TypoCheckResultView {
                match_word: None,
                similar_word_list: Some(
                    ranked(
                        query,
                        query.len(),
                        candidates(buckets, query, search_range(cutoff)),
                        cutoff,
                        limit,
                        order,
                    ),
                ),
            },
        )
    }
}

/// The outcome of a check as a value.
pub open spec fn outcome_view(outcome: Result<TypoCheckResult, TypoCheckError>) -> Result<
    TypoCheckResultView,
    TypoCheckError,
> {
    match outcome {
        Ok(result) => Ok(result@),
        Err(error) => Err(error),
    }
}

/// A word of the dictionary, checked, is matched: the answer is the word
/// itself, without candidates.
pub proof fn lemma_dictionary_word_is_matched(
    buckets: Seq<Seq<Seq<char>>>,
    word: Seq<char>,
    cutoff: Option<usize>,
    limit: nat,
    order: Seq<TypoType>,
)
    requires
        is_dictionary(buckets),
        holds_word(buckets, word),
        is_valid_cutoff(cutoff),
    ensures
        check_outcome(buckets, lowercase_of(word), cutoff, limit, order) == Ok::<
            TypoCheckResultView,
            TypoCheckError,
        >(TypoCheckResultView { match_word: Some(word), similar_word_list: None }),
{
    let (b, w) = choose|b: int, w: int|
        0 <= b < buckets.len() && 0 <= w < buckets[b].len() && #[trigger] buckets[b][w] == word;
    assert(buckets[b].contains(word));
}

/// The candidates of a check are none of them beyond the cutoff and no more
/// than the limit, in the order of the ranks of their typo types, those of
/// one rank in the order of their distance.
pub proof fn lemma_checked_candidates_bounded(
    buckets: Seq<Seq<Seq<char>>>,
    query: Seq<char>,
    cutoff: Option<usize>,
    limit: nat,
    order: Seq<TypoType>,
)
    ensures
        match check_outcome(buckets, query, cutoff, limit, order) {
            Ok(result) => match result.similar_word_list {
                Some(found) => is_bounded_ranking(found, cutoff, limit, order),
                None => true,
            },
            Err(_) => true,
        },
{
    lemma_ranked_bounds(
        query,
        query.len(),
        candidates(buckets, query, search_range(cutoff)),
        cutoff,
        limit,
        order,
    );
}

/// Whether `found` stands for a word of `buckets` other than `query`, with
/// its distance to `query`.
pub open spec fn is_near_word(
    buckets: Seq<Seq<Seq<char>>>,
    query: Seq<char>,
    found: SimilarWordView,
) -> bool {
    &&& holds_word(buckets, found.spelling)
    &&& found.spelling != query
    &&& found.levenshtein_length == edit_distance(query, found.spelling)
    &&& found.levenshtein_length > 0
}

/// Each candidate that a search makes of some buckets is the measure of one
/// of their words.
proof fn lemma_scanned_all_from_words(query: Seq<char>, buckets: Seq<Seq<Seq<char>>>, i: int)
    requires
        0 <= i < scanned_all(query, buckets).len(),
    ensures
        exists|b: int, w: int|
            0 <= b < buckets.len() && 0 <= w < buckets[b].len() && scanned_all(query, buckets)[i]
                == measured(query)(#[trigger] buckets[b][w]),
    decreases buckets.len(),
{
    let front = buckets.drop_last();
    let before = scanned_all(query, front);
    if i < before.len() {
        lemma_scanned_all_from_words(query, front, i);
        let (b, w) = choose|b: int, w: int|
            0 <= b < front.len() && 0 <= w < front[b].len() && before[i] == measured(query)(
                #[trigger] front[b][w],
            );
        assert(buckets[b][w] == front[b][w]);
    } else {
        let b = buckets.len() - 1;
        let w = i - before.len();
        assert(scanned_all(query, buckets)[i] == measured(query)(buckets[b][w]));
    }
}

/// The candidates of a check are words of the dictionary other than the
/// query, each with its distance to the query.
pub proof fn lemma_checked_candidates_are_words(
    buckets: Seq<Seq<Seq<char>>>,
    query: Seq<char>,
    cutoff: Option<usize>,
    limit: nat,
    order: Seq<TypoType>,
)
    requires
        is_dictionary(buckets),
    ensures
        match check_outcome(buckets, query, cutoff, limit, order) {
            Ok(result) => match result.similar_word_list {
                Some(found) => forall|i: int|
                    0 <= i < found.len() ==> is_near_word(buckets, query, #[trigger] found[i]),
                None => true,
            },
            Err(_) => true,
        },
{
    if let Ok(result) = check_outcome(buckets, query, cutoff, limit, order) {
        if let Some(found) = result.similar_word_list {
            let range = search_range(cutoff);
            let index = bucket_index(query.len());
            let start = window_start(index, range);
            let end = window_end(index, range);
            let same = scanned(query, buckets[index]);
            let shorter = scanned_all(query, buckets.subrange(start, index));
            let longer = scanned_all(query, buckets.subrange(index + 1, end));
            let raw = candidates(buckets, query, range);
            assert(raw == same + shorter + longer);
            assert forall|j: int| 0 <= j < raw.len() implies is_near_word(
                buckets,
                query,
                #[trigger] raw[j],
            ) by {
                if j < same.len() {
                    let word = buckets[index][j];
                    assert(raw[j] == measured(query)(word));
                    assert(buckets[index].contains(word));
                    lemma_edit_distance_zero_iff_equal(query, word);
                } else if j < same.len() + shorter.len() {
                    let part = buckets.subrange(start, index);
                    lemma_scanned_all_from_words(query, part, j - same.len());
                    let (b, w) = choose|b: int, w: int|
                        0 <= b < part.len() && 0 <= w < part[b].len() && shorter[j - same.len()]
                            == measured(query)(#[trigger] part[b][w]);
                    let word = buckets[start + b][w];
                    assert(part[b][w] == word);
                    assert(raw[j] == measured(query)(word));
                    lemma_edit_distance_zero_iff_equal(query, word);
                } else {
                    let part = buckets.subrange(index + 1, end);
                    let k = j - same.len() - shorter.len();
                    lemma_scanned_all_from_words(query, part, k);
                    let (b, w) = choose|b: int, w: int|
                        0 <= b < part.len() && 0 <= w < part[b].len() && longer[k] == measured(
                            query,
                        )(#[trigger] part[b][w]);
                    let word = buckets[index + 1 + b][w];
                    assert(part[b][w] == word);
                    assert(raw[j] == measured(query)(word));
                    lemma_edit_distance_zero_iff_equal(query, word);
                }
            }
            lemma_ranked_from_words(query, query.len(), raw, cutoff, limit, order);
            assert forall|i: int| 0 <= i < found.len() implies is_near_word(
                buckets,
                query,
                #[trigger] found[i],
            ) by {
                let j = choose|j: int|
                    0 <= j < raw.len() && found[i] == classified(
                        query,
                        query.len(),
                        #[trigger] raw[j],
                    );
                lemma_classified_once(query, query.len(), raw[j]);
                assert(is_near_word(buckets, query, raw[j]));
            }
        }
    }
}

/// Adds to `similar_word_list` a candidate for each word of one bucket.
fn scan_bucket(
    bucket: &Vec<String>,
    check_word: &String,
    similar_word_list: Vec<SimilarWord>,
) -> (found: Vec<SimilarWord>)
    ensures
        found.deep_view() == similar_word_list.deep_view() + scanned(
            check_word@,
            bucket.deep_view(),
        ),
{
    let ghost before = similar_word_list.deep_view();
    let ghost words = bucket.deep_view();
    let mut found = similar_word_list;
    let mut w: usize = 0;
    proof {
        assert(found.deep_view() =~= before + scanned(check_word@, words.take(0)));
    }
    while w < bucket.len()
        invariant
            w <= bucket.len(),
            words == bucket.deep_view(),
            found.deep_view() == before + scanned(check_word@, words.take(w as int)),
        decreases bucket.len() - w,
    {
        let ghost so_far = found.deep_view();
        let word = &bucket[w];
        let levenshtein_length = levenshtein(check_word.as_str(), word.as_str());
        found.push(SimilarWord::new(word.clone(), levenshtein_length));
        proof {
            assert(words[w as int] == word@);
            assert(found.deep_view() =~= so_far.push(measured(check_word@)(word@)));
            assert(words.take(w + 1) =~= words.take(w as int).push(word@));
            assert(scanned(check_word@, words.take(w + 1)) =~= scanned(
                check_word@,
                words.take(w as int),
            ).push(measured(check_word@)(word@)));
            assert(found.deep_view() =~= before + scanned(check_word@, words.take(w + 1)));
        }
        w += 1;
    }
    proof {
        assert(words.take(bucket.len() as int) =~= words);
    }
    found
}

/// Adds to `similar_word_list` a candidate for each word of the buckets in
/// `word_list`, bucket after bucket.
pub fn calculate_word_list_levenshtein_length(
    word_list: &[Vec<String>],
    check_word: &String,
    similar_word_list: Vec<SimilarWord>,
) -> (found: Vec<SimilarWord>)
    ensures
        found.deep_view() == similar_word_list.deep_view() + scanned_all(
            check_word@,
            word_list.deep_view(),
        ),
{
    let ghost before = similar_word_list.deep_view();
    let ghost buckets = word_list.deep_view();
    let mut found = similar_word_list;
    let mut b: usize = 0;
    proof {
        assert(buckets.take(0) =~= Seq::empty());
        assert(found.deep_view() =~= before + scanned_all(check_word@, buckets.take(0)));
    }
    while b < word_list.len()
        invariant
            b <= word_list.len(),
            buckets == word_list.deep_view(),
            found.deep_view() == before + scanned_all(check_word@, buckets.take(b as int)),
        decreases word_list.len() - b,
    {
        let ghost so_far = found.deep_view();
        found = scan_bucket(&word_list[b], check_word, found);
        proof {
            assert(buckets.take(b + 1).drop_last() =~= buckets.take(b as int));
            assert(buckets.take(b + 1).last() == word_list@[b as int].deep_view());
            assert(found.deep_view() =~= before + scanned_all(check_word@, buckets.take(b + 1)));
        }
        b += 1;
    }
    proof {
        assert(buckets.take(word_list.len() as int) =~= buckets);
    }
    found
}

/// Looks for `check_word` in the bucket of its length: returns nothing where
/// the bucket holds it, and a candidate for each word of the bucket else.
fn scan_for_match(bucket: &Vec<String>, check_word: &String) -> (found: Option<Vec<SimilarWord>>)
    ensures
        match found {
            Some(words) => !bucket.deep_view().contains(check_word@) && words.deep_view()
                == scanned(check_word@, bucket.deep_view()),
            None => bucket.deep_view().contains(check_word@),
        },
{
    let ghost words = bucket.deep_view();
    let mut found: Vec<SimilarWord> = Vec::new();
    let mut w: usize = 0;
    proof {
        assert(found.deep_view() =~= scanned(check_word@, words.take(0)));
    }
    while w < bucket.len()
        invariant
            w <= bucket.len(),
            words == bucket.deep_view(),
            forall|i: int| 0 <= i < w ==> words[i] != check_word@,
            found.deep_view() == scanned(check_word@, words.take(w as int)),
        decreases bucket.len() - w,
    {
        let ghost so_far = found.deep_view();
        let word = &bucket[w];
        let levenshtein_length = levenshtein(check_word.as_str(), word.as_str());
        proof {
            assert(words[w as int] == word@);
            lemma_edit_distance_zero_iff_equal(check_word@, word@);
        }
        if levenshtein_length == 0 {
            return None;
        }
        found.push(SimilarWord::new(word.clone(), levenshtein_length));
        proof {
            assert(found.deep_view() =~= so_far.push(measured(check_word@)(word@)));
            assert(words.take(w + 1) =~= words.take(w as int).push(word@));
            assert(scanned(check_word@, words.take(w + 1)) =~= scanned(
                check_word@,
                words.take(w as int),
            ).push(measured(check_word@)(word@)));
        }
        w += 1;
    }
    proof {
        assert(words.take(bucket.len() as int) =~= words);
    }
    Some(found)
}

/// Checks a query that is in lower case already.
pub fn check_normalized(
    dictionary: &Dictionary,
    query: String,
    output_levenshtein_cutoff: Option<usize>,
    pickup_similar_word_num: usize,
    sort_order_of_typo_type: Option<&Vec<TypoType>>,
) -> (outcome: Result<TypoCheckResult, TypoCheckError>)
    ensures
        outcome_view(outcome) == check_outcome(
            dictionary@,
            query@,
            output_levenshtein_cutoff,
            pickup_similar_word_num as nat,
            order_or_default(sort_order_of_typo_type),
        ),
{
    let select_word_range: usize = match output_levenshtein_cutoff {
        Some(range_num) => {
            if range_num < 2 {
                return Err(TypoCheckError::InvalidConfiguration);
            }
            range_num
        },
        None => 2,
    };
    let check_word_length = query.as_str().unicode_len();
    if check_word_length == 1 {
        return Ok(TypoCheckResult::new());
    }
    if check_word_length < SHORTEST_WORD || check_word_length > LONGEST_WORD {
        return Err(TypoCheckError::UnsupportedLength);
    }
    let word_dic = dictionary.buckets();
    let index = check_word_length - SHORTEST_WORD;
    let select_word_lower_index = if index >= select_word_range {
        index - select_word_range
    } else {
        0
    };
    let select_word_upper_index = if select_word_range <= BUCKET_COUNT - index {
        index + select_word_range
    } else {
        BUCKET_COUNT
    };
    let similar_word_list = match scan_for_match(&word_dic[index], &query) {
        Some(words) => words,
        None => {
            return Ok(TypoCheckResult::exact(query));
        },
    };
    let all = word_dic.as_slice();
    let selected_lower_word_dic = slice_subrange(all, select_word_lower_index, index);
    let selected_upper_word_dic = slice_subrange(all, index + 1, select_word_upper_index);
    let ghost same_length = similar_word_list.deep_view();
    let similar_word_list = calculate_word_list_levenshtein_length(
        selected_lower_word_dic,
        &query,
        similar_word_list,
    );
    let similar_word_list = calculate_word_list_levenshtein_length(
        selected_upper_word_dic,
        &query,
        similar_word_list,
    );
    proof {
        let buckets = dictionary@;
        assert(all.deep_view() =~= buckets);
        assert(selected_lower_word_dic.deep_view() =~= buckets.subrange(
            select_word_lower_index as int,
            index as int,
        ));
        assert(selected_upper_word_dic.deep_view() =~= buckets.subrange(
            index + 1,
            select_word_upper_index as int,
        ));
        assert(word_dic@[index as int].deep_view() == buckets[index as int]);
        assert(similar_word_list.deep_view() == candidates(
            buckets,
            query@,
            search_range(output_levenshtein_cutoff),
        ));
    }
    match get_top_similar_words(
        query,
        check_word_length,
        similar_word_list,
        output_levenshtein_cutoff,
        pickup_similar_word_num,
        sort_order_of_typo_type,
    ) {
        Ok(top) => Ok(TypoCheckResult::similar(top)),
        Err(error) => Err(error),
    }
}

/// Checks `check_word` against the dictionary, in lower case: finds the word
/// itself, or the words nearest to it with the likely cause of each
/// difference.
///
/// `output_levenshtein_cutoff` is the greatest distance of a candidate, and
/// the reach of the search window around the word's length.
/// `pickup_similar_word_num` is the greatest number of candidates.
/// `sort_order_of_typo_type` puts the kinds of typo in an order of priority.
///
/// The first clause says what is returned. The others follow from it: a
/// cutoff below two is refused whatever the word; a word of one character
/// has neither a match nor candidates; a word of the dictionary is matched;
/// and candidates are words of the dictionary other than the query, with
/// their distance to it, within the cutoff and the limit, in the order of
/// the priority of their typo types and, within one priority, of their
/// distance.
pub fn check_a_word(
    dictionary: &Dictionary,
    check_word: String,
    output_levenshtein_cutoff: Option<usize>,
    pickup_similar_word_num: usize,
    sort_order_of_typo_type: Option<&Vec<TypoType>>,
) -> (outcome: Result<TypoCheckResult, TypoCheckError>)
    ensures
        outcome_view(outcome) == check_outcome(
            dictionary@,
            lowercase_of(check_word@),
            output_levenshtein_cutoff,
            pickup_similar_word_num as nat,
            order_or_default(sort_order_of_typo_type),
        ),
        !is_valid_cutoff(output_levenshtein_cutoff) ==> outcome == Err::<
            TypoCheckResult,
            TypoCheckError,
        >(TypoCheckError::InvalidConfiguration),
        is_valid_cutoff(output_levenshtein_cutoff) && lowercase_of(check_word@).len() == 1
            ==> outcome_view(outcome) == Ok::<TypoCheckResultView, TypoCheckError>(
            TypoCheckResultView { match_word: None, similar_word_list: None },
        ),
        is_valid_cutoff(output_levenshtein_cutoff) && holds_word(dictionary@, check_word@)
            ==> outcome_view(outcome) == Ok::<TypoCheckResultView, TypoCheckError>(
            TypoCheckResultView { match_word: Some(check_word@), similar_word_list: None },
        ),
        match outcome_view(outcome) {
            Ok(result) => match result.similar_word_list {
                Some(found) => {
                    &&& is_bounded_ranking(
                        found,
                        output_levenshtein_cutoff,
                        pickup_similar_word_num as nat,
                        order_or_default(sort_order_of_typo_type),
                    )
                    &&& forall|i: int|
                        0 <= i < found.len() ==> is_near_word(
                            dictionary@,
                            lowercase_of(check_word@),
                            #[trigger] found[i],
                        )
                },
                None => true,
            },
            Err(_) => true,
        },
{
    proof {
        use_type_invariant(dictionary);
        let order = order_or_default(sort_order_of_typo_type);
        let limit = pickup_similar_word_num as nat;
        if is_valid_cutoff(output_levenshtein_cutoff) && holds_word(dictionary@, check_word@) {
            lemma_dictionary_word_is_matched(
                dictionary@,
                check_word@,
                output_levenshtein_cutoff,
                limit,
                order,
            );
        }
        lemma_checked_candidates_bounded(
            dictionary@,
            lowercase_of(check_word@),
            output_levenshtein_cutoff,
            limit,
            order,
        );
        lemma_checked_candidates_are_words(
            dictionary@,
            lowercase_of(check_word@),
            output_levenshtein_cutoff,
            limit,
            order,
        );
    }
    let lowercase_check_word = to_lowercase(check_word.as_str());
    check_normalized(
        dictionary,
        lowercase_check_word,
        output_levenshtein_cutoff,
        pickup_similar_word_num,
        sort_order_of_typo_type,
    )
}

} // verus!
