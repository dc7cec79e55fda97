//! The likely cause of a one-edit discrepancy between a query and a
//! candidate: a substitution by a look-alike or a neighbouring key, or a
//! character too many or too few at one end.

use crate::candidate::{SimilarWord, SimilarWordView};
use crate::pattern::{captured_char, escape, escaped, first_captured_char};
use crate::tables::{
    close_keyboard_placement_list, is_adjacent_key, is_keyboard_table, is_shape_table,
    is_similar_shape, shape_groups, similar_shape_list,
};
use crate::text::{chars_of, contains_char};
use crate::typo::{CharacterPositon, TypoType};
use std::collections::HashMap;
use vstd::prelude::*;
use vstd::string::StringExecFns;

verus! {

/// Whether the characters at place `i` differ and look alike.
pub open spec fn differs_by_shape(query: Seq<char>, word: Seq<char>, i: int) -> bool {
    query[i] != word[i] && is_similar_shape(query[i], word[i])
}

/// Whether the characters at place `i` differ and the candidate's is listed
/// as a neighbour of the query's.
pub open spec fn differs_by_key(query: Seq<char>, word: Seq<char>, i: int) -> bool {
    query[i] != word[i] && is_adjacent_key(query[i], word[i])
}

/// The number of places at which both `query` and `word` have a character.
pub open spec fn paired_len(query: Seq<char>, word: Seq<char>) -> int {
    if query.len() <= word.len() {
        query.len() as int
    } else {
        word.len() as int
    }
}

/// The typo type of a candidate that differs from the query by
/// substitution. A look-alike pair at any place decides for similar shapes.
/// Without one, a neighbouring pair at any place decides for keyboard
/// placement. Without either the candidate keeps the type it had.
pub open spec fn substitution_typo(
    query: Seq<char>,
    word: Seq<char>,
    initial: TypoType,
) -> TypoType {
    if exists|i: int| 0 <= i < paired_len(query, word) && differs_by_shape(query, word, i) {
        TypoType::SimilarShapes
    } else if exists|i: int| 0 <= i < paired_len(query, word) && differs_by_key(query, word, i) {
        TypoType::CloseKeyboardPlacement
    } else {
        initial
    }
}

/// Decides whether one of the shape groups holds both `x` and `y`.
fn shares_shape_group(groups: &Vec<Vec<char>>, x: char, y: char) -> (shared: bool)
    requires
        is_shape_table(groups@),
    ensures
        shared == is_similar_shape(x, y),
{
    let mut g: usize = 0;
    while g < groups.len()
        invariant
            g <= groups.len(),
            is_shape_table(groups@),
            forall|k: int|
                0 <= k < g ==> !((#[trigger] shape_groups()[k]).contains(x)
                    && shape_groups()[k].contains(y)),
        decreases groups.len() - g,
    {
        if contains_char(&groups[g], x) && contains_char(&groups[g], y) {
            assert(shape_groups()[g as int].contains(x));
            return true;
        }
        g += 1;
    }
    false
}

/// Decides whether `other` is listed as a neighbour of `key`.
fn is_listed_neighbour(keys: &HashMap<u32, Vec<char>>, key: char, other: char) -> (listed: bool)
    requires
        is_keyboard_table(keys@),
    ensures
        listed == is_adjacent_key(key, other),
{
    broadcast use vstd::std_specs::hash::group_hash_axioms;

    let code = key as u32;
    match keys.get(&code) {
        Some(neighbours) => contains_char(neighbours, other),
        None => false,
    }
}

/// Scans the paired characters of `query` and `word` for the typo type of a
/// substitution.
pub(crate) fn classify_substitution(
    query: &Vec<char>,
    word: &Vec<char>,
    initial: TypoType,
    groups: &Vec<Vec<char>>,
    keys: &HashMap<u32, Vec<char>>,
) -> (typo_type: TypoType)
    requires
        is_shape_table(groups@),
        is_keyboard_table(keys@),
    ensures
        typo_type == substitution_typo(query@, word@, initial),
{
    let paired = if query.len() <= word.len() {
        query.len()
    } else {
        word.len()
    };
    let mut typo_type = initial;
    let mut i: usize = 0;
    while i < paired
        invariant
            i <= paired == paired_len(query@, word@),
            is_shape_table(groups@),
            is_keyboard_table(keys@),
            forall|k: int| 0 <= k < i ==> !differs_by_shape(query@, word@, k),
            typo_type == if exists|k: int| 0 <= k < i && differs_by_key(query@, word@, k) {
                TypoType::CloseKeyboardPlacement
            } else {
                initial
            },
        decreases paired - i,
    {
        let c = query[i];
        let t = word[i];
        if c != t {
            if shares_shape_group(groups, c, t) {
                assert(differs_by_shape(query@, word@, i as int));
                return TypoType::SimilarShapes;
            }
            if is_listed_neighbour(keys, c, t) {
                assert(differs_by_key(query@, word@, i as int));
                typo_type = TypoType::CloseKeyboardPlacement;
            }
        }
        i += 1;
    }
    typo_type
}

/// Classifies a candidate of the query's length: sets its typo type to
/// similar shapes or keyboard placement where a differing pair of characters
/// calls for it, and leaves it as it is else.
pub fn find_different_a_char(check_word: &str, temp_word: SimilarWord) -> (word: SimilarWord)
    ensures
        word@ == (SimilarWordView {
            typo_type: substitution_typo(check_word@, temp_word@.spelling, temp_word@.typo_type),
            ..temp_word@
        }),
{
    let groups = similar_shape_list();
    let keys = close_keyboard_placement_list();
    let query = chars_of(check_word);
    let spelling = chars_of(temp_word.spelling.as_str());
    let typo_type = classify_substitution(&query, &spelling, temp_word.typo_type, &groups, &keys);
    SimilarWord {
        spelling: temp_word.spelling,
        levenshtein_length: temp_word.levenshtein_length,
        typo_type,
    }
}

/// The pattern that finds `shorter` at the end of a longer text, one
/// character or more before it. Where the query is the longer text, the
/// search may begin anywhere in it and must end at its end; where the
/// candidate is, the search begins at its start.
pub open spec fn head_pattern(shorter: Seq<char>, query_is_longer: bool) -> Seq<char> {
    if query_is_longer {
        "(.+)"@ + escaped(shorter) + "$"@
    } else {
        "^(.+)"@ + escaped(shorter)
    }
}

/// The pattern that finds `shorter` at the start of a longer text, one
/// character or more behind it. Where the query is the longer text, the
/// search begins at its start; where the candidate is, the search may begin
/// anywhere in it and must end at its end.
pub open spec fn tail_pattern(shorter: Seq<char>, query_is_longer: bool) -> Seq<char> {
    if query_is_longer {
        "^"@ + escaped(shorter) + "(.+)"@
    } else {
        escaped(shorter) + "(.+)$"@
    }
}

/// The typo type of a candidate that is longer or shorter than the query,
/// from the character found before the shorter text and the one found
/// behind it. One at the tail decides first, then one at the head; without
/// either the candidate keeps the type it had. A character too many in the
/// query is an extra one, a character too few a missing one.
pub open spec fn edge_typo(
    initial: TypoType,
    query_is_longer: bool,
    at_head: Option<char>,
    at_tail: Option<char>,
) -> TypoType {
    match at_tail {
        Some(c) => edge_typo_at(query_is_longer, c, CharacterPositon::Tail),
        None => match at_head {
            Some(c) => edge_typo_at(query_is_longer, c, CharacterPositon::Head),
            None => initial,
        },
    }
}

/// An extra character where the query is the longer text, a missing one
/// where the candidate is.
pub open spec fn edge_typo_at(
    query_is_longer: bool,
    character: char,
    position: CharacterPositon,
) -> TypoType {
    if query_is_longer {
        TypoType::ExtraCharacters { character, position }
    } else {
        TypoType::MissingCharacters { character, position }
    }
}

/// The typo type of a candidate whose length differs from the query's. The
/// query counts as the longer text where it has more characters than the
/// candidate; the two patterns are built from the other text and searched
/// for in the longer one.
pub open spec fn edge_typo_of(query: Seq<char>, word: Seq<char>, initial: TypoType) -> TypoType {
    let query_is_longer = word.len() < query.len();
    let (shorter, longer) = if query_is_longer {
        (word, query)
    } else {
        (query, word)
    };
    edge_typo(
        initial,
        query_is_longer,
        captured_char(head_pattern(shorter, query_is_longer), longer),
        captured_char(tail_pattern(shorter, query_is_longer), longer),
    )
}

/// Decides the typo type of a candidate from what the two searches found.
pub fn classify_edge(
    initial: TypoType,
    query_is_longer: bool,
    at_head: Option<char>,
    at_tail: Option<char>,
) -> (typo_type: TypoType)
    ensures
        typo_type == edge_typo(initial, query_is_longer, at_head, at_tail),
{
    let (character, position) = match at_tail {
        Some(c) => (c, CharacterPositon::Tail),
        None => match at_head {
            Some(c) => (c, CharacterPositon::Head),
            None => {
                return initial;
            },
        },
    };
    if query_is_longer {
        TypoType::ExtraCharacters { character, position }
    } else {
        TypoType::MissingCharacters { character, position }
    }
}

/// Builds the head pattern for `shorter`.
fn build_head_pattern(shorter: &str, query_is_longer: bool) -> (pattern: String)
    ensures
        pattern@ == head_pattern(shorter@, query_is_longer),
{
    let literal = escape(shorter);
    let mut pattern = String::new();
    if query_is_longer {
        pattern.append("(.+)");
        pattern.append(literal.as_str());
        pattern.append("$");
    } else {
        pattern.append("^(.+)");
        pattern.append(literal.as_str());
    }
    assert(pattern@ =~= head_pattern(shorter@, query_is_longer));
    pattern
}

/// Builds the tail pattern for `shorter`.
fn build_tail_pattern(shorter: &str, query_is_longer: bool) -> (pattern: String)
    ensures
        pattern@ == tail_pattern(shorter@, query_is_longer),
{
    let literal = escape(shorter);
    let mut pattern = String::new();
    if query_is_longer {
        pattern.append("^");
        pattern.append(literal.as_str());
        pattern.append("(.+)");
    } else {
        pattern.append(literal.as_str());
        pattern.append("(.+)$");
    }
    assert(pattern@ =~= tail_pattern(shorter@, query_is_longer));
    pattern
}

/// Classifies a candidate that is longer or shorter than the query: sets its
/// typo type to an extra or a missing character where the shorter of the two
/// is found at one end of the longer, and leaves it as it is else.
pub fn find_missing_or_extra_chars(check_word: &str, similar_word: SimilarWord) -> (word:
    SimilarWord)
    ensures
        word@ == (SimilarWordView {
            typo_type: edge_typo_of(check_word@, similar_word@.spelling, similar_word@.typo_type),
            ..similar_word@
        }),
{
    let check_len = check_word.unicode_len();
    let similar_len = similar_word.spelling.as_str().unicode_len();
    let query_is_longer = similar_len < check_len;
    let (shorter, longer) = if query_is_longer {
        (similar_word.spelling.as_str(), check_word)
    } else {
        (check_word, similar_word.spelling.as_str())
    };
    let head = build_head_pattern(shorter, query_is_longer);
    let tail = build_tail_pattern(shorter, query_is_longer);
    let at_head = first_captured_char(head.as_str(), longer);
    let at_tail = first_captured_char(tail.as_str(), longer);
    let typo_type = classify_edge(similar_word.typo_type, query_is_longer, at_head, at_tail);
    SimilarWord {
        spelling: similar_word.spelling,
        levenshtein_length: similar_word.levenshtein_length,
        typo_type,
    }
}

} // verus!
