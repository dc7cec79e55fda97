use typo_checker::check::check_normalized;
use typo_checker::{
    calculate_word_list_levenshtein_length, check_a_word, CharacterPositon, Dictionary,
    SimilarWord, TypoCheckError, TypoCheckResult, TypoType,
};

fn table_of(words: &[&str]) -> Vec<Vec<String>> {
    let mut buckets: Vec<Vec<String>> = vec![Vec::new(); 20];
    for word in words {
        buckets[word.chars().count() - 2].push(word.to_string());
    }
    buckets
}

fn dictionary_of(words: &[&str]) -> Dictionary {
    Dictionary::new(table_of(words)).unwrap()
}

fn spellings(words: &[SimilarWord]) -> Vec<String> {
    words.iter().map(|word| word.spelling.clone()).collect()
}

const NO_MATCH: &str = "There is not match word";

#[test]
fn a_word_of_the_dictionary_is_matched() {
    let words = [
        "to",
        "cat",
        "cot",
        "hello",
        "help",
        "antidisestablishment",
        "counterrevolutionary",
        "electroencephalograph",
    ];
    let dictionary = dictionary_of(&words);
    for word in words {
        let result = check_a_word(&dictionary, word.to_string(), None, 5, None).unwrap();
        assert_eq!(result.get_match_word(), word);
        assert!(result.get_similar_word_list().is_empty());
    }
}

#[test]
fn a_query_is_matched_in_lower_case() {
    let dictionary = dictionary_of(&["hello", "help"]);
    let result = check_a_word(&dictionary, "HeLLo".to_string(), Some(2), 5, None).unwrap();
    assert_eq!(result.get_match_word(), "hello");
    assert!(result.get_similar_word_list().is_empty());
}

#[test]
fn check_normalized_does_not_fold_case() {
    let dictionary = dictionary_of(&["hello"]);
    let result = check_normalized(&dictionary, "Hello".to_string(), None, 5, None).unwrap();
    assert_eq!(result.get_match_word(), NO_MATCH);
    let found = result.get_similar_word_list();
    assert_eq!(spellings(&found), ["hello"]);
    assert_eq!(found[0].levenshtein_length, 1);
}

#[test]
fn a_missing_first_letter_is_found() {
    let dictionary = dictionary_of(&["hello"]);
    let result = check_a_word(&dictionary, "ello".to_string(), None, 5, None).unwrap();
    assert_eq!(result.get_match_word(), NO_MATCH);
    let found = result.get_similar_word_list();
    assert_eq!(found.len(), 1);
    assert_eq!(found[0].spelling, "hello");
    assert_eq!(found[0].levenshtein_length, 1);
    assert_eq!(
        found[0].typo_type,
        TypoType::MissingCharacters {
            character: 'h',
            position: CharacterPositon::Head
        }
    );
}

#[test]
fn an_extra_last_letter_is_found() {
    let dictionary = dictionary_of(&["hello"]);
    let result = check_a_word(&dictionary, "helloo".to_string(), None, 5, None).unwrap();
    let found = result.get_similar_word_list();
    assert_eq!(found.len(), 1);
    assert_eq!(found[0].spelling, "hello");
    assert_eq!(found[0].levenshtein_length, 1);
    assert_eq!(
        found[0].typo_type,
        TypoType::ExtraCharacters {
            character: 'o',
            position: CharacterPositon::Tail
        }
    );
}

#[test]
fn a_look_alike_letter_is_found() {
    let dictionary = dictionary_of(&["cat"]);
    let result = check_a_word(&dictionary, "cot".to_string(), None, 5, None).unwrap();
    let found = result.get_similar_word_list();
    assert_eq!(found.len(), 1);
    assert_eq!(found[0].spelling, "cat");
    assert_eq!(found[0].levenshtein_length, 1);
    assert_eq!(found[0].typo_type, TypoType::SimilarShapes);
}

#[test]
fn candidates_are_cut_off_and_cut_short_and_in_order() {
    let dictionary = dictionary_of(&[
        "best", "tost", "text", "zzzz", "toast", "tests", "tes", "est", "te", "tester",
    ]);
    let result = check_a_word(&dictionary, "test".to_string(), Some(2), 3, None).unwrap();
    assert_eq!(result.get_match_word(), NO_MATCH);
    let found = result.get_similar_word_list();
    assert_eq!(spellings(&found), ["tes", "est", "tests"]);
    assert!(found.iter().all(|word| word.levenshtein_length <= 2));
    assert_eq!(
        found[0].typo_type,
        TypoType::ExtraCharacters {
            character: 't',
            position: CharacterPositon::Tail
        }
    );
    assert_eq!(
        found[1].typo_type,
        TypoType::ExtraCharacters {
            character: 't',
            position: CharacterPositon::Head
        }
    );
    assert_eq!(
        found[2].typo_type,
        TypoType::MissingCharacters {
            character: 's',
            position: CharacterPositon::Tail
        }
    );

    let all = check_a_word(&dictionary, "test".to_string(), Some(2), 20, None)
        .unwrap()
        .get_similar_word_list();
    assert_eq!(
        spellings(&all),
        ["tes", "est", "tests", "tost", "text", "best", "te", "toast"]
    );
    assert_eq!(
        all.iter().map(|word| word.levenshtein_length).collect::<Vec<_>>(),
        [1, 1, 1, 1, 1, 1, 2, 2]
    );
    assert_eq!(all[3].typo_type, TypoType::SimilarShapes);
    assert_eq!(all[4].typo_type, TypoType::CloseKeyboardPlacement);
    assert_eq!(all[5].typo_type, TypoType::UndefinedType);
    assert_eq!(all[6].typo_type, TypoType::UndefinedType);
}

#[test]
fn a_cutoff_of_one_is_refused_for_any_query() {
    let dictionary = dictionary_of(&["hello", "cat"]);
    for query in ["hello", "cot", "a", "", "x".repeat(30).as_str(), "HELLO"] {
        let result = check_a_word(&dictionary, query.to_string(), Some(1), 5, None);
        assert_eq!(result.unwrap_err(), TypoCheckError::InvalidConfiguration);
    }
}

#[test]
fn a_cutoff_of_nought_is_refused() {
    let dictionary = dictionary_of(&["hello"]);
    let result = check_a_word(&dictionary, "hello".to_string(), Some(0), 5, None);
    assert_eq!(result.unwrap_err(), TypoCheckError::InvalidConfiguration);
}

#[test]
fn a_query_of_one_character_finds_nothing() {
    let dictionary = dictionary_of(&["to", "at", "cat"]);
    for cutoff in [None, Some(2), Some(5)] {
        let result = check_a_word(&dictionary, "a".to_string(), cutoff, 5, None).unwrap();
        assert_eq!(result.get_match_word(), NO_MATCH);
        assert!(result.get_similar_word_list().is_empty());
    }
    let empty = dictionary_of(&[]);
    let result = check_a_word(&empty, "Q".to_string(), None, 5, None).unwrap();
    assert_eq!(result.get_match_word(), NO_MATCH);
    assert!(result.get_similar_word_list().is_empty());
}

#[test]
fn a_query_out_of_range_is_refused() {
    let dictionary = dictionary_of(&["hello"]);
    let none = check_a_word(&dictionary, String::new(), None, 5, None);
    assert_eq!(none.unwrap_err(), TypoCheckError::UnsupportedLength);
    let long = check_a_word(&dictionary, "a".repeat(22), None, 5, None);
    assert_eq!(long.unwrap_err(), TypoCheckError::UnsupportedLength);
    let longest = check_a_word(&dictionary, "a".repeat(21), None, 5, None).unwrap();
    assert!(longest.get_similar_word_list().is_empty());
}

#[test]
fn an_empty_dictionary_has_no_candidates() {
    let dictionary = dictionary_of(&[]);
    let result = check_a_word(&dictionary, "hello".to_string(), None, 5, None).unwrap();
    assert_eq!(result.get_match_word(), NO_MATCH);
    assert!(result.get_similar_word_list().is_empty());
}

#[test]
fn the_window_reaches_farther_down_than_up() {
    let dictionary = dictionary_of(&["ab", "abc", "abcde", "abcdef", "abcdefg"]);
    let found = check_a_word(&dictionary, "abcd".to_string(), None, 10, None)
        .unwrap()
        .get_similar_word_list();
    assert_eq!(spellings(&found), ["abc", "abcde", "ab"]);
    let wider = check_a_word(&dictionary, "abcd".to_string(), Some(3), 10, None)
        .unwrap()
        .get_similar_word_list();
    assert_eq!(spellings(&wider), ["abc", "abcde", "ab", "abcdef"]);
    let widest = check_a_word(&dictionary, "abcd".to_string(), Some(4), 10, None)
        .unwrap()
        .get_similar_word_list();
    assert_eq!(spellings(&widest), ["abc", "abcde", "ab", "abcdef", "abcdefg"]);
}

#[test]
fn the_window_is_clipped_at_both_ends() {
    let longest = "abcdefghijklmnopqrstu";
    let dictionary = dictionary_of(&["ab", "abc", "abcd", &longest[..19], &longest[..20], longest]);
    let short = check_a_word(&dictionary, "xy".to_string(), None, 10, None)
        .unwrap()
        .get_similar_word_list();
    assert_eq!(spellings(&short), ["ab", "abc"]);
    let mut query = longest[..20].to_string();
    query.push('x');
    let long = check_a_word(&dictionary, query, None, 10, None)
        .unwrap()
        .get_similar_word_list();
    assert_eq!(spellings(&long), [&longest[..20], longest, &longest[..19]]);
    assert_eq!(
        long[0].typo_type,
        TypoType::ExtraCharacters {
            character: 'x',
            position: CharacterPositon::Tail
        }
    );
    assert_eq!(long[1].typo_type, TypoType::UndefinedType);
    assert_eq!(long[1].levenshtein_length, 1);
    assert_eq!(long[2].levenshtein_length, 2);
    let huge = check_a_word(&dictionary, "xy".to_string(), Some(usize::MAX), 10, None)
        .unwrap()
        .get_similar_word_list();
    assert_eq!(huge.len(), 6);
}

#[test]
fn without_a_cutoff_no_distance_is_too_great() {
    let dictionary = dictionary_of(&["zzzzzz", "qqqqq"]);
    let found = check_a_word(&dictionary, "abcdef".to_string(), None, 10, None)
        .unwrap()
        .get_similar_word_list();
    assert_eq!(spellings(&found), ["zzzzzz", "qqqqq"]);
    assert_eq!(found[0].levenshtein_length, 6);
    assert_eq!(found[1].levenshtein_length, 6);
}

#[test]
fn a_priority_order_of_the_caller_is_followed() {
    let dictionary = dictionary_of(&["tost", "best", "tests", "tes"]);
    let order = vec![
        TypoType::UndefinedType,
        TypoType::SimilarShapes,
        TypoType::MissingCharacters {
            character: 'Z',
            position: CharacterPositon::Tail,
        },
        TypoType::ExtraCharacters {
            character: 'A',
            position: CharacterPositon::Head,
        },
        TypoType::CloseKeyboardPlacement,
    ];
    let found = check_a_word(&dictionary, "test".to_string(), None, 10, Some(&order))
        .unwrap()
        .get_similar_word_list();
    assert_eq!(spellings(&found), ["best", "tost", "tests", "tes"]);
}

#[test]
fn a_table_that_is_no_dictionary_is_refused() {
    assert!(Dictionary::new(table_of(&["hello", "cat"])).is_some());
    assert!(Dictionary::new(Vec::new()).is_none());
    assert!(Dictionary::new(vec![Vec::new(); 19]).is_none());
    assert!(Dictionary::new(vec![Vec::new(); 21]).is_none());
    let mut misplaced = table_of(&["hello"]);
    misplaced[0].push("cat".to_string());
    assert!(Dictionary::new(misplaced).is_none());
    let mut capital = table_of(&["hello"]);
    capital[3].push("Hello".to_string());
    assert!(Dictionary::new(capital).is_none());
    let mut last = table_of(&[]);
    last[19].push("a".repeat(22));
    assert!(Dictionary::new(last).is_none());
}

#[test]
fn a_front_packed_row_ends_at_its_first_gap() {
    let mut rows: Vec<Vec<Option<String>>> = vec![Vec::new(); 20];
    rows[0] = vec![Some("to".to_string()), Some("at".to_string()), None, None];
    rows[1] = vec![
        Some("cat".to_string()),
        None,
        Some("cot".to_string()),
        None,
    ];
    rows[2] = vec![None, Some("word".to_string())];
    rows[3] = vec![Some("hello".to_string())];
    let dictionary = Dictionary::from_front_packed(&rows).unwrap();
    let buckets = dictionary.buckets();
    assert_eq!(buckets.len(), 20);
    assert_eq!(buckets[0], ["to", "at"]);
    assert_eq!(buckets[1], ["cat"]);
    assert!(buckets[2].is_empty());
    assert_eq!(buckets[3], ["hello"]);
    let found = check_a_word(&dictionary, "cot".to_string(), None, 5, None).unwrap();
    assert_eq!(found.get_match_word(), NO_MATCH);
    assert_eq!(spellings(&found.get_similar_word_list()), ["cat", "to", "at"]);
}

#[test]
fn a_front_packed_table_that_is_no_dictionary_is_refused() {
    let rows: Vec<Vec<Option<String>>> = vec![Vec::new(); 19];
    assert!(Dictionary::from_front_packed(&rows).is_none());
    let mut rows: Vec<Vec<Option<String>>> = vec![Vec::new(); 20];
    rows[0] = vec![Some("cat".to_string())];
    assert!(Dictionary::from_front_packed(&rows).is_none());
    // Behind the first gap a word is not read, so it cannot be wrong.
    rows[0] = vec![None, Some("cat".to_string())];
    assert!(Dictionary::from_front_packed(&rows).is_some());
}

#[test]
fn a_dictionary_hands_out_its_buckets() {
    let dictionary = dictionary_of(&["cat", "to", "cot"]);
    let buckets = dictionary.buckets();
    assert_eq!(buckets.len(), 20);
    assert_eq!(buckets[0], ["to"]);
    assert_eq!(buckets[1], ["cat", "cot"]);
    assert!(buckets[2].is_empty());
}

#[test]
fn a_search_adds_a_candidate_for_each_word() {
    let buckets = vec![
        vec!["to".to_string(), "at".to_string()],
        Vec::new(),
        vec!["cats".to_string()],
    ];
    let before = vec![SimilarWord::new("first".to_string(), 9)];
    let found = calculate_word_list_levenshtein_length(&buckets, &"cat".to_string(), before);
    assert_eq!(spellings(&found), ["first", "to", "at", "cats"]);
    assert_eq!(
        found.iter().map(|word| word.levenshtein_length).collect::<Vec<_>>(),
        [9, 3, 1, 1]
    );
    assert!(found.iter().all(|word| word.typo_type == TypoType::UndefinedType));
    let none = calculate_word_list_levenshtein_length(&[], &"cat".to_string(), Vec::new());
    assert!(none.is_empty());
}

#[test]
fn results_hand_out_what_they_hold() {
    let empty = TypoCheckResult::new();
    assert_eq!(empty.get_match_word(), NO_MATCH);
    assert!(empty.get_similar_word_list().is_empty());
    let exact = TypoCheckResult::exact("hello".to_string());
    assert_eq!(exact.get_match_word(), "hello");
    assert!(exact.get_similar_word_list().is_empty());
    let similar = TypoCheckResult::similar(vec![
        SimilarWord::new("help".to_string(), 2),
        SimilarWord::new("hell".to_string(), 1),
    ]);
    assert_eq!(similar.get_match_word(), NO_MATCH);
    let words = similar.get_similar_word_list();
    assert_eq!(spellings(&words), ["help", "hell"]);
    assert_eq!(words[0].levenshtein_length, 2);
    assert_eq!(words[1].typo_type, TypoType::UndefinedType);
}

#[test]
fn a_new_candidate_is_unclassified() {
    let word = SimilarWord::new("apple".to_string(), 3);
    assert_eq!(word.spelling, "apple");
    assert_eq!(word.levenshtein_length, 3);
    assert_eq!(word.typo_type, TypoType::UndefinedType);
    let copy = word.clone();
    assert_eq!(copy.spelling, "apple");
    assert_eq!(copy.levenshtein_length, 3);
    assert_eq!(copy.typo_type, TypoType::UndefinedType);
}
