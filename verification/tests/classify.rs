use typo_checker::classify::classify_edge;
use typo_checker::pattern::{first_captured_char, first_char_of};
use typo_checker::{
    find_different_a_char, find_missing_or_extra_chars, CharacterPositon, SimilarWord, TypoType,
};

#[test]
fn test_find_missing_or_extra_chars_head() {
    let check_word = "ello";
    let similar_word = SimilarWord::new("hello".to_string(), 1);
    let result = find_missing_or_extra_chars(check_word, similar_word);

    assert_eq!(
        result.typo_type,
        TypoType::MissingCharacters {
            character: 'h',
            position: CharacterPositon::Head
        }
    );
}

#[test]
fn test_find_missing_or_extra_chars_tail() {
    let check_word = "hell";
    let similar_word = SimilarWord::new("hello".to_string(), 1);
    let result = find_missing_or_extra_chars(check_word, similar_word);

    assert_eq!(
        result.typo_type,
        TypoType::MissingCharacters {
            character: 'o',
            position: CharacterPositon::Tail
        }
    );
}

#[test]
fn test_find_extra_chars_head() {
    let check_word = "ahello";
    let similar_word = SimilarWord::new("hello".to_string(), 1);
    let result = find_missing_or_extra_chars(check_word, similar_word);

    assert_eq!(
        result.typo_type,
        TypoType::ExtraCharacters {
            character: 'a',
            position: CharacterPositon::Head
        }
    );
}

#[test]
fn test_find_extra_chars_tail() {
    let check_word = "helloo";
    let similar_word = SimilarWord::new("hello".to_string(), 1);
    let result = find_missing_or_extra_chars(check_word, similar_word);

    assert_eq!(
        result.typo_type,
        TypoType::ExtraCharacters {
            character: 'o',
            position: CharacterPositon::Tail
        }
    );
}

#[test]
fn test_find_typo_type_none() {
    let check_word = "hello";
    let similar_word = SimilarWord::new("hello".to_string(), 1);
    let result = find_missing_or_extra_chars(check_word, similar_word);

    assert_eq!(result.typo_type, TypoType::UndefinedType);
}

#[test]
fn test_find_multiple_missing_chars() {
    let check_word = "hlo";
    let similar_word = SimilarWord::new("hello".to_string(), 1);
    let result = find_missing_or_extra_chars(check_word, similar_word);

    assert_eq!(result.typo_type, TypoType::UndefinedType);
}

#[test]
fn test_find_multiple_extra_chars() {
    let check_word = "heelllo";
    let similar_word = SimilarWord::new("hello".to_string(), 1);
    let result = find_missing_or_extra_chars(check_word, similar_word);

    assert_eq!(result.typo_type, TypoType::UndefinedType);
}

#[test]
fn test_find_different_a_char_similar_shapes() {
    let check_word = "cot";
    let temp_word = SimilarWord::new("cat".to_string(), 1);
    let result = find_different_a_char(check_word, temp_word);

    if let TypoType::SimilarShapes = result.typo_type {
    } else {
        panic!(
            "Expected TypoType::SimilarShapes but got {:?}",
            result.typo_type
        );
    }
}

#[test]
fn test_find_different_a_char_close_keyboard_placement() {
    let check_word = "try".to_string();
    let similar_word = SimilarWord {
        spelling: "trt".to_string(),
        levenshtein_length: 1,
        typo_type: TypoType::UndefinedType,
    };

    let result = find_different_a_char(&check_word, similar_word);

    assert!(matches!(result.typo_type, TypoType::CloseKeyboardPlacement));
}

#[test]
fn test_find_different_a_char_no_typo_detected() {
    let check_word = "hoxe";
    let temp_word = SimilarWord::new("home".to_string(), 0);
    let result = find_different_a_char(check_word, temp_word);

    if let TypoType::UndefinedType = result.typo_type {
    } else {
        panic!(
            "Expected TypoType::UndefinedType but got {:?}",
            result.typo_type
        );
    }
}

#[test]
fn find_different_a_char_keeps_spelling_and_distance() {
    let result = find_different_a_char("cot", SimilarWord::new("cat".to_string(), 7));
    assert_eq!(result.spelling, "cat");
    assert_eq!(result.levenshtein_length, 7);
}

#[test]
fn find_different_a_char_keeps_the_type_it_found() {
    let word = SimilarWord {
        spelling: "home".to_string(),
        levenshtein_length: 1,
        typo_type: TypoType::MissingCharacters {
            character: 'x',
            position: CharacterPositon::Tail,
        },
    };
    let result = find_different_a_char("hoxe", word);
    assert_eq!(
        result.typo_type,
        TypoType::MissingCharacters {
            character: 'x',
            position: CharacterPositon::Tail
        }
    );
}

#[test]
fn a_later_shape_match_beats_an_earlier_key_match() {
    // 'r' and 't' are neighbours; 'o' and 'a' look alike.
    let result = find_different_a_char("rxo", SimilarWord::new("txa".to_string(), 2));
    assert_eq!(result.typo_type, TypoType::SimilarShapes);
}

#[test]
fn a_key_match_stands_where_no_shape_matches() {
    // First pair: neighbours. Second pair: neither.
    let result = find_different_a_char("rxk", SimilarWord::new("txz".to_string(), 2));
    assert_eq!(result.typo_type, TypoType::CloseKeyboardPlacement);
}

#[test]
fn a_shape_match_stops_the_scan() {
    // 'c'/'e' look alike at the first place; what follows does not matter.
    let result = find_different_a_char("cr", SimilarWord::new("et".to_string(), 2));
    assert_eq!(result.typo_type, TypoType::SimilarShapes);
}

#[test]
fn neighbours_are_looked_up_under_the_query_character() {
    // 'b' is listed under 'h'; 't' is not listed under 'b'.
    let listed = find_different_a_char("h", SimilarWord::new("b".to_string(), 1));
    assert_eq!(listed.typo_type, TypoType::CloseKeyboardPlacement);
    let unlisted = find_different_a_char("b", SimilarWord::new("t".to_string(), 1));
    assert_eq!(unlisted.typo_type, TypoType::UndefinedType);
}

#[test]
fn a_character_without_neighbours_is_no_neighbour() {
    let digit = find_different_a_char("t3st", SimilarWord::new("test".to_string(), 1));
    assert_eq!(digit.typo_type, TypoType::UndefinedType);
    let accent = find_different_a_char("caf\u{e9}", SimilarWord::new("cafe".to_string(), 1));
    assert_eq!(accent.typo_type, TypoType::UndefinedType);
}

#[test]
fn only_paired_characters_are_compared() {
    let result = find_different_a_char("ab", SimilarWord::new("abxyz".to_string(), 3));
    assert_eq!(result.typo_type, TypoType::UndefinedType);
    let result = find_different_a_char("", SimilarWord::new("abc".to_string(), 3));
    assert_eq!(result.typo_type, TypoType::UndefinedType);
}

#[test]
fn a_letter_of_two_shape_groups_matches_in_both() {
    let with_g = find_different_a_char("qin", SimilarWord::new("gin".to_string(), 1));
    assert_eq!(with_g.typo_type, TypoType::SimilarShapes);
    let with_p = find_different_a_char("pin", SimilarWord::new("qin".to_string(), 1));
    assert_eq!(with_p.typo_type, TypoType::SimilarShapes);
    let apart = find_different_a_char("pin", SimilarWord::new("gin".to_string(), 1));
    assert_eq!(apart.typo_type, TypoType::UndefinedType);
    let key = find_different_a_char("pin", SimilarWord::new("oin".to_string(), 1));
    assert_eq!(key.typo_type, TypoType::CloseKeyboardPlacement);
}

#[test]
fn classify_edge_prefers_the_tail() {
    let both = classify_edge(TypoType::UndefinedType, true, Some('h'), Some('t'));
    assert_eq!(
        both,
        TypoType::ExtraCharacters {
            character: 't',
            position: CharacterPositon::Tail
        }
    );
    let both = classify_edge(TypoType::UndefinedType, false, Some('h'), Some('t'));
    assert_eq!(
        both,
        TypoType::MissingCharacters {
            character: 't',
            position: CharacterPositon::Tail
        }
    );
}

#[test]
fn classify_edge_takes_the_head_without_a_tail() {
    let head = classify_edge(TypoType::SimilarShapes, true, Some('h'), None);
    assert_eq!(
        head,
        TypoType::ExtraCharacters {
            character: 'h',
            position: CharacterPositon::Head
        }
    );
    let head = classify_edge(TypoType::SimilarShapes, false, Some('h'), None);
    assert_eq!(
        head,
        TypoType::MissingCharacters {
            character: 'h',
            position: CharacterPositon::Head
        }
    );
}

#[test]
fn classify_edge_keeps_the_type_without_a_find() {
    assert_eq!(
        classify_edge(TypoType::SimilarShapes, true, None, None),
        TypoType::SimilarShapes
    );
    assert_eq!(
        classify_edge(TypoType::CloseKeyboardPlacement, false, None, None),
        TypoType::CloseKeyboardPlacement
    );
}

#[test]
fn repeated_letters_count_as_the_tail() {
    let extra = find_missing_or_extra_chars("aaa", SimilarWord::new("aa".to_string(), 1));
    assert_eq!(
        extra.typo_type,
        TypoType::ExtraCharacters {
            character: 'a',
            position: CharacterPositon::Tail
        }
    );
    let missing = find_missing_or_extra_chars("aa", SimilarWord::new("aaa".to_string(), 1));
    assert_eq!(
        missing.typo_type,
        TypoType::MissingCharacters {
            character: 'a',
            position: CharacterPositon::Tail
        }
    );
}

#[test]
fn meta_characters_stand_for_themselves() {
    // Unescaped, the dot of "a.b" would match the 'x' of "axbc".
    let other = find_missing_or_extra_chars("axbc", SimilarWord::new("a.b".to_string(), 1));
    assert_eq!(other.typo_type, TypoType::UndefinedType);
    let same = find_missing_or_extra_chars("a.bc", SimilarWord::new("a.b".to_string(), 1));
    assert_eq!(
        same.typo_type,
        TypoType::ExtraCharacters {
            character: 'c',
            position: CharacterPositon::Tail
        }
    );
    let bracket = find_missing_or_extra_chars("(x", SimilarWord::new("(x)".to_string(), 1));
    assert_eq!(
        bracket.typo_type,
        TypoType::MissingCharacters {
            character: ')',
            position: CharacterPositon::Tail
        }
    );
}

#[test]
fn find_missing_or_extra_chars_keeps_spelling_and_distance() {
    let result = find_missing_or_extra_chars("helloo", SimilarWord::new("hello".to_string(), 9));
    assert_eq!(result.spelling, "hello");
    assert_eq!(result.levenshtein_length, 9);
}

#[test]
fn find_missing_or_extra_chars_keeps_the_type_it_found() {
    let word = SimilarWord {
        spelling: "hello".to_string(),
        levenshtein_length: 1,
        typo_type: TypoType::SimilarShapes,
    };
    let result = find_missing_or_extra_chars("hlo", word);
    assert_eq!(result.typo_type, TypoType::SimilarShapes);
}

#[test]
fn lengths_are_counted_in_characters() {
    // Two characters against three, though four bytes against three.
    let word = SimilarWord::new("\u{e9}\u{e9}x".to_string(), 1);
    let result = find_missing_or_extra_chars("\u{e9}\u{e9}", word);
    assert_eq!(
        result.typo_type,
        TypoType::MissingCharacters {
            character: 'x',
            position: CharacterPositon::Tail
        }
    );
}

#[test]
fn the_first_character_of_a_text() {
    assert_eq!(first_char_of("hello"), Some('h'));
    assert_eq!(first_char_of("\u{e9}t\u{e9}"), Some('\u{e9}'));
    assert_eq!(first_char_of(""), None);
}

#[test]
fn a_search_hands_out_the_first_captured_character() {
    assert_eq!(first_captured_char("^hello(.+)", "helloo"), Some('o'));
    assert_eq!(first_captured_char("(.+)hello$", "ahello"), Some('a'));
    assert_eq!(first_captured_char("^hello(.+)", "hello"), None);
    assert_eq!(first_captured_char("^hello", "hello"), None);
    assert_eq!(first_captured_char("^hello(x)?", "hello"), None);
    assert_eq!(first_captured_char("hello(", "hello("), None);
}
