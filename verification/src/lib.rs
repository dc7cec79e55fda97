//! Suggests corrections for a misspelled word: candidates from a
//! length-indexed dictionary, their edit distance to the query, the likely
//! cause of each one-edit discrepancy, and a ranked, bounded answer.

pub mod candidate;
pub mod check;
pub mod classify;
pub mod dictionary;
pub mod distance;
pub mod pattern;
pub mod rank;
pub mod sorting;
pub mod stable;
pub mod tables;
pub mod text;
pub mod typo;

pub use candidate::{SimilarWord, TypoCheckError, TypoCheckResult};
pub use check::{calculate_word_list_levenshtein_length, check_a_word};
pub use classify::{find_different_a_char, find_missing_or_extra_chars};
pub use dictionary::Dictionary;
pub use distance::{generic_levenshtein, levenshtein};
pub use rank::get_top_similar_words;
pub use tables::{close_keyboard_placement_list, similar_shape_list};
pub use typo::{get_typo_type_name, CharacterPositon, TypoType};
