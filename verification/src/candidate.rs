//! Candidates for a correction, and what a check of one word returns.

use crate::typo::TypoType;
use vstd::prelude::*;

verus! {

/// A dictionary word with its edit distance to the query and the typo that
/// it was classified as.
#[derive(Debug)]
pub struct SimilarWord {
    pub spelling: String,
    pub levenshtein_length: usize,
    pub typo_type: TypoType,
}

/// A candidate as a value: its characters, its distance and its typo type.
pub struct SimilarWordView {
    pub spelling: Seq<char>,
    pub levenshtein_length: nat,
    pub typo_type: TypoType,
}

impl View for SimilarWord {
    type V = SimilarWordView;

    open spec fn view(&self) -> SimilarWordView {
        SimilarWordView {
            spelling: self.spelling@,
            levenshtein_length: self.levenshtein_length as nat,
            typo_type: self.typo_type,
        }
    }
}

impl DeepView for SimilarWord {
    type V = SimilarWordView;

    open spec fn deep_view(&self) -> SimilarWordView {
        self@
    }
}

impl Clone for SimilarWord {
    fn clone(&self) -> (copy: SimilarWord)
        ensures
            copy@ == self@,
    {
        SimilarWord {
            spelling: self.spelling.clone(),
            levenshtein_length: self.levenshtein_length,
            typo_type: self.typo_type,
        }
    }
}

impl SimilarWord {
    /// A candidate that is not classified yet.
    pub fn new(spelling: String, levenshtein_length: usize) -> (word: SimilarWord)
        ensures
            word@ == unclassified(spelling@, levenshtein_length as nat),
    {
        SimilarWord { spelling, levenshtein_length, typo_type: TypoType::UndefinedType }
    }
}

/// The candidate for `spelling` at `distance` before it is classified.
pub open spec fn unclassified(spelling: Seq<char>, distance: nat) -> SimilarWordView {
    SimilarWordView {
        spelling,
        levenshtein_length: distance,
        typo_type: TypoType::UndefinedType,
    }
}

/// Copies a list of candidates.
pub fn clone_words(words: &Vec<SimilarWord>) -> (copy: Vec<SimilarWord>)
    ensures
        copy.deep_view() == words.deep_view(),
{
    let mut copy: Vec<SimilarWord> = Vec::new();
    let mut i: usize = 0;
    while i < words.len()
        invariant
            i <= words.len(),
            copy.len() == i,
            forall|k: int| 0 <= k < i ==> copy[k]@ == words[k]@,
        decreases words.len() - i,
    {
        copy.push(words[i].clone());
        i += 1;
    }
    assert(copy.deep_view() =~= words.deep_view());
    copy
}

/// Why a check was refused.
#[derive(Debug, Clone, Copy, PartialEq, Eq, Structural)]
pub enum TypoCheckError {
    /// The distance cutoff is below two.
    InvalidConfiguration,
    /// The query has no character, or more than twenty-one.
    UnsupportedLength,
}

/// What a check of one word found: the word itself where the dictionary
/// holds it, else the ranked candidates.
#[derive(Debug)]
pub struct TypoCheckResult {
    match_word: Option<String>,
    similar_word_list: Option<Vec<SimilarWord>>,
}

/// A result as a value.
pub struct TypoCheckResultView {
    pub match_word: Option<Seq<char>>,
    pub similar_word_list: Option<Seq<SimilarWordView>>,
}

impl View for TypoCheckResult {
    type V = TypoCheckResultView;

    closed spec fn view(&self) -> TypoCheckResultView {
        TypoCheckResultView {
            match_word: match self.match_word {
                Some(word) => Some(word@),
                None => None,
            },
            similar_word_list: match self.similar_word_list {
                Some(list) => Some(list.deep_view()),
                None => None,
            },
        }
    }
}

impl TypoCheckResult {
    /// A result with no match and no candidates.
    pub fn new() -> (result: TypoCheckResult)
        ensures
            result@ == (TypoCheckResultView { match_word: None, similar_word_list: None }),
    {
        TypoCheckResult { match_word: None, similar_word_list: None }
    }

    /// The result for a word that the dictionary holds.
    pub fn exact(word: String) -> (result: TypoCheckResult)
        ensures
            result@ == (TypoCheckResultView { match_word: Some(word@), similar_word_list: None }),
    {
        TypoCheckResult { match_word: Some(word), similar_word_list: None }
    }

    /// The result for a word that the dictionary does not hold.
    pub fn similar(words: Vec<SimilarWord>) -> (result: TypoCheckResult)
        ensures
            result@ == (TypoCheckResultView {
                match_word: None,
                similar_word_list: Some(words.deep_view()),
            }),
    {
        TypoCheckResult { match_word: None, similar_word_list: Some(words) }
    }

    /// The matched word, or a sentence that says there is none.
    pub fn get_match_word(&self) -> (word: String)
        ensures
            word@ == match self@.match_word {
                Some(found) => found,
                None => "There is not match word"@,
            },
    {
        match &self.match_word {
            Some(word) => word.clone(),
            None => "There is not match word".to_owned(),
        }
    }

    /// A copy of the candidates; none where a word matched or the query was
    /// a single character.
    pub fn get_similar_word_list(&self) -> (words: Vec<SimilarWord>)
        ensures
            words.deep_view() == match self@.similar_word_list {
                Some(list) => list,
                None => Seq::empty(),
            },
    {
        match &self.similar_word_list {
            Some(list) => clone_words(list),
            None => {
                let words: Vec<SimilarWord> = Vec::new();
                assert(words.deep_view() =~= Seq::empty());
                words
            },
        }
    }
}

} // verus!
