//! The kinds of typo that a one-edit discrepancy is sorted into.

use vstd::prelude::*;

verus! {

/// The end of a word at which a character is missing or in excess.
#[derive(Debug, Clone, Copy, PartialEq, Eq, Hash, Structural)]
pub enum CharacterPositon {
    /// At the first character of the word.
    Head,
    /// At the last character of the word.
    Tail,
}

/// The likely cause of the difference between a query and a candidate.
#[derive(Debug, Clone, Copy, PartialEq, Eq, Hash, Structural)]
pub enum TypoType {
    /// The query holds one character more than the candidate.
    ExtraCharacters { character: char, position: CharacterPositon },
    /// The query holds one character less than the candidate.
    MissingCharacters { character: char, position: CharacterPositon },
    /// The differing characters are neighbours on a QWERTY keyboard.
    CloseKeyboardPlacement,
    /// The differing characters look alike.
    SimilarShapes,
    /// None of the above.
    UndefinedType,
}

/// Whether two typo types are of one kind, whatever character and position
/// they carry.
pub open spec fn same_kind(a: TypoType, b: TypoType) -> bool {
    match a {
        TypoType::ExtraCharacters { .. } => b is ExtraCharacters,
        TypoType::MissingCharacters { .. } => b is MissingCharacters,
        TypoType::CloseKeyboardPlacement => b is CloseKeyboardPlacement,
        TypoType::SimilarShapes => b is SimilarShapes,
        TypoType::UndefinedType => b is UndefinedType,
    }
}

/// The name of a typo type's kind.
pub open spec fn typo_type_name(typo_type: TypoType) -> Seq<char> {
    match typo_type {
        TypoType::ExtraCharacters { .. } => "ExtraCharacters"@,
        TypoType::MissingCharacters { .. } => "MissingCharacters"@,
        TypoType::CloseKeyboardPlacement => "CloseKeyboardPlacement"@,
        TypoType::SimilarShapes => "SimilarShapes"@,
        TypoType::UndefinedType => "UndefinedType"@,
    }
}

/// The name of the kind of `typo_type`, without the character and position
/// that an extra or missing character carries.
pub fn get_typo_type_name(typo_type: &TypoType) -> (name: String)
    ensures
        name@ == typo_type_name(*typo_type),
{
    match typo_type {
        TypoType::ExtraCharacters { .. } => "ExtraCharacters".to_owned(),
        TypoType::MissingCharacters { .. } => "MissingCharacters".to_owned(),
        TypoType::CloseKeyboardPlacement => "CloseKeyboardPlacement".to_owned(),
        TypoType::SimilarShapes => "SimilarShapes".to_owned(),
        TypoType::UndefinedType => "UndefinedType".to_owned(),
    }
}

/// Decides whether two typo types are of one kind.
pub fn is_same_kind(a: &TypoType, b: &TypoType) -> (same: bool)
    ensures
        same == same_kind(*a, *b),
{
    match a {
        TypoType::ExtraCharacters { .. } => matches!(b, TypoType::ExtraCharacters { .. }),
        TypoType::MissingCharacters { .. } => matches!(b, TypoType::MissingCharacters { .. }),
        TypoType::CloseKeyboardPlacement => matches!(b, TypoType::CloseKeyboardPlacement),
        TypoType::SimilarShapes => matches!(b, TypoType::SimilarShapes),
        TypoType::UndefinedType => matches!(b, TypoType::UndefinedType),
    }
}

/// Two typo types are of one kind exactly when their kinds have one name.
pub proof fn lemma_same_kind_same_name(a: TypoType, b: TypoType)
    ensures
        same_kind(a, b) <==> typo_type_name(a) == typo_type_name(b),
{
    reveal_strlit("ExtraCharacters");
    reveal_strlit("MissingCharacters");
    reveal_strlit("CloseKeyboardPlacement");
    reveal_strlit("SimilarShapes");
    reveal_strlit("UndefinedType");
    let x = typo_type_name(a);
    let y = typo_type_name(b);
    if x == y && !same_kind(a, b) {
        assert(x.len() == y.len());
        assert(x[0] == y[0]);
    }
}

} // verus!
