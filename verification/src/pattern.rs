//! Anchored pattern searches, done by the `regex` crate.

use vstd::prelude::*;

verus! {

/// `regex::Error`, the reason why a pattern was not compiled. Nothing is
/// read from it.
#[verifier::external_type_specification]
#[verifier::external_body]
pub struct ExPatternError(regex::Error);

/// Whether `c` has a meaning of its own in a pattern, so that it stands for
/// itself only behind a backslash.
pub open spec fn is_meta_character(c: char) -> bool {
    ||| c == '\\'
    ||| c == '.'
    ||| c == '+'
    ||| c == '*'
    ||| c == '?'
    ||| c == '('
    ||| c == ')'
    ||| c == '|'
    ||| c == '['
    ||| c == ']'
    ||| c == '{'
    ||| c == '}'
    ||| c == '^'
    ||| c == '$'
    ||| c == '#'
    ||| c == '&'
    ||| c == '-'
    ||| c == '~'
}

/// `text` as a pattern that matches `text` itself: every character in its
/// place, each meta character behind a backslash.
pub open spec fn escaped(text: Seq<char>) -> Seq<char>
    decreases text.len(),
{
    if text.len() == 0 {
        Seq::empty()
    } else if is_meta_character(text.last()) {
        escaped(text.drop_last()).push('\\').push(text.last())
    } else {
        escaped(text.drop_last()).push(text.last())
    }
}

/// Whether `regex::Regex::new` accepts `pattern`.
pub uninterp spec fn pattern_compiles(pattern: Seq<char>) -> bool;

/// What the first capture group of `pattern` holds in the leftmost match of
/// `pattern` in `haystack`, as `regex::Regex::captures` finds it: `None` where
/// there is no match or the group took no part in it.
pub uninterp spec fn first_group(pattern: Seq<char>, haystack: Seq<char>) -> Option<Seq<char>>;

/// Calls `regex::escape`, which copies `text` and puts a backslash before
/// each of the eighteen meta characters.
#[verifier::external_body]
pub(crate) fn escape(text: &str) -> (literal: String)
    ensures
        literal@ == escaped(text@),
{
    regex::escape(text)
}

/// Compiles `pattern` with `regex::Regex::new` and searches `haystack` with
/// `Regex::captures`; of the captures, `Captures::get` and `Match::as_str`
/// hand out the text of the first group. The contract names the two results
/// and states nothing else of them: whether the pattern compiles, and what
/// the first group holds in the leftmost match.
#[verifier::external_body]
fn search_first_group(pattern: &str, haystack: &str) -> (found: Result<
    Option<String>,
    regex::Error,
>)
    ensures
        found is Ok <==> pattern_compiles(pattern@),
        found matches Ok(group) ==> match group {
            Some(text) => first_group(pattern@, haystack@) == Some(text@),
            None => first_group(pattern@, haystack@) is None,
        },
{
    let compiled = regex::Regex::new(pattern)?;
    match compiled.captures(haystack) {
        Some(captures) => match captures.get(1) {
            Some(group) => Ok(Some(group.as_str().to_string())),
            None => Ok(None),
        },
        None => Ok(None),
    }
}

/// The first character of a text, where it has one.
pub open spec fn first_char(text: Seq<char>) -> Option<char> {
    if text.len() > 0 {
        Some(text[0])
    } else {
        None
    }
}

/// The first character of what the first group of `pattern` captures in
/// `haystack`; none where the pattern does not compile, does not match, or
/// captures nothing.
pub open spec fn captured_char(pattern: Seq<char>, haystack: Seq<char>) -> Option<char> {
    if pattern_compiles(pattern) {
        match first_group(pattern, haystack) {
            Some(text) => first_char(text),
            None => None,
        }
    } else {
        None
    }
}

/// The first character of `text`, where it has one.
pub fn first_char_of(text: &str) -> (first: Option<char>)
    ensures
        first == first_char(text@),
{
    if text.unicode_len() > 0 {
        Some(text.get_char(0))
    } else {
        None
    }
}

/// Searches `haystack` for `pattern` and returns the first character that
/// its first group captured.
pub fn first_captured_char(pattern: &str, haystack: &str) -> (found: Option<char>)
    ensures
        found == captured_char(pattern@, haystack@),
{
    match search_first_group(pattern, haystack) {
        Ok(Some(text)) => first_char_of(text.as_str()),
        Ok(None) => None,
        Err(_) => None,
    }
}

} // verus!
