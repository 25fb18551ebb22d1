//! Regular expressions, as the `regex` crate matches them.
//!
//! What a pattern matches is named, not described: the functions that match
//! say that they return what the crate returns for the same pattern and text.
//! Escaping is done here.

use crate::text::{chars_of, string_of};
use vstd::prelude::*;

verus! {

/// Whether `c` has a meaning of its own in a pattern.
pub open spec fn is_meta_character(c: char) -> bool {
    ||| c == '\\'
    ||| c == '.'
    ||| c == '+'
    ||| c == '*'
    ||| c == '?'
    ||| c == '('
    ||| c == ')'
    ||| c == '|'
    ||| c == '['
    ||| c == ']'
    ||| c == '{'
    ||| c == '}'
    ||| c == '^'
    ||| c == '$'
    ||| c == '#'
    ||| c == '&'
    ||| c == '-'
    ||| c == '~'
}

/// `text` with a backslash before every character that has a meaning of its
/// own in a pattern, so that as a pattern it matches `text` and nothing else.
pub open spec fn escaped(text: Seq<char>) -> Seq<char>
    decreases text.len(),
{
    if text.len() == 0 {
        Seq::empty()
    } else if is_meta_character(text.last()) {
        escaped(text.drop_last()) + seq!['\\', text.last()]
    } else {
        escaped(text.drop_last()).push(text.last())
    }
}

/// The capture groups of the first match of `pattern` in `text`, the whole
/// match first; a group that took no part in the match is `None`. The result
/// is `None` where the pattern does not compile or does not match.
pub uninterp spec fn first_match_groups(pattern: Seq<char>, text: Seq<char>) -> Option<
    Seq<Option<Seq<char>>>,
>;

/// The capture groups of each match of `pattern` in `text`, the matches in
/// the order in which they stand in the text and none overlapping another.
/// There is none where the pattern does not compile.
pub uninterp spec fn all_match_groups(pattern: Seq<char>, text: Seq<char>) -> Seq<
    Seq<Option<Seq<char>>>,
>;

/// `text` with the first match of `pattern` replaced by `replacement`, in
/// which `$` refers to capture groups; `text` itself where nothing matches.
/// The result is `None` where the pattern does not compile.
pub uninterp spec fn first_replaced(
    pattern: Seq<char>,
    text: Seq<char>,
    replacement: Seq<char>,
) -> Option<Seq<char>>;

/// The groups of one match as mathematical values.
pub open spec fn groups_view(groups: Seq<Option<String>>) -> Seq<Option<Seq<char>>> {
    groups.map_values(
        |g: Option<String>|
            match g {
                Some(text) => Some(text@),
                None => None,
            },
    )
}

/// The groups of each match as mathematical values.
pub open spec fn matches_view(matches: Seq<Vec<Option<String>>>) -> Seq<Seq<Option<Seq<char>>>> {
    matches.map_values(|m: Vec<Option<String>>| groups_view(m@))
}

/// Whether `c` has a meaning of its own in a pattern.
pub fn is_meta(c: char) -> (b: bool)
    ensures
        b == is_meta_character(c),
{
    c == '\\' || c == '.' || c == '+' || c == '*' || c == '?' || c == '(' || c == ')' || c == '|'
        || c == '[' || c == ']' || c == '{' || c == '}' || c == '^' || c == '$' || c == '#' || c
        == '&' || c == '-' || c == '~'
}

/// Puts a backslash before every character of `text` that has a meaning of
/// its own in a pattern.
pub fn escape(text: &str) -> (r: String)
    ensures
        r@ == escaped(text@),
{
    let chars = chars_of(text);
    let mut out: Vec<char> = Vec::new();
    let mut i: usize = 0;
    while i < chars.len()
        invariant
            i <= chars.len(),
            chars@ == text@,
            out@ == escaped(chars@.take(i as int)),
        decreases chars.len() - i,
    {
        let c = chars[i];
        if is_meta(c) {
            out.push('\\');
        }
        out.push(c);
        i = i + 1;
        proof {
            let upto = chars@.take(i as int);
            assert(upto.drop_last() == chars@.take(i - 1));
            assert(upto.last() == c);
        }
    }
    assert(chars@.take(chars.len() as int) == chars@);
    string_of(&out)
}

/// `Regex::captures` of the pattern compiled by `Regex::new`, each group
/// taken as the text it matched.
#[verifier::external_body]
pub(crate) fn first_match(pattern: &str, text: &str) -> (r: Option<Vec<Option<String>>>)
    ensures
        match r {
            Some(groups) => first_match_groups(pattern@, text@) == Some(groups_view(groups@)),
            None => first_match_groups(pattern@, text@) is None,
        },
{
    let compiled = regex::Regex::new(pattern).ok()?;
    let found = compiled.captures(text)?;
    Some(found.iter().map(|g| g.map(|m| m.as_str().to_owned())).collect())
}

/// `Regex::captures_iter` of the pattern compiled by `Regex::new`, each group
/// of each match taken as the text it matched.
#[verifier::external_body]
pub(crate) fn all_matches(pattern: &str, text: &str) -> (r: Vec<Vec<Option<String>>>)
    ensures
        matches_view(r@) == all_match_groups(pattern@, text@),
{
    match regex::Regex::new(pattern) {
        Ok(compiled) => compiled.captures_iter(text).map(
            |found| found.iter().map(|g| g.map(|m| m.as_str().to_owned())).collect(),
        ).collect(),
        Err(_) => Vec::new(),
    }
}

/// `Regex::replace` of the pattern compiled by `Regex::new`, with a string as
/// the replacement.
#[verifier::external_body]
pub(crate) fn replace_first(pattern: &str, text: &str, replacement: &str) -> (r: Option<String>)
    ensures
        match r {
            Some(changed) => first_replaced(pattern@, text@, replacement@) == Some(changed@),
            None => first_replaced(pattern@, text@, replacement@) is None,
        },
{
    let compiled = regex::Regex::new(pattern).ok()?;
    Some(compiled.replace(text, replacement).into_owned())
}

} // verus!
