//! Searching text with a regular expression: the `regex` crate, with the
//! contract that this library relies on. What a pattern matches is not
//! modelled; it is named, and the library's contracts speak of it by name.

use vstd::prelude::*;
use vstd::utf8::{decode_utf8, encode_utf8};

verus! {

/// `regex::Error`: why a pattern was refused.
#[verifier::external_type_specification]
#[verifier::external_body]
pub struct ExRegexError(regex::Error);

/// One capture group of a match: where it stands in the searched text, in
/// bytes, and the text it holds.
#[derive(Debug)]
pub struct Group {
    pub start: usize,
    pub end: usize,
    pub text: String,
}

/// Whether `regex::Regex::new` accepts `pattern`.
pub uninterp spec fn regex_accepts(pattern: Seq<char>) -> bool;

/// What `regex::Regex::captures` finds for `pattern` in `haystack`: nothing,
/// or for the first match the byte span of every capture group that took
/// part in it, group 0 being the whole match.
pub uninterp spec fn regex_captures(pattern: Seq<char>, haystack: Seq<char>) -> Option<
    Seq<Option<(int, int)>>,
>;

/// The text of `haystack` between the byte offsets of `span`.
pub open spec fn span_text(haystack: Seq<char>, span: (int, int)) -> Seq<char> {
    decode_utf8(encode_utf8(haystack).subrange(span.0, span.1))
}

/// Whether `group` is the capture group with byte span `span` in `haystack`.
pub open spec fn group_is(group: Option<Group>, span: Option<(int, int)>, haystack: Seq<char>) -> bool {
    match (group, span) {
        (None, None) => true,
        (Some(g), Some(s)) => {
            &&& g.start == s.0
            &&& g.end == s.1
            &&& g.start <= g.end <= encode_utf8(haystack).len()
            &&& g.text@ == span_text(haystack, s)
        },
        _ => false,
    }
}

/// Whether `found` is the match with the group spans `spans` in `haystack`.
pub open spec fn groups_are(
    found: Option<Vec<Option<Group>>>,
    spans: Option<Seq<Option<(int, int)>>>,
    haystack: Seq<char>,
) -> bool {
    match (found, spans) {
        (None, None) => true,
        (Some(groups), Some(s)) => {
            &&& groups@.len() == s.len()
            &&& s.len() >= 1
            &&& s[0].is_some()
            &&& forall|i: int| 0 <= i < s.len() ==> group_is(#[trigger] groups@[i], s[i], haystack)
        },
        _ => false,
    }
}

/// `regex::Regex::new` on `pattern`, then `regex::Regex::captures` on
/// `haystack`: the capture groups of the first match, if the pattern is
/// accepted. Group 0 is the whole match and always present; the offsets of a
/// group are in order and within the haystack, and its text is the
/// haystack's text between them.
#[verifier::external_body]
pub(crate) fn captures(pattern: &str, haystack: &str) -> (result: Result<
    Option<Vec<Option<Group>>>,
    regex::Error,
>)
    ensures
        result.is_ok() == regex_accepts(pattern@),
        result matches Ok(found) ==> groups_are(
            found,
            regex_captures(pattern@, haystack@),
            haystack@,
        ),
{
    let re = regex::Regex::new(pattern)?;
    Ok(
        re.captures(haystack).map(
            |caps|
                caps.iter().map(
                    |group|
                        group.map(
                            |m| Group { start: m.start(), end: m.end(), text: m.as_str().to_string() },
                        ),
                ).collect(),
        ),
    )
}

/// The text of capture group `index` in the first match of `pattern` in
/// `haystack`, if there is a match and the group took part in it.
pub open spec fn group_of_match(pattern: Seq<char>, haystack: Seq<char>, index: int) -> Option<
    Seq<char>,
> {
    match regex_captures(pattern, haystack) {
        Some(spans) => if 0 <= index < spans.len() {
            match spans[index] {
                Some(span) => Some(span_text(haystack, span)),
                None => None,
            }
        } else {
            None
        },
        None => None,
    }
}

/// The text of group `index` of `found`, if there is a match and the group
/// took part in it.
pub open spec fn text_of_group(found: Option<Vec<Option<Group>>>, index: int) -> Option<Seq<char>> {
    match found {
        Some(groups) => if 0 <= index < groups@.len() {
            match groups@[index] {
                Some(g) => Some(g.text@),
                None => None,
            }
        } else {
            None
        },
        None => None,
    }
}

/// A match that is the one named for `pattern` in `haystack` holds, for
/// each group, the text named for it.
pub proof fn lemma_text_of_named_group(
    found: Option<Vec<Option<Group>>>,
    pattern: Seq<char>,
    haystack: Seq<char>,
    index: int,
)
    requires
        groups_are(found, regex_captures(pattern, haystack), haystack),
    ensures
        text_of_group(found, index) == group_of_match(pattern, haystack, index),
{
}

/// Picks the text of group `index` out of a match.
pub fn group_text(found: &Option<Vec<Option<Group>>>, index: usize) -> (text: Option<String>)
    ensures
        match text {
            Some(t) => text_of_group(*found, index as int) == Some(t@),
            None => text_of_group(*found, index as int).is_none(),
        },
{
    match found {
        Some(groups) => {
            if index < groups.len() {
                match &groups[index] {
                    Some(g) => Some(g.text.clone()),
                    None => None,
                }
            } else {
                None
            }
        },
        None => None,
    }
}

} // verus!
