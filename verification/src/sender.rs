//! The `From:` header of an email as text: where the header line and the
//! sender's address stand, and the address in lower case.

use crate::error::EmailError;
use crate::pattern::{
    captures, group_of_match, group_text, lemma_text_of_named_group, regex_accepts,
    regex_captures, Group,
};
use crate::text::{find_text, lowercased, position_of, to_lowercase};
use vstd::prelude::*;
use vstd::utf8::encode_utf8;

verus! {

/// A line that begins with `From:`, in any case, with its value up to the
/// end of the line.
pub const FROM_HEADER_PATTERN: &'static str = r"(?im)^From:\s*([^\r\n]+)";

/// An address between angle brackets, or a bare `local-part@domain`.
pub const ADDRESS_PATTERN: &'static str =
    r"<([^>]+)>|([a-zA-Z0-9._%+-]+@[a-zA-Z0-9.-]+\.[a-zA-Z]{2,})";

/// The address that the value of a `From:` header holds, as written: what
/// stands between angle brackets, or else a bare address.
pub open spec fn address_in(content: Seq<char>) -> Option<Seq<char>> {
    match group_of_match(ADDRESS_PATTERN@, content, 1) {
        Some(text) => Some(text),
        None => group_of_match(ADDRESS_PATTERN@, content, 2),
    }
}

/// Where the `From:` header of `email` and the sender's address stand:
/// the byte offset and length of the header line, the byte offset and
/// length of the address, and the address in lower case. The address is
/// looked for in the whole email, in lower case.
pub open spec fn from_header_info(email: Seq<char>) -> Result<
    (int, int, int, int, Seq<char>),
    EmailError,
> {
    if !regex_accepts(FROM_HEADER_PATTERN@) {
        Err(EmailError::PatternRejected)
    } else {
        match regex_captures(FROM_HEADER_PATTERN@, email) {
            None => Err(EmailError::FromHeaderNotFound),
            Some(spans) => match (spans[0], group_of_match(FROM_HEADER_PATTERN@, email, 1)) {
                (Some(line), Some(content)) => if !regex_accepts(ADDRESS_PATTERN@) {
                    Err(EmailError::PatternRejected)
                } else {
                    match address_in(content) {
                        None => Err(EmailError::AddressNotFound),
                        Some(written) => {
                            let address = lowercased(written);
                            match position_of(encode_utf8(email), encode_utf8(address)) {
                                None => Err(EmailError::AddressNotFound),
                                Some(at) => Ok(
                                    (
                                        line.0,
                                        line.1 - line.0,
                                        at,
                                        encode_utf8(address).len() as int,
                                        address,
                                    ),
                                ),
                            }
                        },
                    }
                },
                _ => Err(EmailError::FromHeaderNotFound),
            },
        }
    }
}

/// What `find_from_header_info` returned, as plain values.
pub open spec fn info_view(info: (usize, usize, usize, usize, String)) -> (
    int,
    int,
    int,
    int,
    Seq<char>,
) {
    (info.0 as int, info.1 as int, info.2 as int, info.3 as int, info.4@)
}

/// The address that a match of the address pattern holds, as written.
pub fn address_of_match(found: &Option<Vec<Option<Group>>>) -> (address: Option<String>)
    ensures
        match address {
            Some(a) => Some(a@) == (match crate::pattern::text_of_group(*found, 1) {
                Some(text) => Some(text),
                None => crate::pattern::text_of_group(*found, 2),
            }),
            None => crate::pattern::text_of_group(*found, 1).is_none()
                && crate::pattern::text_of_group(*found, 2).is_none(),
        },
{
    match group_text(found, 1) {
        Some(text) => Some(text),
        None => group_text(found, 2),
    }
}

/// Finds the `From:` header of `email` and the sender's address in it.
pub fn find_from_header_info(email: &str) -> (info: Result<
    (usize, usize, usize, usize, String),
    EmailError,
>)
    ensures
        match info {
            Ok(found) => from_header_info(email@) == Ok::<
                (int, int, int, int, Seq<char>),
                EmailError,
            >(info_view(found)),
            Err(e) => from_header_info(email@) == Err::<
                (int, int, int, int, Seq<char>),
                EmailError,
            >(e),
        },
{
    let found = match captures(FROM_HEADER_PATTERN, email) {
        Ok(found) => found,
        Err(_) => {
            return Err(EmailError::PatternRejected);
        },
    };
    proof {
        lemma_text_of_named_group(found, FROM_HEADER_PATTERN@, email@, 1);
    }
    let content = group_text(&found, 1);
    let (from_index, from_length) = match &found {
        Some(groups) => match &groups[0] {
            Some(line) => (line.start, line.end - line.start),
            None => {
                return Err(EmailError::FromHeaderNotFound);
            },
        },
        None => {
            return Err(EmailError::FromHeaderNotFound);
        },
    };
    let content = match content {
        Some(text) => text,
        None => {
            return Err(EmailError::FromHeaderNotFound);
        },
    };
    let address_match = match captures(ADDRESS_PATTERN, content.as_str()) {
        Ok(found) => found,
        Err(_) => {
            return Err(EmailError::PatternRejected);
        },
    };
    proof {
        lemma_text_of_named_group(address_match, ADDRESS_PATTERN@, content@, 1);
        lemma_text_of_named_group(address_match, ADDRESS_PATTERN@, content@, 2);
    }
    let written = match address_of_match(&address_match) {
        Some(text) => text,
        None => {
            return Err(EmailError::AddressNotFound);
        },
    };
    let from_email = to_lowercase(written.as_str());
    let addr_index = match find_text(email, from_email.as_str()) {
        Some(at) => at,
        None => {
            return Err(EmailError::AddressNotFound);
        },
    };
    let addr_length: usize = from_email.as_str().as_bytes().len();
    Ok((from_index, from_length, addr_index, addr_length, from_email))
}

} // verus!
