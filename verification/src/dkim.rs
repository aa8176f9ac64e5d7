//! The DKIM signature of an email: the `DKIM-Signature:` header, its tags,
//! and the signature as a big integer.

use crate::bignum::{be_value, from_bytes_be, value_of};
use crate::error::EmailError;
use crate::pattern::{
    captures, group_of_match, group_text, lemma_text_of_named_group, regex_accepts,
};
use crate::text::{strip_whitespace, unfold, unfolded, without_whitespace};
use base64::Engine;
use num_bigint::BigUint;
use vstd::prelude::*;

verus! {

/// A `DKIM-Signature:` header, in any case, with its value: the rest of the
/// line and every line after it that begins with white space.
pub const DKIM_HEADER_PATTERN: &'static str =
    r"(?i)DKIM-Signature:\s*([^\r\n]*(?:\r?\n\s+[^\r\n]*)*)";

/// The `b=` tag: base64 text, which may hold white space.
pub const SIGNATURE_TAG_PATTERN: &'static str = r"b=([A-Za-z0-9+/=\s]+)";

/// The `s=` tag, up to a semicolon or white space.
pub const SELECTOR_TAG_PATTERN: &'static str = r"s=([^;\s]+)";

/// The `d=` tag, up to a semicolon or white space.
pub const DOMAIN_TAG_PATTERN: &'static str = r"d=([^;\s]+)";

/// What a `DKIMSignature` stands for.
pub struct DkimFields {
    /// The value of the `b=` tag: the signature in base64.
    pub signature: Seq<char>,
    /// The value of the `s=` tag; empty where there is none.
    pub selector: Seq<char>,
    /// The value of the `d=` tag; empty where there is none.
    pub domain: Seq<char>,
}

/// The tags of a `DKIM-Signature:` header that the circuit's inputs need.
/// Selector and domain are carried along as they stand.
#[derive(Debug)]
pub struct DKIMSignature {
    pub b: String,
    pub s: String,
    pub d: String,
}

impl View for DKIMSignature {
    type V = DkimFields;

    open spec fn view(&self) -> DkimFields {
        DkimFields { signature: self.b@, selector: self.s@, domain: self.d@ }
    }
}

/// The value of the tag that `pattern` describes in `header`, or the empty
/// text where the header has no such tag.
pub open spec fn tag_or_empty(pattern: Seq<char>, header: Seq<char>) -> Seq<char> {
    match group_of_match(pattern, header, 1) {
        Some(text) => text,
        None => Seq::empty(),
    }
}

/// The tags of an unfolded `DKIM-Signature:` value. The `b=` tag has to be
/// there; the other two default to the empty text.
pub open spec fn signature_fields(header: Seq<char>) -> Result<DkimFields, EmailError> {
    if !regex_accepts(SIGNATURE_TAG_PATTERN@) {
        Err(EmailError::PatternRejected)
    } else {
        match group_of_match(SIGNATURE_TAG_PATTERN@, header, 1) {
            None => Err(EmailError::SignatureFieldMissing),
            Some(signature) => if !regex_accepts(SELECTOR_TAG_PATTERN@) || !regex_accepts(
                DOMAIN_TAG_PATTERN@,
            ) {
                Err(EmailError::PatternRejected)
            } else {
                Ok(
                    DkimFields {
                        signature,
                        selector: tag_or_empty(SELECTOR_TAG_PATTERN@, header),
                        domain: tag_or_empty(DOMAIN_TAG_PATTERN@, header),
                    },
                )
            },
        }
    }
}

/// The tags of the first `DKIM-Signature:` header of `email`, read from its
/// value with the line folds taken out.
pub open spec fn dkim_signature(email: Seq<char>) -> Result<DkimFields, EmailError> {
    if !regex_accepts(DKIM_HEADER_PATTERN@) {
        Err(EmailError::PatternRejected)
    } else {
        match group_of_match(DKIM_HEADER_PATTERN@, email, 1) {
            None => Err(EmailError::DkimHeaderNotFound),
            Some(folded) => signature_fields(unfolded(folded)),
        }
    }
}

/// The value of the tag that `pattern` describes in `header`, if the engine
/// accepts the pattern and the header has the tag.
pub fn find_tag(pattern: &str, header: &str) -> (tag: Result<Option<String>, EmailError>)
    ensures
        match tag {
            Ok(Some(text)) => regex_accepts(pattern@) && group_of_match(pattern@, header@, 1)
                == Some(text@),
            Ok(None) => regex_accepts(pattern@) && group_of_match(pattern@, header@, 1).is_none(),
            Err(e) => !regex_accepts(pattern@) && e == EmailError::PatternRejected,
        },
{
    match captures(pattern, header) {
        Ok(found) => {
            proof {
                lemma_text_of_named_group(found, pattern@, header@, 1);
            }
            Ok(group_text(&found, 1))
        },
        Err(_) => Err(EmailError::PatternRejected),
    }
}

/// Reads the tags of an unfolded `DKIM-Signature:` value.
pub fn read_signature_fields(header: &str) -> (fields: Result<DKIMSignature, EmailError>)
    ensures
        match fields {
            Ok(sig) => signature_fields(header@) == Ok::<DkimFields, EmailError>(sig@),
            Err(e) => signature_fields(header@) == Err::<DkimFields, EmailError>(e),
        },
{
    let b = match find_tag(SIGNATURE_TAG_PATTERN, header) {
        Ok(Some(text)) => text,
        Ok(None) => {
            return Err(EmailError::SignatureFieldMissing);
        },
        Err(e) => {
            return Err(e);
        },
    };
    let s = match find_tag(SELECTOR_TAG_PATTERN, header) {
        Ok(Some(text)) => text,
        Ok(None) => String::new(),
        Err(e) => {
            return Err(e);
        },
    };
    let d = match find_tag(DOMAIN_TAG_PATTERN, header) {
        Ok(Some(text)) => text,
        Ok(None) => String::new(),
        Err(e) => {
            return Err(e);
        },
    };
    Ok(DKIMSignature { b, s, d })
}

/// Finds the first `DKIM-Signature:` header of `email` and reads its tags.
pub fn extract_dkim_signature(email: &str) -> (fields: Result<DKIMSignature, EmailError>)
    ensures
        match fields {
            Ok(sig) => dkim_signature(email@) == Ok::<DkimFields, EmailError>(sig@),
            Err(e) => dkim_signature(email@) == Err::<DkimFields, EmailError>(e),
        },
{
    let folded = match find_tag(DKIM_HEADER_PATTERN, email) {
        Ok(Some(text)) => text,
        Ok(None) => {
            return Err(EmailError::DkimHeaderNotFound);
        },
        Err(e) => {
            return Err(e);
        },
    };
    let header = unfold(folded.as_str());
    read_signature_fields(header.as_str())
}

/// `base64::DecodeError`: why a text is not base64.
#[verifier::external_type_specification]
#[verifier::external_body]
pub struct ExDecodeError(base64::DecodeError);

/// The bytes that `text` stands for in base64, with the standard alphabet
/// and padding, as `base64`'s `STANDARD` engine decodes it; `None` where
/// the engine refuses the text.
pub uninterp spec fn base64_decoded(text: Seq<char>) -> Option<Seq<u8>>;

/// `base64::engine::general_purpose::STANDARD.decode`.
#[verifier::external_body]
pub(crate) fn base64_decode(text: &str) -> (decoded: Result<Vec<u8>, base64::DecodeError>)
    ensures
        match decoded {
            Ok(bytes) => base64_decoded(text@) == Some(bytes@),
            Err(_) => base64_decoded(text@).is_none(),
        },
{
    base64::engine::general_purpose::STANDARD.decode(text)
}

/// The number that base64 text stands for: its bytes, white space set
/// aside, read with the most significant byte first.
pub open spec fn signature_value(b64: Seq<char>) -> Option<nat> {
    match base64_decoded(without_whitespace(b64)) {
        Some(bytes) => Some(be_value(bytes)),
        None => None,
    }
}

/// Reads base64 text, which may hold white space from header folding, as a
/// big integer.
pub fn parse_base64_to_bigint(b64: &str) -> (number: Option<BigUint>)
    ensures
        match number {
            Some(n) => signature_value(b64@) == Some(value_of(&n)),
            None => signature_value(b64@).is_none(),
        },
{
    let clean_b64 = strip_whitespace(b64);
    match base64_decode(clean_b64.as_str()) {
        Ok(bytes) => Some(from_bytes_be(bytes.as_slice())),
        Err(_) => None,
    }
}

} // verus!
