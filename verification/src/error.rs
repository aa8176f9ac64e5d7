//! The ways in which preparing an email for the circuit can fail.

use vstd::prelude::*;

verus! {

/// Why no result could be produced. A failure never comes with a partial result.
#[derive(Debug, Clone, Copy, PartialEq, Eq, Structural)]
pub enum EmailError {
    /// No line of the input begins with `From:`.
    FromHeaderNotFound,
    /// No block boundary lies before the `From:` header and leaves a remainder within the capacity.
    Unsplittable,
    /// The input is not valid UTF-8.
    InvalidTextEncoding,
    /// The input holds no `DKIM-Signature:` header.
    DkimHeaderNotFound,
    /// The `DKIM-Signature:` header holds no `b=` tag.
    SignatureFieldMissing,
    /// The value of the `b=` tag is not valid base64.
    SignatureDecodeFailure,
    /// The `From:` header holds no email address.
    AddressNotFound,
    /// The regular-expression engine refused one of the library's patterns.
    PatternRejected,
}

impl EmailError {
    /// What the failure says, as text.
    pub open spec fn message_text(self) -> Seq<char> {
        match self {
            EmailError::FromHeaderNotFound => "No From header found"@,
            EmailError::Unsplittable => "From header is too close to the start for partial hashing"@,
            EmailError::InvalidTextEncoding => "Invalid UTF-8"@,
            EmailError::DkimHeaderNotFound => "No DKIM-Signature header found"@,
            EmailError::SignatureFieldMissing => "No signature (b=) found in DKIM header"@,
            EmailError::SignatureDecodeFailure => "Failed to parse DKIM signature"@,
            EmailError::AddressNotFound => "No email address found in From header"@,
            EmailError::PatternRejected => "Regex error"@,
        }
    }

    /// A sentence for the failure, for a person to read.
    pub fn message(&self) -> (text: String)
        ensures
            text@ == self.message_text(),
    {
        let text: &str = match self {
            EmailError::FromHeaderNotFound => "No From header found",
            EmailError::Unsplittable => "From header is too close to the start for partial hashing",
            EmailError::InvalidTextEncoding => "Invalid UTF-8",
            EmailError::DkimHeaderNotFound => "No DKIM-Signature header found",
            EmailError::SignatureFieldMissing => "No signature (b=) found in DKIM header",
            EmailError::SignatureDecodeFailure => "Failed to parse DKIM signature",
            EmailError::AddressNotFound => "No email address found in From header",
            EmailError::PatternRejected => "Regex error",
        };
        text.to_owned()
    }
}

} // verus!
