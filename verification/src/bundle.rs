//! The circuit's inputs for one email: the signature, the signer's modulus
//! and its Montgomery constant as limbs, and where the sender stands.

use crate::bignum::{from_u32, value_of};
use crate::dkim::{dkim_signature, extract_dkim_signature, parse_base64_to_bigint, signature_value};
use crate::error::EmailError;
use crate::limbs::{
    bigint_to_limbs, calculate_redc_param, limbs_of, redc_param, texts,
};
use crate::sender::{find_from_header_info, from_header_info};
use crate::text::text_of_bytes;
use num_bigint::BigUint;
use vstd::prelude::*;
use vstd::utf8::{decode_utf8, valid_utf8};

verus! {

/// The number of limbs of each big integer that the circuit takes.
pub const LIMB_COUNT: usize = 18;

/// The width of a limb, in bits.
pub const LIMB_BITS: usize = 120;

/// The modulus that stands in for the signer's public key until a resolver
/// supplies the real one.
pub const STUB_MODULUS: u32 = 65537;

/// What a `DKIMResult` stands for.
pub struct DkimInputs {
    /// The limbs of the signer's modulus.
    pub pubkey_modulus: Seq<Seq<char>>,
    /// The limbs of the modulus's Montgomery reduction constant.
    pub pubkey_redc: Seq<Seq<char>>,
    /// The limbs of the signature.
    pub signature: Seq<Seq<char>>,
    /// The byte offset of the `From:` header line.
    pub from_header_index: int,
    /// The length of the `From:` header line, in bytes.
    pub from_header_length: int,
    /// The byte offset of the sender's address.
    pub from_address_index: int,
    /// The length of the sender's address, in bytes.
    pub from_address_length: int,
    /// The sender's address, in lower case.
    pub from_email: Seq<char>,
}

/// The circuit's inputs that come of one email's DKIM signature and
/// `From:` header.
#[derive(Debug)]
pub struct DKIMResult {
    pubkey_modulus: Vec<String>,
    pubkey_redc: Vec<String>,
    signature: Vec<String>,
    from_header_index: usize,
    from_header_length: usize,
    from_address_index: usize,
    from_address_length: usize,
    from_email: String,
}

impl View for DKIMResult {
    type V = DkimInputs;

    closed spec fn view(&self) -> DkimInputs {
        DkimInputs {
            pubkey_modulus: texts(self.pubkey_modulus@),
            pubkey_redc: texts(self.pubkey_redc@),
            signature: texts(self.signature@),
            from_header_index: self.from_header_index as int,
            from_header_length: self.from_header_length as int,
            from_address_index: self.from_address_index as int,
            from_address_length: self.from_address_length as int,
            from_email: self.from_email@,
        }
    }
}

fn copy_limbs(limbs: &Vec<String>) -> (copy: Vec<String>)
    ensures
        texts(copy@) == texts(limbs@),
{
    let mut copy: Vec<String> = Vec::new();
    let mut i: usize = 0;
    while i < limbs.len()
        invariant
            i <= limbs@.len(),
            copy@.len() == i,
            forall|j: int| 0 <= j < i ==> (#[trigger] copy@[j])@ == limbs@[j]@,
        decreases limbs@.len() - i,
    {
        copy.push(limbs[i].clone());
        i += 1;
    }
    assert(texts(copy@) =~= texts(limbs@));
    copy
}

impl DKIMResult {
    /// The limbs of the signer's modulus.
    pub fn pubkey_modulus(&self) -> (r: Vec<String>)
        ensures
            texts(r@) == self@.pubkey_modulus,
    {
        copy_limbs(&self.pubkey_modulus)
    }

    /// The limbs of the modulus's Montgomery reduction constant.
    pub fn pubkey_redc(&self) -> (r: Vec<String>)
        ensures
            texts(r@) == self@.pubkey_redc,
    {
        copy_limbs(&self.pubkey_redc)
    }

    /// The limbs of the signature.
    pub fn signature(&self) -> (r: Vec<String>)
        ensures
            texts(r@) == self@.signature,
    {
        copy_limbs(&self.signature)
    }

    /// The byte offset of the `From:` header line.
    pub fn from_header_index(&self) -> (r: usize)
        ensures
            r == self@.from_header_index,
    {
        self.from_header_index
    }

    /// The length of the `From:` header line, in bytes.
    pub fn from_header_length(&self) -> (r: usize)
        ensures
            r == self@.from_header_length,
    {
        self.from_header_length
    }

    /// The byte offset of the sender's address.
    pub fn from_address_index(&self) -> (r: usize)
        ensures
            r == self@.from_address_index,
    {
        self.from_address_index
    }

    /// The length of the sender's address, in bytes.
    pub fn from_address_length(&self) -> (r: usize)
        ensures
            r == self@.from_address_length,
    {
        self.from_address_length
    }

    /// The sender's address, in lower case.
    pub fn from_email(&self) -> (r: String)
        ensures
            r@ == self@.from_email,
    {
        self.from_email.clone()
    }
}

/// The modulus that stands in for the signer's public key.
pub fn create_stub_pubkey() -> (modulus: BigUint)
    ensures
        value_of(&modulus) == STUB_MODULUS,
{
    from_u32(STUB_MODULUS)
}

/// The circuit's inputs for the email that `email_bytes` hold: the limbs of
/// the signature that its `DKIM-Signature:` header carries, the limbs of
/// the stand-in modulus and of its Montgomery constant, and the place of
/// its `From:` header and sender address.
pub open spec fn dkim_inputs(email_bytes: Seq<u8>) -> Result<DkimInputs, EmailError> {
    if !valid_utf8(email_bytes) {
        Err(EmailError::InvalidTextEncoding)
    } else {
        let email = decode_utf8(email_bytes);
        match dkim_signature(email) {
            Err(e) => Err(e),
            Ok(fields) => match signature_value(fields.signature) {
                None => Err(EmailError::SignatureDecodeFailure),
                Some(signature) => match from_header_info(email) {
                    Err(e) => Err(e),
                    Ok(info) => Ok(
                        DkimInputs {
                            pubkey_modulus: limbs_of(
                                STUB_MODULUS as nat,
                                LIMB_COUNT as nat,
                                LIMB_BITS as nat,
                            ),
                            pubkey_redc: limbs_of(
                                redc_param(
                                    STUB_MODULUS as nat,
                                    LIMB_COUNT as nat * LIMB_BITS as nat,
                                ),
                                LIMB_COUNT as nat,
                                LIMB_BITS as nat,
                            ),
                            signature: limbs_of(signature, LIMB_COUNT as nat, LIMB_BITS as nat),
                            from_header_index: info.0,
                            from_header_length: info.1,
                            from_address_index: info.2,
                            from_address_length: info.3,
                            from_email: info.4,
                        },
                    ),
                },
            },
        }
    }
}

/// Reads the DKIM signature and the `From:` header of an email and encodes
/// them as the circuit's inputs.
pub fn parse_dkim_from_email(email_bytes: &[u8]) -> (result: Result<DKIMResult, EmailError>)
    ensures
        match result {
            Ok(inputs) => dkim_inputs(email_bytes@) == Ok::<DkimInputs, EmailError>(inputs@),
            Err(e) => dkim_inputs(email_bytes@) == Err::<DkimInputs, EmailError>(e),
        },
{
    let email_str = match text_of_bytes(email_bytes) {
        Some(text) => text,
        None => {
            return Err(EmailError::InvalidTextEncoding);
        },
    };
    proof {
        vstd::utf8::encode_utf8_decode_utf8(email_str@);
    }
    let dkim_sig = match extract_dkim_signature(email_str) {
        Ok(sig) => sig,
        Err(e) => {
            return Err(e);
        },
    };
    let signature_bigint = match parse_base64_to_bigint(dkim_sig.b.as_str()) {
        Some(number) => number,
        None => {
            return Err(EmailError::SignatureDecodeFailure);
        },
    };
    let pubkey_modulus = create_stub_pubkey();
    let signature_limbs = bigint_to_limbs(&signature_bigint, LIMB_COUNT, LIMB_BITS);
    let pubkey_limbs = bigint_to_limbs(&pubkey_modulus, LIMB_COUNT, LIMB_BITS);
    let pubkey_redc = match calculate_redc_param(&pubkey_modulus, LIMB_COUNT, LIMB_BITS) {
        Some(limbs) => limbs,
        None => {
            // The stand-in modulus is odd, so it always has its constant.
            assert(false);
            vstd::pervasive::unreached()
        },
    };
    let (from_index, from_length, addr_index, addr_length, from_email) =
        match find_from_header_info(email_str) {
        Ok(info) => info,
        Err(e) => {
            return Err(e);
        },
    };
    Ok(
        DKIMResult {
            pubkey_modulus: pubkey_limbs,
            pubkey_redc,
            signature: signature_limbs,
            from_header_index: from_index,
            from_header_length: from_length,
            from_address_index: addr_index,
            from_address_length: addr_length,
            from_email,
        },
    )
}

} // verus!
