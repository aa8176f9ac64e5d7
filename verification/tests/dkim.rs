use num_bigint::BigUint;
use zk_wasm::bundle::parse_dkim_from_email;
use zk_wasm::dkim::{
    extract_dkim_signature, find_tag, parse_base64_to_bigint, read_signature_fields,
    DKIM_HEADER_PATTERN, DOMAIN_TAG_PATTERN, SELECTOR_TAG_PATTERN, SIGNATURE_TAG_PATTERN,
};
use zk_wasm::error::EmailError;
use zk_wasm::pattern::{group_text, Group};
use zk_wasm::sender::address_of_match;

const SIGNED: &str = "Received: from test\r\nDKIM-Signature: v=1; a=rsa-sha256; d=example.com; s=sel1;\r\n\tbh=abc=;\r\n\tb=AQIDBAUGBwgJCgsMDQ4PEBESExQV\r\n  FhcYGRobHB0eHyAhIiMkJSYn;\r\nFrom: Test User <test@example.com>\r\nTo: other@example.com\r\n\r\nbody";

fn group(start: usize, text: &str) -> Option<Group> {
    Some(Group { start, end: start + text.len(), text: text.to_string() })
}

#[test]
fn dkim_signature_is_read_from_a_folded_header() {
    let sig = extract_dkim_signature(SIGNED).unwrap();
    assert_eq!(sig.b, "AQIDBAUGBwgJCgsMDQ4PEBESExQV  FhcYGRobHB0eHyAhIiMkJSYn");
    assert_eq!(sig.s, "sel1");
    assert_eq!(sig.d, "example.com");
}

#[test]
fn dkim_header_is_found_in_any_case() {
    let sig = extract_dkim_signature("dkim-signature: b=QUJD; s=x; d=y\r\n").unwrap();
    assert_eq!(sig.b, "QUJD");
    assert_eq!(sig.s, "x");
    assert_eq!(sig.d, "y");
}

#[test]
fn selector_and_domain_default_to_empty() {
    let sig = extract_dkim_signature("DKIM-Signature: v=1; b=QUJD\r\nFrom: a@b.c\r\n").unwrap();
    assert_eq!(sig.b, "QUJD");
    assert_eq!(sig.s, "");
    assert_eq!(sig.d, "");
}

#[test]
fn first_dkim_header_wins() {
    let email = "DKIM-Signature: b=QUJD; s=one\r\nDKIM-Signature: b=REVG; s=two\r\n";
    let sig = extract_dkim_signature(email).unwrap();
    assert_eq!(sig.b, "QUJD");
    assert_eq!(sig.s, "one");
}

#[test]
fn email_without_dkim_header_is_refused() {
    let result = extract_dkim_signature("From: a@b.c\r\nTo: d@e.f\r\n");
    assert_eq!(result.err(), Some(EmailError::DkimHeaderNotFound));
    assert_eq!(extract_dkim_signature("").err(), Some(EmailError::DkimHeaderNotFound));
}

#[test]
fn dkim_header_without_signature_tag_is_refused() {
    let result = extract_dkim_signature("DKIM-Signature: v=1; s=sel; d=example.com\r\n");
    assert_eq!(result.err(), Some(EmailError::SignatureFieldMissing));
}

#[test]
fn signature_fields_of_an_unfolded_value() {
    let sig = read_signature_fields("v=1; d=example.org; s=key;\tb=QUJD REVG;").unwrap();
    assert_eq!(sig.b, "QUJD REVG");
    assert_eq!(sig.s, "key");
    assert_eq!(sig.d, "example.org");
    assert_eq!(
        read_signature_fields("v=1; s=key").err(),
        Some(EmailError::SignatureFieldMissing)
    );
}

#[test]
fn tags_are_found_by_their_patterns() {
    let header = "v=1; d=example.org; s=key; b=QUJD";
    assert_eq!(find_tag(SIGNATURE_TAG_PATTERN, header), Ok(Some("QUJD".to_string())));
    assert_eq!(find_tag(SELECTOR_TAG_PATTERN, header), Ok(Some("key".to_string())));
    assert_eq!(find_tag(DOMAIN_TAG_PATTERN, header), Ok(Some("example.org".to_string())));
    assert_eq!(find_tag(SELECTOR_TAG_PATTERN, "v=1"), Ok(None));
    assert_eq!(
        find_tag(DKIM_HEADER_PATTERN, "DKIM-Signature: a\r\n b\r\nTo: c"),
        Ok(Some("a\r\n b".to_string()))
    );
}

#[test]
fn malformed_pattern_is_rejected() {
    assert_eq!(find_tag("(", "anything"), Err(EmailError::PatternRejected));
}

#[test]
fn group_text_picks_a_group() {
    let found = Some(vec![group(0, "b=QUJD"), group(2, "QUJD"), None]);
    assert_eq!(group_text(&found, 0), Some("b=QUJD".to_string()));
    assert_eq!(group_text(&found, 1), Some("QUJD".to_string()));
    assert_eq!(group_text(&found, 2), None);
    assert_eq!(group_text(&found, 3), None);
    assert_eq!(group_text(&None, 0), None);
}

#[test]
fn address_of_match_prefers_the_bracketed_group() {
    let bracketed = Some(vec![group(5, "<a@b.org>"), group(6, "a@b.org"), None]);
    assert_eq!(address_of_match(&bracketed), Some("a@b.org".to_string()));
    let bare = Some(vec![group(0, "a@b.org"), None, group(0, "a@b.org")]);
    assert_eq!(address_of_match(&bare), Some("a@b.org".to_string()));
    let both = Some(vec![group(0, "x"), group(0, "one"), group(0, "two")]);
    assert_eq!(address_of_match(&both), Some("one".to_string()));
    let neither = Some(vec![group(0, "x"), None, None]);
    assert_eq!(address_of_match(&neither), None);
    assert_eq!(address_of_match(&None), None);
}

#[test]
fn base64_is_read_as_a_big_endian_number() {
    assert_eq!(parse_base64_to_bigint("AQID"), Some(BigUint::from(0x010203u32)));
    assert_eq!(parse_base64_to_bigint("AA=="), Some(BigUint::from(0u32)));
    assert_eq!(parse_base64_to_bigint(""), Some(BigUint::from(0u32)));
    assert_eq!(parse_base64_to_bigint("/w=="), Some(BigUint::from(255u32)));
}

#[test]
fn base64_may_hold_white_space() {
    assert_eq!(parse_base64_to_bigint(" AQ\r\n\tID "), Some(BigUint::from(0x010203u32)));
    assert_eq!(
        parse_base64_to_bigint("AQIDBAUGBwgJCgsMDQ4PEBESExQV  FhcYGRobHB0eHyAhIiMkJSYn"),
        BigUint::parse_bytes(
            b"32848704896899809033372113897263392765900876929744756169889144295612760104277440215654934055",
            10
        )
    );
}

#[test]
fn malformed_base64_is_refused() {
    assert_eq!(parse_base64_to_bigint("A"), None);
    assert_eq!(parse_base64_to_bigint("AQID!"), None);
    assert_eq!(parse_base64_to_bigint("AQI"), None);
    assert_eq!(parse_base64_to_bigint("=AQID"), None);
}

#[test]
fn email_is_parsed_into_circuit_inputs() {
    let result = parse_dkim_from_email(SIGNED.as_bytes()).unwrap();
    let signature = result.signature();
    assert_eq!(signature.len(), 18);
    assert_eq!(signature[0], "130336911974234888206607824934217255");
    assert_eq!(signature[1], "52147029869239836859325056682432280");
    assert_eq!(signature[2], "18591708106338011145");
    for limb in signature[3..].iter() {
        assert_eq!(limb, "0");
    }
    let modulus = result.pubkey_modulus();
    assert_eq!(modulus.len(), 18);
    assert_eq!(modulus[0], "65537");
    for limb in modulus[1..].iter() {
        assert_eq!(limb, "0");
    }
    let redc = result.pubkey_redc();
    assert_eq!(redc.len(), 18);
    assert_eq!(redc[0], "5192217631581220737344928932233215");
    assert_eq!(redc[1], "1329207713684792508760301806651703040");
    assert_eq!(redc[17], "1329207713684792508760301806651703040");
    let header_start = SIGNED.find("From: Test User").unwrap();
    assert_eq!(result.from_header_index(), header_start);
    assert_eq!(result.from_header_length(), "From: Test User <test@example.com>".len());
    assert_eq!(result.from_address_index(), SIGNED.find("test@example.com").unwrap());
    assert_eq!(result.from_address_length(), 16);
    assert_eq!(result.from_email(), "test@example.com");
}

#[test]
fn email_that_is_not_utf8_is_refused() {
    let mut bytes = SIGNED.as_bytes().to_vec();
    bytes.push(0xff);
    assert_eq!(parse_dkim_from_email(&bytes).err(), Some(EmailError::InvalidTextEncoding));
    assert_eq!(parse_dkim_from_email(&[0xc0, 0x80]).err(), Some(EmailError::InvalidTextEncoding));
}

#[test]
fn email_without_signature_is_refused() {
    let email = b"From: a@b.org\r\nTo: c@d.org\r\n";
    assert_eq!(parse_dkim_from_email(email).err(), Some(EmailError::DkimHeaderNotFound));
    let email = b"DKIM-Signature: v=1; s=sel\r\nFrom: a@b.org\r\n";
    assert_eq!(parse_dkim_from_email(email).err(), Some(EmailError::SignatureFieldMissing));
}

#[test]
fn email_with_malformed_signature_is_refused() {
    let email = b"DKIM-Signature: v=1; b=AQI; s=sel\r\nFrom: a@b.org\r\n";
    assert_eq!(parse_dkim_from_email(email).err(), Some(EmailError::SignatureDecodeFailure));
}

#[test]
fn signed_email_without_sender_is_refused() {
    let email = b"DKIM-Signature: v=1; b=AQID; s=sel\r\nTo: a@b.org\r\n";
    assert_eq!(parse_dkim_from_email(email).err(), Some(EmailError::FromHeaderNotFound));
    let email = b"DKIM-Signature: v=1; b=AQID; s=sel\r\nFrom: nobody\r\n";
    assert_eq!(parse_dkim_from_email(email).err(), Some(EmailError::AddressNotFound));
}

#[test]
fn every_failure_has_its_message() {
    assert_eq!(EmailError::FromHeaderNotFound.message(), "No From header found");
    assert_eq!(
        EmailError::Unsplittable.message(),
        "From header is too close to the start for partial hashing"
    );
    assert_eq!(EmailError::InvalidTextEncoding.message(), "Invalid UTF-8");
    assert_eq!(EmailError::DkimHeaderNotFound.message(), "No DKIM-Signature header found");
    assert_eq!(
        EmailError::SignatureFieldMissing.message(),
        "No signature (b=) found in DKIM header"
    );
    assert_eq!(EmailError::SignatureDecodeFailure.message(), "Failed to parse DKIM signature");
    assert_eq!(EmailError::AddressNotFound.message(), "No email address found in From header");
    assert_eq!(EmailError::PatternRejected.message(), "Regex error");
}
