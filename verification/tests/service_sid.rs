use authd::service_sid::{of, of_digest};
use authd::sid::Sid;

/// The text of a SID.
fn text_of(sid: &Sid) -> String {
    let mut text = format!("S-1-{}", sid.authority());
    for sub in sid.sub_authorities() {
        text.push_str(&format!("-{sub}"));
    }
    text
}

/// The vector the service manager's own derivation gives. If this ever fails,
/// the two derivations have diverged and every source will be refused.
#[test]
fn agrees_with_peinit() {
    assert_eq!(
        text_of(&of("app").unwrap()),
        "S-1-5-80-2426739453-2501902915-3009591593-922485235-2122754908"
    );
}

#[test]
fn is_case_insensitive() {
    // A configuration key's case must not change who is admitted.
    assert_eq!(of("lpsd").unwrap(), of("LPSD").unwrap());
    assert_eq!(of("lpsd").unwrap(), of("LpSd").unwrap());
}

#[test]
fn distinct_names_get_distinct_sids() {
    assert_ne!(of("lpsd").unwrap(), of("udpsd").unwrap());
    assert_ne!(of("lpsd").unwrap(), of("authd").unwrap());
    // A near-miss must not collide: this is the whole basis of admission.
    assert_ne!(of("lpsd").unwrap(), of("lpsd ").unwrap());
    assert_ne!(of("lpsd").unwrap(), of("lpsd2").unwrap());
}

#[test]
fn the_shape_is_a_service_sid() {
    let sid = of("lpsd").unwrap();
    let text = text_of(&sid);
    assert!(
        text.starts_with("S-1-5-80-"),
        "{text} must be in the service-SID range"
    );
    // "S", the revision and the authority, then 80 and five digest words.
    assert_eq!(text.split('-').count(), 3 + 6);
}

#[test]
fn an_empty_name_still_derives() {
    // Not useful, but it must not panic: names come from configuration.
    assert!(of("").is_some());
}

/// The SHA-1 of no bytes, as five little-endian words.
#[test]
fn an_empty_name_derives_the_digest_of_nothing() {
    let digest = [
        0xda, 0x39, 0xa3, 0xee, 0x5e, 0x6b, 0x4b, 0x0d, 0x32, 0x55, 0xbf, 0xef, 0x95, 0x60, 0x18,
        0x90, 0xaf, 0xd8, 0x07, 0x09,
    ];
    let expected = Sid::build(
        5,
        &[80, 0xeea3_39da, 0x0d4b_6b5e, 0xefbf_5532, 0x9018_6095, 0x0907_d8af],
    )
    .unwrap();
    assert_eq!(of_digest(&digest), Some(expected));
    assert_eq!(of(""), of_digest(&digest));
}

/// A letter outside ASCII is raised too, one whose capital is two letters
/// included.
#[test]
fn letters_outside_ascii_are_raised() {
    assert_eq!(of("\u{e9}t\u{e9}"), of("\u{c9}T\u{c9}"));
    assert_eq!(of("stra\u{df}e"), of("STRASSE"));
    assert_ne!(of("\u{e9}"), of("e"));
}

#[test]
fn only_a_whole_digest_derives() {
    assert_eq!(of_digest(&[0; 19]), None);
    assert_eq!(of_digest(&[0; 21]), None);
    assert!(of_digest(&[0; 20]).is_some());
}
