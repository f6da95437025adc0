use authd::policy::{dword, multi_sz, principal, sources, sz, ValueType};

/// Binary data.
const BINARY: ValueType = ValueType::Other(3);

/// A 64-bit number.
const QWORD: ValueType = ValueType::Other(11);

#[test]
fn a_well_formed_dword_reads_back() {
    assert_eq!(dword(&ValueType::Dword, &0u32.to_le_bytes()), Some(0));
    assert_eq!(dword(&ValueType::Dword, &1u32.to_le_bytes()), Some(1));
    assert_eq!(
        dword(&ValueType::Dword, &0xdead_beefu32.to_le_bytes()),
        Some(0xdead_beef)
    );
}

/// A short "DWORD" must not be padded into a zero.
#[test]
fn a_wrongly_sized_dword_is_not_a_dword() {
    assert_eq!(dword(&ValueType::Dword, &[0, 0, 0]), None);
    assert_eq!(dword(&ValueType::Dword, &[0, 0, 0, 0, 0]), None);
    assert_eq!(dword(&ValueType::Dword, &[]), None);
}

/// The registry stores a type tag and bytes and validates neither, so a string
/// spelled "0" is representable here. It is not a DWORD.
#[test]
fn another_type_is_not_a_dword() {
    assert_eq!(dword(&ValueType::Sz, b"0\0"), None);
    assert_eq!(dword(&BINARY, &0u32.to_le_bytes()), None);
    assert_eq!(dword(&QWORD, &0u64.to_le_bytes()), None);
}

#[test]
fn an_sz_stops_at_the_terminator_and_trims() {
    assert_eq!(sz(&ValueType::Sz, b"High\0"), Some("High"));
    assert_eq!(sz(&ValueType::Sz, b"High"), Some("High"));
    assert_eq!(sz(&ValueType::Sz, b"  High  \0"), Some("High"));
    assert_eq!(sz(&ValueType::Sz, b"High\0trailing"), Some("High"));
    assert_eq!(sz(&ValueType::Dword, b"High\0"), None);
}

#[test]
fn a_multi_sz_splits_on_nul_and_drops_the_terminators() {
    assert_eq!(
        multi_sz(&ValueType::MultiSz, b"one\0two\0\0"),
        Some(vec!["one", "two"])
    );
    // A writer that omitted the final terminator must produce the same list.
    assert_eq!(
        multi_sz(&ValueType::MultiSz, b"one\0two"),
        Some(vec!["one", "two"])
    );
    assert_eq!(
        multi_sz(&ValueType::MultiSz, b"  one  \0two\0\0"),
        Some(vec!["one", "two"])
    );
}

/// "Grant nothing" is a successful read of an empty list, and must not be
/// confusable with the value being absent or malformed.
#[test]
fn an_empty_multi_sz_is_an_empty_list_rather_than_a_failure() {
    assert_eq!(multi_sz(&ValueType::MultiSz, b"\0\0"), Some(Vec::new()));
    assert_eq!(multi_sz(&ValueType::MultiSz, b""), Some(Vec::new()));
}

#[test]
fn another_type_is_not_a_multi_sz() {
    assert_eq!(multi_sz(&ValueType::Sz, b"one\0"), None);
    assert_eq!(multi_sz(&ValueType::Dword, &0u32.to_le_bytes()), None);
}

/// The two keys answer different questions and must not be confused: one is
/// what a logon means to any authority, the other is this implementation's list
/// of who may assert identity.
#[test]
fn generic_policy_and_authd_configuration_are_separate_subtrees() {
    assert!(principal::KEY.starts_with("Machine\\Generic\\"));
    assert!(sources::SOURCES_KEY.starts_with("Machine\\Software\\Authd\\"));
}

#[test]
fn the_policy_key_paths_are_well_formed() {
    // Components cannot be empty, so no leading, trailing or doubled separator.
    // The canonical separator is a backslash.
    for path in [principal::KEY, sources::SOURCES_KEY] {
        assert!(!path.starts_with('\\'), "{path}");
        assert!(!path.ends_with('\\'), "{path}");
        assert!(!path.contains("\\\\"), "{path}");
        assert!(!path.contains('/'), "{path}");
        assert!(path.starts_with("Machine\\"), "{path}");
    }
}

/// Bytes that are not UTF-8 are not text.
#[test]
fn bytes_that_are_not_text_are_not_read() {
    assert_eq!(sz(&ValueType::Sz, &[0xff, 0xfe]), None);
    assert_eq!(
        multi_sz(&ValueType::MultiSz, &[b'a', 0, 0xff, 0, b'b', 0, 0]),
        Some(vec!["a", "b"]),
        "a piece that is not text is left out of the list"
    );
    assert_eq!(sz(&ValueType::Sz, "\u{e9}t\u{e9}\0".as_bytes()), Some("\u{e9}t\u{e9}"));
}
