use authd::sid::Sid;
use authd::unix_id::RESERVED;
use authd::well_known::{
    by_name, by_unix_id, name_of, numbered, unix_id, WellKnown, ENTRIES, NUMBERED,
};

/// A SID written as `S-1-{authority}-{sub-authorities}`.
fn sid(text: &str) -> Sid {
    let mut parts = text.split('-').skip(2);
    let authority: u64 = parts
        .next()
        .expect("an authority")
        .parse()
        .expect("a number");
    let subs: Vec<u32> = parts.map(|part| part.parse().expect("a number")).collect();
    Sid::build(authority, &subs).expect("a well-formed SID")
}

/// The text of a SID.
fn text_of(sid: &Sid) -> String {
    let mut text = format!("S-1-{}", sid.authority());
    for sub in sid.sub_authorities() {
        text.push_str(&format!("-{sub}"));
    }
    text
}

fn table() -> Vec<WellKnown> {
    (0..ENTRIES).map(WellKnown::at).collect()
}

#[test]
fn the_documented_sids_carry_the_documented_numbers() {
    assert_eq!(unix_id(&sid("S-1-5-18")), Some(0));
    assert_eq!(unix_id(&sid("S-1-1-0")), Some(100));
    assert_eq!(unix_id(&sid("S-1-5-11")), Some(101));
    assert_eq!(unix_id(&sid("S-1-5-32-544")), Some(102));
    assert_eq!(unix_id(&sid("S-1-5-32-545")), Some(103));
    assert_eq!(unix_id(&sid("S-1-5-32-546")), Some(104));
    assert_eq!(unix_id(&sid("S-1-5-19")), Some(105));
    assert_eq!(unix_id(&sid("S-1-5-20")), Some(106));
}

/// Supplementary groups come only from groups that have a number, so a
/// logon-type SID must stay unnumbered even though it is nameable.
#[test]
fn logon_type_sids_are_nameable_but_unnumbered() {
    for (name, text) in [
        ("Interactive", "S-1-5-4"),
        ("Network", "S-1-5-2"),
        ("Batch", "S-1-5-3"),
        ("Service", "S-1-5-6"),
    ] {
        assert_eq!(by_name(name), Some(sid(text)));
        assert_eq!(unix_id(&sid(text)), None, "{name} must have no gid");
    }
}

#[test]
fn an_unknown_sid_has_no_number_and_no_name() {
    let local = sid("S-1-5-21-1-2-3-1000");
    assert_eq!(unix_id(&local), None);
    assert_eq!(name_of(&local), None);
}

#[test]
fn names_resolve_case_insensitively_and_ignore_surrounding_space() {
    let administrators = sid("S-1-5-32-544");
    for spelling in [
        "Administrators",
        "administrators",
        "ADMINISTRATORS",
        "  Administrators  ",
    ] {
        assert_eq!(
            by_name(spelling).as_ref().map(text_of),
            Some(text_of(&administrators)),
            "{spelling:?} must resolve"
        );
    }
}

#[test]
fn a_multi_word_name_resolves() {
    assert_eq!(
        by_name("authenticated users").as_ref().map(text_of),
        Some(text_of(&sid("S-1-5-11")))
    );
}

/// The qualified spelling cannot be a registry key name, since the backslash is
/// the path separator, so it must not silently resolve either.
#[test]
fn the_qualified_spelling_does_not_resolve() {
    assert_eq!(by_name("BUILTIN\\Administrators"), None);
    assert_eq!(by_name(""), None);
    assert_eq!(by_name("Domain Admins"), None);
}

#[test]
fn every_name_round_trips_through_its_sid() {
    for entry in table() {
        let built = entry.sid();
        assert_eq!(
            name_of(&built),
            Some(entry.name()),
            "{} must name itself back",
            entry.name()
        );
        assert_eq!(
            by_name(entry.name()).as_ref().map(text_of),
            Some(text_of(&built))
        );
    }
}

/// Two entries sharing a SID would make `name_of` arbitrary; two sharing a name
/// would make `by_name` arbitrary. Neither may happen.
#[test]
fn the_table_has_no_duplicates() {
    let mut sids: Vec<String> = Vec::new();
    let mut names: Vec<String> = Vec::new();
    for entry in table() {
        let text = text_of(&entry.sid());
        assert!(!sids.contains(&text), "{text} appears twice");
        sids.push(text);

        let lowered = entry.name().to_ascii_lowercase();
        assert!(!names.contains(&lowered), "{} appears twice", entry.name());
        names.push(lowered);
    }
    assert_eq!(sids.len(), ENTRIES);
}

/// Every number is distinct, and none collides with the band a principal
/// source's range can reach.
#[test]
fn the_numbers_are_distinct_and_below_the_source_band() {
    let mut seen: Vec<u32> = Vec::new();
    for entry in table() {
        let Some(id) = entry.number() else { continue };
        assert!(!seen.contains(&id), "{} reuses id {id}", entry.name());
        assert!(
            id < RESERVED,
            "{} at {id} is inside the band sources can reach",
            entry.name()
        );
        seen.push(id);
    }
    assert_eq!(seen.len(), NUMBERED);
}

#[test]
fn every_number_leads_back_to_its_sid() {
    for built in numbered() {
        let id = unix_id(&built).expect("a number");
        assert_eq!(by_unix_id(id), Some(built));
    }
    assert_eq!(numbered().len(), NUMBERED);
    assert_eq!(by_unix_id(1), None);
    assert_eq!(by_unix_id(100), Some(sid("S-1-1-0")));
    assert_eq!(unix_id(&sid("S-1-2-0")), Some(107));
}
