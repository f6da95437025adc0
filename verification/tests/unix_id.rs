use authd::sid::Sid;
use authd::unix_id::{
    built_in, number, project, Numbered, Range, RangeError, DEFAULT_COUNT, RESERVED, UNMAPPED,
};

/// A SID written as `S-1-{authority}-{sub-authorities}`.
fn sid(text: &str) -> Sid {
    let mut parts = text.split('-').skip(2);
    let authority: u64 = parts
        .next()
        .expect("an authority")
        .parse()
        .expect("a number");
    let subs: Vec<u32> = parts.map(|part| part.parse().expect("a number")).collect();
    Sid::build(authority, &subs).expect("a well-formed SID")
}

fn range() -> Range {
    Range::new(1_000_000, 1_000_000).expect("must be valid")
}

#[test]
fn system_projects_to_root() {
    // Fixed by the service manager, which mints SYSTEM tokens with (0, 0). A
    // disagreement would mean one principal projecting two ways.
    assert_eq!(built_in(&sid("S-1-5-18")), Some(0));
}

#[test]
fn well_known_groups_are_numbered_below_the_reserved_boundary() {
    for text in [
        "S-1-1-0",
        "S-1-5-11",
        "S-1-5-32-544",
        "S-1-5-32-545",
        "S-1-5-32-546",
        "S-1-5-19",
        "S-1-5-20",
    ] {
        let id = built_in(&sid(text)).unwrap_or_else(|| panic!("{text} must have a number"));
        assert!(id < RESERVED, "{text} must be inside authd's own band");
    }
}

/// No well-known SID may resolve to the number that means "unmapped", because a
/// principal that legitimately projected to 65534 would be indistinguishable
/// from one nothing could number.
#[test]
fn nobody_is_not_handed_out_as_a_built_in() {
    for text in [
        "S-1-5-18",
        "S-1-1-0",
        "S-1-5-11",
        "S-1-5-32-544",
        "S-1-5-32-545",
        "S-1-5-32-546",
        "S-1-5-19",
        "S-1-5-20",
    ] {
        assert_ne!(
            built_in(&sid(text)),
            Some(UNMAPPED),
            "{text} must not project to the unmapped number"
        );
    }
}

#[test]
fn an_ordinary_sid_has_no_built_in_number() {
    assert_eq!(built_in(&sid("S-1-5-21-1-2-3-1000")), None);
    // A logon-type SID is a real membership with no meaningful gid.
    assert_eq!(built_in(&sid("S-1-5-4")), None);
}

#[test]
fn a_range_inside_the_reserved_band_is_refused() {
    // The check that stops a source reaching uid 0.
    assert_eq!(Range::new(0, 1000), Err(RangeError::Reserved));
    assert_eq!(Range::new(1, 1000), Err(RangeError::Reserved));
    assert_eq!(Range::new(RESERVED - 1, 1000), Err(RangeError::Reserved));
    assert!(Range::new(RESERVED, 1000).is_ok());
}

#[test]
fn a_degenerate_range_is_refused() {
    assert_eq!(Range::new(RESERVED, 0), Err(RangeError::Empty));
    assert_eq!(Range::new(u32::MAX, 2), Err(RangeError::Overflows));
}

#[test]
fn rebasing_adds_the_base() {
    assert_eq!(range().rebase(1), Some(1_000_001));
    assert_eq!(range().rebase(999), Some(1_000_999));
}

#[test]
fn zero_is_not_an_id() {
    assert_eq!(
        range().rebase(0),
        None,
        "0 is how a source says it has no number, and must not become the base"
    );
}

#[test]
fn a_relative_id_past_the_range_is_refused_rather_than_clamped() {
    let small = Range::new(RESERVED, 10).unwrap();
    assert_eq!(small.rebase(9), Some(RESERVED + 9));
    assert_eq!(small.rebase(10), None);
    assert_eq!(small.rebase(u32::MAX), None);
}

#[test]
fn a_source_cannot_reach_another_sources_range() {
    // Two adjacent ranges. Whatever lpsd asserts, it cannot produce a number
    // inside adpsd's, because anything past its count is refused.
    let lpsd = Range::new(1_000_000, 1_000_000).unwrap();
    let adpsd = Range::new(2_000_000, 1_000_000).unwrap();
    for relative in [1u32, 999_999, 1_000_000, 2_000_000, u32::MAX] {
        if let Some(id) = lpsd.rebase(relative) {
            assert!(
                id < adpsd.base,
                "lpsd produced {id}, which is inside adpsd's range"
            );
        }
    }
}

#[test]
fn a_principal_projects_through_its_sources_range() {
    let administrators = sid("S-1-5-32-544");
    let developers = sid("S-1-5-21-1-2-3-1001");
    let groups = vec![
        Numbered {
            sid: &administrators,
            relative: 0,
        },
        Numbered {
            sid: &developers,
            relative: 5,
        },
    ];

    let projection = project(Some(&range()), 1, &developers, &groups);
    assert_eq!(projection.uid, 1_000_001);
    assert_eq!(projection.gid, 1_000_005, "the primary group is the local one");
    assert_eq!(
        projection.supplementary,
        vec![102, 1_000_005],
        "the well-known group takes authd's number, the local one takes the range"
    );
}

#[test]
fn a_source_cannot_renumber_a_well_known_group() {
    // The ordering that matters: the authority's table wins. Otherwise a source
    // could put BUILTIN\Administrators inside its own range, where a second
    // source could number something else identically.
    let administrators = sid("S-1-5-32-544");
    let groups = vec![Numbered {
        sid: &administrators,
        relative: 7,
    }];
    let projection = project(Some(&range()), 1, &administrators, &groups);
    assert_eq!(projection.gid, 102);
    assert_eq!(projection.supplementary, vec![102]);
}

#[test]
fn a_source_with_no_range_projects_everyone_to_nobody() {
    let developers = sid("S-1-5-21-1-2-3-1001");
    let groups = vec![Numbered {
        sid: &developers,
        relative: 5,
    }];
    let projection = project(None, 1, &developers, &groups);
    assert_eq!(projection.uid, UNMAPPED);
    assert_eq!(projection.gid, UNMAPPED);
    assert!(
        projection.supplementary.is_empty(),
        "a group nothing can number contributes no gid"
    );
}

/// Even with no range, the authority's own table still applies: those numbers
/// were never the source's to give.
#[test]
fn well_known_groups_are_numbered_without_a_range() {
    let administrators = sid("S-1-5-32-544");
    let groups = vec![Numbered {
        sid: &administrators,
        relative: 0,
    }];
    let projection = project(None, 1, &administrators, &groups);
    assert_eq!(projection.uid, UNMAPPED);
    assert_eq!(projection.gid, 102);
    assert_eq!(projection.supplementary, vec![102]);
}

#[test]
fn a_principal_with_no_number_projects_to_nobody() {
    let everyone = sid("S-1-1-0");
    let groups = vec![Numbered {
        sid: &everyone,
        relative: 0,
    }];
    let projection = project(Some(&range()), 0, &everyone, &groups);
    assert_eq!(projection.uid, UNMAPPED);
}

#[test]
fn a_primary_group_outside_the_asserted_groups_still_projects() {
    // The primary group is added to the token if it is missing, so it has to be
    // numbered even when it is not in the asserted list.
    let administrators = sid("S-1-5-32-544");
    let projection = project(Some(&range()), 1, &administrators, &[]);
    assert_eq!(projection.gid, 102);
    assert!(projection.supplementary.is_empty());
}

#[test]
fn a_foreign_primary_group_projects_to_nobody() {
    let foreign = sid("S-1-5-21-9-9-9-1000");
    let projection = project(Some(&range()), 1, &foreign, &[]);
    assert_eq!(projection.uid, 1_000_001);
    assert_eq!(
        projection.gid, UNMAPPED,
        "a primary group with no number must not silently borrow the uid"
    );
}

#[test]
fn a_range_inverts_its_own_numbers_and_no_others() {
    let range = Range::new(RESERVED, DEFAULT_COUNT).unwrap();
    assert_eq!(range.relative(RESERVED + 1000), Some(1000));
    assert_eq!(range.relative(RESERVED), None);
    assert_eq!(range.relative(RESERVED - 1), None);
    assert_eq!(range.relative(RESERVED + DEFAULT_COUNT), None);
    assert_eq!(range.relative(0), None);
}

#[test]
fn a_number_is_the_tables_before_it_is_the_ranges() {
    assert_eq!(number(Some(&range()), &sid("S-1-5-32-544"), 7), Some(102));
    assert_eq!(
        number(Some(&range()), &sid("S-1-5-21-1-2-3-1001"), 7),
        Some(1_000_007)
    );
    assert_eq!(number(None, &sid("S-1-5-21-1-2-3-1001"), 7), None);
}

#[test]
fn a_range_error_says_what_is_wrong() {
    assert_eq!(
        RangeError::Empty.message(),
        "a Unix ID count of zero can number nobody"
    );
    assert_eq!(
        RangeError::Overflows.message(),
        "the Unix ID range runs past the end of a 32-bit id"
    );
    assert!(RangeError::Reserved.message().contains("1000000"));
}
