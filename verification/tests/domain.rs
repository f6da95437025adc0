use authd::domain::{contains, count, is_claimable, siblings, sub_authority, PRELUDE};
use authd::sid::Sid;

/// A SID written as `S-1-{authority}-{sub-authorities}`.
fn sid(text: &str) -> Sid {
    let mut parts = text.split('-').skip(2);
    let authority: u64 = parts
        .next()
        .expect("an authority")
        .parse()
        .expect("a number");
    let subs: Vec<u32> = parts.map(|part| part.parse().expect("a number")).collect();
    Sid::build(authority, &subs).expect("a well-formed SID")
}

#[test]
fn a_local_domain_is_claimable() {
    assert!(is_claimable(&sid("S-1-5-21-1-2-3")));
    assert!(is_claimable(&sid("S-1-5-21-0-0-0")));
    assert!(is_claimable(&sid("S-1-5-21-4294967295-4294967295-4294967295")));
}

#[test]
fn well_known_namespaces_are_not_claimable() {
    // The point of the shape rule: none of these needs naming to be excluded.
    for text in [
        "S-1-5-32",       // BUILTIN
        "S-1-5-32-544",   // BUILTIN\Administrators
        "S-1-5-18",       // LocalSystem
        "S-1-5-11",       // Authenticated Users
        "S-1-1-0",        // Everyone
        "S-1-0-0",        // Null
        "S-1-5",          // the NT authority itself
        "S-1-5-21",       // the non-unique prefix with no domain
        "S-1-5-21-1",     // too few
        "S-1-5-21-1-2",   // too few
        "S-1-5-22-1-2-3", // not the non-unique prefix
    ] {
        assert!(
            !is_claimable(&sid(text)),
            "{text} must not be claimable as a domain"
        );
    }
}

#[test]
fn a_principal_sid_is_not_itself_a_domain() {
    assert!(!is_claimable(&sid("S-1-5-21-1-2-3-1000")));
}

#[test]
fn a_domain_contains_its_principals() {
    let domain = sid("S-1-5-21-1-2-3");
    assert!(contains(&domain, &sid("S-1-5-21-1-2-3-1000")));
    assert!(contains(&domain, &sid("S-1-5-21-1-2-3-500")));
    assert!(contains(&domain, &sid("S-1-5-21-1-2-3-0")));
}

#[test]
fn a_domain_does_not_contain_another_domains_principals() {
    let domain = sid("S-1-5-21-1-2-3");
    assert!(!contains(&domain, &sid("S-1-5-21-1-2-4-1000")));
    assert!(!contains(&domain, &sid("S-1-5-21-9-9-9-1000")));
    assert!(!contains(&domain, &sid("S-1-5-32-544")));
    assert!(!contains(&domain, &sid("S-1-5-18")));
}

#[test]
fn a_domain_does_not_contain_itself() {
    let domain = sid("S-1-5-21-1-2-3");
    assert!(
        !contains(&domain, &domain),
        "a domain SID is not a principal, and must not be assertable as one"
    );
}

#[test]
fn containment_is_exactly_one_rid_deep() {
    let domain = sid("S-1-5-21-1-2-3");
    assert!(!contains(&domain, &sid("S-1-5-21-1-2-3-1000-1")));
}

#[test]
fn a_prefix_of_a_domain_does_not_contain_it() {
    // Guards the length check: without it, a shorter "domain" whose bytes are a
    // prefix would swallow everything below it.
    assert!(!contains(
        &sid("S-1-5-21-1-2"),
        &sid("S-1-5-21-1-2-3-1000")
    ));
}

#[test]
fn siblings_share_a_domain() {
    assert!(siblings(
        &sid("S-1-5-21-1-2-3-1000"),
        &sid("S-1-5-21-1-2-3-513")
    ));
    assert!(siblings(&sid("S-1-5-32-544"), &sid("S-1-5-32-545")));
}

#[test]
fn siblings_rejects_different_domains() {
    let user = sid("S-1-5-21-1-2-3-1000");
    for other in [
        // A different directory entirely.
        "S-1-5-21-9-9-9-512",
        // One sub-authority differing is enough.
        "S-1-5-21-1-2-4-1000",
        // BUILTIN is its own namespace, which is the case that matters.
        "S-1-5-32-544",
        // Shorter, longer, and other authorities.
        "S-1-5-21-1-2-3",
        "S-1-5-21-1-2-3-4-1000",
        "S-1-1-0",
        "S-1-5-18",
    ] {
        assert!(
            !siblings(&user, &sid(other)),
            "{other} must not count as a sibling of {user:?}"
        );
    }
}

#[test]
fn a_sid_is_its_own_sibling() {
    let jack = sid("S-1-5-21-1-2-3-1000");
    assert!(siblings(&jack, &jack));
}

/// No principal is in two claimable domains.
#[test]
fn a_principal_has_one_domain() {
    let jack = sid("S-1-5-21-1-2-3-1000");
    let domains = [
        sid("S-1-5-21-1-2-3"),
        sid("S-1-5-21-1-2-4"),
        sid("S-1-5-21-3-2-1"),
    ];
    let holding = domains.iter().filter(|domain| contains(domain, &jack));
    assert_eq!(holding.count(), 1);
}

#[test]
fn sub_authorities_are_read_from_the_bytes() {
    let bytes = sid("S-1-5-21-1-2-3").to_bytes();
    assert_eq!(count(&bytes), Some(4));
    assert_eq!(sub_authority(&bytes, 0), Some(21));
    assert_eq!(sub_authority(&bytes, 3), Some(3));
    assert_eq!(sub_authority(&bytes, 4), None);
    assert_eq!(count(&bytes[..PRELUDE]), Some(4));
    assert_eq!(sub_authority(&bytes[..PRELUDE], 0), None);
    assert_eq!(count(&[]), None);
}
