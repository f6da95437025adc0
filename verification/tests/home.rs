use authd::home::{
    check_existing, ensure, home_sddl, is_named, Action, Found, Ownership, Standing,
};
use authd::sid::Sid;

/// A SID written as `S-1-{authority}-{sub-authorities}`.
fn sid(text: &str) -> Sid {
    let mut parts = text.split('-').skip(2);
    let authority: u64 = parts
        .next()
        .expect("an authority")
        .parse()
        .expect("a number");
    let subs: Vec<u32> = parts.map(|part| part.parse().expect("a number")).collect();
    Sid::build(authority, &subs).expect("a well-formed SID")
}

#[test]
fn the_descriptor_names_the_principal_as_owner_and_protects_the_dacl() {
    let text = home_sddl("S-1-5-21-1-2-3-1000");
    assert!(
        text.starts_with("O:S-1-5-21-1-2-3-1000G:S-1-5-21-1-2-3-1000"),
        "the principal must own its own home: {text}"
    );
    assert!(
        text.contains("D:P("),
        "the DACL must be protected or / leaks Everyone read into it: {text}"
    );
    assert!(
        text.contains("(A;OICI;GA;;;S-1-5-21-1-2-3-1000)"),
        "the principal must have full control of its own home: {text}"
    );
}

#[test]
fn the_descriptor_is_the_whole_of_it() {
    assert_eq!(
        home_sddl("S-1-5-21-1-2-3-1000"),
        "O:S-1-5-21-1-2-3-1000G:S-1-5-21-1-2-3-1000D:P(A;OICI;GA;;;S-1-5-21-1-2-3-1000)\
         (A;OICI;GA;;;SY)(A;OICI;GA;;;BA)"
    );
}

#[test]
fn an_empty_home_does_nothing() {
    // The service case: a service has no profile, so `home` is empty and no
    // service identity grows a directory. Reaching the filesystem at all here
    // would be the bug.
    assert!(!is_named(""));
    for found in [
        Found::Directory,
        Found::SomethingElse,
        Found::Nothing,
        Found::Unknown,
    ] {
        assert_eq!(ensure("", found), Action::Nothing);
    }
}

#[test]
fn a_home_is_created_only_where_there_is_nothing() {
    assert!(is_named("/home/jack"));
    assert_eq!(ensure("/home/jack", Found::Nothing), Action::Create);
    assert_eq!(ensure("/home/jack", Found::Directory), Action::CheckOwner);
    assert_eq!(
        ensure("/home/jack", Found::SomethingElse),
        Action::LeaveAlone
    );
    assert_eq!(ensure("/home/jack", Found::Unknown), Action::Report);
}

#[test]
fn a_home_somebody_else_owns_is_reported() {
    let jack = sid("S-1-5-21-1-2-3-1000");
    let cases = [
        (Ownership::NoDescriptor, Standing::Fine),
        (Ownership::Unreadable, Standing::UnreadableDescriptor),
        (Ownership::Owner(None), Standing::Ownerless),
        (Ownership::Owner(Some(jack.clone())), Standing::Fine),
        (
            Ownership::Owner(Some(sid("S-1-5-21-1-2-3-1001"))),
            Standing::OwnedByAnother,
        ),
    ];
    for (ownership, standing) in cases {
        assert_eq!(check_existing(&jack, &ownership), standing);
    }
}
