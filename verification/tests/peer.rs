use authd::peer::{identify_source, is_init, is_system, NotASource, PeerProcess};
use authd::policy::sources::{SourceEntry, DEFAULT_SEARCH_ORDER};
use authd::service_sid;
use authd::sid::Sid;

/// A SID written as `S-1-{authority}-{sub-authorities}`.
fn sid(text: &str) -> Sid {
    let mut parts = text.split('-').skip(2);
    let authority: u64 = parts
        .next()
        .expect("an authority")
        .parse()
        .expect("a number");
    let subs: Vec<u32> = parts.map(|part| part.parse().expect("a number")).collect();
    Sid::build(authority, &subs).expect("a well-formed SID")
}

fn entry(name: &str) -> SourceEntry {
    SourceEntry {
        name: name.into(),
        service_sid: service_sid::of(name).expect("a usable SID"),
        may_assert_foreign_memberships: false,
        pinned_domain: None,
        unix_id_range: None,
        search_order: DEFAULT_SEARCH_ORDER,
    }
}

#[test]
fn only_system_is_system() {
    assert!(is_system(&sid("S-1-5-18")));
    assert!(!is_system(&sid("S-1-5-19")));
    assert!(!is_system(&sid("S-1-5-32-544")));
}

/// A question that is not answered is not PID 1.
#[test]
fn only_process_one_is_init() {
    let process = |answered, whole, pid| PeerProcess {
        answered,
        whole,
        pid,
    };
    assert!(is_init(process(true, true, 1)));
    assert!(!is_init(process(true, true, 2)));
    assert!(!is_init(process(true, false, 1)));
    assert!(!is_init(process(false, true, 1)));
}

#[test]
fn a_source_is_who_the_kernel_says() {
    let configured = [entry("lpsd"), entry("corpd")];
    let (everyone, corpd) = (
        sid("S-1-1-0"),
        service_sid::of("corpd").expect("a usable SID"),
    );
    assert_eq!(
        identify_source(Some(&[&everyone, &corpd]), &configured),
        Ok(entry("corpd"))
    );
    assert_eq!(
        identify_source(Some(&[&everyone]), &configured),
        Err(NotASource::NotConfigured)
    );
    assert_eq!(
        identify_source(Some(&[&everyone, &corpd]), &[]),
        Err(NotASource::NotConfigured)
    );
    assert_eq!(
        identify_source(None, &configured),
        Err(NotASource::Unidentifiable)
    );
    let lpsd = service_sid::of("lpsd").expect("a usable SID");
    assert_eq!(
        identify_source(Some(&[&corpd, &lpsd]), &configured),
        Ok(entry("lpsd")),
        "the first entry matched wins"
    );
}

#[test]
fn a_stranger_is_told_apart_from_a_mystery() {
    assert_eq!(
        NotASource::Unidentifiable.message("no token"),
        "peer identity unavailable: no token"
    );
    assert_eq!(
        NotASource::NotConfigured.message(""),
        "peer is not a configured principal source"
    );
}
