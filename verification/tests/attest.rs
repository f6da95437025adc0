use authd::attest::{
    begin, designated, may_attest, mint, profile, refused, resolve_service_principal,
    well_known_identity, Attestation, Resolved,
};
use authd::derive::{ImpersonationLevel, KacsLogonType};
use authd::identity::{Fields, Kind, Outcome, Protocol, Record, Reference, Value};
use authd::logon::{Denial, LogonType, LogonTypes, ServiceAttest};
use authd::policy::principal::{floor, Configured, Entry, Privileges};
use authd::policy::principal;
use authd::registry::Registry;
use authd::resolve::{Answer, Step};
use authd::service_sid;
use authd::sid::Sid;
use authd::unix_id::UNMAPPED;

/// A SID written as `S-1-{authority}-{sub-authorities}`.
fn sid(text: &str) -> Sid {
    let mut parts = text.split('-').skip(2);
    let authority: u64 = parts
        .next()
        .expect("an authority")
        .parse()
        .expect("a number");
    let subs: Vec<u32> = parts.map(|part| part.parse().expect("a number")).collect();
    Sid::build(authority, &subs).expect("a well-formed SID")
}

#[test]
fn both_facts_are_required() {
    let system = sid("S-1-5-18");
    let other = sid("S-1-5-21-1-2-3-1000");

    assert!(may_attest(&system, true));
    // SYSTEM but not PID 1: every other platform daemon on the box.
    assert!(!may_attest(&system, false));
    // PID 1 but not SYSTEM, which should not be reachable, and is refused anyway
    // rather than relying on that.
    assert!(!may_attest(&other, true));
    assert!(!may_attest(&other, false));
}

#[test]
fn the_three_service_identities_resolve() {
    assert_eq!(well_known_identity("SYSTEM"), Some(sid("S-1-5-18")));
    assert_eq!(well_known_identity("LocalService"), Some(sid("S-1-5-19")));
    assert_eq!(well_known_identity("NetworkService"), Some(sid("S-1-5-20")));
}

/// The service manager canonicalises identity spellings without regard to case,
/// so an authority that did not would refuse a definition it accepted.
#[test]
fn service_identities_are_matched_without_case() {
    assert_eq!(well_known_identity("localservice"), Some(sid("S-1-5-19")));
    assert_eq!(well_known_identity("SYSTEM"), well_known_identity("system"));
}

/// The property the whole design rests on: a service cannot be an ordinary
/// principal.
#[test]
fn an_ordinary_principal_is_not_a_service_identity() {
    assert_eq!(well_known_identity("jack"), None);
    assert_eq!(well_known_identity("S-1-5-21-1-2-3-1000"), None);
    assert_eq!(well_known_identity("Administrators"), None);
    assert_eq!(well_known_identity(""), None);
}

/// Two services sharing an identity are told apart by the service SID, so it
/// must differ per service and agree with what the service manager derives.
#[test]
fn distinct_services_get_distinct_sids() {
    let a = service_sid::of("resolvd").expect("a usable SID");
    let b = service_sid::of("lpsd").expect("a usable SID");
    assert_ne!(a, b);
    assert_eq!(a, service_sid::of("RESOLVD").expect("a usable SID"));
}

fn attest(service: &str, identity: &str) -> ServiceAttest {
    ServiceAttest {
        service: service.into(),
        identity: identity.into(),
    }
}

#[test]
fn an_attestation_is_refused_before_anything_is_looked_up() {
    let system = sid("S-1-5-18");
    let refusal = |attestation: Attestation| match attestation {
        Attestation::Refuse(refusal) => (refusal.denial, refusal.reason),
        other => panic!("expected a denial, got {other:?}"),
    };
    assert_eq!(
        refusal(begin(&system, false, &attest("resolvd", "SYSTEM"))),
        (
            Denial::PermissionDenied,
            "Caller may not attest service identities.".to_string()
        )
    );
    for blank in ["", "   ", "\t"] {
        assert_eq!(
            refusal(begin(&system, true, &attest(blank, "SYSTEM"))),
            (
                Denial::MalformedRequest,
                "A service attestation must name a service.".to_string()
            )
        );
    }
}

#[test]
fn an_identity_of_the_authoritys_own_needs_no_lookup() {
    let system = sid("S-1-5-18");
    match begin(&system, true, &attest("resolvd", "localservice")) {
        Attestation::Mint {
            user,
            memberships,
            service,
        } => {
            assert_eq!(user, sid("S-1-5-19"));
            assert_eq!(memberships, vec![sid("S-1-5-32-544")]);
            assert_eq!(Some(service), service_sid::of("resolvd"));
        }
        other => panic!("expected a token, got {other:?}"),
    }
    match begin(&system, true, &attest("resolvd", "svc$")) {
        Attestation::Resolve { service } => assert_eq!(Some(service), service_sid::of("resolvd")),
        other => panic!("expected a lookup, got {other:?}"),
    }
}

const PROTOCOL: Protocol = Protocol {
    max_name_bytes: 256,
    known: Fields { bits: 127 },
};

#[test]
fn a_service_principal_is_looked_up_by_name() {
    let registry = Registry::new();
    match resolve_service_principal(&registry, "svc$", PROTOCOL) {
        Step::Done(answer) => {
            assert_eq!(answer.outcome, Outcome::NotFound);
            assert_eq!(designated(&answer), None);
        }
        Step::Ask(_) => panic!("there is nobody to ask"),
    }
}

fn answer(outcome: Outcome, values: Vec<Value>) -> Answer {
    Answer {
        outcome,
        record: Some(Record {
            sid: sid("S-1-5-21-1-2-3-1000").to_bytes(),
            qualified_name: "svc$".into(),
            kind_found: Kind::Principal,
            values,
            withheld: Vec::new(),
        }),
    }
}

fn group(bytes: Vec<u8>) -> Reference {
    Reference {
        sid: bytes,
        name: String::new(),
        unix_id: 0,
    }
}

/// A record that does not answer the field is not a record that permits a
/// service logon.
#[test]
fn only_a_designated_principal_is_attested() {
    let service = LogonTypes::unstated().with(LogonType::Service);
    let interactive = LogonTypes::unstated().with(LogonType::Interactive);
    assert_eq!(designated(&answer(Outcome::Found, Vec::new())), None);
    assert_eq!(
        designated(&answer(
            Outcome::Found,
            vec![Value::LogonTypes(LogonTypes::unstated())]
        )),
        None
    );
    assert_eq!(
        designated(&answer(
            Outcome::Found,
            vec![Value::LogonTypes(interactive)]
        )),
        None
    );
    assert_eq!(
        designated(&answer(
            Outcome::Unavailable,
            vec![Value::LogonTypes(service)]
        )),
        None
    );
    assert_eq!(
        designated(&answer(
            Outcome::Found,
            vec![
                Value::Groups(vec![
                    group(sid("S-1-5-21-1-2-3-513").to_bytes()),
                    group(vec![0xff]),
                ]),
                Value::LogonTypes(service),
            ]
        )),
        Some(Resolved {
            user: sid("S-1-5-21-1-2-3-1000"),
            groups: vec![sid("S-1-5-21-1-2-3-513")],
        })
    );
    assert_eq!(refused().denial, Denial::AccountRestricted);
    assert_eq!(
        refused().reason,
        "That identity may not be used for a service logon."
    );
}

#[test]
fn a_service_token_names_its_service_and_does_not_travel() {
    let service = service_sid::of("resolvd").expect("a usable SID");
    let user = sid("S-1-5-19");
    let plan = mint(
        &user,
        &vec![sid("S-1-5-32-544")],
        &service,
        &floor(Privileges { bits: 1 << 23 }),
    );
    assert!(plan.groups.iter().any(|(group, _)| *group == service));
    assert_eq!(plan.session_type, KacsLogonType::Service);
    assert_eq!(plan.impersonation_level, ImpersonationLevel::Impersonation);
    assert_eq!(plan.auth_package, "attested");
    assert_eq!(plan.privileges, Privileges { bits: 1 << 23 });
    assert_eq!(plan.projection.uid, 105);
    assert_eq!(plan.projection.gid, 105);
    // LocalService, Administrators and what every token carries, by number.
    let mut supplementary = plan.projection.supplementary.clone();
    supplementary.sort();
    assert_eq!(supplementary, vec![100, 101, 102, 105, 107]);
    assert!(plan.claims.is_empty());
    assert_eq!((profile().home, profile().shell), (String::new(), String::new()));

    let plain = mint(
        &sid("S-1-5-21-1-2-3-1000"),
        &Vec::new(),
        &service,
        &Configured {
            records: vec![principal::Record {
                sid: service.clone(),
                entry: Entry {
                    privileges: Some(Privileges { bits: 2 }),
                    integrity: None,
                    owner: None,
                    default_dacl: None,
                    logon_types: None,
                },
            }],
            denied: Privileges::empty(),
        },
    );
    assert_eq!(plain.projection.uid, UNMAPPED);
    assert_eq!(
        plain.privileges,
        Privileges { bits: 2 },
        "policy can be written against the service"
    );
}
