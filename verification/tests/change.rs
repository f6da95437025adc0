use authd::change::{begin, route, Route};
use authd::logon::{CredentialType, Denial, LogonTypes, Profile};
use authd::policy::sources::DEFAULT_SEARCH_ORDER;
use authd::psi::{Assertion, Capabilities, Refusal};
use authd::registry::{Configured, Registry};
use authd::relay::{Ended, Purpose, Relay, SourceSaid};
use authd::sid::Sid;
use authd::source::{Facts, Source};

/// A SID written as `S-1-{authority}-{sub-authorities}`.
fn sid(text: &str) -> Sid {
    let mut parts = text.split('-').skip(2);
    let authority: u64 = parts
        .next()
        .expect("an authority")
        .parse()
        .expect("a number");
    let subs: Vec<u32> = parts.map(|part| part.parse().expect("a number")).collect();
    Sid::build(authority, &subs).expect("a well-formed SID")
}

fn expecting() -> Registry {
    Registry::expecting(vec![Configured {
        name: "lpsd".into(),
        search_order: DEFAULT_SEARCH_ORDER,
        unix_id_range: None,
    }])
}

/// A registry with one live source for `S-1-5-21-1-2-3`, declaring whether it
/// changes credentials.
fn with_source(changes_credentials: bool) -> Registry {
    let mut registry = expecting();
    registry
        .accept(Source::new(
            "lpsd".into(),
            false,
            sid("S-1-5-21-1-2-3"),
            None,
            Capabilities {
                queries: !changes_credentials,
                enumerates: false,
                members: false,
                pushes_changes: false,
                changes_credentials,
            },
            DEFAULT_SEARCH_ORDER,
        ))
        .expect("must be let in");
    registry
}

fn denial(result: Result<Facts, Refusal>) -> Denial {
    match result {
        Ok(_) => panic!("expected a denial"),
        Err(refusal) => refusal.denial,
    }
}

/// How a change ends when the source says something.
fn answered(source: SourceSaid) -> Ended {
    let owner = begin(&with_source(true), &sid("S-1-5-21-1-2-3-1000")).expect("served");
    assert_eq!(owner.name, "lpsd");
    Relay::begin(Purpose::Change, vec![CredentialType::Password])
        .round(false)
        .and_then(|listening| listening.hear(source))
        .err()
        .expect("an end")
}

#[test]
fn a_principal_no_source_holds_is_refused_as_restricted() {
    let registry = with_source(true);
    assert_eq!(
        denial(begin(&registry, &sid("S-1-5-18"))),
        Denial::AccountRestricted
    );
    assert!(matches!(
        route(&registry, &sid("S-1-5-18")),
        Route::Nobody
    ));
}

/// An absent source could be the one holding this principal, so the answer is an
/// outage and never "this account has nothing to change".
#[test]
fn a_missing_configured_source_is_unavailable_rather_than_nobody() {
    let registry = expecting();
    assert_eq!(
        denial(begin(&registry, &sid("S-1-5-21-1-2-3-1000"))),
        Denial::AuthorityUnavailable
    );
}

/// A source is never sent a message it did not declare it answers. It holds the
/// principal, so the refusal is about the account.
#[test]
fn a_source_that_does_not_change_credentials_is_not_asked() {
    let registry = with_source(false);
    assert_eq!(
        denial(begin(&registry, &sid("S-1-5-21-1-2-3-1000"))),
        Denial::AccountRestricted
    );
    match route(&registry, &sid("S-1-5-21-1-2-3-1000")) {
        Route::Owner(source) => assert_eq!(source.name, "lpsd"),
        _ => panic!("the source holds the principal"),
    }
}

/// The whole path: the source's word that it changed the credential is the end,
/// and nothing was minted.
#[test]
fn a_change_the_source_completes_reaches_the_client() {
    assert_eq!(answered(SourceSaid::Changed), Ended::Changed);
}

/// The case the purpose check exists for: a source answering a change with an
/// assertion must get a denial, never a grant.
#[test]
fn an_assertion_on_a_change_is_refused() {
    let assertion = Assertion {
        user_sid: sid("S-1-5-21-1-2-3-1000").to_bytes(),
        unix_id: 0,
        groups: Vec::new(),
        primary_group: Vec::new(),
        claims: Vec::new(),
        profile: Profile {
            home: String::new(),
            shell: String::new(),
        },
        permitted_logon_types: LogonTypes::unstated(),
    };
    match answered(SourceSaid::Assert(assertion)) {
        Ended::Denied(refusal) => assert_eq!(refusal.denial, Denial::Internal),
        other => panic!("expected a denial, got {other:?}"),
    }
}

/// A source's refusal is relayed, code and all.
#[test]
fn a_refusal_is_relayed() {
    match answered(SourceSaid::Refuse(Refusal {
        denial: Denial::AuthenticationFailed,
        reason: "Authentication failed.".into(),
    })) {
        Ended::Refused(refusal) => {
            assert_eq!(refusal.denial, Denial::AuthenticationFailed);
            assert_eq!(refusal.reason, "Authentication failed.");
        }
        other => panic!("expected the refusal, got {other:?}"),
    }
}

#[test]
fn every_refusal_of_a_change_says_why() {
    let reason = |result: Result<Facts, Refusal>| result.err().expect("a denial").reason;
    assert_eq!(
        reason(begin(&with_source(true), &sid("S-1-5-18"))),
        "This account has no credential that can be changed here."
    );
    assert_eq!(
        reason(begin(&with_source(false), &sid("S-1-5-21-1-2-3-1000"))),
        "The credential for this account cannot be changed here."
    );
    assert_eq!(
        reason(begin(&expecting(), &sid("S-1-5-21-1-2-3-1000"))),
        "The authority could not be reached."
    );
}
