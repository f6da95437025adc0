use authd::claim::{Claim, Flags, Values};
use authd::conversation::{
    absolute_or_empty, admission, asserted_relative, busy, drop_unassertable, expired,
    foreign_membership, grant, is_read_timeout, may_originate, may_request, no_token, out_of_reach,
    read_opening, scoped_groups, send_to, unidentified, vet, CredentialChangeStart, IoKind,
    Opening, Received, CLIENT_TIMEOUT, CONVERSATION_DEADLINE, MAX_ROUNDS, SOURCE_TIMEOUT,
};
use authd::derive::{ImpersonationLevel, KacsLogonType, MEMBER, PRINCIPAL};
use authd::domain::siblings;
use authd::logon::{Denial, LogonStart, LogonType, LogonTypes, Profile, ServiceAttest};
use authd::policy::principal::{floor, Privileges};
use authd::psi::{Assertion, Capabilities, Membership, Refusal};
use authd::resolve::Route;
use authd::sid::Sid;
use authd::source::{Facts, Source};
use authd::unix_id::{Range, UNMAPPED};

/// A SID written as `S-1-{authority}-{sub-authorities}`.
fn sid(text: &str) -> Sid {
    let mut parts = text.split('-').skip(2);
    let authority: u64 = parts
        .next()
        .expect("an authority")
        .parse()
        .expect("a number");
    let subs: Vec<u32> = parts.map(|part| part.parse().expect("a number")).collect();
    Sid::build(authority, &subs).expect("a well-formed SID")
}

/// The text of a SID.
fn text_of(sid: &Sid) -> String {
    let mut text = format!("S-1-{}", sid.authority());
    for sub in sid.sub_authorities() {
        text.push_str(&format!("-{sub}"));
    }
    text
}

/// Membership scope never applies to a primary group the authority substituted
/// for an empty field.
#[test]
fn an_authority_substituted_primary_group_is_not_scope_checked() {
    let user = sid("S-1-5-21-1-2-3-1000");
    let authenticated_users = sid("S-1-5-11");
    let memberships = vec![(authenticated_users.clone(), 0u32)];

    let substituted = scoped_groups(&memberships, &authenticated_users, false);
    assert!(
        foreign_membership(&user, &substituted).is_none(),
        "authd's own default must not be held against the source"
    );

    // Asserted by the source, the same SID *is* checked; otherwise the exemption
    // would be a bypass.
    let asserted = scoped_groups(&memberships, &authenticated_users, true);
    assert!(
        foreign_membership(&user, &asserted).is_some(),
        "a source-asserted foreign primary group must still be caught"
    );
}

/// The exemption covers only the substituted SID. Any other membership the
/// source claimed is still checked.
#[test]
fn the_exemption_does_not_extend_to_other_memberships() {
    let user = sid("S-1-5-21-1-2-3-1000");
    let authenticated_users = sid("S-1-5-11");
    let builtin_admins = sid("S-1-5-32-544");
    let memberships = vec![
        (authenticated_users.clone(), 0u32),
        (builtin_admins.clone(), 0u32),
    ];

    let groups = scoped_groups(&memberships, &authenticated_users, false);
    assert_eq!(
        foreign_membership(&user, &groups),
        Some(&builtin_admins),
        "a foreign group the source did claim must still be caught"
    );
}

/// A client sending one byte every 119 seconds resets its read timeout
/// indefinitely, so the conversation as a whole has a deadline.
#[test]
fn a_conversation_deadline_expires() {
    let now = 1_000_000;
    let past = now - 1;
    assert!(
        expired(now, past),
        "a deadline already passed must be expired"
    );
    assert!(expired(now, now));

    let future = now + 60;
    assert!(
        !expired(now, future),
        "a deadline still ahead must not be"
    );
}

/// The ceiling has to sit above a well-behaved client's emergent worst case, or
/// an honest slow logon is cut off.
#[test]
fn the_deadline_leaves_room_for_a_well_behaved_client() {
    let emergent = (CLIENT_TIMEOUT + SOURCE_TIMEOUT) * u64::from(MAX_ROUNDS);
    assert!(
        CONVERSATION_DEADLINE > emergent,
        "deadline {CONVERSATION_DEADLINE:?} must exceed the honest worst case {emergent:?}"
    );
}

/// A logon SID is never a sibling of its principal, so scope running first would
/// refuse the logon that is to survive by dropping it.
#[test]
fn an_asserted_logon_sid_is_dropped_before_the_scope_check_sees_it() {
    let user = sid("S-1-5-21-1-2-3-1000");
    let logon = sid("S-1-5-5-7-7");
    let staff = sid("S-1-5-21-1-2-3-1001");

    // The scope check would have caught the logon SID and refused.
    assert!(
        !siblings(&user, &logon),
        "the premise: a logon SID is never a sibling of its principal"
    );

    let kept = drop_unassertable(vec![(staff.clone(), 0), (logon, 0)]);
    let groups = scoped_groups(&kept, &staff, true);
    assert!(
        foreign_membership(&user, &groups).is_none(),
        "the logon SID must be gone before scope runs, not refused by it"
    );
    assert_eq!(kept.len(), 1, "and the real membership must survive");
}

#[test]
fn a_duplicate_membership_is_dropped() {
    let staff = sid("S-1-5-21-1-2-3-1001");
    let kept = drop_unassertable(vec![(staff.clone(), 0), (staff, 99)]);
    assert_eq!(kept.len(), 1);
    assert_eq!(kept[0].1, 0, "the first occurrence wins");
}

/// A client that ran out of answering time is a policy limit, not a transport
/// failure.
#[test]
fn a_read_timeout_is_distinguished_from_a_transport_failure() {
    for kind in [IoKind::WouldBlock, IoKind::TimedOut] {
        assert!(is_read_timeout(kind), "{kind:?}");
    }
    for kind in [
        IoKind::BrokenPipe,
        IoKind::ConnectionReset,
        IoKind::UnexpectedEof,
    ] {
        assert!(!is_read_timeout(kind), "{kind:?}");
    }
}

/// The case the whole restriction exists for: a directory source must not be
/// able to declare its users administrators of this machine.
#[test]
fn builtin_administrators_is_a_foreign_membership() {
    let user = sid("S-1-5-21-1-2-3-1000");
    let administrators = sid("S-1-5-32-544");
    let groups = [&administrators];
    assert_eq!(
        foreign_membership(&user, &groups).map(text_of),
        Some("S-1-5-32-544".to_string())
    );
}

#[test]
fn a_domains_own_groups_are_not_foreign() {
    let user = sid("S-1-5-21-1-2-3-1000");
    let own = [sid("S-1-5-21-1-2-3-513"), sid("S-1-5-21-1-2-3-512")];
    let groups: Vec<&Sid> = own.iter().collect();
    assert!(foreign_membership(&user, &groups).is_none());
}

#[test]
fn no_groups_are_never_foreign() {
    let user = sid("S-1-5-21-1-2-3-1000");
    assert!(foreign_membership(&user, &[]).is_none());
}

/// The first offender is reported, not merely "some group was foreign".
#[test]
fn the_offending_group_is_the_one_reported() {
    let user = sid("S-1-5-21-1-2-3-1000");
    let all = [
        sid("S-1-5-21-1-2-3-513"),
        sid("S-1-5-32-544"),
        sid("S-1-1-0"),
    ];
    let groups: Vec<&Sid> = all.iter().collect();
    assert_eq!(
        foreign_membership(&user, &groups).map(text_of),
        Some("S-1-5-32-544".to_string())
    );
}

#[test]
fn an_asserted_number_is_the_first_the_source_gave() {
    let staff = sid("S-1-5-21-1-2-3-1001");
    let memberships = vec![(staff.clone(), 7), (sid("S-1-5-11"), 0)];
    assert_eq!(asserted_relative(&memberships, &staff), 7);
    assert_eq!(asserted_relative(&memberships, &sid("S-1-1-0")), 0);
}

// ---------------------------------------------------------------------------
// Opening and admission
// ---------------------------------------------------------------------------

fn denial<T>(result: Result<T, Refusal>) -> (Denial, String) {
    match result {
        Ok(_) => panic!("expected a denial"),
        Err(refusal) => (refusal.denial, refusal.reason),
    }
}

#[test]
fn an_opening_that_opens_nothing_is_answered() {
    let cases = [
        (
            Received::Failed(IoKind::TimedOut),
            Denial::ConversationLimit,
            "The logon did not begin in time.",
        ),
        (
            Received::Failed(IoKind::ConnectionReset),
            Denial::MalformedRequest,
            "Could not read the opening message.",
        ),
        (
            Received::UnsupportedVersion,
            Denial::UnsupportedVersion,
            "This authority does not implement that protocol version.",
        ),
        (
            Received::MalformedHeader,
            Denial::MalformedRequest,
            "Malformed message header.",
        ),
        (
            Received::Logon(None),
            Denial::MalformedRequest,
            "Malformed LogonStart.",
        ),
        (
            Received::Attest(None),
            Denial::MalformedRequest,
            "Malformed ServiceAttest.",
        ),
        (
            Received::Change(None),
            Denial::MalformedRequest,
            "Malformed CredentialChangeStart.",
        ),
        (
            Received::Unexpected,
            Denial::MalformedRequest,
            "A connection must open with LogonStart or ServiceAttest.",
        ),
    ];
    for (received, expected, reason) in cases {
        assert_eq!(
            denial(read_opening(received)),
            (expected, reason.to_string())
        );
    }
}

#[test]
fn an_opening_is_what_it_says() {
    let start = || LogonStart {
        logon_type: LogonType::Interactive,
        identifier: b"jack".to_vec(),
        supported_credential_types: Vec::new(),
    };
    assert_eq!(
        read_opening(Received::Logon(Some(start()))),
        Ok(Opening::Logon(start()))
    );
    let attest = || ServiceAttest {
        service: "resolvd".into(),
        identity: "LocalService".into(),
    };
    assert_eq!(
        read_opening(Received::Attest(Some(attest()))),
        Ok(Opening::Attest(attest()))
    );
    let change = || CredentialChangeStart {
        supported_credential_types: Vec::new(),
    };
    assert_eq!(
        read_opening(Received::Change(Some(change()))),
        Ok(Opening::Change(change()))
    );
}

#[test]
fn the_client_proposes_and_the_authority_constrains() {
    let system = sid("S-1-5-18");
    let sshd = sid("S-1-5-80-1-2-3-4-5");
    let network = LogonTypes::unstated().with(LogonType::Network);
    assert!(may_originate(&system, None));
    assert!(may_request(&system, None, LogonType::Service));
    assert!(admission(&system, None, LogonType::Interactive).is_none());

    assert!(!may_originate(&sshd, None));
    assert!(!may_originate(&sshd, Some(LogonTypes::unstated())));
    assert!(may_originate(&sshd, Some(network)));
    assert!(may_request(&sshd, Some(network), LogonType::Network));
    assert!(!may_request(&sshd, Some(network), LogonType::Interactive));

    let refused = admission(&sshd, None, LogonType::Network).expect("a denial");
    assert_eq!(refused.denial, Denial::PermissionDenied);
    assert_eq!(refused.reason, "Caller may not originate logons.");
    let refused = admission(&sshd, Some(network), LogonType::Interactive).expect("a denial");
    assert_eq!(refused.denial, Denial::LogonTypeNotPermitted);
    assert_eq!(refused.reason, "Caller may not request that logon type.");
    assert!(admission(&sshd, Some(network), LogonType::Network).is_none());
}

#[test]
fn a_routed_logon_goes_to_one_source_or_is_denied() {
    let source = facts(false, None);
    assert_eq!(send_to(Route::Owner(source.clone())), Ok(source.clone()));
    assert_eq!(send_to(Route::Blind(source.clone())), Ok(source));
    assert_eq!(
        denial(send_to(Route::Unavailable)),
        (
            Denial::AuthorityUnavailable,
            "The authority could not be reached.".to_string()
        )
    );
    assert_eq!(
        denial(send_to(Route::NoSources)),
        (
            Denial::AuthorityUnavailable,
            "No authority is available for that principal.".to_string()
        )
    );
    assert_eq!(busy().denial, Denial::AuthorityUnavailable);
    assert_eq!(busy().reason, "The authority is busy. Try again shortly.");
    assert_eq!(
        out_of_reach().reason,
        "The authority could not be reached."
    );
    assert_eq!(unidentified().denial, Denial::PermissionDenied);
    assert_eq!(
        unidentified().reason,
        "Caller identity could not be established."
    );
    assert_eq!(no_token().denial, Denial::Internal);
    assert_eq!(no_token().reason, "The authority could not issue a token.");
}

// ---------------------------------------------------------------------------
// Vetting and granting
// ---------------------------------------------------------------------------

fn facts(foreign: bool, range: Option<Range>) -> Facts {
    Source::new(
        "lpsd".into(),
        foreign,
        sid("S-1-5-21-1-2-3"),
        range,
        Capabilities {
            queries: true,
            enumerates: true,
            members: false,
            pushes_changes: false,
            changes_credentials: false,
        },
        1000,
    )
    .facts()
    .clone()
}

fn membership(text: &str, unix_id: u32) -> Membership {
    Membership {
        sid: sid(text).to_bytes(),
        unix_id,
    }
}

fn assertion() -> Assertion {
    Assertion {
        user_sid: sid("S-1-5-21-1-2-3-1000").to_bytes(),
        unix_id: 1000,
        groups: vec![membership("S-1-5-21-1-2-3-1001", 5)],
        primary_group: Vec::new(),
        claims: Vec::new(),
        profile: Profile {
            home: "/home/jack".into(),
            shell: "bin/sh".into(),
        },
        permitted_logon_types: LogonTypes::unstated(),
    }
}

fn range() -> Option<Range> {
    Some(Range::new(1_000_000, 1_000_000).unwrap())
}

#[test]
fn a_vetted_assertion_becomes_a_token() {
    let source = facts(false, range());
    let vetted = vet(&source, LogonType::Interactive, &assertion()).expect("vetted");
    assert_eq!(vetted.user, sid("S-1-5-21-1-2-3-1000"));
    assert_eq!(vetted.primary_group, sid("S-1-5-11"));
    assert_eq!(vetted.projection.uid, 1_001_000);
    assert_eq!(vetted.projection.gid, 101);
    assert_eq!(vetted.profile.home, "/home/jack");
    assert_eq!(vetted.profile.shell, "", "a relative path is dropped");
    assert_eq!(
        vetted.token_groups[0],
        (sid("S-1-5-21-1-2-3-1000"), PRINCIPAL)
    );
    assert!(vetted
        .token_groups
        .contains(&(sid("S-1-5-21-1-2-3-1001"), MEMBER)));
    assert!(vetted.token_groups.contains(&(sid("S-1-5-4"), MEMBER)));

    let change_notify = Privileges { bits: 1 << 23 };
    let plan = grant(
        &source.name,
        LogonType::Interactive,
        &vetted,
        &floor(change_notify),
    );
    assert_eq!(plan.privileges, change_notify);
    assert_eq!(plan.session_type, KacsLogonType::Interactive);
    assert_eq!(plan.impersonation_level, ImpersonationLevel::Delegation);
    assert_eq!(plan.auth_package, "lpsd");
    assert_eq!(plan.projection.uid, 1_001_000);
}

#[test]
fn an_assertion_is_refused_for_what_it_claims() {
    let source = facts(false, range());
    let refused = |assertion: Assertion, logon_type| {
        denial(vet(&source, logon_type, &assertion)).0
    };

    let nonsense = Assertion {
        user_sid: vec![1, 2, 3],
        ..assertion()
    };
    assert_eq!(refused(nonsense, LogonType::Interactive), Denial::Internal);

    // Silence never permits a service logon.
    assert_eq!(
        refused(assertion(), LogonType::Service),
        Denial::AccountRestricted
    );
    let batch_only = Assertion {
        permitted_logon_types: LogonTypes::unstated().with(LogonType::Batch),
        ..assertion()
    };
    assert_eq!(
        refused(batch_only, LogonType::Interactive),
        Denial::AccountRestricted
    );

    let outsider = Assertion {
        user_sid: sid("S-1-5-21-9-9-9-1000").to_bytes(),
        ..assertion()
    };
    assert_eq!(refused(outsider, LogonType::Interactive), Denial::Internal);

    let foreign = Assertion {
        groups: vec![membership("S-1-5-32-544", 0)],
        ..assertion()
    };
    assert_eq!(refused(foreign, LogonType::Interactive), Denial::Internal);

    let unusable = Assertion {
        claims: vec![Claim {
            name: "Department".into(),
            flags: Flags {
                non_inheritable: false,
                case_sensitive: false,
                use_for_deny_only: false,
                disabled: false,
                mandatory: false,
            },
            values: Values::Sid(vec![b"not a sid".to_vec()]),
            usable: true,
        }],
        ..assertion()
    };
    assert_eq!(refused(unusable, LogonType::Interactive), Denial::Internal);
}

/// The local source may name groups of other domains, and only it.
#[test]
fn a_permitted_source_asserts_foreign_memberships() {
    let claim = || Assertion {
        groups: vec![membership("S-1-5-32-544", 0), membership("S-1-5-5-7-7", 0)],
        primary_group: sid("S-1-5-32-544").to_bytes(),
        ..assertion()
    };
    let local = facts(true, range());
    let vetted = vet(&local, LogonType::Network, &claim()).expect("vetted");
    assert_eq!(vetted.projection.gid, 102);
    assert!(vetted.token_groups.contains(&(sid("S-1-5-32-544"), MEMBER)));
    assert!(
        !vetted
            .token_groups
            .iter()
            .any(|(group, _)| *group == sid("S-1-5-5-7-7")),
        "no source puts a logon SID on a token"
    );
    assert!(vet(&facts(false, range()), LogonType::Network, &claim()).is_err());
}

#[test]
fn a_source_with_no_range_signs_people_in_as_nobody() {
    let vetted = vet(&facts(false, None), LogonType::Interactive, &assertion()).expect("vetted");
    assert_eq!(vetted.projection.uid, UNMAPPED);
}

#[test]
fn only_absolute_paths_leave() {
    assert_eq!(absolute_or_empty("/home/jack"), "/home/jack");
    assert_eq!(absolute_or_empty("home/jack"), "");
    assert_eq!(absolute_or_empty(""), "");
}
