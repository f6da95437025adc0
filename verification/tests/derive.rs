use authd::claim::{Claim, Flags, TokenFlags, TokenValues, Values};
use authd::derive::{
    add_unique, borrowed_sids, index_of, is_logon_sid, kacs_claims, kacs_logon_type,
    logon_type_sid, mint, token_groups, Evidence, ImpersonationLevel, KacsLogonType, Minting,
    MEMBER, PRINCIPAL, SOURCE_NAME,
};
use authd::logon::LogonType;
use authd::policy::principal::{IntegrityLevel, Outcome, Privileges};
use authd::sid::Sid;
use authd::unix_id::{built_in, Projection};
use authd::well_known::WellKnown;

/// A SID written as `S-1-{authority}-{sub-authorities}`.
fn sid(text: &str) -> Sid {
    let mut parts = text.split('-').skip(2);
    let authority: u64 = parts
        .next()
        .expect("an authority")
        .parse()
        .expect("a number");
    let subs: Vec<u32> = parts.map(|part| part.parse().expect("a number")).collect();
    Sid::build(authority, &subs).expect("a well-formed SID")
}

/// The text of a SID.
fn text_of(sid: &Sid) -> String {
    let mut text = format!("S-1-{}", sid.authority());
    for sub in sid.sub_authorities() {
        text.push_str(&format!("-{sub}"));
    }
    text
}

#[test]
fn logon_types_confer_the_documented_sids() {
    let sid_of = |t| logon_type_sid(t).map(|s| text_of(&s));
    assert_eq!(sid_of(LogonType::Interactive).as_deref(), Some("S-1-5-4"));
    assert_eq!(sid_of(LogonType::Network).as_deref(), Some("S-1-5-2"));
    assert_eq!(sid_of(LogonType::Batch).as_deref(), Some("S-1-5-3"));
    assert_eq!(sid_of(LogonType::Service).as_deref(), Some("S-1-5-6"));
}

#[test]
fn cleartext_network_is_indistinguishable_for_access_control() {
    // The distinction is recorded on the session for audit; it must not change
    // what the token can reach.
    assert_eq!(
        logon_type_sid(LogonType::NetworkCleartext).map(|s| text_of(&s)),
        logon_type_sid(LogonType::Network).map(|s| text_of(&s))
    );
}

#[test]
fn every_group_stapled_onto_a_token_is_numbered() {
    // These are added to every token regardless of what a source said, so each
    // needs a number: otherwise every principal on the machine is reported a
    // membership short.
    let user = sid("S-1-5-21-1-2-3-1000");
    let groups = token_groups(&user, &[], LogonType::Interactive);

    for text in ["S-1-1-0", "S-1-5-11", "S-1-2-0"] {
        let wanted = sid(text);
        assert!(
            groups.iter().any(|(sid, _)| *sid == wanted),
            "{text} is no longer stapled onto every token"
        );
        assert!(
            built_in(&wanted).is_some(),
            "{text} is stapled onto every token but carries no number"
        );
    }

    let interactive = sid("S-1-5-4");
    assert!(
        built_in(&interactive).is_none(),
        "a logon-type SID must stay unnumbered"
    );
}

#[test]
fn new_credentials_confers_no_group() {
    assert!(logon_type_sid(LogonType::NewCredentials).is_none());
}

/// The logon SID of a session.
fn logon(session: u64) -> Sid {
    Sid::build(5, &[5, (session >> 32) as u32, session as u32]).expect("a logon SID")
}

#[test]
fn a_logon_sid_is_recognised() {
    // Whatever the session id, and whatever its length.
    for session in [0u64, 1, 1000, u64::MAX] {
        let sid = logon(session);
        assert!(
            is_logon_sid(&sid),
            "{sid:?} must be recognised as a logon SID"
        );
    }
    assert!(is_logon_sid(&Sid::build(5, &[5]).unwrap()));
    assert!(is_logon_sid(&Sid::build(5, &[5, 7, 7, 7]).unwrap()));
}

#[test]
fn an_ordinary_sid_is_not_a_logon_sid() {
    let not_logon = [
        WellKnown::System.sid(),
        WellKnown::Everyone.sid(),
        WellKnown::Administrators.sid(),
        WellKnown::AuthenticatedUsers.sid(),
        sid("S-1-5-21-0-0-0-1000"),
        // S-1-5-4 (Interactive): NT Authority, but not sub-authority 5.
        Sid::build(5, &[4]).unwrap(),
        // Sub-authority 5 under a *different* authority is not a logon SID.
        Sid::build(1, &[5, 1, 2]).unwrap(),
    ];
    for sid in not_logon {
        assert!(!is_logon_sid(&sid), "{sid:?} is not a logon SID");
    }
}

const NO_FLAGS: Flags = Flags {
    non_inheritable: false,
    case_sensitive: false,
    use_for_deny_only: false,
    disabled: false,
    mandatory: false,
};

fn wire_claim(values: Values) -> Claim {
    Claim {
        name: "Department".into(),
        flags: NO_FLAGS,
        values,
        usable: true,
    }
}

#[test]
fn every_claim_value_type_converts() {
    let converted = |values| kacs_claims(&[wire_claim(values)]).map(|mut c| c.remove(0).values);

    assert_eq!(
        converted(Values::Int64(vec![-3, 7])),
        Some(TokenValues::Int64(vec![-3, 7]))
    );
    assert_eq!(
        converted(Values::Uint64(vec![u64::MAX])),
        Some(TokenValues::Uint64(vec![u64::MAX]))
    );
    assert_eq!(
        converted(Values::Boolean(vec![true, false])),
        Some(TokenValues::Boolean(vec![true, false]))
    );
    assert_eq!(
        converted(Values::String(vec!["Engineering".into()])),
        Some(TokenValues::String(vec!["Engineering".into()]))
    );
    assert_eq!(
        converted(Values::Octet(vec![vec![0xde, 0xad]])),
        Some(TokenValues::Octet(vec![vec![0xde, 0xad]]))
    );

    let administrators = WellKnown::Administrators.sid();
    assert_eq!(
        converted(Values::Sid(vec![administrators.to_bytes()])),
        Some(TokenValues::Sid(vec![administrators]))
    );
}

/// SIDs arrive as opaque bytes, so this is the first point one is held to being
/// a SID at all. Refusing the whole set rather than dropping the offender
/// matters: a claim is an input to access decisions, so losing one signs
/// somebody in against a policy nobody stated.
#[test]
fn a_claim_carrying_something_that_is_not_a_sid_refuses_the_whole_set() {
    let good = || wire_claim(Values::String(vec!["Engineering".into()]));
    let bad = || wire_claim(Values::Sid(vec![b"not a sid".to_vec()]));

    assert!(kacs_claims(&[good()]).is_some());
    assert_eq!(kacs_claims(&[bad()]), None);
    assert_eq!(
        kacs_claims(&[good(), bad()]),
        None,
        "one unusable claim must not leave the others to be believed"
    );
}

#[test]
fn the_flags_kacs_carries_on_a_token_survive() {
    const EMPTY: TokenFlags = TokenFlags {
        case_sensitive: false,
        use_for_deny_only: false,
        disabled: false,
    };
    let with = |flags| {
        kacs_claims(&[Claim {
            flags,
            ..wire_claim(Values::Int64(Vec::new()))
        }])
        .map(|mut c| c.remove(0).flags)
    };

    assert_eq!(
        with(Flags {
            case_sensitive: true,
            ..NO_FLAGS
        }),
        Some(TokenFlags {
            case_sensitive: true,
            ..EMPTY
        })
    );
    assert_eq!(
        with(Flags {
            use_for_deny_only: true,
            ..NO_FLAGS
        }),
        Some(TokenFlags {
            use_for_deny_only: true,
            ..EMPTY
        })
    );
    assert_eq!(
        with(Flags {
            disabled: true,
            ..NO_FLAGS
        }),
        Some(TokenFlags {
            disabled: true,
            ..EMPTY
        })
    );

    // These two govern a claim living in a *security descriptor*: removal by an
    // unprivileged caller, and inheritance to children. Neither has meaning on
    // a token.
    assert_eq!(
        with(Flags {
            mandatory: true,
            ..NO_FLAGS
        }),
        Some(EMPTY)
    );
    assert_eq!(
        with(Flags {
            non_inheritable: true,
            ..NO_FLAGS
        }),
        Some(EMPTY)
    );
}

#[test]
fn no_claims_converts_to_no_claims() {
    assert_eq!(kacs_claims(&[]), Some(Vec::new()));
}

#[test]
fn add_unique_keeps_the_first_mention() {
    let user = sid("S-1-5-21-0-0-0-1000");
    let mut groups = vec![(user.clone(), 0xf0)];

    // A source redundantly asserting the user must not strip OWNER back off by
    // re-adding it with plain attributes.
    add_unique(&mut groups, user.clone(), 0x01);
    assert_eq!(groups.len(), 1);
    assert_eq!(groups[0].1, 0xf0);

    add_unique(&mut groups, WellKnown::Everyone.sid(), 0x01);
    assert_eq!(groups.len(), 2);
}

#[test]
fn a_token_carries_the_principal_the_memberships_and_what_every_logon_gets() {
    let user = sid("S-1-5-21-1-2-3-1000");
    let group = sid("S-1-5-21-1-2-3-513");
    let everyone = sid("S-1-1-0");
    let session = logon(7);
    let groups = token_groups(
        &user,
        &[&group, &group, &everyone, &session],
        LogonType::Batch,
    );
    let expected = [
        (sid("S-1-5-21-1-2-3-1000"), PRINCIPAL),
        (sid("S-1-5-21-1-2-3-513"), MEMBER),
        (sid("S-1-1-0"), MEMBER),
        (sid("S-1-5-11"), MEMBER),
        (sid("S-1-2-0"), MEMBER),
        (sid("S-1-5-3"), MEMBER),
    ];
    for (position, wanted) in expected.iter().enumerate() {
        assert_eq!(groups.iter().filter(|(s, _)| *s == wanted.0).count(), 1);
        if position < 3 {
            assert_eq!(groups[position], *wanted);
        }
    }
    assert_eq!(groups.len(), expected.len());
    assert_eq!(index_of(&groups, &group), Some(2));
    assert_eq!(index_of(&groups, &session), None);
    assert_eq!(borrowed_sids(&groups).len(), groups.len());
}

#[test]
fn the_kernel_calls_a_logon_type_by_its_own_name() {
    assert_eq!(
        kacs_logon_type(LogonType::NetworkCleartext),
        KacsLogonType::NetworkCleartext
    );
    assert_eq!(
        kacs_logon_type(LogonType::Interactive),
        KacsLogonType::Interactive
    );
}

#[test]
fn evidence_decides_how_far_a_token_travels() {
    assert_eq!(
        Evidence::Verified.impersonation_level(),
        ImpersonationLevel::Delegation
    );
    assert_eq!(
        Evidence::Attested.impersonation_level(),
        ImpersonationLevel::Impersonation
    );
}

#[test]
fn a_minted_token_is_what_policy_and_derivation_say() {
    let user = sid("S-1-5-21-1-2-3-1000");
    let admins = sid("S-1-5-32-544");
    let groups = token_groups(&user, &[&admins], LogonType::Interactive);
    let projection = Projection {
        uid: 1_001_000,
        gid: 102,
        supplementary: vec![102],
    };
    let plan = mint(Minting {
        user: &user,
        groups: &groups,
        primary_group: &admins,
        projection: &projection,
        claims: &[],
        logon_type: LogonType::Interactive,
        auth_package: "lpsd",
        policy: Outcome {
            privileges: Privileges { bits: 5 },
            integrity: IntegrityLevel(12288),
            owner: Some(admins.clone()),
            default_dacl: None,
        },
        evidence: Evidence::Verified,
    });
    assert_eq!(plan.user, user);
    assert_eq!(plan.auth_package, "lpsd");
    assert_eq!(plan.source_name, SOURCE_NAME);
    assert_eq!(plan.session_type, KacsLogonType::Interactive);
    assert_eq!(plan.primary_group_index, index_of(&groups, &admins).unwrap());
    assert_eq!(plan.owner_index, index_of(&groups, &admins).unwrap());
    assert_eq!(plan.privileges, Privileges { bits: 5 });
    assert_eq!(plan.integrity, IntegrityLevel(12288));
    assert_eq!(plan.projection, projection);
    assert_eq!(plan.impersonation_level, ImpersonationLevel::Delegation);
}
