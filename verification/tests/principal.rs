use authd::logon::{LogonType, LogonTypes};
use authd::policy::principal::{
    default_dacl, default_dacl_of, evaluate, floor, integrity, integrity_of, logon_socket_descriptor,
    logon_types_of, originator_logon_types, owner, owner_of, parse_logon_type_names,
    privilege_list, read, resolve, tier, tier_name, Acl, Configured, Entry, IntegrityLevel,
    Offered, Opened, Privileges, Reading, Record, DEFAULT_INTEGRITY, HIGH, LOW, MAX_RECORDS,
    MEDIUM, SYSTEM, UNTRUSTED,
};
use authd::policy::principal;
use authd::policy::{Value, ValueType};
use authd::sid::Sid;

/// A SID written as `S-1-{authority}-{sub-authorities}`.
fn sid(text: &str) -> Sid {
    let mut parts = text.split('-').skip(2);
    let authority: u64 = parts
        .next()
        .expect("an authority")
        .parse()
        .expect("a number");
    let subs: Vec<u32> = parts.map(|part| part.parse().expect("a number")).collect();
    Sid::build(authority, &subs).expect("a well-formed SID")
}

/// The text of a SID.
fn text_of(sid: &Sid) -> String {
    let mut text = format!("S-1-{}", sid.authority());
    for sub in sid.sub_authorities() {
        text.push_str(&format!("-{sub}"));
    }
    text
}

const CREATE_TOKEN: Privileges = Privileges { bits: 1 << 2 };
const TCB: Privileges = Privileges { bits: 1 << 7 };
const LOAD_DRIVER: Privileges = Privileges { bits: 1 << 10 };
const BACKUP: Privileges = Privileges { bits: 1 << 17 };
const RESTORE: Privileges = Privileges { bits: 1 << 18 };
const DEBUG: Privileges = Privileges { bits: 1 << 20 };
const CHANGE_NOTIFY: Privileges = Privileges { bits: 1 << 23 };

/// The SID a text literally spells, if it spells one.
fn literal(text: &str) -> Option<Sid> {
    if text.starts_with("S-1-") {
        Some(sid(text))
    } else {
        None
    }
}

fn entry() -> Entry {
    Entry {
        privileges: None,
        integrity: None,
        owner: None,
        default_dacl: None,
        logon_types: None,
    }
}

fn record(name: &str, privileges: Option<Privileges>, level: Option<u32>) -> Record {
    Record {
        sid: resolve(name, literal(name)).expect("a resolvable principal"),
        entry: Entry {
            privileges,
            integrity: level.map(IntegrityLevel),
            ..entry()
        },
    }
}

fn owning(name: &str, owner: &str) -> Record {
    Record {
        sid: resolve(name, literal(name)).expect("a resolvable principal"),
        entry: Entry {
            owner: Some(resolve(owner, literal(owner)).expect("a resolvable owner")),
            ..entry()
        },
    }
}

fn union(records: &[Record], user: &Sid, groups: &[&Sid], denied: Privileges) -> Privileges {
    principal::union(records, user, groups).without(denied)
}

// ---------------------------------------------------------------------------
// Integrity composition
// ---------------------------------------------------------------------------

#[test]
fn a_principal_no_record_names_gets_the_default() {
    let user = sid("S-1-5-21-1-2-3-1000");
    assert_eq!(
        integrity(&[], &user, &[]),
        IntegrityLevel(DEFAULT_INTEGRITY)
    );
    assert_eq!(DEFAULT_INTEGRITY, MEDIUM);
}

#[test]
fn groups_compose_by_maximum() {
    let user = sid("S-1-5-21-1-2-3-1000");
    let admins = sid("S-1-5-32-544");
    let everyone = sid("S-1-1-0");
    let records = [
        record("Administrators", None, Some(HIGH)),
        record("Everyone", None, Some(LOW)),
    ];
    assert_eq!(
        integrity(&records, &user, &[&admins, &everyone]),
        IntegrityLevel(HIGH)
    );
}

/// The rule that makes lowering possible at all. Under a flat maximum this
/// principal would come out Medium and could never be pinned down.
#[test]
fn the_users_own_record_wins_outright_even_when_lower() {
    let user = sid("S-1-5-21-1-2-3-1000");
    let admins = sid("S-1-5-32-544");
    let records = [
        record("Administrators", None, Some(HIGH)),
        record("S-1-5-21-1-2-3-1000", None, Some(LOW)),
    ];
    assert_eq!(
        integrity(&records, &user, &[&admins]),
        IntegrityLevel(LOW),
        "a group must not impose a floor on a member"
    );
}

/// Precedence is per value: a user record that says nothing about integrity
/// must not suppress the group computation.
#[test]
fn a_user_record_without_an_integrity_value_falls_through_to_the_groups() {
    let user = sid("S-1-5-21-1-2-3-1000");
    let admins = sid("S-1-5-32-544");
    let records = [
        record("S-1-5-21-1-2-3-1000", Some(BACKUP), None),
        record("Administrators", None, Some(HIGH)),
    ];
    assert_eq!(
        integrity(&records, &user, &[&admins]),
        IntegrityLevel(HIGH)
    );
}

/// The emergent property worth keeping: policy can be written against how a
/// logon happened, not only who it was.
#[test]
fn a_logon_type_sid_can_carry_a_level() {
    let user = sid("S-1-5-21-1-2-3-1000");
    let network = sid("S-1-5-2");
    let records = [record("Network", None, Some(LOW))];
    assert_eq!(
        integrity(&records, &user, &[&network]),
        IntegrityLevel(LOW)
    );
}

#[test]
fn a_record_for_a_principal_the_token_does_not_carry_is_ignored() {
    let user = sid("S-1-5-21-1-2-3-1000");
    let records = [record("Administrators", None, Some(HIGH))];
    assert_eq!(
        integrity(&records, &user, &[]),
        IntegrityLevel(DEFAULT_INTEGRITY),
        "policy must not apply to a principal who is not in the group"
    );
}

// ---------------------------------------------------------------------------
// Privilege composition
// ---------------------------------------------------------------------------

#[test]
fn privileges_union_across_every_sid_on_the_token() {
    let user = sid("S-1-5-21-1-2-3-1000");
    let admins = sid("S-1-5-32-544");
    let everyone = sid("S-1-1-0");
    let records = [
        record("Everyone", Some(CHANGE_NOTIFY), None),
        record("Administrators", Some(BACKUP.union(RESTORE)), None),
    ];
    assert_eq!(
        union(
            &records,
            &user,
            &[&admins, &everyone],
            Privileges::empty()
        ),
        CHANGE_NOTIFY.union(BACKUP).union(RESTORE)
    );
}

/// The lockdown knob: one edit that no record the operator has not read can
/// defeat, applied after the union rather than before.
#[test]
fn denied_privileges_beat_every_record() {
    let user = sid("S-1-5-21-1-2-3-1000");
    let admins = sid("S-1-5-32-544");
    let records = [record("Administrators", Some(BACKUP.union(DEBUG)), None)];
    assert_eq!(union(&records, &user, &[&admins], DEBUG), BACKUP);
}

#[test]
fn an_empty_privilege_list_grants_nothing() {
    let user = sid("S-1-5-21-1-2-3-1000");
    let records = [record(
        "S-1-5-21-1-2-3-1000",
        Some(Privileges::empty()),
        None,
    )];
    assert_eq!(
        union(&records, &user, &[], Privileges::empty()),
        Privileges::empty()
    );
}

// ---------------------------------------------------------------------------
// The floor
// ---------------------------------------------------------------------------

/// An unconfigured machine must still be able to start a shell: without
/// ChangeNotify a process cannot traverse a directory to reach a file.
#[test]
fn the_floor_keeps_an_unseeded_machine_usable() {
    let user = sid("S-1-5-21-1-2-3-1000");
    let everyone = sid("S-1-1-0");
    let configured = floor(CHANGE_NOTIFY);
    assert_eq!(
        union(&configured.records, &user, &[&everyone], configured.denied),
        CHANGE_NOTIFY
    );
}

/// The floor is a floor, not a useful policy: no administrative power comes from
/// it, so a machine whose seed never applied is safe as well as usable.
#[test]
fn the_floor_grants_no_administrative_privilege() {
    let user = sid("S-1-5-21-1-2-3-1000");
    let admins = sid("S-1-5-32-544");
    let everyone = sid("S-1-1-0");
    let configured = floor(CHANGE_NOTIFY);
    let granted = union(
        &configured.records,
        &user,
        &[&admins, &everyone],
        configured.denied,
    );
    for forbidden in [BACKUP, RESTORE, DEBUG, LOAD_DRIVER, TCB, CREATE_TOKEN] {
        assert!(
            !granted.contains(forbidden),
            "the floor must not grant {forbidden:?}"
        );
    }
}

#[test]
fn every_floor_entry_names_a_principal_that_resolves() {
    let configured = floor(CHANGE_NOTIFY);
    assert_eq!(
        configured.records.len(),
        FLOOR.len(),
        "a floor entry did not resolve"
    );
    for (record, name) in configured.records.iter().zip(FLOOR) {
        assert_eq!(Some(&record.sid), resolve(name, None).as_ref());
    }
}

/// The principals the floor names.
const FLOOR: [&str; 1] = ["Everyone"];

// ---------------------------------------------------------------------------
// Reading values
// ---------------------------------------------------------------------------

#[test]
fn tiers_are_named_case_insensitively() {
    assert_eq!(tier("Medium"), Some(IntegrityLevel(MEDIUM)));
    assert_eq!(tier("medium"), Some(IntegrityLevel(MEDIUM)));
    assert_eq!(tier("  HIGH  "), Some(IntegrityLevel(HIGH)));
    assert_eq!(tier("Untrusted"), Some(IntegrityLevel(UNTRUSTED)));
    assert_eq!(tier("System"), Some(IntegrityLevel(SYSTEM)));
    assert_eq!(tier("Meduim"), None);
    assert_eq!(tier(""), None);
}

#[test]
fn every_tier_round_trips() {
    for (name, level) in [
        ("Untrusted", UNTRUSTED),
        ("Low", LOW),
        ("Medium", MEDIUM),
        ("High", HIGH),
        ("System", SYSTEM),
    ] {
        assert_eq!(tier(name), Some(IntegrityLevel(level)));
        assert_eq!(tier_name(IntegrityLevel(level)), Some(name));
    }
}

/// A level between the tiers has no name, which is precisely why the numeric
/// spelling is accepted.
#[test]
fn a_level_between_tiers_has_no_name() {
    assert_eq!(tier_name(IntegrityLevel(8193)), None);
}

#[test]
fn a_record_name_resolves_by_well_known_name_or_by_sid() {
    let resolved = |name: &str| resolve(name, literal(name)).map(|s| text_of(&s));
    assert_eq!(
        resolved("Administrators"),
        Some("S-1-5-32-544".to_string())
    );
    assert_eq!(resolved("S-1-5-32-544"), Some("S-1-5-32-544".to_string()));
    assert_eq!(
        resolved("S-1-5-21-1-2-3-1000"),
        Some("S-1-5-21-1-2-3-1000".to_string())
    );
}

// ---------------------------------------------------------------------------
// Owner
// ---------------------------------------------------------------------------

#[test]
fn nobody_named_means_the_principal_owns_what_they_create() {
    let user = sid("S-1-5-21-1-2-3-1000");
    assert_eq!(owner(&[], &user, &[]), None);
}

/// The case the setting exists for: objects an administrator creates are owned
/// by the group rather than by the individual.
#[test]
fn a_group_record_may_name_the_owner() {
    let user = sid("S-1-5-21-1-2-3-1000");
    let admins = sid("S-1-5-32-544");
    let records = [owning("Administrators", "Administrators")];
    assert_eq!(
        owner(&records, &user, &[&admins]),
        Some(sid("S-1-5-32-544"))
    );
}

#[test]
fn the_users_own_record_wins() {
    let user = sid("S-1-5-21-1-2-3-1000");
    let admins = sid("S-1-5-32-544");
    let records = [
        owning("Administrators", "Administrators"),
        owning("S-1-5-21-1-2-3-1000", "Users"),
    ];
    assert_eq!(
        owner(&records, &user, &[&admins]),
        Some(sid("S-1-5-32-545"))
    );
}

/// Groups have no order, so two disagreeing must not be resolved by whichever
/// the registry happened to enumerate first.
#[test]
fn two_groups_naming_different_owners_fall_back_to_the_creator() {
    let user = sid("S-1-5-21-1-2-3-1000");
    let admins = sid("S-1-5-32-544");
    let users = sid("S-1-5-32-545");
    let records = [
        owning("Administrators", "Administrators"),
        owning("Users", "Users"),
    ];
    assert_eq!(
        owner(&records, &user, &[&admins, &users]),
        None,
        "an ambiguous owner must not be resolved arbitrarily"
    );
}

/// Agreement is not ambiguity.
#[test]
fn two_groups_naming_the_same_owner_agree() {
    let user = sid("S-1-5-21-1-2-3-1000");
    let admins = sid("S-1-5-32-544");
    let users = sid("S-1-5-32-545");
    let records = [
        owning("Administrators", "Administrators"),
        owning("Users", "Administrators"),
    ];
    assert_eq!(
        owner(&records, &user, &[&admins, &users]),
        Some(sid("S-1-5-32-544"))
    );
}

// ---------------------------------------------------------------------------
// Default DACL
// ---------------------------------------------------------------------------

/// An access control list, standing for what some SDDL parses to.
fn acl(sddl: &str) -> Acl {
    Acl {
        bytes: sddl.as_bytes().to_vec(),
    }
}

/// How many entries a list has.
fn entries(acl: &Acl) -> usize {
    acl.bytes.iter().filter(|byte| **byte == b'(').count()
}

fn with_dacl(name: &str, sddl_text: &str) -> Record {
    Record {
        sid: resolve(name, literal(name)).expect("a resolvable principal"),
        entry: Entry {
            default_dacl: Some(acl(sddl_text)),
            ..entry()
        },
    }
}

#[test]
fn no_record_naming_one_leaves_the_system_default() {
    let user = sid("S-1-5-21-1-2-3-1000");
    assert!(default_dacl(&[], &user, &[]).is_none());
}

#[test]
fn a_group_record_may_name_a_default_dacl() {
    let user = sid("S-1-5-21-1-2-3-1000");
    let admins = sid("S-1-5-32-544");
    let records = [with_dacl("Administrators", "D:(A;;GA;;;SY)(A;;GA;;;BA)")];
    let chosen = default_dacl(&records, &user, &[&admins]).expect("the group's DACL");
    assert_eq!(entries(&chosen), 2);
}

#[test]
fn the_users_own_default_dacl_wins() {
    let user = sid("S-1-5-21-1-2-3-1000");
    let admins = sid("S-1-5-32-544");
    let records = [
        with_dacl("Administrators", "D:(A;;GA;;;SY)(A;;GA;;;BA)"),
        with_dacl("S-1-5-21-1-2-3-1000", "D:(A;;GA;;;SY)"),
    ];
    let chosen = default_dacl(&records, &user, &[&admins]).expect("the user's DACL");
    assert_eq!(entries(&chosen), 1);
}

#[test]
fn two_groups_naming_different_default_dacls_fall_back() {
    let user = sid("S-1-5-21-1-2-3-1000");
    let admins = sid("S-1-5-32-544");
    let users = sid("S-1-5-32-545");
    let records = [
        with_dacl("Administrators", "D:(A;;GA;;;BA)"),
        with_dacl("Users", "D:(A;;GA;;;SY)"),
    ];
    assert!(
        default_dacl(&records, &user, &[&admins, &users]).is_none(),
        "an ambiguous default DACL must not be resolved arbitrarily"
    );
}

#[test]
fn two_groups_naming_the_same_default_dacl_agree() {
    let user = sid("S-1-5-21-1-2-3-1000");
    let admins = sid("S-1-5-32-544");
    let users = sid("S-1-5-32-545");
    let records = [
        with_dacl("Administrators", "D:(A;;GA;;;SY)"),
        with_dacl("Users", "D:(A;;GA;;;SY)"),
    ];
    assert!(default_dacl(&records, &user, &[&admins, &users]).is_some());
}

#[test]
fn a_name_that_is_neither_well_known_nor_a_sid_does_not_resolve() {
    assert_eq!(resolve("Administrtors", None), None);
    assert_eq!(resolve("Domain Admins", None), None);
    assert_eq!(resolve("BUILTIN\\Administrators", None), None);
    assert_eq!(resolve("", None), None);
}

// ---------------------------------------------------------------------------
// Originator logon types
// ---------------------------------------------------------------------------

/// How many logon types a set holds.
fn count(types: LogonTypes) -> usize {
    [
        LogonType::Interactive,
        LogonType::Network,
        LogonType::Batch,
        LogonType::Service,
        LogonType::NetworkCleartext,
        LogonType::NewCredentials,
    ]
    .into_iter()
    .filter(|logon_type| types.has(*logon_type))
    .count()
}

#[test]
fn logon_type_names_parse_to_the_bitmask() {
    let types = parse_logon_type_names(&["Interactive", "Network"]);
    assert!(types.has(LogonType::Interactive));
    assert!(types.has(LogonType::Network));
    assert!(!types.has(LogonType::Service));
}

#[test]
fn an_unknown_logon_type_name_is_dropped_not_fatal() {
    let types = parse_logon_type_names(&["Interactive", "Telepathic"]);
    assert!(types.has(LogonType::Interactive));
    assert_eq!(count(types), 1);
}

#[test]
fn an_empty_list_grants_nothing_despite_the_wire_default() {
    // `permits` substitutes the default for the empty set, which is right for a
    // principal's own sign-on surface and would turn "may originate nothing"
    // into "may originate almost anything" here. The set itself is the grant.
    let types = parse_logon_type_names(&[]);
    assert!(!types.stated());
    assert!(
        types.permits(LogonType::Interactive),
        "permits() substitutes the default"
    );
    assert!(!types.has(LogonType::Interactive));
}

// ---------------------------------------------------------------------------
// Reading the whole key
// ---------------------------------------------------------------------------

fn value(ty: ValueType, data: &[u8]) -> Value {
    Value {
        ty,
        data: data.to_vec(),
    }
}

#[test]
fn an_absent_key_is_the_floor_and_an_unreadable_one_grants_nothing() {
    match read(Opened::Absent, CHANGE_NOTIFY) {
        Reading::Settled(configured) => assert_eq!(configured, floor(CHANGE_NOTIFY)),
        Reading::Underway(_) => panic!("there is nothing to read"),
    }
    match read(Opened::Unreadable, CHANGE_NOTIFY) {
        Reading::Settled(configured) => assert!(configured.records.is_empty()),
        Reading::Underway(_) => panic!("there is nothing to read"),
    }
}

#[test]
fn records_are_taken_until_there_are_too_many() {
    let mut reader = match read(Opened::Present, CHANGE_NOTIFY) {
        Reading::Underway(reader) => reader,
        Reading::Settled(_) => panic!("there is something to read"),
    };
    assert_eq!(
        reader.offer(b"Nobody In Particular", None, Some(entry())),
        Offered::Nobody
    );
    assert_eq!(reader.offer(&[0xff], None, Some(entry())), Offered::NotText);
    assert_eq!(
        reader.offer(b"Everyone", None, None),
        Offered::Unreadable
    );
    for _ in 0..MAX_RECORDS {
        assert!(reader.wants_more());
        assert_eq!(
            reader.offer(b"Everyone", None, Some(entry())),
            Offered::Taken
        );
    }
    assert!(!reader.wants_more());
    assert_eq!(
        reader.offer(b"Everyone", None, Some(entry())),
        Offered::Full
    );
    let configured = reader.finish(Some(DEBUG));
    assert_eq!(configured.records.len(), MAX_RECORDS);
    assert_eq!(configured.denied, DEBUG);
    assert_eq!(configured.records[0].sid, sid("S-1-1-0"));
}

#[test]
fn values_read_as_what_they_are_for() {
    assert_eq!(
        integrity_of(&value(ValueType::Dword, &8193u32.to_le_bytes())),
        Some(IntegrityLevel(8193))
    );
    assert_eq!(
        integrity_of(&value(ValueType::Sz, b"High\0")),
        Some(IntegrityLevel(HIGH))
    );
    assert_eq!(integrity_of(&value(ValueType::Sz, b"Tall\0")), None);
    assert_eq!(
        owner_of(&value(ValueType::Sz, b"Administrators\0"), None),
        Some(sid("S-1-5-32-544"))
    );
    assert_eq!(
        owner_of(&value(ValueType::Dword, &[0; 4]), Some(sid("S-1-1-0"))),
        None
    );
    assert_eq!(
        default_dacl_of(&value(ValueType::Sz, b"D:\0"), Some(acl("D:"))),
        Some(acl("D:"))
    );
    assert_eq!(default_dacl_of(&value(ValueType::Sz, b"D:\0"), None), None);
    assert_eq!(
        default_dacl_of(&value(ValueType::Dword, &[0; 4]), Some(acl("D:"))),
        None
    );
    assert_eq!(
        logon_socket_descriptor(Some(&value(ValueType::Sz, b" O:SY \0"))),
        Some("O:SY".to_string())
    );
    assert_eq!(logon_socket_descriptor(None), None);
    assert_eq!(
        logon_types_of(&value(ValueType::MultiSz, b"Interactive\0BATCH\0Batch\0\0")),
        Some(
            LogonTypes::unstated()
                .with(LogonType::Interactive)
                .with(LogonType::Batch)
        )
    );
    assert_eq!(logon_types_of(&value(ValueType::Sz, b"Interactive\0")), None);
    assert_eq!(
        privilege_list(&[Some(BACKUP), None, Some(DEBUG)]),
        BACKUP.union(DEBUG)
    );
}

/// Only the peer's own record says what it may originate.
#[test]
fn originating_is_granted_to_the_peer_and_not_to_its_groups() {
    let peer = sid("S-1-5-80-1-2-3-4-5");
    let types = LogonTypes::unstated().with(LogonType::Network);
    let configured = Configured {
        records: vec![
            record("Everyone", None, None),
            Record {
                sid: peer.clone(),
                entry: Entry {
                    logon_types: Some(types),
                    ..entry()
                },
            },
        ],
        denied: Privileges::empty(),
    };
    assert_eq!(originator_logon_types(&configured, &peer), Some(types));
    assert_eq!(
        originator_logon_types(&configured, &sid("S-1-5-80-9-9-9-9-9")),
        None
    );
}

#[test]
fn evaluation_composes_every_rule() {
    let user = sid("S-1-5-21-1-2-3-1000");
    let admins = sid("S-1-5-32-544");
    let configured = Configured {
        records: vec![
            Record {
                sid: admins.clone(),
                entry: Entry {
                    privileges: Some(BACKUP.union(DEBUG)),
                    integrity: Some(IntegrityLevel(HIGH)),
                    owner: Some(admins.clone()),
                    ..entry()
                },
            },
            // Only the first record for a principal is read for its owner.
            owning("Administrators", "Users"),
        ],
        denied: DEBUG,
    };
    let outcome = evaluate(&configured, &user, &[&admins]);
    assert_eq!(outcome.privileges, BACKUP);
    assert_eq!(outcome.integrity, IntegrityLevel(HIGH));
    assert_eq!(outcome.owner, Some(sid("S-1-5-32-544")));
    assert_eq!(outcome.default_dacl, None);
}
