use authd::ident::{
    enumerate, lookup, may_ask_again, serve, Enumerate, EnumerateReply, Lookup, LookupReply,
    Received, Serving, MAX_REQUESTS_PER_CONNECTION,
};
use authd::identity::{Fields, Key, Kind, Outcome, Protocol, Record, Value, WithheldReason, UNIX_ID};
use authd::registry::Registry;
use authd::resolve;
use authd::resolve::{Enumerating, Page, Step};

const PROTOCOL: Protocol = Protocol {
    max_name_bytes: 256,
    known: Fields { bits: 127 },
};

const NOTHING: Fields = Fields { bits: 0 };
const NUMBER: Fields = Fields { bits: UNIX_ID };

/// Answer a lookup on a machine with no sources.
fn answer(request: Lookup) -> LookupReply {
    let registry = Registry::new();
    match serve(Received::Lookup(Some(request))) {
        Serving::Lookup(request) => match resolve::lookup(
            &registry,
            &request.key,
            request.kind,
            request.fields,
            PROTOCOL,
        ) {
            Step::Done(answer) => lookup(request.tag, answer),
            Step::Ask(_) => panic!("there is nobody to ask"),
        },
        other => panic!("expected a lookup, got {other:?}"),
    }
}

/// Answer an enumeration on a machine with no sources.
fn list(request: Enumerate) -> EnumerateReply {
    let registry = Registry::new();
    match serve(Received::Enumerate(Some(request))) {
        Serving::Enumerate(request) => {
            let page = match resolve::enumerate(
                &registry,
                request.kind,
                request.fields,
                &request.cursor,
                PROTOCOL,
            ) {
                Enumerating::Done(page) => Ok(page),
                Enumerating::Malformed => Err(Outcome::Malformed),
                Enumerating::Ask(_) => panic!("there is nobody to ask"),
            };
            enumerate(&request, false, page, PROTOCOL)
        }
        Serving::ReplyEnumerate(reply) => reply,
        other => panic!("expected an enumeration, got {other:?}"),
    }
}

fn number_of(record: &Record) -> Option<u32> {
    record.values.iter().find_map(|value| match value {
        Value::UnixId(id) => Some(*id),
        _ => None,
    })
}

/// No sources registered, so nothing holds the name, and the answer is a
/// definite absence rather than a hang or a fault.
#[test]
fn a_lookup_with_no_sources_is_not_found() {
    let reply = answer(Lookup {
        tag: 42,
        key: Key::Name("jack".into()),
        kind: Kind::Principal,
        fields: NUMBER,
    });
    assert_eq!(reply.tag, 42, "the tag must come back unchanged");
    assert_eq!(reply.outcome, Outcome::NotFound);
    assert!(reply.record.is_none());
}

/// Answered by the authority's own table, with no source consulted.
#[test]
fn a_well_known_group_resolves_without_a_source() {
    for key in [Key::Name("Everyone".into()), Key::UnixId(100)] {
        let shown = format!("{key:?}");
        let reply = answer(Lookup {
            tag: 1,
            key,
            kind: Kind::Group,
            fields: NUMBER,
        });
        assert_eq!(reply.outcome, Outcome::Found, "{shown}");
        let record = reply.record.expect("a record");
        assert_eq!(record.qualified_name, "Everyone");
        assert_eq!(record.kind_found, Kind::Group);
        assert_eq!(number_of(&record), Some(100));
    }
}

/// `Interactive` and its siblings are properties of a session rather than of an
/// account, so they are nameable and unnumbered.
#[test]
fn a_logon_sid_is_nameable_but_carries_no_number() {
    let reply = answer(Lookup {
        tag: 1,
        key: Key::Name("Interactive".into()),
        kind: Kind::Group,
        fields: NUMBER,
    });
    let record = reply.record.expect("a record");
    assert!(number_of(&record).is_none());
    assert_eq!(
        record
            .withheld
            .iter()
            .find(|withheld| withheld.field == NUMBER)
            .map(|withheld| withheld.reason),
        Some(WithheldReason::Absent)
    );
}

#[test]
fn a_well_known_group_is_not_answered_to_a_principal_request() {
    let reply = answer(Lookup {
        tag: 1,
        key: Key::Name("Everyone".into()),
        kind: Kind::Principal,
        fields: NOTHING,
    });
    assert_eq!(reply.outcome, Outcome::NotFound);
}

/// A name no source is permitted to hold is refused here rather than asked
/// about, so `jack@local` is a clean answer instead of a mysterious absence.
#[test]
fn a_name_with_a_reserved_character_is_malformed() {
    for name in ["jack@local", "PEIOS\\jack", "jack/x", "jack:x", "jack,x"] {
        let reply = answer(Lookup {
            tag: 1,
            key: Key::Name(name.into()),
            kind: Kind::Any,
            fields: NOTHING,
        });
        assert_eq!(reply.outcome, Outcome::Malformed, "{name}");
    }
}

#[test]
fn a_key_that_is_not_a_sid_is_malformed() {
    let reply = answer(Lookup {
        tag: 1,
        key: Key::Sid(vec![0xff, 0xff]),
        kind: Kind::Any,
        fields: NOTHING,
    });
    assert_eq!(reply.outcome, Outcome::Malformed);
}

/// Several requests on one connection, answered in order.
#[test]
fn a_connection_carries_many_requests() {
    for tag in 1..=5u32 {
        assert!(may_ask_again(tag as usize - 1));
        let reply = answer(Lookup {
            tag,
            key: Key::Name("Everyone".into()),
            kind: Kind::Group,
            fields: NOTHING,
        });
        assert_eq!(reply.tag, tag);
    }
    assert!(!may_ask_again(MAX_REQUESTS_PER_CONNECTION));
}

/// A message of another protocol closes the connection.
#[test]
fn a_logon_message_is_not_served_here() {
    assert_eq!(
        serve(Received::Unserved),
        Serving::Close,
        "a LogonStart on the identity socket must close the connection"
    );
    assert_eq!(serve(Received::MalformedHeader), Serving::Close);
    assert_eq!(serve(Received::Nothing), Serving::Close);
}

/// Every well-known group that carries a number, with no source registered.
#[test]
fn enumerating_groups_lists_the_well_known_ones() {
    let reply = list(Enumerate {
        tag: 9,
        kind: Kind::Group,
        fields: NUMBER,
        of: None,
        cursor: Vec::new(),
    });
    assert_eq!(reply.tag, 9);
    assert_eq!(reply.outcome, Outcome::Found);
    assert!(reply
        .entries
        .iter()
        .any(|e| e.qualified_name == "Administrators"));
    assert!(
        !reply
            .entries
            .iter()
            .any(|e| e.qualified_name == "Interactive"),
        "a session property is not a row in a group table"
    );
    assert!(reply.next.is_empty());
}

/// They belong to the authority rather than to a source, so a caller resuming a
/// walk must not be shown them again with every page.
#[test]
fn the_well_known_groups_appear_on_the_first_page_only() {
    let reply = list(Enumerate {
        tag: 1,
        kind: Kind::Group,
        fields: NOTHING,
        of: None,
        cursor: vec![0, 0, 0, 0],
    });
    assert!(reply.entries.is_empty());
}

#[test]
fn enumerating_anything_at_all_is_malformed() {
    let reply = list(Enumerate {
        tag: 1,
        kind: Kind::Any,
        fields: NOTHING,
        of: None,
        cursor: Vec::new(),
    });
    assert_eq!(reply.outcome, Outcome::Malformed);
}

/// A body that makes no sense has no tag to answer under.
#[test]
fn a_request_that_makes_no_sense_is_answered_without_a_tag() {
    assert_eq!(
        serve(Received::Lookup(None)),
        Serving::ReplyLookup(LookupReply {
            tag: 0,
            outcome: Outcome::Malformed,
            record: None,
        })
    );
    match serve(Received::Enumerate(None)) {
        Serving::ReplyEnumerate(reply) => {
            assert_eq!((reply.tag, reply.outcome), (0, Outcome::Malformed));
            assert!(reply.entries.is_empty());
        }
        other => panic!("expected a refusal, got {other:?}"),
    }
}

/// The members of one group are its own, without the well-known ones.
#[test]
fn members_are_listed_alone() {
    let request = Enumerate {
        tag: 3,
        kind: Kind::Group,
        fields: NOTHING,
        of: Some(Key::Name("devs".into())),
        cursor: Vec::new(),
    };
    match serve(Received::Enumerate(Some(request))) {
        Serving::Members(request, key) => {
            assert_eq!(key, Key::Name("devs".into()));
            let page = Page {
                entries: Vec::new(),
                next: vec![1],
                incomplete: Vec::new(),
            };
            let reply = enumerate(&request, true, Ok(page), PROTOCOL);
            assert_eq!((reply.tag, reply.outcome), (3, Outcome::Found));
            assert!(reply.entries.is_empty());
            assert_eq!(reply.next, vec![1]);
            let refused = enumerate(&request, true, Err(Outcome::Unavailable), PROTOCOL);
            assert_eq!((refused.tag, refused.outcome), (3, Outcome::Unavailable));
        }
        other => panic!("expected the members of a group, got {other:?}"),
    }
}
