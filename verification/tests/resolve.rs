use authd::identity::{
    EnumerateResult, Fields, Key, Kind, Outcome, Protocol, QueryEntry, Record, Reference,
    SourceKey, Value, Withheld, WithheldReason, GROUPS, HOME, MEMBERS, PRIMARY_GROUP, SHELL,
    UNIX_ID,
};
use authd::psi::Capabilities;
use authd::registry::{Configured, Registry};
use authd::resolve::{
    ask, enumerate, enumerate_members, found, gated_fields, lookup, make_cursor, may_ask,
    may_ask_page, members_request, name_is_usable, owning_group_source, route, split_cursor,
    well_known_page, Answer, Enumerating, Heard, HeardPage, MembersRequest, Owning, Page, Reply,
    Route, RoutingStep, Step,
};
use authd::sid::Sid;
use authd::source::{Facts, Source, Stalled};
use authd::unix_id;

const DOMAIN: &str = "S-1-5-21-1-2-3";
const BASE: u32 = 1_000_000;

const PROTOCOL: Protocol = Protocol {
    max_name_bytes: 256,
    known: Fields { bits: 127 },
};

const NOTHING: Fields = Fields { bits: 0 };
const PASSWD: Fields = Fields {
    bits: UNIX_ID | PRIMARY_GROUP | HOME | SHELL,
};

fn of(field: u32) -> Fields {
    Fields { bits: field }
}

/// A SID written as `S-1-{authority}-{sub-authorities}`.
fn sid(text: &str) -> Sid {
    let mut parts = text.split('-').skip(2);
    let authority: u64 = parts
        .next()
        .expect("an authority")
        .parse()
        .expect("a number");
    let subs: Vec<u32> = parts.map(|part| part.parse().expect("a number")).collect();
    Sid::build(authority, &subs).expect("a well-formed SID")
}

fn range() -> unix_id::Range {
    unix_id::Range::new(BASE, 1_000_000).expect("a usable range")
}

fn capabilities(queries: bool, enumerates: bool, members: bool) -> Capabilities {
    Capabilities {
        queries,
        enumerates,
        members,
        pushes_changes: false,
        changes_credentials: false,
    }
}

/// How a source behaves when it is asked.
enum Behaviour {
    /// Answers every query with one entry, or with "not found".
    Answers(Option<QueryEntry>),
    /// Has gone away without the registry having noticed yet.
    Silent,
}

/// A registry and the sources behind it, standing in for the connections.
struct Machine {
    registry: Registry,
    behaviours: Vec<(String, Behaviour)>,
    /// Who was asked, in order.
    asked: Vec<String>,
}

fn machine(configured: &[(&str, u32, Option<unix_id::Range>)]) -> Machine {
    Machine {
        registry: Registry::expecting(
            configured
                .iter()
                .map(|(name, search_order, unix_id_range)| Configured {
                    name: (*name).into(),
                    search_order: *search_order,
                    unix_id_range: *unix_id_range,
                })
                .collect(),
        ),
        behaviours: Vec::new(),
        asked: Vec::new(),
    }
}

impl Machine {
    fn register(
        &mut self,
        name: &str,
        domain: &str,
        order: u32,
        range: Option<unix_id::Range>,
        capabilities: Capabilities,
        foreign: bool,
        behaviour: Behaviour,
    ) {
        let source = Source::new(
            name.into(),
            foreign,
            sid(domain),
            range,
            capabilities,
            order,
        );
        self.registry.accept(source).expect("must be let in");
        self.behaviours.push((name.into(), behaviour));
    }

    fn add_stub(&mut self, name: &str, domain: &str, order: u32, answer: Option<QueryEntry>) {
        self.register(
            name,
            domain,
            order,
            Some(range()),
            capabilities(true, true, false),
            false,
            Behaviour::Answers(answer),
        );
    }

    /// Ask a source a question, if it may be asked one.
    fn query(&mut self, source: &Facts) -> Reply {
        if !may_ask(source, true) {
            return Reply::Unavailable;
        }
        self.asked.push(source.name.clone());
        let behaviour = self.behaviours.iter().find(|b| b.0 == source.name);
        ask(match behaviour {
            Some((_, Behaviour::Answers(Some(entry)))) => Heard::Results(vec![copy(entry)]),
            Some((_, Behaviour::Answers(None))) => Heard::Results(vec![not_found()]),
            Some((_, Behaviour::Silent)) => Heard::Stalled(Stalled::SourceGone),
            None => Heard::NotOpened,
        })
    }

    /// Ask a source for a page.
    fn page(&self, source: &Facts) -> HeardPage {
        match self.behaviours.iter().find(|b| b.0 == source.name) {
            Some((_, Behaviour::Answers(answer))) => HeardPage::Page(EnumerateResult {
                outcome: Outcome::Found,
                entries: answer.iter().map(copy).collect(),
                next: Vec::new(),
            }),
            _ => HeardPage::Otherwise,
        }
    }

    fn lookup(&mut self, key: &Key, kind: Kind, fields: Fields) -> Answer {
        let mut step = lookup(&self.registry, key, kind, fields, PROTOCOL);
        loop {
            match step {
                Step::Done(answer) => return answer,
                Step::Ask(waiting) => {
                    let reply = self.query(&waiting.source().clone());
                    step = waiting.hear(reply);
                }
            }
        }
    }

    fn route(&mut self, identifier: &[u8]) -> Route {
        let mut step = route(&self.registry, identifier, PROTOCOL);
        loop {
            match step {
                RoutingStep::Done(route) => return route,
                RoutingStep::Ask(waiting) => {
                    let reply = self.query(&waiting.source().clone());
                    step = waiting.hear(reply);
                }
            }
        }
    }

    fn enumerate(&self, kind: Kind, fields: Fields, cursor: &[u8]) -> Result<Page, Outcome> {
        let mut stands = enumerate(&self.registry, kind, fields, cursor, PROTOCOL);
        loop {
            match stands {
                Enumerating::Done(page) => return Ok(page),
                Enumerating::Malformed => return Err(Outcome::Malformed),
                Enumerating::Ask(waiting) => {
                    let heard = if may_ask_page(waiting.source(), true) {
                        self.page(waiting.source())
                    } else {
                        HeardPage::NotOpened
                    };
                    stands = waiting.hear(heard);
                }
            }
        }
    }

    fn members(&mut self, of: &Key, kind: Kind, fields: Fields) -> Result<Page, Outcome> {
        let mut stands = owning_group_source(&self.registry, of, PROTOCOL);
        loop {
            match stands {
                Owning::Refused(outcome) => return Err(outcome),
                Owning::Ask(waiting) => {
                    let reply = self.query(&waiting.source().clone());
                    stands = waiting.hear(reply);
                }
                Owning::Owned(source, key) => {
                    let heard = match members_request(&source, key, kind, fields, &[], PROTOCOL) {
                        Some(_) => self.page(&source),
                        None => HeardPage::NotOpened,
                    };
                    return enumerate_members(&source, heard, kind, fields, PROTOCOL);
                }
            }
        }
    }
}

/// A machine with one source that answers every query with one canned entry.
fn stub(name: &str, domain: &str, order: u32, answer: Option<QueryEntry>) -> Machine {
    let mut machine = machine(&[(name, order, Some(range()))]);
    machine.add_stub(name, domain, order, answer);
    machine
}

/// [`stub`] whose source may assert foreign memberships.
fn stub_with_foreign(name: &str, domain: &str, order: u32, answer: Option<QueryEntry>) -> Machine {
    let mut machine = machine(&[(name, order, Some(range()))]);
    machine.register(
        name,
        domain,
        order,
        Some(range()),
        capabilities(true, true, false),
        true,
        Behaviour::Answers(answer),
    );
    machine
}

fn not_found() -> QueryEntry {
    QueryEntry {
        outcome: Outcome::NotFound,
        sid: Vec::new(),
        canonical_name: String::new(),
        kind: Kind::Any,
        values: Vec::new(),
        withheld: Vec::new(),
    }
}

fn entry(sid_text: &str, name: &str, relative: u32) -> QueryEntry {
    QueryEntry {
        outcome: Outcome::Found,
        sid: sid(sid_text).to_bytes(),
        canonical_name: name.into(),
        kind: Kind::Principal,
        values: vec![
            Value::UnixId(relative),
            Value::Home(format!("/home/{name}")),
            Value::Shell("/bin/sh".into()),
        ],
        withheld: Vec::new(),
    }
}

fn copy_reference(reference: &Reference) -> Reference {
    Reference {
        sid: reference.sid.clone(),
        name: reference.name.clone(),
        unix_id: reference.unix_id,
    }
}

fn copy_value(value: &Value) -> Value {
    match value {
        Value::UnixId(id) => Value::UnixId(*id),
        Value::PrimaryGroup(reference) => Value::PrimaryGroup(copy_reference(reference)),
        Value::Groups(refs) => Value::Groups(refs.iter().map(copy_reference).collect()),
        Value::Members(refs) => Value::Members(refs.iter().map(copy_reference).collect()),
        Value::Home(path) => Value::Home(path.clone()),
        Value::Shell(path) => Value::Shell(path.clone()),
        Value::LogonTypes(types) => Value::LogonTypes(*types),
        Value::Other(at) => Value::Other(*at),
    }
}

fn copy(entry: &QueryEntry) -> QueryEntry {
    QueryEntry {
        outcome: entry.outcome,
        sid: entry.sid.clone(),
        canonical_name: entry.canonical_name.clone(),
        kind: entry.kind,
        values: entry.values.iter().map(copy_value).collect(),
        withheld: entry.withheld.clone(),
    }
}

fn number_of(record: &Record) -> Option<u32> {
    record.values.iter().find_map(|value| match value {
        Value::UnixId(id) => Some(*id),
        _ => None,
    })
}

fn groups_of(record: &Record) -> &Vec<Reference> {
    record
        .values
        .iter()
        .find_map(|value| match value {
            Value::Groups(groups) => Some(groups),
            _ => None,
        })
        .expect("groups must be present")
}

fn names(page: &Page) -> Vec<&str> {
    page.entries
        .iter()
        .map(|e| e.qualified_name.as_str())
        .collect()
}

/// The arithmetic no source can do for itself: 1000 relative becomes 1,001,000
/// absolute, and the inverse takes a caller straight back.
#[test]
fn a_relative_number_is_rebased_on_the_way_out() {
    let mut machine = stub(
        "lpsd",
        DOMAIN,
        1000,
        Some(entry("S-1-5-21-1-2-3-1000", "jack", 1000)),
    );
    let answer = machine.lookup(&Key::Name("jack".into()), Kind::Principal, PASSWD);
    assert_eq!(answer.outcome, Outcome::Found);
    let record = answer.record.expect("a record");
    assert_eq!(
        number_of(&record),
        Some(BASE + 1000),
        "the source counted from its own zero and authd added the base"
    );
}

/// The inversion, and the reason the authority is the only party that can
/// perform it.
#[test]
fn an_absolute_number_reaches_the_source_that_owns_it() {
    let mut machine = stub(
        "lpsd",
        DOMAIN,
        1000,
        Some(entry("S-1-5-21-1-2-3-1000", "jack", 1000)),
    );
    match lookup(
        &machine.registry,
        &Key::UnixId(BASE + 1000),
        Kind::Principal,
        of(UNIX_ID),
        PROTOCOL,
    ) {
        Step::Ask(waiting) => assert_eq!(waiting.key(), &SourceKey::RelativeId(1000)),
        Step::Done(_) => panic!("the source has to be asked"),
    }
    let answer = machine.lookup(&Key::UnixId(BASE + 1000), Kind::Principal, of(UNIX_ID));
    assert_eq!(answer.outcome, Outcome::Found);
    assert_eq!(answer.record.expect("a record").qualified_name, "jack");
}

#[test]
fn a_number_in_no_sources_range_is_not_found() {
    let mut machine = stub("lpsd", DOMAIN, 1000, None);
    assert_eq!(
        machine
            .lookup(&Key::UnixId(42), Kind::Principal, NOTHING)
            .outcome,
        Outcome::NotFound
    );
}

/// A source that named a principal outside its own domain would show another
/// source's people as its own.
#[test]
fn an_answer_outside_the_sources_domain_is_refused() {
    let mut machine = stub(
        "lpsd",
        DOMAIN,
        1000,
        Some(entry("S-1-5-21-9-9-9-1000", "impostor", 1000)),
    );
    let answer = machine.lookup(&Key::Name("impostor".into()), Kind::Principal, NOTHING);
    assert_eq!(
        answer.outcome,
        Outcome::Unavailable,
        "a source that broke confinement is not to be believed about anything"
    );
}

/// Configured order, not registration order: added second, consulted first.
#[test]
fn a_bare_name_resolves_in_the_configured_order() {
    let mut machine = machine(&[
        ("second", 2000, Some(range())),
        ("first", 10, Some(range())),
    ]);
    machine.add_stub(
        "second",
        "S-1-5-21-7-7-7",
        2000,
        Some(entry("S-1-5-21-7-7-7-1000", "second-jack", 1000)),
    );
    machine.add_stub(
        "first",
        DOMAIN,
        10,
        Some(entry("S-1-5-21-1-2-3-1000", "first-jack", 1000)),
    );

    let answer = machine.lookup(&Key::Name("jack".into()), Kind::Principal, NOTHING);
    assert_eq!(
        answer.record.expect("a record").qualified_name,
        "first-jack",
        "the lower SearchOrder wins however the sources registered"
    );
}

/// A name held by nobody, asked of everybody.
#[test]
fn a_name_no_source_holds_falls_through_every_source() {
    let mut machine = machine(&[("a", 10, Some(range())), ("b", 20, Some(range()))]);
    machine.add_stub("a", DOMAIN, 10, None);
    machine.add_stub("b", "S-1-5-21-7-7-7", 20, None);
    assert_eq!(
        machine
            .lookup(&Key::Name("nobody".into()), Kind::Principal, NOTHING)
            .outcome,
        Outcome::NotFound
    );
    assert_eq!(machine.asked, vec!["a", "b"]);
}

/// A SID names its own domain, so exactly one source can be authoritative for it
/// and no search is needed.
#[test]
fn a_sid_goes_straight_to_the_source_that_owns_the_domain() {
    let mut machine = machine(&[
        ("wrong", 10, Some(range())),
        ("right", 20, Some(range())),
    ]);
    machine.add_stub("wrong", "S-1-5-21-7-7-7", 10, None);
    machine.add_stub(
        "right",
        DOMAIN,
        20,
        Some(entry("S-1-5-21-1-2-3-1000", "jack", 1000)),
    );

    let answer = machine.lookup(
        &Key::Sid(sid("S-1-5-21-1-2-3-1000").to_bytes()),
        Kind::Principal,
        NOTHING,
    );
    assert_eq!(
        answer.record.expect("a record").qualified_name,
        "jack",
        "the source earlier in the order does not get asked at all"
    );
    assert_eq!(machine.asked, vec!["right"]);
}

#[test]
fn a_sid_from_an_unknown_domain_is_not_found() {
    let mut machine = stub("lpsd", DOMAIN, 1000, None);
    assert_eq!(
        machine
            .lookup(
                &Key::Sid(sid("S-1-5-21-8-8-8-1000").to_bytes()),
                Kind::Principal,
                NOTHING
            )
            .outcome,
        Outcome::NotFound,
        "a file owned by a domain this machine never heard of is an ordinary thing"
    );
}

/// Answered from the authority's own table, with no source asked.
#[test]
fn a_well_known_group_never_reaches_a_source() {
    let mut machine = machine(&[]);
    let answer = machine.lookup(
        &Key::Name("Administrators".into()),
        Kind::Group,
        of(UNIX_ID),
    );
    assert_eq!(answer.outcome, Outcome::Found);
    let record = answer.record.expect("a record");
    assert_eq!(record.kind_found, Kind::Group);
    assert_eq!(number_of(&record), Some(102));
}

/// A source that has gone away is `Unavailable`, and the search stops there: a
/// later source holding the same name would resolve it to a different SID than
/// it does when the system is healthy.
#[test]
fn a_dead_source_earlier_in_the_order_makes_the_answer_unavailable() {
    for noticed in [false, true] {
        let mut machine = machine(&[("dead", 10, None), ("live", 20, Some(range()))]);
        machine.register(
            "dead",
            DOMAIN,
            10,
            None,
            capabilities(true, false, false),
            false,
            Behaviour::Silent,
        );
        if noticed {
            machine.registry.shut_down("dead");
        }
        machine.add_stub(
            "live",
            "S-1-5-21-7-7-7",
            20,
            Some(entry("S-1-5-21-7-7-7-1000", "jack", 1000)),
        );

        assert_eq!(
            machine
                .lookup(&Key::Name("jack".into()), Kind::Principal, NOTHING)
                .outcome,
            Outcome::Unavailable,
            "the later source's principal is a different person"
        );
    }
}

/// A source that never declared it answers queries is not asked one.
#[test]
fn a_source_that_declared_no_capabilities_is_not_queried() {
    let mut machine = machine(&[("old", 10, None)]);
    machine.register(
        "old",
        DOMAIN,
        10,
        None,
        capabilities(false, false, false),
        false,
        Behaviour::Answers(None),
    );
    let answer = machine.lookup(&Key::Name("jack".into()), Kind::Principal, NOTHING);
    assert!(machine.asked.is_empty());
    // A source that was never consulted must not contribute a "no" to an
    // authoritative, cacheable absence.
    assert_eq!(
        answer.outcome,
        Outcome::Unavailable,
        "a source that declined to be asked has not answered NotFound"
    );
}

fn facts(name: &str, capabilities: Capabilities) -> Facts {
    Source::new(
        name.into(),
        false,
        sid(DOMAIN),
        Some(range()),
        capabilities,
        10,
    )
    .facts()
    .clone()
}

/// A field gating a capability the source did not declare is never asked for.
#[test]
fn members_is_not_asked_of_a_source_that_did_not_declare_it() {
    let plain = facts("plain", capabilities(true, false, false));
    assert!(
        !gated_fields(&plain, of(MEMBERS | GROUPS)).contains(of(MEMBERS)),
        "MEMBERS must be dropped for a source that did not declare it"
    );
    assert!(
        gated_fields(&plain, of(MEMBERS | GROUPS)).contains(of(GROUPS)),
        "an ungated field must survive"
    );

    let full = facts("full", capabilities(true, false, true));
    assert!(
        gated_fields(&full, of(MEMBERS)).contains(of(MEMBERS)),
        "a source that declared MEMBERS must still be asked for it"
    );
}

#[test]
fn a_name_with_a_reserved_character_never_reaches_a_source() {
    let mut machine = stub("lpsd", DOMAIN, 1000, None);
    for name in ["jack@local", "PEIOS\\jack", "a/b", "a:b", "a,b", " jack"] {
        assert_eq!(
            machine
                .lookup(&Key::Name(name.into()), Kind::Principal, NOTHING)
                .outcome,
            Outcome::Malformed,
            "{name}"
        );
    }
    assert!(machine.asked.is_empty());
}

/// A group the source does not number gets the authority's own value rather than
/// the source's base, which would land a `BUILTIN` group inside the source's
/// range where it does not belong.
#[test]
fn a_well_known_group_in_a_reply_takes_authds_number() {
    let mut answer = entry("S-1-5-21-1-2-3-1000", "jack", 1000);
    answer.values.push(Value::Groups(vec![Reference {
        sid: sid("S-1-5-32-544").to_bytes(),
        name: "Administrators".into(),
        // Zero: the source names the membership and numbers nothing.
        unix_id: 0,
    }]));
    let mut machine = stub_with_foreign("lpsd", DOMAIN, 1000, Some(answer));

    let found = machine.lookup(&Key::Name("jack".into()), Kind::Principal, of(GROUPS));
    let record = found.record.expect("a record");
    assert_eq!(
        groups_of(&record)[0].unix_id,
        102,
        "authd's table, not the source's base"
    );
}

/// A name carrying a newline forges a whole line in whatever it is rendered
/// into, and the damage is done by the reader, so it cannot be prevented where
/// the name is displayed.
#[test]
fn a_source_asserting_an_unusable_name_is_refused() {
    for bad in [
        "jack\nroot:x:0:0", // forges a passwd line
        "jack:x",           // a field separator
        "corp\\jack",       // a reserved character
        "jack@local",
        "jack/../root",
        " jack",      // leading space
        "jack ",      // trailing space
        "ja\u{7f}ck", // outside 0x20-0x7e
    ] {
        let answer = entry("S-1-5-21-1-2-3-1000", bad, 1000);
        let mut machine = stub("corp", DOMAIN, 1000, Some(answer));
        let found = machine.lookup(
            &Key::Sid(sid("S-1-5-21-1-2-3-1000").to_bytes()),
            Kind::Principal,
            NOTHING,
        );
        assert!(
            found.record.is_none(),
            "{bad:?} must not be relayed to a caller"
        );
    }
}

/// And a name inside a reference.
#[test]
fn a_reference_carrying_an_unusable_name_is_dropped() {
    let mut answer = entry("S-1-5-21-1-2-3-1000", "jack", 1000);
    answer.values.push(Value::Groups(vec![
        Reference {
            sid: sid("S-1-5-21-1-2-3-1001").to_bytes(),
            name: "staff\nroot:x:0:".into(),
            unix_id: 1001,
        },
        Reference {
            sid: sid("S-1-5-21-1-2-3-1002").to_bytes(),
            name: "developers".into(),
            unix_id: 1002,
        },
    ]));
    let mut machine = stub("corp", DOMAIN, 1000, Some(answer));

    let found = machine.lookup(&Key::Name("jack".into()), Kind::Principal, of(GROUPS));
    let record = found.record.expect("a record");
    let names: Vec<&str> = groups_of(&record).iter().map(|g| g.name.as_str()).collect();
    assert_eq!(names, vec!["developers"]);
}

/// The well-known names are matched trimmed, so the usability check has to come
/// first.
#[test]
fn a_well_known_name_with_surrounding_space_is_refused() {
    let mut machine = stub("corp", DOMAIN, 1000, None);
    for padded in [" Everyone", "Everyone ", " Everyone "] {
        let found = machine.lookup(&Key::Name(padded.into()), Kind::Group, NOTHING);
        assert_eq!(
            found.outcome,
            Outcome::Malformed,
            "{padded:?} must be refused, not trimmed into a match"
        );
    }
    // The exact name still resolves.
    let found = machine.lookup(&Key::Name("Everyone".into()), Kind::Group, NOTHING);
    assert_eq!(found.outcome, Outcome::Found);
}

/// Every SID in a result is validated structurally, including those inside a
/// reference, whatever memberships the source may assert.
#[test]
fn a_reference_whose_sid_does_not_parse_is_dropped() {
    let mut answer = entry("S-1-5-21-1-2-3-1000", "jack", 1000);
    answer.values.push(Value::Groups(vec![
        Reference {
            sid: vec![0xFF, 0x00, 0x13],
            name: "garbage".into(),
            unix_id: 7,
        },
        Reference {
            sid: sid("S-1-5-21-1-2-3-1001").to_bytes(),
            name: "staff".into(),
            unix_id: 1001,
        },
    ]));
    // A source that *may* assert foreign memberships, so the drop cannot be
    // attributed to the scope check.
    let mut machine = stub_with_foreign("lpsd", DOMAIN, 1000, Some(answer));

    let found = machine.lookup(&Key::Name("jack".into()), Kind::Principal, of(GROUPS));
    let record = found.record.expect("a record");
    let names: Vec<&str> = groups_of(&record).iter().map(|g| g.name.as_str()).collect();
    assert_eq!(
        names,
        vec!["staff"],
        "unparsed bytes must be dropped, and the valid reference kept"
    );
}

/// A source refusing is a fact about the source, identical for every caller.
#[test]
fn a_source_refusal_is_reported_as_unavailable_not_refused() {
    let mut answer = entry("S-1-5-21-1-2-3-1000", "jack", 1000);
    answer.outcome = Outcome::Refused;
    let mut machine = stub("corp", DOMAIN, 1000, Some(answer));

    for key in [
        Key::Name("jack".into()),
        Key::Sid(sid("S-1-5-21-1-2-3-1000").to_bytes()),
        Key::UnixId(BASE + 1000),
    ] {
        let found = machine.lookup(&key, Kind::Principal, NOTHING);
        assert_ne!(
            found.outcome,
            Outcome::Refused,
            "{key:?}: Refused is reserved for the caller lacking permission"
        );
        assert_eq!(found.outcome, Outcome::Unavailable, "{key:?}");
    }
}

/// Zero is the only encoding of "no number for this SID".
#[test]
fn an_unnumbered_reference_goes_on_the_wire_as_zero() {
    let mut answer = entry("S-1-5-21-1-2-3-1000", "jack", 1000);
    answer.values.push(Value::Groups(vec![Reference {
        // A group of the principal's own domain, so membership scope is
        // satisfied, but outside the source's range, so it has no number.
        sid: sid("S-1-5-21-1-2-3-999999").to_bytes(),
        name: "unnumbered".into(),
        unix_id: u32::MAX,
    }]));
    let mut machine = stub("lpsd", DOMAIN, 1000, Some(answer));

    let found = machine.lookup(&Key::Name("jack".into()), Kind::Principal, of(GROUPS));
    let record = found.record.expect("a record");
    assert_eq!(
        groups_of(&record)[0].unix_id,
        0,
        "an unnumbered reference must be zero, never 65534"
    );
}

/// Membership scope applies to what a source describes exactly as to what it
/// asserts.
#[test]
fn a_foreign_group_is_dropped_from_a_lookup_when_the_source_may_not_assert_it() {
    let mut answer = entry("S-1-5-21-1-2-3-1000", "jack", 1000);
    answer.values.push(Value::Groups(vec![
        Reference {
            sid: sid("S-1-5-32-544").to_bytes(),
            name: "Administrators".into(),
            unix_id: 0,
        },
        Reference {
            sid: sid("S-1-5-21-1-2-3-1001").to_bytes(),
            name: "staff".into(),
            unix_id: 1001,
        },
    ]));
    // A source *without* the permission: a directory-backed one.
    let mut machine = stub("corp", DOMAIN, 1000, Some(answer));

    let found = machine.lookup(&Key::Name("jack".into()), Kind::Principal, of(GROUPS));
    let record = found.record.expect("a record");
    let names: Vec<&str> = groups_of(&record).iter().map(|g| g.name.as_str()).collect();
    assert_eq!(
        names,
        vec!["staff"],
        "the foreign group must be dropped, and the sibling kept"
    );
}

/// A Principal request is never answered with a group, and vice versa.
#[test]
fn a_principal_request_is_not_answered_with_a_group() {
    let mut answer = entry("S-1-5-21-1-2-3-1000", "staff", 1000);
    answer.kind = Kind::Group;
    let mut machine = stub("lpsd", DOMAIN, 1000, Some(answer));

    let found = machine.lookup(&Key::Name("staff".into()), Kind::Principal, NOTHING);
    assert_eq!(found.outcome, Outcome::NotFound);
    assert!(found.record.is_none(), "no record may be relayed");
}

/// `Any` is a valid question and not a valid answer.
#[test]
fn a_source_answering_any_is_refused() {
    let mut answer = entry("S-1-5-21-1-2-3-1000", "jack", 1000);
    answer.kind = Kind::Any;
    let mut machine = stub("lpsd", DOMAIN, 1000, Some(answer));

    let found = machine.lookup(&Key::Name("jack".into()), Kind::Principal, NOTHING);
    assert_eq!(found.outcome, Outcome::Unavailable);
}

#[test]
fn enumerating_walks_every_source() {
    let mut machine = machine(&[("a", 10, Some(range())), ("b", 20, Some(range()))]);
    machine.add_stub(
        "a",
        DOMAIN,
        10,
        Some(entry("S-1-5-21-1-2-3-1000", "jack", 1000)),
    );
    machine.add_stub(
        "b",
        "S-1-5-21-7-7-7",
        20,
        Some(entry("S-1-5-21-7-7-7-1000", "ada", 1000)),
    );

    let page = machine
        .enumerate(Kind::Principal, of(UNIX_ID), &[])
        .expect("an honourable cursor");
    assert_eq!(names(&page), vec!["jack", "ada"]);
    assert!(page.next.is_empty());
    assert!(page.incomplete.is_empty());
}

/// A short list that looks complete is what `incomplete` exists to prevent.
#[test]
fn a_source_that_does_not_enumerate_is_reported() {
    let mut machine = machine(&[("quiet", 10, None)]);
    machine.register(
        "quiet",
        DOMAIN,
        10,
        None,
        capabilities(true, false, false),
        false,
        Behaviour::Answers(None),
    );
    let page = machine
        .enumerate(Kind::Principal, NOTHING, &[])
        .expect("an honourable cursor");
    assert!(page.entries.is_empty());
    assert_eq!(page.incomplete, vec!["quiet".to_string()]);
}

/// A source that disconnects between pages shifts every position after it, so a
/// cursor keyed on position would resume the wrong source with another source's
/// bytes.
#[test]
fn an_enumeration_cursor_names_its_source() {
    let mut machine = machine(&[("a", 10, Some(range())), ("b", 20, Some(range()))]);
    machine.add_stub(
        "a",
        DOMAIN,
        10,
        Some(entry("S-1-5-21-1-2-3-1000", "jack", 1000)),
    );
    machine.add_stub(
        "b",
        "S-1-5-21-7-7-7",
        20,
        Some(entry("S-1-5-21-7-7-7-1000", "ada", 1000)),
    );

    // A cursor naming `b` resumes there, skipping `a` entirely.
    let mut cursor = vec![1u8];
    cursor.extend_from_slice(b"b");
    let page = machine
        .enumerate(Kind::Principal, NOTHING, &cursor)
        .expect("an honourable cursor");
    assert_eq!(
        names(&page),
        vec!["ada"],
        "the walk resumes at the named source"
    );
}

/// A cursor the authority did not issue, or can no longer honour, is rejected. A
/// silent restart would hand back a second copy of the beginning.
#[test]
fn an_unrecognised_cursor_is_malformed() {
    let machine = stub(
        "lpsd",
        DOMAIN,
        1000,
        Some(entry("S-1-5-21-1-2-3-1000", "jack", 1000)),
    );
    for cursor in [
        vec![0xff],                      // a length longer than the cursor
        vec![4, 0xff, 0xff, 0xff, 0xff], // a name that is not UTF-8
        vec![9, 1, 2],                   // truncated
    ] {
        assert_eq!(
            machine.enumerate(Kind::Principal, NOTHING, &cursor).err(),
            Some(Outcome::Malformed),
            "cursor {cursor:?} must be refused, not silently restarted"
        );
    }
}

/// A cursor naming a source that has since gone away is equally unhonourable.
#[test]
fn a_cursor_naming_a_departed_source_is_malformed() {
    let machine = stub(
        "lpsd",
        DOMAIN,
        1000,
        Some(entry("S-1-5-21-1-2-3-1000", "jack", 1000)),
    );
    let mut cursor = vec![5u8];
    cursor.extend_from_slice(b"gone!");
    assert_eq!(
        machine.enumerate(Kind::Principal, NOTHING, &cursor).err(),
        Some(Outcome::Malformed),
    );
}

/// A configured source that is not here contributed nothing, and a listing that
/// did not say so would look complete.
#[test]
fn an_absent_source_is_reported_in_an_enumeration() {
    let mut machine = machine(&[("here", 10, Some(range())), ("gone", 20, Some(range()))]);
    machine.add_stub(
        "here",
        DOMAIN,
        10,
        Some(entry("S-1-5-21-1-2-3-1000", "jack", 1000)),
    );
    let page = machine
        .enumerate(Kind::Principal, NOTHING, &[])
        .expect("an honourable cursor");
    assert_eq!(page.incomplete, vec!["gone".to_string()]);
}

/// A range is configured rather than declared, so an absent source's is known
/// exactly, and a number inside it must not answer as an absence.
#[test]
fn a_number_in_an_absent_sources_range_is_unavailable() {
    let mut machine = machine(&[("gone", 10, Some(range()))]);
    assert_eq!(
        machine
            .lookup(&Key::UnixId(BASE + 500), Kind::Principal, NOTHING)
            .outcome,
        Outcome::Unavailable
    );
}

/// An unpinned source declares its domain at registration, so an absent one's is
/// unknowable.
#[test]
fn a_sid_is_unavailable_rather_than_absent_while_a_source_is_missing() {
    let mut machine = machine(&[("gone", 10, None)]);
    assert_eq!(
        machine
            .lookup(
                &Key::Sid(sid("S-1-5-21-8-8-8-1000").to_bytes()),
                Kind::Principal,
                NOTHING
            )
            .outcome,
        Outcome::Unavailable
    );
}

#[test]
fn the_well_known_groups_are_authds_to_enumerate() {
    let page = well_known_page(Kind::Group, of(UNIX_ID), PROTOCOL);
    assert!(page.iter().any(|r| r.qualified_name == "Everyone"));
    assert!(
        !page.iter().any(|r| r.qualified_name == "Interactive"),
        "a session property is not a row in a group table"
    );
    assert!(well_known_page(Kind::Principal, NOTHING, PROTOCOL).is_empty());
}

// ---------------------------------------------------------------------------
// Routing
// ---------------------------------------------------------------------------

const OTHER_DOMAIN: &str = "S-1-5-21-7-8-9";

fn two_source_machine(
    first_answer: Option<QueryEntry>,
    second_answer: Option<QueryEntry>,
) -> Machine {
    let mut machine = machine(&[
        ("first", 1, Some(range())),
        ("second", 2, Some(range())),
    ]);
    machine.add_stub("first", DOMAIN, 1, first_answer);
    machine.add_stub("second", OTHER_DOMAIN, 2, second_answer);
    machine
}

#[test]
fn a_single_source_is_routed_to_without_being_asked() {
    // The degenerate case has no routing question: a single logon-only source
    // that cannot answer name queries still receives every conversation.
    let mut machine = stub("only", DOMAIN, 1, None);
    match machine.route(b"jack") {
        Route::Owner(source) => assert_eq!(source.name, "only"),
        _ => panic!("expected the only source"),
    }
    assert!(machine.asked.is_empty());
}

#[test]
fn a_name_routes_to_the_source_that_claims_it() {
    // A name the second source holds must route there, or the first source is
    // handed a credential for a principal it does not own.
    let mut machine = two_source_machine(None, Some(entry("S-1-5-21-7-8-9-500", "jack", 1)));
    match machine.route(b"jack") {
        Route::Owner(source) => assert_eq!(source.name, "second"),
        _ => panic!("expected the owning source"),
    }
}

#[test]
fn an_unclaimed_name_blinds_via_the_first_source() {
    // Nobody owns the name. The conversation still runs, against exactly one
    // source, because a short-circuit denial would distinguish an unknown
    // principal from a bad credential.
    let mut machine = two_source_machine(None, None);
    match machine.route(b"nobody") {
        Route::Blind(source) => assert_eq!(source.name, "first"),
        _ => panic!("expected the blind path"),
    }
}

#[test]
fn an_absent_configured_source_denies_rather_than_falling_through() {
    // "second" is configured and never registered. A name it might hold cannot
    // be routed past it.
    let mut machine = machine(&[
        ("first", 1, Some(range())),
        ("second", 2, Some(range())),
    ]);
    machine.add_stub("first", DOMAIN, 1, None);
    match machine.route(b"jack") {
        Route::Unavailable => {}
        _ => panic!("expected Unavailable"),
    }
}

#[test]
fn no_sources_at_all_is_its_own_answer() {
    let mut machine = machine(&[]);
    match machine.route(b"jack") {
        Route::NoSources => {}
        _ => panic!("expected NoSources"),
    }
}

/// A name no source could hold is routed as one none holds is, and nobody is
/// asked about it.
#[test]
fn an_unusable_identifier_blinds_without_being_asked_about() {
    for identifier in [&b"jack@local"[..], &[0xff, 0xfe][..], &b""[..]] {
        let mut machine = two_source_machine(
            Some(entry("S-1-5-21-1-2-3-500", "jack", 1)),
            Some(entry("S-1-5-21-7-8-9-500", "jack", 1)),
        );
        match machine.route(identifier) {
            Route::Blind(source) => assert_eq!(source.name, "first"),
            _ => panic!("expected the blind path"),
        }
        assert!(machine.asked.is_empty());
    }
    let mut gap = machine(&[("first", 1, None), ("second", 2, None)]);
    gap.add_stub("first", DOMAIN, 1, None);
    assert!(matches!(gap.route(b"jack@local"), Route::Unavailable));
}

/// A source that cannot say whom it holds stops a routing, too.
#[test]
fn a_routing_stops_at_a_source_that_cannot_answer() {
    let mut machine = machine(&[("mute", 1, None), ("second", 2, None)]);
    machine.register(
        "mute",
        DOMAIN,
        1,
        None,
        capabilities(false, false, false),
        false,
        Behaviour::Answers(None),
    );
    machine.add_stub(
        "second",
        OTHER_DOMAIN,
        2,
        Some(entry("S-1-5-21-7-8-9-500", "jack", 1)),
    );
    assert!(matches!(machine.route(b"jack"), Route::Unavailable));
}

// ---------------------------------------------------------------------------
// The members of one group
// ---------------------------------------------------------------------------

#[test]
fn members_of_a_group_come_from_its_owning_source() {
    let mut machine = stub(
        "only",
        DOMAIN,
        1,
        Some(entry("S-1-5-21-1-2-3-513", "devs", 5)),
    );
    let page = machine
        .members(&Key::Name("devs".into()), Kind::Principal, PASSWD)
        .expect("a page");
    assert_eq!(page.entries.len(), 1);
    assert!(page.next.is_empty());
    assert!(page.incomplete.is_empty());
}

#[test]
fn members_of_a_group_nobody_holds_is_not_found() {
    let mut machine = stub("only", DOMAIN, 1, None);
    match machine.members(&Key::Name("ghosts".into()), Kind::Principal, PASSWD) {
        Err(Outcome::NotFound) => {}
        Ok(_) => panic!("expected NotFound, got a page"),
        Err(other) => panic!("expected NotFound, got {other:?}"),
    }
}

#[test]
fn members_cannot_be_walked_past_an_absent_source() {
    // "second" is configured and not registered; the group might be its.
    let mut machine = machine(&[
        ("first", 1, Some(range())),
        ("second", 2, Some(range())),
    ]);
    machine.add_stub("first", DOMAIN, 1, None);
    match machine.members(&Key::Name("devs".into()), Kind::Principal, PASSWD) {
        Err(Outcome::Unavailable) => {}
        Ok(_) => panic!("expected Unavailable, got a page"),
        Err(other) => panic!("expected Unavailable, got {other:?}"),
    }
}

#[test]
fn an_unusable_of_name_is_malformed() {
    let mut machine = stub("only", DOMAIN, 1, None);
    match machine.members(&Key::Name(" devs ".into()), Kind::Principal, PASSWD) {
        Err(Outcome::Malformed) => {}
        Ok(_) => panic!("expected Malformed, got a page"),
        Err(other) => panic!("expected Malformed, got {other:?}"),
    }
}

/// By SID and by number, the owner is found without a search.
#[test]
fn a_group_is_found_by_sid_and_by_number() {
    let mut machine = stub(
        "only",
        DOMAIN,
        1,
        Some(entry("S-1-5-21-1-2-3-513", "devs", 5)),
    );
    for key in [
        Key::Sid(sid("S-1-5-21-1-2-3-513").to_bytes()),
        Key::UnixId(BASE + 5),
    ] {
        assert!(machine.members(&key, Kind::Principal, PASSWD).is_ok());
    }
    for (key, outcome) in [
        (Key::Sid(vec![1, 2, 3]), Outcome::Malformed),
        (
            Key::Sid(sid("S-1-5-21-8-8-8-513").to_bytes()),
            Outcome::NotFound,
        ),
        (Key::UnixId(7), Outcome::NotFound),
        // A rule rather than a record.
        (Key::UnixId(102), Outcome::NotFound),
    ] {
        assert_eq!(
            machine.members(&key, Kind::Principal, PASSWD).err(),
            Some(outcome),
            "{key:?}"
        );
    }
}

/// What the owner says decides, and one that never enumerates is the whole
/// answer.
#[test]
fn a_member_page_is_what_the_owner_says() {
    let silent = facts("silent", capabilities(true, false, false));
    let able = facts("able", capabilities(true, true, false));
    let page = |outcome| {
        HeardPage::Page(EnumerateResult {
            outcome,
            entries: vec![entry("S-1-5-21-1-2-3-1000", "jack", 1000)],
            next: vec![9],
        })
    };
    let members = |source: &Facts, heard| {
        enumerate_members(source, heard, Kind::Principal, PASSWD, PROTOCOL)
    };
    assert_eq!(
        members(&silent, page(Outcome::Found)).err(),
        Some(Outcome::Unavailable)
    );
    assert_eq!(
        members(&able, page(Outcome::Refused)).err(),
        Some(Outcome::Malformed)
    );
    assert_eq!(
        members(&able, page(Outcome::NotFound)).err(),
        Some(Outcome::Unavailable)
    );
    assert_eq!(
        members(&able, HeardPage::Refused).err(),
        Some(Outcome::Unavailable)
    );
    let found = members(&able, page(Outcome::Found)).expect("a page");
    assert_eq!(found.next, vec![9], "the owner's own cursor, as it is");
    assert_eq!(names(&found), vec!["jack"]);
}

// ---------------------------------------------------------------------------
// Cursors and pages
// ---------------------------------------------------------------------------

#[test]
fn a_cursor_gives_back_what_it_was_made_of() {
    let cursor = make_cursor("lpsd", &[1, 2, 3]);
    assert_eq!(cursor, vec![4, b'l', b'p', b's', b'd', 1, 2, 3]);
    assert_eq!(
        split_cursor(&cursor),
        Some((Some("lpsd".to_string()), &[1u8, 2, 3][..]))
    );
    assert_eq!(split_cursor(&[]), Some((None, &[][..])));
    assert_eq!(split_cursor(&[2, b'a']), None);
    assert_eq!(split_cursor(&[1, 0xff]), None);
    let accented = make_cursor("\u{e9}", &[]);
    assert_eq!(accented, vec![2, 0xc3, 0xa9]);
    assert_eq!(
        split_cursor(&accented),
        Some((Some("\u{e9}".to_string()), &[][..]))
    );
}

/// A source with more to give is resumed at, and the one behind a source that
/// does not enumerate starts from its own beginning.
#[test]
fn a_page_stops_where_a_source_has_more() {
    let mut machine = machine(&[("a", 1, None), ("mute", 2, None), ("z", 3, None)]);
    machine.add_stub("a", DOMAIN, 1, None);
    machine.register(
        "mute",
        "S-1-5-21-4-4-4",
        2,
        None,
        capabilities(true, false, false),
        false,
        Behaviour::Answers(None),
    );
    machine.add_stub("z", OTHER_DOMAIN, 3, None);

    let full = |next: &[u8]| {
        HeardPage::Page(EnumerateResult {
            outcome: Outcome::Found,
            entries: vec![entry("S-1-5-21-1-2-3-1000", "jack", 1000)],
            next: next.to_vec(),
        })
    };
    let first = match enumerate(&machine.registry, Kind::Principal, NOTHING, &[], PROTOCOL) {
        Enumerating::Ask(waiting) => {
            assert_eq!(waiting.source().name, "a");
            assert!(waiting.cursor().is_empty());
            match waiting.hear(full(&[7, 7])) {
                Enumerating::Done(page) => page,
                _ => panic!("the page stops at the source with more"),
            }
        }
        _ => panic!("a source has to be asked"),
    };
    assert_eq!(names(&first), vec!["jack"]);
    assert_eq!(first.next, make_cursor("a", &[7, 7]));

    match enumerate(
        &machine.registry,
        Kind::Principal,
        NOTHING,
        &first.next,
        PROTOCOL,
    ) {
        Enumerating::Ask(waiting) => {
            assert_eq!(waiting.cursor(), &[7, 7]);
            match waiting.hear(HeardPage::Refused) {
                Enumerating::Ask(next) => {
                    assert_eq!(next.source().name, "z");
                    assert!(next.cursor().is_empty(), "another source's bytes are not its");
                    match next.hear(HeardPage::NotOpened) {
                        Enumerating::Done(page) => {
                            assert!(page.entries.is_empty());
                            assert!(page.next.is_empty());
                            assert_eq!(page.incomplete, vec!["a", "mute", "z"]);
                        }
                        _ => panic!("nobody is left"),
                    }
                }
                _ => panic!("there is another source"),
            }
        }
        _ => panic!("a source has to be asked"),
    }

    // Resuming at a source that no longer enumerates does not hand its bytes to
    // the next one.
    let stale = make_cursor("mute", &[9]);
    match enumerate(&machine.registry, Kind::Principal, NOTHING, &stale, PROTOCOL) {
        Enumerating::Ask(waiting) => {
            assert_eq!(waiting.source().name, "z");
            assert!(waiting.cursor().is_empty());
        }
        _ => panic!("a source has to be asked"),
    }
}

// ---------------------------------------------------------------------------
// Answers
// ---------------------------------------------------------------------------

#[test]
fn what_was_heard_becomes_a_reply() {
    let mut refused = entry("S-1-5-21-1-2-3-1000", "jack", 1000);
    refused.outcome = Outcome::Refused;
    let mut odd = entry("S-1-5-21-1-2-3-1000", "jack", 1000);
    odd.outcome = Outcome::Malformed;
    assert_eq!(
        ask(Heard::Results(vec![entry(
            "S-1-5-21-1-2-3-1000",
            "jack",
            1000
        )])),
        Reply::Found(entry("S-1-5-21-1-2-3-1000", "jack", 1000))
    );
    assert_eq!(ask(Heard::Results(vec![not_found()])), Reply::NotFound);
    assert_eq!(ask(Heard::Results(vec![refused])), Reply::Refused);
    assert_eq!(ask(Heard::Refused), Reply::Refused);
    assert_eq!(ask(Heard::Results(vec![odd])), Reply::Unavailable);
    assert_eq!(ask(Heard::Results(Vec::new())), Reply::Unavailable);
    assert_eq!(ask(Heard::Otherwise), Reply::Unavailable);
    assert_eq!(ask(Heard::NotSent), Reply::Unavailable);
    assert_eq!(
        ask(Heard::Stalled(Stalled::TimedOut)),
        Reply::Unavailable
    );
    assert!(!may_ask(&facts("plain", capabilities(true, true, true)), false));
}

/// What is withheld is passed on where it was asked for, and a primary group is
/// held to the rule every reference is.
#[test]
fn withheld_fields_and_primary_groups_are_passed_on_by_rule() {
    let source = facts("corp", capabilities(true, true, true));
    let mut answer = entry("S-1-5-21-1-2-3-1000", "jack", 1000);
    answer.values.push(Value::PrimaryGroup(Reference {
        sid: sid("S-1-5-21-1-2-3-513").to_bytes(),
        name: "users".into(),
        unix_id: 513,
    }));
    answer.withheld = vec![
        Withheld {
            field: of(GROUPS),
            reason: WithheldReason::TooLarge,
        },
        Withheld {
            field: of(MEMBERS),
            reason: WithheldReason::Absent,
        },
    ];
    let record = found(&source, &answer, Kind::Any, of(GROUPS), PROTOCOL)
        .record
        .expect("a record");
    assert_eq!(
        record.withheld,
        vec![Withheld {
            field: of(GROUPS),
            reason: WithheldReason::TooLarge,
        }]
    );
    assert!(record.values.contains(&Value::PrimaryGroup(Reference {
        sid: sid("S-1-5-21-1-2-3-513").to_bytes(),
        name: "users".into(),
        unix_id: BASE + 513,
    })));

    let mut foreign = entry("S-1-5-21-1-2-3-1000", "jack", 1000);
    foreign.values = vec![Value::PrimaryGroup(Reference {
        sid: sid("S-1-5-32-544").to_bytes(),
        name: String::new(),
        unix_id: 0,
    })];
    let record = found(&source, &foreign, Kind::Any, NOTHING, PROTOCOL)
        .record
        .expect("a record");
    assert!(record.values.is_empty());
}

/// An empty name is not a claim; the well-known table fills it.
#[test]
fn a_nameless_reference_is_named_from_the_table() {
    let mut answer = entry("S-1-5-21-1-2-3-1000", "jack", 1000);
    answer.values.push(Value::Groups(vec![Reference {
        sid: sid("S-1-5-32-545").to_bytes(),
        name: String::new(),
        unix_id: 0,
    }]));
    let mut machine = stub_with_foreign("lpsd", DOMAIN, 1000, Some(answer));
    let found = machine.lookup(&Key::Name("jack".into()), Kind::Principal, of(GROUPS));
    let record = found.record.expect("a record");
    assert_eq!(groups_of(&record)[0].name, "Users");
    assert_eq!(groups_of(&record)[0].unix_id, 103);
}

/// The owner of a group is asked for it by the key it knows, from where the
/// caller's cursor says, and for nothing it did not declare it answers.
#[test]
fn a_groups_owner_is_asked_with_the_cursor_as_it_came() {
    let unknown = Fields { bits: 1 << 30 };
    let asked = Fields {
        bits: UNIX_ID | MEMBERS | unknown.bits,
    };
    let plain = facts("plain", capabilities(true, true, false));
    assert_eq!(
        members_request(
            &plain,
            SourceKey::RelativeId(513),
            Kind::Principal,
            asked,
            &[0xff, 0, 7],
            PROTOCOL
        ),
        Some(MembersRequest {
            kind: Kind::Principal,
            fields: of(UNIX_ID),
            of: SourceKey::RelativeId(513),
            cursor: vec![0xff, 0, 7],
        })
    );

    let full = facts("full", capabilities(true, true, true));
    assert_eq!(
        members_request(
            &full,
            SourceKey::Name("wheel".into()),
            Kind::Any,
            asked,
            &[],
            PROTOCOL
        ),
        Some(MembersRequest {
            kind: Kind::Any,
            fields: of(UNIX_ID | MEMBERS),
            of: SourceKey::Name("wheel".into()),
            cursor: Vec::new(),
        })
    );

    let quiet = facts("quiet", capabilities(true, false, true));
    assert_eq!(
        members_request(
            &quiet,
            SourceKey::RelativeId(513),
            Kind::Any,
            asked,
            &[],
            PROTOCOL
        ),
        None
    );
}

#[test]
fn a_source_is_asked_for_a_page_only_while_there_is_time() {
    let enumerates = facts("a", capabilities(false, true, false));
    assert!(may_ask_page(&enumerates, true));
    assert!(!may_ask_page(&enumerates, false));
    let quiet = facts("b", capabilities(true, false, false));
    assert!(!may_ask_page(&quiet, true));
}

/// From an empty cursor on, a page names whoever it holds nothing of: those not
/// here, those passed over before the first question, and those behind it.
#[test]
fn a_listing_accounts_for_everybody() {
    let mut machine = machine(&[
        ("gone", 5, None),
        ("quiet", 10, None),
        ("here", 20, Some(range())),
        ("silent", 30, None),
        ("hushed", 40, None),
    ]);
    for (name, domain, order) in [
        ("hushed", "S-1-5-21-8-8-8", 40),
        ("quiet", "S-1-5-21-7-7-7", 10),
    ] {
        machine.register(
            name,
            domain,
            order,
            None,
            capabilities(true, false, false),
            false,
            Behaviour::Answers(None),
        );
    }
    machine.add_stub(
        "here",
        DOMAIN,
        20,
        Some(entry("S-1-5-21-1-2-3-1000", "jack", 1000)),
    );
    machine.register(
        "silent",
        "S-1-5-21-9-9-9",
        30,
        None,
        capabilities(true, true, false),
        false,
        Behaviour::Silent,
    );
    let page = machine
        .enumerate(Kind::Principal, NOTHING, &[])
        .expect("an honourable cursor");
    assert_eq!(names(&page), vec!["jack"]);
    assert_eq!(page.incomplete, vec!["gone", "quiet", "silent", "hushed"]);
    assert!(page.next.is_empty());
}

/// A page that stops at a source with more to give resumes there, with that
/// source's own bytes.
#[test]
fn the_next_page_resumes_where_the_last_stopped() {
    let mut machine = machine(&[("a", 10, Some(range())), ("b", 20, Some(range()))]);
    machine.add_stub("a", DOMAIN, 10, None);
    machine.add_stub("b", "S-1-5-21-7-7-7", 20, None);
    let resumed = |cursor: &[u8]| match enumerate(
        &machine.registry,
        Kind::Any,
        NOTHING,
        cursor,
        PROTOCOL,
    ) {
        Enumerating::Ask(waiting) => waiting,
        _ => panic!("nobody is asked"),
    };

    let first = resumed(&[]);
    assert_eq!(first.source().name, "a");
    let second = match first.hear(machine.page(&facts("a", capabilities(true, true, false)))) {
        Enumerating::Ask(waiting) => waiting,
        _ => panic!("the second source is not asked"),
    };
    assert_eq!(second.source().name, "b");
    let page = match second.hear(HeardPage::Page(EnumerateResult {
        outcome: Outcome::Found,
        entries: Vec::new(),
        next: vec![9, 8, 7],
    })) {
        Enumerating::Done(page) => page,
        _ => panic!("the page does not end"),
    };
    assert_eq!(page.next, vec![1, b'b', 9, 8, 7]);

    let again = resumed(&page.next);
    assert_eq!(again.source().name, "b");
    assert_eq!(again.cursor(), [9, 8, 7]);
}

/// Putting together what taking a cursor apart gave is the cursor there was.
#[test]
fn a_cursor_is_made_of_what_it_holds() {
    for cursor in [
        vec![0],
        vec![0, 1, 2],
        vec![1, b'a'],
        vec![2, 0xc3, 0xa9, 0xff, 0],
    ] {
        let (name, inner) = split_cursor(&cursor).expect("a cursor that parses");
        assert_eq!(make_cursor(&name.expect("a name"), inner), cursor);
    }
    assert_eq!(split_cursor(&[]), Some((None, &[][..])));
}

#[test]
fn a_name_is_usable_up_to_the_limit() {
    let longest = "a".repeat(PROTOCOL.max_name_bytes);
    assert!(name_is_usable(&longest, PROTOCOL));
    assert!(!name_is_usable(&format!("{longest}a"), PROTOCOL));
    assert!(!name_is_usable("", PROTOCOL));
    assert!(!name_is_usable("\u{e9}", PROTOCOL));
    assert!(name_is_usable("svc$ of mine", PROTOCOL));
}
