use authd::policy::sources::{SourceEntry, DEFAULT_SEARCH_ORDER};
use authd::psi::Capabilities;
use authd::registry::{Configured, Registry, Rejected, Slot};
use authd::sid::Sid;
use authd::source::{
    acknowledged, changed_here, register, verify_domain, ChangeScope, Delivery, First,
    Invalidation, Pumped, Read, Register, Source, CONVERSATION_CONTROL,
    MAX_CONVERSATIONS_PER_SOURCE, MAX_SOURCES,
};
use authd::unix_id::Range;

/// A SID written as `S-1-{authority}-{sub-authorities}`.
fn sid(text: &str) -> Sid {
    let mut parts = text.split('-').skip(2);
    let authority: u64 = parts
        .next()
        .expect("an authority")
        .parse()
        .expect("a number");
    let subs: Vec<u32> = parts.map(|part| part.parse().expect("a number")).collect();
    Sid::build(authority, &subs).expect("a well-formed SID")
}

const CAPABILITIES: Capabilities = Capabilities {
    queries: true,
    enumerates: true,
    members: false,
    pushes_changes: false,
    changes_credentials: false,
};

fn source() -> Source {
    named("test", "S-1-5-21-1-2-3")
}

fn named(name: &str, domain: &str) -> Source {
    Source::new(
        name.into(),
        false,
        sid(domain),
        None,
        CAPABILITIES,
        DEFAULT_SEARCH_ORDER,
    )
}

fn entry(name: &str, pinned_domain: Option<&str>) -> SourceEntry {
    SourceEntry {
        name: name.into(),
        service_sid: sid("S-1-5-80-1-2-3-4-5"),
        may_assert_foreign_memberships: false,
        pinned_domain: pinned_domain.map(sid),
        unix_id_range: None,
        search_order: DEFAULT_SEARCH_ORDER,
    }
}

fn declared(text: &str) -> Vec<u8> {
    sid(text).to_bytes()
}

#[test]
fn conversation_ids_are_never_zero() {
    // Zero is reserved for connection-level messages; allocating it for a logon
    // would collide registration with a conversation.
    let mut source = source();
    let first = source.open().expect("open");
    assert_ne!(first.id(), CONVERSATION_CONTROL);
}

#[test]
fn conversations_get_distinct_ids() {
    let mut source = source();
    let a = source.open().expect("open");
    let b = source.open().expect("open");
    assert_ne!(a.id(), b.id());
}

#[test]
fn a_dropped_conversation_abandons_it() {
    let mut source = source();
    let conversation = source.open().expect("open");
    let id = conversation.id();
    source.close_conversation(id);
    assert!(conversation.abandons(source.is_live()));
}

/// A conversation the source terminated needs no abandon: the source has already
/// forgotten it.
#[test]
fn a_finished_conversation_does_not_abandon() {
    let mut source = source();
    let mut conversation = source.open().expect("open");
    conversation.finished();
    source.close_conversation(conversation.id());
    assert!(
        !conversation.abandons(source.is_live()),
        "a finished conversation must send nothing on drop"
    );
}

#[test]
fn dropping_a_conversation_frees_its_slot() {
    let mut source = source();
    let conversation = source.open().expect("open");
    assert_eq!(source.in_flight(), 1);
    source.close_conversation(conversation.id());
    assert_eq!(source.in_flight(), 0);
}

#[test]
fn a_dead_source_opens_no_conversations() {
    let mut source = source();
    source.shut_down();
    assert!(source.open().is_none());
}

/// A source that has gone away forgets every conversation, so nobody waiting on
/// one is left to time out, and nobody is told that one was abandoned.
#[test]
fn shutting_down_forgets_every_conversation() {
    let mut source = source();
    let conversation = source.open().expect("open");
    source.shut_down();
    assert!(!source.is_live());
    assert_eq!(source.in_flight(), 0);
    assert_eq!(source.deliver(conversation.id()), Delivery::Unknown);
    assert!(!conversation.abandons(source.is_live()));
}

#[test]
fn messages_reach_the_right_conversation() {
    let mut source = source();
    let a = source.open().expect("open");
    let b = source.open().expect("open");
    source.close_conversation(a.id());

    assert_eq!(source.deliver(b.id()), Delivery::Delivered);
    assert_eq!(
        source.deliver(a.id()),
        Delivery::Unknown,
        "a message must not be delivered to the wrong conversation"
    );
}

/// The reserved conversation carries no ordinary message, and one that uses it
/// for one is not to be trusted with another.
#[test]
fn an_ordinary_message_on_the_reserved_conversation_is_fatal() {
    let mut source = source();
    assert_eq!(source.deliver(CONVERSATION_CONTROL), Delivery::Fatal);
    assert!(!source.is_live());
}

#[test]
fn a_source_has_only_so_many_conversations() {
    let mut source = source();
    for _ in 0..MAX_CONVERSATIONS_PER_SOURCE {
        assert!(source.open().is_some());
    }
    assert!(source.open().is_none());
    source.close_conversation(1);
    assert!(source.open().is_some());
}

#[test]
fn the_foreign_membership_permission_is_carried_from_configuration() {
    let none = Capabilities {
        queries: false,
        enumerates: false,
        ..CAPABILITIES
    };
    let local = Source::new(
        "lpsd".into(),
        true,
        sid("S-1-5-21-1-2-3"),
        None,
        none,
        DEFAULT_SEARCH_ORDER,
    );
    assert!(local.may_assert_foreign_memberships());

    let directory = Source::new(
        "udpsd".into(),
        false,
        sid("S-1-5-21-4-5-6"),
        None,
        none,
        DEFAULT_SEARCH_ORDER,
    );
    assert!(!directory.may_assert_foreign_memberships());
}

// ---------------------------------------------------------------------------
// The domain a source declares
// ---------------------------------------------------------------------------

#[test]
fn a_claimable_domain_is_accepted() {
    assert_eq!(
        verify_domain(&declared("S-1-5-21-1-2-3"), &entry("lpsd", None)),
        Some(sid("S-1-5-21-1-2-3"))
    );
}

#[test]
fn a_source_that_declares_no_domain_is_refused() {
    // There would be no domain to confine its assertions to, which is the whole
    // point of collecting one.
    assert_eq!(verify_domain(&[], &entry("lpsd", None)), None);
}

#[test]
fn a_domain_that_is_not_a_sid_is_refused() {
    assert_eq!(verify_domain(b"not a sid", &entry("lpsd", None)), None);
}

#[test]
fn a_source_may_not_claim_a_well_known_namespace() {
    // The case that matters: claiming BUILTIN would make every alias assertable
    // as an identity by that source.
    for text in [
        "S-1-5-32",
        "S-1-5-32-544",
        "S-1-5-18",
        "S-1-1-0",
        "S-1-5-21-1-2-3-1000",
    ] {
        assert_eq!(
            verify_domain(&declared(text), &entry("lpsd", None)),
            None,
            "{text} must not be claimable"
        );
    }
}

#[test]
fn a_pinned_domain_must_match() {
    let pinned = entry("lpsd", Some("S-1-5-21-1-2-3"));
    assert_eq!(
        verify_domain(&declared("S-1-5-21-1-2-3"), &pinned),
        Some(sid("S-1-5-21-1-2-3"))
    );
    assert_eq!(
        verify_domain(&declared("S-1-5-21-9-9-9"), &pinned),
        None,
        "a declaration that contradicts the administrator's pin must be refused"
    );
}

fn registration(name: &str, conversation: u64) -> First {
    First::Message {
        registers: true,
        conversation,
        claim: Some(Register {
            source_name: name.into(),
            domain: declared("S-1-5-21-1-2-3"),
            capabilities: CAPABILITIES,
        }),
    }
}

#[test]
fn a_source_is_what_the_configuration_calls_it() {
    let built = register(&registration("LPSD", 0), &entry("lpsd", None)).expect("a source");
    assert_eq!(built.name(), "lpsd");
    assert_eq!(built.domain(), &sid("S-1-5-21-1-2-3"));
    assert_eq!(built.search_order(), DEFAULT_SEARCH_ORDER);
    assert!(built.is_live());

    assert!(register(&registration("udpsd", 0), &entry("lpsd", None)).is_none());
    assert!(register(&registration("lpsd", 1), &entry("lpsd", None)).is_none());
    assert!(register(&First::Unread, &entry("lpsd", None)).is_none());
    assert!(register(&First::MalformedHeader, &entry("lpsd", None)).is_none());
    let garbled = First::Message {
        registers: true,
        conversation: 0,
        claim: None,
    };
    assert!(register(&garbled, &entry("lpsd", None)).is_none());
}

#[test]
fn a_registration_is_acknowledged_with_its_range() {
    let range = Range::new(1_000_000, 10).unwrap();
    assert_eq!(acknowledged(Some(range)), range);
    assert_eq!(acknowledged(None), Range { base: 0, count: 0 });
}

#[test]
fn a_source_invalidates_only_its_own_domain() {
    let pushing = Source::new(
        "lpsd".into(),
        false,
        sid("S-1-5-21-1-2-3"),
        None,
        Capabilities {
            pushes_changes: true,
            ..CAPABILITIES
        },
        DEFAULT_SEARCH_ORDER,
    );
    let object = |text: &str| ChangeScope::Object(declared(text));
    assert_eq!(
        changed_here(pushing.facts(), &ChangeScope::All),
        Invalidation::Everything
    );
    assert_eq!(
        changed_here(pushing.facts(), &object("S-1-5-21-1-2-3-1000")),
        Invalidation::Object(sid("S-1-5-21-1-2-3-1000"))
    );
    assert_eq!(
        changed_here(pushing.facts(), &object("S-1-5-21-9-9-9-1000")),
        Invalidation::Foreign
    );
    assert_eq!(
        changed_here(pushing.facts(), &ChangeScope::Object(vec![1])),
        Invalidation::NotASid
    );
    assert_eq!(
        changed_here(source().facts(), &ChangeScope::All),
        Invalidation::Undeclared
    );
}

// ---------------------------------------------------------------------------
// The registry
// ---------------------------------------------------------------------------

#[test]
fn the_registry_rejects_two_sources_claiming_one_domain() {
    // Two authorities for one namespace: whichever answers first decides who a
    // name belongs to, and the other's principals become impersonable.
    let mut registry = Registry::new();
    let first = named("lpsd", "S-1-5-21-1-2-3");
    let second = named("udpsd", "S-1-5-21-1-2-3");

    assert_eq!(registry.accept(first), Ok(()));
    assert_eq!(
        registry.accept(second),
        Err(Rejected::DomainTaken("lpsd".into()))
    );
    assert_eq!(registry.count(), 1);
}

#[test]
fn two_sources_with_distinct_domains_both_register() {
    let mut registry = Registry::new();
    let first = named("lpsd", "S-1-5-21-1-2-3");
    let second = named("udpsd", "S-1-5-21-4-5-6");
    assert_eq!(registry.accept(first), Ok(()));
    assert_eq!(registry.accept(second), Ok(()));
    assert_eq!(registry.count(), 2);
}

#[test]
fn a_source_may_not_change_domain_across_a_reconnection() {
    // The check that survives the source restarting. Everything else would
    // pass: the same service SID, a claimable shape, and with itself
    // deregistered there is nothing left to collide with.
    let mut registry = Registry::new();
    registry
        .accept(named("lpsd", "S-1-5-21-1-2-3"))
        .expect("must be let in");
    registry.remove("lpsd");
    assert_eq!(registry.count(), 0);

    let impostor = named("lpsd", "S-1-5-21-9-9-9");
    assert_eq!(
        registry.accept(impostor),
        Err(Rejected::DomainChanged(sid("S-1-5-21-1-2-3")))
    );
}

#[test]
fn a_source_may_reconnect_with_the_domain_it_declared_before() {
    let mut registry = Registry::new();
    registry
        .accept(named("lpsd", "S-1-5-21-1-2-3"))
        .expect("must be let in");
    registry.remove("lpsd");

    let again = named("lpsd", "S-1-5-21-1-2-3");
    assert_eq!(
        registry.accept(again),
        Ok(()),
        "an ordinary restart must not lock a source out"
    );
}

#[test]
fn the_registry_rejects_a_duplicate_name() {
    let mut registry = Registry::new();
    assert_eq!(registry.accept(source()), Ok(()));
    assert_eq!(
        registry.accept(source()),
        Err(Rejected::AlreadyRegistered),
        "one name, one source"
    );
    assert_eq!(registry.count(), 1);
}

#[test]
fn ordering_includes_a_live_source_and_drops_a_dead_one() {
    // What routing builds on: a source that shut down must vanish from the
    // order, or a logon would be sent to a wire nobody answers.
    let mut registry = Registry::new();
    registry.accept(source()).expect("must be let in");
    assert_eq!(registry.ordered().len(), 1);

    registry.shut_down("test");
    assert!(registry.ordered().is_empty());
}

#[test]
fn a_removed_source_is_no_longer_ordered() {
    let mut registry = Registry::new();
    registry.accept(source()).expect("must be let in");
    registry.remove("test");
    assert_eq!(registry.count(), 0);
    assert!(registry.ordered().is_empty());
}

#[test]
fn the_registry_holds_only_so_many_sources() {
    let mut registry = Registry::new();
    for i in 0..MAX_SOURCES {
        let name = format!("source-{i}");
        let domain = format!("S-1-5-21-1-1-{i}");
        assert_eq!(registry.accept(named(&name, &domain)), Ok(()));
    }
    let rejected = registry
        .accept(named("one-more", "S-1-5-21-2-2-2"))
        .unwrap_err();
    assert_eq!(rejected, Rejected::TooMany);
    assert_eq!(rejected.message(""), "8 sources are already registered");
}

#[test]
fn a_rejection_says_why() {
    assert_eq!(
        Rejected::AlreadyRegistered.message(""),
        "a source of that name is already registered"
    );
    assert_eq!(
        Rejected::DomainTaken("lpsd".into()).message(""),
        "lpsd is already registered for that domain"
    );
    assert_eq!(
        Rejected::DomainChanged(sid("S-1-5-21-1-2-3")).message("S-1-5-21-1-2-3"),
        "it previously declared S-1-5-21-1-2-3 and may not change domain without restarting the \
         authority"
    );
}

fn configured(name: &str, search_order: u32, unix_id_range: Option<Range>) -> Configured {
    Configured {
        name: name.into(),
        search_order,
        unix_id_range,
    }
}

fn ranked(name: &str, domain: &str, order: u32, range: Option<Range>) -> Source {
    Source::new(name.into(), false, sid(domain), range, CAPABILITIES, order)
}

/// Configured order first, then name; never the order of arrival. A source that
/// should be here and is not keeps its place.
#[test]
fn the_search_order_has_its_gaps_in_it() {
    let arrivals = [
        [("b", "S-1-5-21-2-2-2", 10), ("a", "S-1-5-21-1-1-1", 10)],
        [("a", "S-1-5-21-1-1-1", 10), ("b", "S-1-5-21-2-2-2", 10)],
    ];
    for arrival in arrivals {
        let mut registry = Registry::expecting(vec![
            configured("a", 10, None),
            configured("b", 10, None),
            configured("early", 5, None),
            configured("late", 20, None),
        ]);
        for (name, domain, order) in arrival {
            registry
                .accept(ranked(name, domain, order, None))
                .expect("must be let in");
        }
        let places: Vec<(bool, &str)> = registry
            .slots()
            .iter()
            .map(|slot| match slot {
                Slot::Live(source) => (true, source.name()),
                Slot::Absent(entry) => (false, entry.name.as_str()),
            })
            .collect();
        assert_eq!(
            places,
            vec![(false, "early"), (true, "a"), (true, "b"), (false, "late")]
        );
        assert_eq!(registry.absent(), vec!["early", "late"]);
        assert!(!registry.complete());
    }
}

#[test]
fn a_number_belongs_to_a_configured_range_whoever_is_here() {
    let near = Range::new(1_000_000, 1000).unwrap();
    let far = Range::new(2_000_000, 1000).unwrap();
    let mut registry = Registry::expecting(vec![
        configured("near", 1, Some(near)),
        configured("far", 2, Some(far)),
    ]);
    registry
        .accept(ranked("far", "S-1-5-21-2-2-2", 2, Some(far)))
        .expect("must be let in");
    assert_eq!(
        registry
            .configured_range(1_000_005)
            .map(|entry| entry.name.as_str()),
        Some("near")
    );
    assert_eq!(registry.configured_range(1_000_000), None);
    assert!(registry.rebasing(1_000_005).is_none());
    let (source, relative) = registry.rebasing(2_000_005).expect("an owner");
    assert_eq!((source.name(), relative), ("far", 5));
    assert_eq!(
        registry
            .owning(&sid("S-1-5-21-2-2-2-1000"))
            .map(|source| source.name()),
        Some("far")
    );
    assert!(registry.owning(&sid("S-1-5-21-2-2-2")).is_none());
}

#[test]
fn the_allowlist_is_what_is_expected() {
    let registry = Registry::configured(&[entry("lpsd", None), entry("udpsd", None)]);
    assert_eq!(registry.absent(), vec!["lpsd", "udpsd"]);
    assert_eq!(registry.count(), 0);
}

/// Conversations opened through the registry are the named source's.
#[test]
fn the_registry_reaches_a_source_by_name() {
    let mut registry = Registry::new();
    registry.accept(source()).expect("must be let in");
    assert!(registry.open("nobody").is_none());
    let conversation = registry.open("test").expect("open");
    assert_eq!(registry.named("test").expect("a source").in_flight(), 1);
    assert_eq!(registry.deliver("test", conversation.id()), Delivery::Delivered);
    assert_eq!(registry.deliver("nobody", conversation.id()), Delivery::Unknown);
    registry.close_conversation("test", conversation.id());
    assert_eq!(registry.named("test").expect("a source").in_flight(), 0);
}

#[test]
fn what_a_source_sends_is_handed_on_or_ends_the_connection() {
    let mut registry = Registry::new();
    registry.accept(source()).expect("must be let in");
    let id = registry.open("test").expect("open").id();
    let message = |conversation, understood| Read::Message {
        conversation,
        understood,
    };
    assert_eq!(registry.pump("test", message(id, true)), Pumped::Deliver);
    assert_eq!(registry.pump("test", message(99, true)), Pumped::Ignore);
    assert_eq!(
        registry.pump("test", Read::Changed { understood: true }),
        Pumped::Changed
    );
    for read in [
        Read::Ended,
        Read::Failed,
        Read::MalformedHeader,
        Read::Changed { understood: false },
        message(id, false),
    ] {
        assert_eq!(registry.pump("test", read), Pumped::Stop);
        assert_eq!(registry.ordered().len(), 1);
    }
    assert_eq!(
        registry.pump("test", message(CONVERSATION_CONTROL, true)),
        Pumped::Stop
    );
    assert!(registry.ordered().is_empty());
}
