use authd::policy::sources::{
    is_set, pinned_domain, search_order, sources, unix_id_range, unsatisfiable_pin, Offered,
    Settings, SourceEntry, DEFAULT_SEARCH_ORDER, MAX_SOURCE_ENTRIES,
};
use authd::policy::{Value, ValueType};
use authd::service_sid;
use authd::sid::Sid;
use authd::unix_id::{Range, DEFAULT_COUNT};

/// A SID written as `S-1-{authority}-{sub-authorities}`.
fn sid(text: &str) -> Sid {
    let mut parts = text.split('-').skip(2);
    let authority: u64 = parts
        .next()
        .expect("an authority")
        .parse()
        .expect("a number");
    let subs: Vec<u32> = parts.map(|part| part.parse().expect("a number")).collect();
    Sid::build(authority, &subs).expect("a well-formed SID")
}

fn dword(number: u32) -> Option<Value> {
    Some(Value {
        ty: ValueType::Dword,
        data: number.to_le_bytes().to_vec(),
    })
}

fn text(content: &str) -> Option<Value> {
    Some(Value {
        ty: ValueType::Sz,
        data: content.as_bytes().to_vec(),
    })
}

fn nothing() -> Settings {
    Settings {
        foreign_memberships: None,
        domain: None,
        domain_literal: None,
        unix_id_base: None,
        unix_id_count: None,
        search_order: None,
    }
}

#[test]
fn an_absent_allowlist_lets_nobody_in() {
    assert!(sources().finish().is_empty());
}

#[test]
fn an_entry_is_what_its_subkey_says() {
    let mut reader = sources();
    let settings = Settings {
        foreign_memberships: dword(1),
        domain: text("S-1-5-21-1-2-3"),
        domain_literal: Some(sid("S-1-5-21-1-2-3")),
        unix_id_base: dword(1_000_000),
        unix_id_count: dword(500),
        search_order: dword(7),
    };
    assert_eq!(reader.offer(b"lpsd", Some(settings)), Offered::Taken);
    assert_eq!(reader.offer(b"bare", Some(nothing())), Offered::Taken);
    assert_eq!(reader.offer(b"shut", None), Offered::Taken);
    assert_eq!(reader.offer(&[0xff], None), Offered::NotText);
    let plain = |name: &str| SourceEntry {
        name: name.into(),
        service_sid: service_sid::of(name).expect("a usable SID"),
        may_assert_foreign_memberships: false,
        pinned_domain: None,
        unix_id_range: None,
        search_order: DEFAULT_SEARCH_ORDER,
    };
    assert_eq!(
        reader.finish(),
        vec![
            SourceEntry {
                may_assert_foreign_memberships: true,
                pinned_domain: Some(sid("S-1-5-21-1-2-3")),
                unix_id_range: Some(Range {
                    base: 1_000_000,
                    count: 500
                }),
                search_order: 7,
                ..plain("lpsd")
            },
            plain("bare"),
            plain("shut"),
        ]
    );
}

#[test]
fn the_allowlist_is_bounded() {
    let mut reader = sources();
    for i in 0..MAX_SOURCE_ENTRIES {
        assert!(reader.wants_more());
        assert_eq!(
            reader.offer(format!("source{i}").as_bytes(), None),
            Offered::Taken
        );
    }
    assert!(!reader.wants_more());
    assert_eq!(reader.offer(b"late", None), Offered::Full);
    assert_eq!(reader.finish().len(), MAX_SOURCE_ENTRIES);
}

/// A value that cannot be parsed means an administrator tried to write a pin and
/// got it wrong: nobody satisfies it.
#[test]
fn a_broken_pin_is_not_an_absent_one() {
    assert_eq!(pinned_domain(None, None), None);
    assert_eq!(
        pinned_domain(text("nonsense").as_ref(), None),
        Some(unsatisfiable_pin())
    );
    assert_eq!(
        pinned_domain(dword(0).as_ref(), Some(sid("S-1-5-21-1-2-3"))),
        Some(unsatisfiable_pin())
    );
    assert_eq!(unsatisfiable_pin(), sid("S-1-0-0"));
    assert_eq!(
        pinned_domain(text("S-1-5-21-1-2-3\0").as_ref(), Some(sid("S-1-5-21-1-2-3"))),
        Some(sid("S-1-5-21-1-2-3"))
    );
}

/// A range that is not usable grants nothing, as one that is not there does.
#[test]
fn a_broken_range_is_an_absent_one() {
    assert_eq!(unix_id_range(None, dword(5).as_ref()), None);
    assert_eq!(
        unix_id_range(dword(1_000_000).as_ref(), None),
        Some(Range {
            base: 1_000_000,
            count: DEFAULT_COUNT
        })
    );
    assert_eq!(unix_id_range(dword(1).as_ref(), None), None);
    assert_eq!(
        unix_id_range(dword(1_000_000).as_ref(), dword(0).as_ref()),
        None
    );
    assert_eq!(unix_id_range(text("1000000").as_ref(), None), None);
}

#[test]
fn a_flag_is_set_only_by_a_number() {
    assert!(is_set(dword(2).as_ref()));
    assert!(!is_set(dword(0).as_ref()));
    assert!(!is_set(text("1").as_ref()));
    assert!(!is_set(None));
    assert_eq!(search_order(dword(3).as_ref()), 3);
    assert_eq!(search_order(text("3").as_ref()), DEFAULT_SEARCH_ORDER);
    assert_eq!(search_order(None), DEFAULT_SEARCH_ORDER);
}
