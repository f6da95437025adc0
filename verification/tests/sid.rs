use authd::sid::{Sid, MAX_SUB_AUTHORITIES};

/// A SID written as `S-1-{authority}-{sub-authorities}`.
fn sid(text: &str) -> Sid {
    let mut parts = text.split('-').skip(2);
    let authority: u64 = parts
        .next()
        .expect("an authority")
        .parse()
        .expect("a number");
    let subs: Vec<u32> = parts.map(|part| part.parse().expect("a number")).collect();
    Sid::build(authority, &subs).expect("a well-formed SID")
}

#[test]
fn a_sid_has_one_binary_form() {
    assert_eq!(
        sid("S-1-5-21-1-2-3-1000").to_bytes(),
        vec![
            1, 5, 0, 0, 0, 0, 0, 5, 21, 0, 0, 0, 1, 0, 0, 0, 2, 0, 0, 0, 3, 0, 0, 0, 0xe8, 3, 0, 0
        ]
    );
    assert_eq!(
        Sid::build(0x0102_0304_0506, &[0xdead_beef])
            .expect("a SID")
            .to_bytes(),
        vec![1, 1, 1, 2, 3, 4, 5, 6, 0xef, 0xbe, 0xad, 0xde]
    );
}

#[test]
fn a_sid_reads_back_from_its_bytes() {
    for text in ["S-1-1-0", "S-1-5-18", "S-1-5-32-544", "S-1-5-21-4294967295-2-3-1000"] {
        assert_eq!(Sid::from_bytes(&sid(text).to_bytes()), Some(sid(text)));
    }
}

#[test]
fn only_whole_sids_are_read() {
    let bytes = sid("S-1-5-32-544").to_bytes();
    assert_eq!(Sid::from_bytes(&[]), None);
    assert_eq!(Sid::from_bytes(&bytes[..bytes.len() - 1]), None);
    let mut longer = bytes.clone();
    longer.push(0);
    assert_eq!(Sid::from_bytes(&longer), None);
    let mut revised = bytes.clone();
    revised[0] = 2;
    assert_eq!(Sid::from_bytes(&revised), None);
    let mut crowded = bytes[..8].to_vec();
    crowded[1] = MAX_SUB_AUTHORITIES as u8 + 1;
    crowded.resize(8 + 4 * (MAX_SUB_AUTHORITIES + 1), 0);
    assert_eq!(Sid::from_bytes(&crowded), None);
}

#[test]
fn there_are_only_so_many_sids() {
    assert!(Sid::build((1 << 48) - 1, &[0]).is_some());
    assert!(Sid::build(1 << 48, &[0]).is_none());
    assert!(Sid::build(5, &[0; MAX_SUB_AUTHORITIES]).is_some());
    assert!(Sid::build(5, &[0; MAX_SUB_AUTHORITIES + 1]).is_none());
}

#[test]
fn sids_are_told_apart_by_every_part() {
    let one = sid("S-1-5-32-544");
    assert!(one.same(&one.clone()));
    assert!(!one.same(&sid("S-1-4-32-544")));
    assert!(!one.same(&sid("S-1-5-32-545")));
    assert!(!one.same(&sid("S-1-5-32")));
    let (a, b) = (sid("S-1-5-18"), sid("S-1-5-32-544"));
    assert!(one.among(&[&a, &b]));
    assert!(!one.among(&[&a]));
    assert_eq!(Sid::copied(&Some(sid("S-1-1-0"))), Some(sid("S-1-1-0")));
    assert_eq!(Sid::copied(&None), None);
}
