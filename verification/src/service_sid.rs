//! Deriving a service's SID from its name.
//!
//! `S-1-5-80-h1-h2-h3-h4-h5`, where the five hash values are the SHA-1 of the
//! uppercased service name encoded as UTF-16LE, split into five little-endian
//! 32-bit integers. A platform rule, documented under well-known principals.
//!
//! # Why it matters here
//!
//! This is how a principal source proves it is the source it claims to be, and
//! the answer is that it does not prove anything: the service manager computes
//! this SID for every service it launches and puts it in the token's group
//! list, which is precisely what keeps the platform daemons distinguishable
//! when they all run as SYSTEM.
//!
//! So nothing here ever has to trust a name it was sent. The SID is derived for
//! each name in the configuration and the kernel is asked whether the peer's
//! token carries it. There is no shared secret and nothing to provision.

use crate::sid::{Sid, SidModel};
use crate::text;
use sha1::{Digest, Sha1};
use vstd::prelude::*;

verus! {

/// The `S-1-5-80` sub-authority every service SID begins with.
pub const SERVICE_AUTHORITY: u32 = 80;

/// Bytes in a SHA-1 digest.
pub const DIGEST_BYTES: usize = 20;

/// SHA-1 counts its input in bits, in 64 of them: input this long or longer has
/// no digest.
pub const DIGEST_LIMIT: u64 = 0x2000_0000_0000_0000;

/// What `char::to_uppercase` makes of a character.
pub uninterp spec fn uppercase(c: char) -> Seq<char>;

/// What `Sha1::digest` makes of some bytes.
pub uninterp spec fn sha1_of(data: Seq<u8>) -> Seq<u8>;

/// A character in capitals. ASCII letters go by the ASCII rule, everything else
/// by Unicode's.
pub open spec fn capitals(c: char) -> Seq<char> {
    if (c as u32) < 0x80 {
        seq![text::raised(c)]
    } else {
        uppercase(c)
    }
}

/// A name in capitals.
pub open spec fn folded(name: Seq<char>) -> Seq<char>
    decreases name.len(),
{
    if name.len() == 0 {
        Seq::empty()
    } else {
        folded(name.drop_last()) + capitals(name.last())
    }
}

/// The UTF-16 code units of one character: itself, or a surrogate pair.
pub open spec fn utf16_units(c: char) -> Seq<u16> {
    let code = c as u32;
    if code < 0x1_0000 {
        seq![code as u16]
    } else {
        seq![
            (0xd800 + (code - 0x1_0000) / 0x400) as u16,
            (0xdc00 + (code - 0x1_0000) % 0x400) as u16,
        ]
    }
}

/// A code unit, least significant byte first.
pub open spec fn unit_bytes(unit: u16) -> Seq<u8> {
    seq![(unit % 256) as u8, (unit / 256) as u8]
}

/// Code units, least significant byte first.
pub open spec fn units_bytes(units: Seq<u16>) -> Seq<u8>
    decreases units.len(),
{
    if units.len() == 0 {
        Seq::empty()
    } else {
        units_bytes(units.drop_last()) + unit_bytes(units.last())
    }
}

/// A text in UTF-16LE.
pub open spec fn utf16le(s: Seq<char>) -> Seq<u8>
    decreases s.len(),
{
    if s.len() == 0 {
        Seq::empty()
    } else {
        utf16le(s.drop_last()) + units_bytes(utf16_units(s.last()))
    }
}

/// The `index`th little-endian word of a digest.
pub open spec fn word_at(digest: Seq<u8>, index: int) -> u32 {
    (digest[4 * index] + digest[4 * index + 1] * 0x100 + digest[4 * index + 2] * 0x1_0000
        + digest[4 * index + 3] * 0x100_0000) as u32
}

/// The service SID a digest spells.
pub open spec fn from_digest(digest: Seq<u8>) -> SidModel {
    SidModel {
        authority: 5,
        subs: seq![SERVICE_AUTHORITY] + Seq::new(5, |i: int| word_at(digest, i)),
    }
}

/// The bytes a name's SID is the digest of.
pub open spec fn digested(name: Seq<char>) -> Seq<u8> {
    utf16le(folded(name))
}

/// The SID a service of this name carries.
pub open spec fn service_sid(name: Seq<char>) -> SidModel {
    from_digest(sha1_of(digested(name)))
}

/// [`char::to_uppercase`], whose characters are given a name: they are a
/// function of the one character it is asked about.
#[verifier::external_body]
fn to_uppercase(c: char) -> (upper: Vec<char>)
    ensures
        upper@ == uppercase(c),
{
    c.to_uppercase().collect()
}

/// `sha1::Sha1::digest`, whose bytes are given a name: they are a function of
/// the data alone, and there are always twenty of them.
#[verifier::external_body]
fn sha1_digest(data: &[u8]) -> (digest: Vec<u8>)
    requires
        data@.len() < DIGEST_LIMIT,
    ensures
        digest@ == sha1_of(data@),
        digest@.len() == DIGEST_BYTES,
{
    Sha1::digest(data).to_vec()
}

/// A name in capitals.
fn fold(name: &str) -> (capital: Vec<char>)
    ensures
        capital@ == folded(name@),
{
    let chars = text::chars_of(name);
    let mut capital: Vec<char> = Vec::new();
    let mut i: usize = 0;
    assert(name@.take(0) =~= Seq::empty());
    while i < chars.len()
        invariant
            i <= chars@.len(),
            chars@ == name@,
            capital@ == folded(name@.take(i as int)),
        decreases chars@.len() - i,
    {
        let c = chars[i];
        let ghost done = capital@;
        if (c as u32) < 0x80 {
            capital.push(text::raise(c));
        } else {
            let mut upper = to_uppercase(c);
            capital.append(&mut upper);
        }
        proof {
            assert(name@.take(i + 1).drop_last() =~= name@.take(i as int));
            assert(name@.take(i + 1).last() == c);
            assert(capital@ =~= done + capitals(c));
        }
        i += 1;
    }
    assert(name@.take(i as int) =~= name@);
    capital
}

/// Appends one code unit, least significant byte first.
fn push_unit(bytes: &mut Vec<u8>, unit: u16)
    ensures
        final(bytes)@ == old(bytes)@ + unit_bytes(unit),
{
    bytes.push((unit % 256) as u8);
    bytes.push((unit / 256) as u8);
    assert(bytes@ =~= old(bytes)@ + unit_bytes(unit));
}

/// A text in UTF-16LE.
fn encode(chars: &Vec<char>) -> (bytes: Vec<u8>)
    ensures
        bytes@ == utf16le(chars@),
{
    let mut bytes: Vec<u8> = Vec::new();
    let mut i: usize = 0;
    assert(chars@.take(0) =~= Seq::empty());
    while i < chars.len()
        invariant
            i <= chars@.len(),
            bytes@ == utf16le(chars@.take(i as int)),
        decreases chars@.len() - i,
    {
        let code: u32 = chars[i] as u32;
        let ghost done = bytes@;
        proof {
            reveal_with_fuel(units_bytes, 3);
            assert(chars@.take(i + 1).drop_last() =~= chars@.take(i as int));
            assert(chars@.take(i + 1).last() == chars@[i as int]);
        }
        if code < 0x1_0000 {
            push_unit(&mut bytes, code as u16);
            assert(utf16_units(chars@[i as int]).drop_last() =~= Seq::<u16>::empty());
            assert(bytes@ =~= done + units_bytes(utf16_units(chars@[i as int])));
        } else {
            let high: u16 = (0xd800 + (code - 0x1_0000) / 0x400) as u16;
            let low: u16 = (0xdc00 + (code - 0x1_0000) % 0x400) as u16;
            push_unit(&mut bytes, high);
            push_unit(&mut bytes, low);
            proof {
                let units = utf16_units(chars@[i as int]);
                assert(units.drop_last() =~= seq![high]);
                assert(units.drop_last().drop_last() =~= Seq::<u16>::empty());
                assert(bytes@ =~= done + units_bytes(units));
            }
        }
        i += 1;
    }
    assert(chars@.take(i as int) =~= chars@);
    bytes
}

/// The service SID a digest spells: NT Authority (5), then 80 and the five
/// digest words.
pub fn of_digest(digest: &[u8]) -> (sid: Option<Sid>)
    ensures
        sid is Some <==> digest@.len() == DIGEST_BYTES,
        sid matches Some(found) ==> found@ == from_digest(digest@),
{
    if digest.len() != DIGEST_BYTES {
        return None;
    }
    let mut subs: Vec<u32> = Vec::new();
    subs.push(SERVICE_AUTHORITY);
    let mut i: usize = 0;
    while i < 5
        invariant
            i <= 5,
            digest@.len() == DIGEST_BYTES,
            subs@ == seq![SERVICE_AUTHORITY] + Seq::new(i as nat, |j: int| word_at(digest@, j)),
        decreases 5 - i,
    {
        let at: usize = i * 4;
        subs.push(
            digest[at] as u32 + digest[at + 1] as u32 * 0x100 + digest[at + 2] as u32 * 0x1_0000
                + digest[at + 3] as u32 * 0x100_0000,
        );
        i += 1;
        assert(subs@ =~= seq![SERVICE_AUTHORITY] + Seq::new(
            i as nat,
            |j: int| word_at(digest@, j),
        ));
    }
    Sid::build(5, subs.as_slice())
}

/// The SID the service manager puts on the token of a service with this name.
///
/// `None` only for a name too long to have a digest, which no machine has the
/// memory to hold.
pub fn of(service_name: &str) -> (sid: Option<Sid>)
    ensures
        sid is Some <==> digested(service_name@).len() < DIGEST_LIMIT,
        sid matches Some(found) ==> found@ == service_sid(service_name@),
{
    let capital = fold(service_name);
    let encoded = encode(&capital);
    if encoded.len() as u64 >= DIGEST_LIMIT {
        return None;
    }
    let digest = sha1_digest(encoded.as_slice());
    of_digest(digest.as_slice())
}

/// The case of a name's ASCII letters does not change whose SID it is: `LPSD`
/// and `lpsd` are one service, so the case of a configuration key cannot change
/// who is admitted.
pub proof fn law_case_does_not_matter(a: Seq<char>, b: Seq<char>)
    requires
        text::same_word(a, b),
    ensures
        service_sid(a) == service_sid(b),
{
    text::lemma_same_word_raised(a, b);
    lemma_folded(a, b);
}

/// Names that agree in capitals fold alike.
proof fn lemma_folded(a: Seq<char>, b: Seq<char>)
    requires
        a.len() == b.len(),
        forall|i: int| 0 <= i < a.len() ==> text::lowered(#[trigger] a[i]) == text::lowered(b[i]),
    ensures
        folded(a) == folded(b),
    decreases a.len(),
{
    if a.len() > 0 {
        assert forall|i: int| 0 <= i < a.len() - 1 implies text::lowered(
            #[trigger] a.drop_last()[i],
        ) == text::lowered(b.drop_last()[i]) by {
            assert(text::lowered(a[i]) == text::lowered(b[i]));
        }
        lemma_folded(a.drop_last(), b.drop_last());
        assert(text::lowered(a[a.len() - 1]) == text::lowered(b[b.len() - 1]));
        assert(capitals(a.last()) =~= capitals(b.last()));
    }
}

/// Every service SID is `S-1-5-80` and five words: never a domain a source may
/// claim, nor a principal of one.
pub proof fn law_the_shape_is_a_service_sid(name: Seq<char>)
    ensures
        service_sid(name).authority == 5,
        service_sid(name).subs.len() == 6,
        service_sid(name).subs[0] == SERVICE_AUTHORITY,
        forall|domain: SidModel|
            crate::domain::claimable(domain) ==> !#[trigger] crate::domain::within(
                domain,
                service_sid(name),
            ),
{
    let sid = service_sid(name);
    assert forall|domain: SidModel| crate::domain::claimable(domain) implies !#[trigger] crate::domain::within(
        domain,
        sid,
    ) by {
        if crate::domain::within(domain, sid) {
            let rid = choose|rid: u32| #[trigger] domain.subs.push(rid) == sid.subs;
            assert(domain.subs.push(rid)[0] == domain.subs[0]);
        }
    }
}

/// Concatenation is taken apart at its end.
proof fn lemma_last_of_two<T>(a: Seq<T>, b: Seq<T>)
    requires
        b.len() > 0,
    ensures
        (a + b).last() == b.last(),
        (a + b).drop_last() == a + b.drop_last(),
{
    assert((a + b).drop_last() =~= a + b.drop_last());
}

/// A name is folded character by character: an ASCII small letter loses 32, any
/// other ASCII character stays, and the rest go by Unicode's rule, each by itself.
pub proof fn law_a_name_is_folded_character_by_character(a: Seq<char>, b: Seq<char>, c: char)
    ensures
        folded(a + b) == folded(a) + folded(b),
        folded(Seq::empty()).len() == 0,
        97 <= c as u32 <= 122 ==> folded(seq![c]) == seq![((c as u32 - 32) as u32) as char],
        (c as u32) < 128 && !(97 <= c as u32 <= 122) ==> folded(seq![c]) == seq![c],
        c as u32 >= 128 ==> folded(seq![c]) == uppercase(c),
    decreases b.len(),
{
    reveal_with_fuel(folded, 2);
    assert(seq![c].drop_last() =~= Seq::<char>::empty());
    assert(seq![c].last() == c);
    assert(Seq::<char>::empty() + capitals(c) =~= capitals(c));
    if b.len() == 0 {
        assert(a + b =~= a);
        assert(folded(a) + folded(b) =~= folded(a));
    } else {
        lemma_last_of_two(a, b);
        law_a_name_is_folded_character_by_character(a, b.drop_last(), c);
        assert(folded(a) + (folded(b.drop_last()) + capitals(b.last())) =~= (folded(a) + folded(
            b.drop_last(),
        )) + capitals(b.last()));
    }
}

/// A text is encoded character by character: one of the first 65536 as its two
/// bytes, the least significant first, and any other as the two bytes of each half
/// of its pair.
pub proof fn law_a_text_is_encoded_character_by_character(a: Seq<char>, b: Seq<char>, c: char)
    ensures
        utf16le(a + b) == utf16le(a) + utf16le(b),
        utf16le(Seq::empty()).len() == 0,
        (c as u32) < 65536 ==> utf16le(seq![c]) == seq![
            (c as u32 % 256) as u8,
            (c as u32 / 256) as u8,
        ],
        c as u32 >= 65536 ==> ({
            let over = c as u32 - 65536;
            let (high, low) = (55296 + over / 1024, 56320 + over % 1024);
            utf16le(seq![c]) == seq![
                (high % 256) as u8,
                (high / 256) as u8,
                (low % 256) as u8,
                (low / 256) as u8,
            ]
        }),
    decreases b.len(),
{
    reveal_with_fuel(utf16le, 2);
    reveal_with_fuel(units_bytes, 3);
    let units = utf16_units(c);
    assert(seq![c].drop_last() =~= Seq::<char>::empty());
    assert(seq![c].last() == c);
    assert(Seq::<u8>::empty() + units_bytes(units) =~= units_bytes(units));
    if (c as u32) < 65536 {
        assert(units.drop_last() =~= Seq::<u16>::empty());
        assert(utf16le(seq![c]) =~= seq![(c as u32 % 256) as u8, (c as u32 / 256) as u8]);
    } else {
        let over = c as u32 - 65536;
        let (high, low) = (55296 + over / 1024, 56320 + over % 1024);
        assert(units.drop_last() =~= seq![units[0]]);
        assert(units.drop_last().drop_last() =~= Seq::<u16>::empty());
        assert(c as u32 <= 0x10_ffff);
        assert(units[0] == high);
        assert(units[1] == low);
        assert(utf16le(seq![c]) =~= seq![
            (high % 256) as u8,
            (high / 256) as u8,
            (low % 256) as u8,
            (low / 256) as u8,
        ]);
    }
    if b.len() == 0 {
        assert(a + b =~= a);
        assert(utf16le(a) + utf16le(b) =~= utf16le(a));
    } else {
        lemma_last_of_two(a, b);
        law_a_text_is_encoded_character_by_character(a, b.drop_last(), c);
        let last = units_bytes(utf16_units(b.last()));
        assert(utf16le(a) + (utf16le(b.drop_last()) + last) =~= (utf16le(a) + utf16le(
            b.drop_last(),
        )) + last);
    }
}

/// A service's SID is 80 after authority 5, and then the digest of its name, folded
/// and encoded, four bytes to a number with the least significant first.
pub proof fn law_what_a_service_sid_is_made_of(name: Seq<char>, i: int)
    requires
        0 <= i < 5,
    ensures
        ({
            let digest = sha1_of(utf16le(folded(name)));
            let sid = service_sid(name);
            &&& sid == from_digest(digest)
            &&& sid.authority == 5
            &&& sid.subs.len() == 6
            &&& sid.subs[0] == 80
            &&& sid.subs[i + 1] == digest[4 * i] + 256 * (digest[4 * i + 1] + 256 * (digest[4 * i
                + 2] + 256 * digest[4 * i + 3]))
        }),
{
}

} // verus!
