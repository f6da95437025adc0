//! Security identifiers.
//!
//! A SID is an identifier authority and a short list of sub-authorities. Its
//! binary form is
//!
//! ```text
//! revision u8 | sub_authority_count u8 | identifier_authority [u8; 6] (big-endian)
//!             | sub_authority u32 (little-endian) * count
//! ```
//!
//! and the textual form, `S-1-5-32-544`, is left to the caller.

use crate::domain;
use vstd::prelude::*;

verus! {

/// The most sub-authorities one SID can carry.
pub const MAX_SUB_AUTHORITIES: usize = 15;

/// One past the largest identifier authority: the field is six bytes wide.
pub const AUTHORITY_LIMIT: u64 = 0x1_0000_0000_0000;

/// The only revision there is.
pub const REVISION: u8 = 1;

/// What a SID is, mathematically.
#[verifier::ext_equal]
pub struct SidModel {
    pub authority: u64,
    pub subs: Seq<u32>,
}

impl SidModel {
    /// Whether there is a SID with these parts.
    pub open spec fn valid(self) -> bool {
        self.authority < AUTHORITY_LIMIT && self.subs.len() <= MAX_SUB_AUTHORITIES
    }

    /// The binary form.
    pub open spec fn bytes(self) -> Seq<u8> {
        seq![REVISION, self.subs.len() as u8] + authority_bytes(self.authority) + subs_bytes(
            self.subs,
        )
    }
}

/// The six identifier-authority bytes, most significant first.
pub open spec fn authority_bytes(authority: u64) -> Seq<u8> {
    seq![
        (authority / 0x100_0000_0000 % 256) as u8,
        (authority / 0x1_0000_0000 % 256) as u8,
        (authority / 0x100_0000 % 256) as u8,
        (authority / 0x1_0000 % 256) as u8,
        (authority / 0x100 % 256) as u8,
        (authority % 256) as u8,
    ]
}

/// One sub-authority, least significant byte first.
pub open spec fn sub_bytes(sub: u32) -> Seq<u8> {
    seq![
        (sub % 256) as u8,
        (sub / 0x100 % 256) as u8,
        (sub / 0x1_0000 % 256) as u8,
        (sub / 0x100_0000 % 256) as u8,
    ]
}

/// Every sub-authority's bytes, in order.
pub open spec fn subs_bytes(subs: Seq<u32>) -> Seq<u8>
    decreases subs.len(),
{
    if subs.len() == 0 {
        Seq::empty()
    } else {
        subs_bytes(subs.drop_last()) + sub_bytes(subs.last())
    }
}

/// The number six big-endian bytes starting at `at` spell.
pub open spec fn authority_at(bytes: Seq<u8>, at: int) -> int {
    bytes[at] * 0x100_0000_0000 + bytes[at + 1] * 0x1_0000_0000 + bytes[at + 2] * 0x100_0000
        + bytes[at + 3] * 0x1_0000 + bytes[at + 4] * 0x100 + bytes[at + 5]
}

/// Whether these bytes are exactly one SID: the revision, a count that is in
/// range, and nothing missing or left over.
pub open spec fn is_sid(bytes: Seq<u8>) -> bool {
    &&& bytes.len() >= domain::PRELUDE
    &&& bytes[0] == REVISION
    &&& bytes[1] <= MAX_SUB_AUTHORITIES
    &&& bytes.len() == domain::PRELUDE + 4 * bytes[1]
}

/// The SID that bytes satisfying [`is_sid`] spell.
pub open spec fn decoded(bytes: Seq<u8>) -> SidModel {
    SidModel {
        authority: authority_at(bytes, 2) as u64,
        subs: Seq::new(bytes[1] as nat, |i: int| domain::sub_authority_at(bytes, i)),
    }
}

/// SIDs as values.
pub open spec fn owned_models(of: Seq<Sid>) -> Seq<SidModel> {
    of.map_values(|sid: Sid| sid@)
}

/// Borrowed SIDs as values.
pub open spec fn models(of: Seq<&Sid>) -> Seq<SidModel> {
    of.map_values(|sid: &Sid| sid@)
}

/// A SID that may be missing, as a value.
pub open spec fn maybe(of: Option<Sid>) -> Option<SidModel> {
    match of {
        Some(sid) => Some(sid@),
        None => None,
    }
}

/// A security identifier.
#[derive(Debug, PartialEq, Eq)]
pub struct Sid {
    authority: u64,
    subs: Vec<u32>,
}

impl View for Sid {
    type V = SidModel;

    closed spec fn view(&self) -> SidModel {
        SidModel { authority: self.authority, subs: self.subs@ }
    }
}

impl Clone for Sid {
    fn clone(&self) -> (copy: Self)
        ensures
            copy@ == self@,
    {
        proof {
            use_type_invariant(self);
        }
        let mut subs: Vec<u32> = Vec::new();
        let mut i: usize = 0;
        while i < self.subs.len()
            invariant
                i <= self.subs@.len(),
                subs@ == self.subs@.take(i as int),
            decreases self.subs@.len() - i,
        {
            subs.push(self.subs[i]);
            i += 1;
            assert(self.subs@.take(i as int) =~= self.subs@.take(i - 1).push(self.subs@[i - 1]));
        }
        assert(subs@ =~= self.subs@);
        Sid { authority: self.authority, subs }
    }
}

impl Sid {
    #[verifier::type_invariant]
    spec fn in_range(self) -> bool {
        self@.valid()
    }

    /// Builds `S-1-{authority}-{subs…}`, if there is such a SID.
    pub fn build(authority: u64, subs: &[u32]) -> (built: Option<Sid>)
        ensures
            built is Some <==> (SidModel { authority, subs: subs@ }).valid(),
            built matches Some(sid) ==> sid@ == (SidModel { authority, subs: subs@ }),
    {
        if authority >= AUTHORITY_LIMIT || subs.len() > MAX_SUB_AUTHORITIES {
            return None;
        }
        let mut own: Vec<u32> = Vec::new();
        let mut i: usize = 0;
        while i < subs.len()
            invariant
                i <= subs@.len(),
                own@ == subs@.take(i as int),
            decreases subs@.len() - i,
        {
            own.push(subs[i]);
            i += 1;
            assert(subs@.take(i as int) =~= subs@.take(i - 1).push(subs@[i - 1]));
        }
        assert(own@ =~= subs@);
        Some(Sid { authority, subs: own })
    }

    /// Reads a SID out of its binary form. The bytes must be exactly one SID.
    pub fn from_bytes(bytes: &[u8]) -> (read: Option<Sid>)
        ensures
            read is Some <==> is_sid(bytes@),
            read matches Some(sid) ==> sid@ == decoded(bytes@),
    {
        if bytes.len() < domain::PRELUDE || bytes[0] != REVISION {
            return None;
        }
        let count: usize = match domain::count(bytes) {
            Some(count) => count as usize,
            None => return None,
        };
        if count > MAX_SUB_AUTHORITIES || bytes.len() != domain::PRELUDE + 4 * count {
            return None;
        }
        let authority: u64 = bytes[2] as u64 * 0x100_0000_0000 + bytes[3] as u64 * 0x1_0000_0000
            + bytes[4] as u64 * 0x100_0000 + bytes[5] as u64 * 0x1_0000 + bytes[6] as u64 * 0x100
            + bytes[7] as u64;
        let mut subs: Vec<u32> = Vec::new();
        let mut i: usize = 0;
        while i < count
            invariant
                i <= count <= MAX_SUB_AUTHORITIES,
                bytes@.len() == domain::PRELUDE + 4 * count,
                subs@ == Seq::new(i as nat, |j: int| domain::sub_authority_at(bytes@, j)),
            decreases count - i,
        {
            match domain::sub_authority(bytes, i) {
                Some(sub) => {
                    subs.push(sub);
                },
                None => {
                    assert(false);
                },
            }
            i += 1;
            assert(subs@ =~= Seq::new(i as nat, |j: int| domain::sub_authority_at(bytes@, j)));
        }
        Some(Sid { authority, subs })
    }

    /// The binary form.
    pub fn to_bytes(&self) -> (bytes: Vec<u8>)
        ensures
            bytes@ == self@.bytes(),
    {
        proof {
            use_type_invariant(self);
        }
        let mut bytes: Vec<u8> = Vec::new();
        bytes.push(REVISION);
        bytes.push(self.subs.len() as u8);
        let a: u64 = self.authority;
        bytes.push((a / 0x100_0000_0000 % 256) as u8);
        bytes.push((a / 0x1_0000_0000 % 256) as u8);
        bytes.push((a / 0x100_0000 % 256) as u8);
        bytes.push((a / 0x1_0000 % 256) as u8);
        bytes.push((a / 0x100 % 256) as u8);
        bytes.push((a % 256) as u8);
        let ghost head = bytes@;
        assert(head =~= seq![REVISION, self@.subs.len() as u8] + authority_bytes(self@.authority));
        let mut i: usize = 0;
        assert(subs_bytes(self.subs@.take(0)) =~= Seq::empty());
        while i < self.subs.len()
            invariant
                i <= self.subs@.len(),
                bytes@ == head + subs_bytes(self.subs@.take(i as int)),
            decreases self.subs@.len() - i,
        {
            let sub: u32 = self.subs[i];
            bytes.push((sub % 256) as u8);
            bytes.push((sub / 0x100 % 256) as u8);
            bytes.push((sub / 0x1_0000 % 256) as u8);
            bytes.push((sub / 0x100_0000 % 256) as u8);
            i += 1;
            proof {
                let taken = self.subs@.take(i as int);
                assert(taken.drop_last() =~= self.subs@.take(i - 1));
                assert(taken.last() == sub);
                assert(bytes@ =~= head + (subs_bytes(taken.drop_last()) + sub_bytes(sub)));
            }
        }
        assert(self.subs@.take(i as int) =~= self.subs@);
        bytes
    }

    /// The identifier authority.
    pub fn authority(&self) -> (authority: u64)
        ensures
            authority == self@.authority,
            self@.valid(),
    {
        proof {
            use_type_invariant(self);
        }
        self.authority
    }

    /// The sub-authorities.
    pub fn sub_authorities(&self) -> (subs: &[u32])
        ensures
            subs@ == self@.subs,
            self@.valid(),
    {
        proof {
            use_type_invariant(self);
        }
        self.subs.as_slice()
    }

    /// A copy of a SID that may be missing.
    pub fn copied(of: &Option<Sid>) -> (copy: Option<Sid>)
        ensures
            maybe(copy) == maybe(*of),
    {
        match of {
            Some(sid) => Some(sid.clone()),
            None => None,
        }
    }

    /// Whether a SID is among some others.
    pub fn among(&self, others: &[&Sid]) -> (yes: bool)
        ensures
            yes <==> models(others@).contains(self@),
    {
        let mut i: usize = 0;
        while i < others.len()
            invariant
                i <= others@.len(),
                forall|j: int| 0 <= j < i ==> (#[trigger] others@[j])@ != self@,
            decreases others@.len() - i,
        {
            if others[i].same(self) {
                assert(models(others@)[i as int] == self@);
                return true;
            }
            i += 1;
        }
        proof {
            if models(others@).contains(self@) {
                let j = choose|j: int|
                    0 <= j < models(others@).len() && models(others@)[j] == self@;
                assert(others@[j]@ == self@);
            }
        }
        false
    }

    /// Whether two SIDs are the same one.
    pub fn same(&self, other: &Sid) -> (same: bool)
        ensures
            same <==> self@ == other@,
    {
        if self.authority != other.authority || self.subs.len() != other.subs.len() {
            return false;
        }
        let mut i: usize = 0;
        while i < self.subs.len()
            invariant
                i <= self.subs@.len() == other.subs@.len(),
                forall|j: int| 0 <= j < i ==> self.subs@[j] == other.subs@[j],
            decreases self.subs@.len() - i,
        {
            if self.subs[i] != other.subs[i] {
                return false;
            }
            i += 1;
        }
        assert(self.subs@ =~= other.subs@);
        true
    }
}

/// Sub-authority bytes come four to a sub-authority, each where its index says.
proof fn lemma_subs_bytes(subs: Seq<u32>)
    ensures
        subs_bytes(subs).len() == 4 * subs.len(),
        forall|i: int, k: int|
            0 <= i < subs.len() && 0 <= k < 4 ==> #[trigger] subs_bytes(subs)[4 * i + k]
                == sub_bytes(subs[i])[k],
    decreases subs.len(),
{
    if subs.len() > 0 {
        lemma_subs_bytes(subs.drop_last());
        let front = subs_bytes(subs.drop_last());
        assert forall|i: int, k: int| 0 <= i < subs.len() && 0 <= k < 4 implies #[trigger] subs_bytes(
            subs,
        )[4 * i + k] == sub_bytes(subs[i])[k] by {
            if i < subs.len() - 1 {
                assert(subs.drop_last()[i] == subs[i]);
                assert(front[4 * i + k] == sub_bytes(subs.drop_last()[i])[k]);
            }
        }
    }
}

/// Six big-endian bytes spell the authority they were made from.
proof fn lemma_authority(bytes: Seq<u8>, authority: u64)
    requires
        authority < AUTHORITY_LIMIT,
        bytes.len() >= 8,
        bytes.subrange(2, 8) == authority_bytes(authority),
    ensures
        authority_at(bytes, 2) == authority,
{
    let six = bytes.subrange(2, 8);
    let a = authority;
    assert((a / 0x100_0000_0000 % 256) * 0x100_0000_0000 + (a / 0x1_0000_0000 % 256)
        * 0x1_0000_0000 + (a / 0x100_0000 % 256) * 0x100_0000 + (a / 0x1_0000 % 256) * 0x1_0000 + (
    a / 0x100 % 256) * 0x100 + a % 256 == a) by (bit_vector)
        requires
            a < 0x1_0000_0000_0000,
    ;
    assert(bytes[2] == six[0]);
    assert(bytes[3] == six[1]);
    assert(bytes[4] == six[2]);
    assert(bytes[5] == six[3]);
    assert(bytes[6] == six[4]);
    assert(bytes[7] == six[5]);
}

/// Four little-endian bytes spell the sub-authority they were made from.
proof fn lemma_sub_authority(bytes: Seq<u8>, index: int, sub: u32)
    requires
        0 <= index,
        bytes.len() >= 8 + 4 * index + 4,
        bytes.subrange(8 + 4 * index, 8 + 4 * index + 4) == sub_bytes(sub),
    ensures
        domain::sub_authority_at(bytes, index) == sub,
{
    let four = bytes.subrange(8 + 4 * index, 8 + 4 * index + 4);
    assert(bytes[8 + 4 * index] == four[0]);
    assert(bytes[8 + 4 * index + 1] == four[1]);
    assert(bytes[8 + 4 * index + 2] == four[2]);
    assert(bytes[8 + 4 * index + 3] == four[3]);
}

/// Reading back what was written gives the same SID: for every SID, the binary
/// form is well formed and decodes to it.
pub proof fn law_bytes_round_trip(sid: SidModel)
    requires
        sid.valid(),
    ensures
        is_sid(sid.bytes()),
        decoded(sid.bytes()) == sid,
{
    lemma_subs_bytes(sid.subs);
    let bytes = sid.bytes();
    let tail = subs_bytes(sid.subs);
    assert(bytes.len() == 8 + 4 * sid.subs.len());
    assert(bytes.subrange(2, 8) =~= authority_bytes(sid.authority));
    lemma_authority(bytes, sid.authority);
    assert forall|i: int| 0 <= i < sid.subs.len() implies #[trigger] domain::sub_authority_at(
        bytes,
        i,
    ) == sid.subs[i] by {
        let four = bytes.subrange(8 + 4 * i, 8 + 4 * i + 4);
        let sub = sub_bytes(sid.subs[i]);
        assert forall|k: int| 0 <= k < 4 implies four[k] == sub[k] by {
            assert(four[k] == tail[4 * i + k]);
        }
        assert(four =~= sub);
        lemma_sub_authority(bytes, i, sid.subs[i]);
    }
    assert(decoded(bytes).subs =~= sid.subs);
}

/// Which bytes are a SID: a one, a count of at most fifteen, six more, and four for
/// each that is counted.
pub proof fn law_which_bytes_are_a_sid(bytes: Seq<u8>)
    ensures
        is_sid(bytes) <==> bytes.len() >= 8 && bytes[0] == 1 && bytes[1] <= 15 && bytes.len() == 8
            + 4 * bytes[1],
{
}

/// What the bytes of a SID say: six bytes of authority, the most significant first,
/// and four bytes for each number after it, the least significant first.
pub proof fn law_what_the_bytes_say(bytes: Seq<u8>, i: int)
    requires
        is_sid(bytes),
    ensures
        decoded(bytes).authority == bytes[7] + 256 * (bytes[6] + 256 * (bytes[5] + 256 * (bytes[4]
            + 256 * (bytes[3] + 256 * bytes[2])))),
        decoded(bytes).subs.len() == bytes[1],
        0 <= i < bytes[1] ==> decoded(bytes).subs[i] == bytes[8 + 4 * i] + 256 * (bytes[9 + 4 * i]
            + 256 * (bytes[10 + 4 * i] + 256 * bytes[11 + 4 * i])),
        decoded(bytes).valid(),
{
    if 0 <= i < bytes[1] {
        domain::law_where_a_sub_authority_stands(bytes, i);
    }
}

/// Which parts make a SID: an authority of six bytes, and at most fifteen numbers.
pub proof fn law_which_parts_make_a_sid(sid: SidModel)
    ensures
        sid.valid() <==> sid.authority < 281_474_976_710_656 && sid.subs.len() <= 15,
{
}

/// A list of SIDs is its SIDs, one by one and in order, and a SID that may be missing is
/// the one there is or none.
pub proof fn law_a_list_is_its_sids(borrowed: Seq<&Sid>, own: Seq<Sid>, one: Sid, i: int)
    ensures
        models(borrowed).len() == borrowed.len(),
        0 <= i < borrowed.len() ==> models(borrowed)[i] == borrowed[i]@,
        owned_models(own).len() == own.len(),
        0 <= i < own.len() ==> owned_models(own)[i] == own[i]@,
        maybe(Some(one)) == Some(one@),
        maybe(None) is None,
{
}

} // verus!
