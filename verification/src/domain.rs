//! What a domain is, and what living in one means.
//!
//! Every scoping rule applied to a source reduces to one of the three
//! predicates here, so they are kept together rather than spread across the
//! places that ask. They hold for any domain, well-known or not, without a
//! table of special cases to keep current.

use crate::sid::{Sid, SidModel};
use vstd::prelude::*;

verus! {

/// Bytes before the first sub-authority.
pub const PRELUDE: usize = 8;

/// `S-1-5-…`: the NT authority.
pub const NT_AUTHORITY: u64 = 5;

/// `S-1-5-21-…`: a domain issued by a machine rather than one every machine
/// has.
pub const NON_UNIQUE: u32 = 21;

/// `S-1-5-21-{A}-{B}-{C}`.
pub const LOCAL_DOMAIN_SUB_AUTHORITIES: usize = 4;

/// The little-endian number at sub-authority `index` of a binary SID.
pub open spec fn sub_authority_at(sid: Seq<u8>, index: int) -> u32 {
    let at = PRELUDE + 4 * index;
    (sid[at] + sid[at + 1] * 0x100 + sid[at + 2] * 0x1_0000 + sid[at + 3] * 0x100_0000) as u32
}

/// Sub-authority `index` of a binary SID, if the bytes reach that far.
pub fn sub_authority(sid: &[u8], index: usize) -> (sub: Option<u32>)
    ensures
        sub is Some <==> PRELUDE + 4 * index + 4 <= sid@.len(),
        sub matches Some(value) ==> value == sub_authority_at(sid@, index as int),
{
    if sid.len() < PRELUDE + 4 || index > (sid.len() - PRELUDE - 4) / 4 {
        return None;
    }
    let at: usize = PRELUDE + index * 4;
    Some(
        sid[at] as u32 + sid[at + 1] as u32 * 0x100 + sid[at + 2] as u32 * 0x1_0000
            + sid[at + 3] as u32 * 0x100_0000,
    )
}

/// How many sub-authorities a binary SID says it has.
pub fn count(sid: &[u8]) -> (count: Option<u8>)
    ensures
        count is Some <==> sid@.len() > 1,
        count matches Some(value) ==> value == sid@[1],
{
    if sid.len() > 1 {
        Some(sid[1])
    } else {
        None
    }
}

/// `S-1-5-21-A-B-C`.
pub open spec fn claimable(sid: SidModel) -> bool {
    &&& sid.authority == NT_AUTHORITY
    &&& sid.subs.len() == LOCAL_DOMAIN_SUB_AUTHORITIES
    &&& sid.subs[0] == NON_UNIQUE
}

/// `principal` is `domain` with one RID after it.
pub open spec fn within(domain: SidModel, principal: SidModel) -> bool {
    exists|rid: u32| #[trigger]
        domain.subs.push(rid) == principal.subs && domain.authority == principal.authority
}

/// The two differ at most in their last sub-authority.
pub open spec fn related(a: SidModel, b: SidModel) -> bool {
    &&& a.authority == b.authority
    &&& a.subs.len() == b.subs.len()
    &&& a.subs.len() > 0
    &&& a.subs.drop_last() == b.subs.drop_last()
}

/// Whether this is a well-formed domain a source may claim: `S-1-5-21-A-B-C`.
///
/// The shape is the entire check, and it is enough. A source cannot claim
/// `BUILTIN` (`S-1-5-32`), or the NT authority's own well-known range
/// (`S-1-5-18`, `S-1-5-11`, …), or `S-1-1-0`, because none of them are four
/// sub-authorities under NT-authority-21. That is why there is no list of
/// forbidden domains here to be kept in step with the SID catalogue: the
/// permitted shape excludes every one of them by construction.
///
/// It does *not* establish that the domain is this source's to claim. Nothing
/// can, from the SID alone.
pub fn is_claimable(sid: &Sid) -> (yes: bool)
    ensures
        yes <==> claimable(sid@),
{
    let subs = sid.sub_authorities();
    sid.authority() == NT_AUTHORITY && subs.len() == LOCAL_DOMAIN_SUB_AUTHORITIES && subs[0]
        == NON_UNIQUE
}

/// Whether two lists of sub-authorities agree over their first `upto`.
fn agree(a: &[u32], b: &[u32], upto: usize) -> (yes: bool)
    requires
        upto <= a@.len(),
        upto <= b@.len(),
    ensures
        yes <==> a@.take(upto as int) == b@.take(upto as int),
{
    let mut i: usize = 0;
    while i < upto
        invariant
            i <= upto <= a@.len(),
            upto <= b@.len(),
            forall|j: int| 0 <= j < i ==> a@[j] == b@[j],
        decreases upto - i,
    {
        if a[i] != b[i] {
            assert(a@.take(upto as int)[i as int] != b@.take(upto as int)[i as int]);
            return false;
        }
        i += 1;
    }
    assert(a@.take(upto as int) =~= b@.take(upto as int));
    true
}

/// Whether `principal` is a principal of `domain`: the domain's SID plus
/// exactly one RID.
///
/// Exactly one: `S-1-5-21-A-B-C-1000-1` is not a principal of
/// `S-1-5-21-A-B-C`, and admitting it would let a source that owns one domain
/// mint names in a nested namespace nobody had agreed it owned.
pub fn contains(domain: &Sid, principal: &Sid) -> (yes: bool)
    ensures
        yes <==> within(domain@, principal@),
{
    let (outer, inner) = (domain.sub_authorities(), principal.sub_authorities());
    if domain.authority() != principal.authority() || inner.len() != outer.len() + 1 {
        return false;
    }
    let yes = agree(outer, inner, outer.len());
    proof {
        let rid = inner@.last();
        assert(outer@.take(outer@.len() as int) =~= outer@);
        if yes {
            assert(outer@.push(rid) =~= inner@);
        } else if within(domain@, principal@) {
            let some = choose|some: u32| #[trigger] outer@.push(some) == inner@;
            assert(outer@.push(some).take(outer@.len() as int) =~= outer@);
        }
    }
    yes
}

/// Whether two SIDs are siblings: same domain, different RID.
///
/// Used for group memberships, where the question is "is this group in the same
/// domain as the user?" rather than "which domain is it?".
pub fn siblings(a: &Sid, b: &Sid) -> (yes: bool)
    ensures
        yes <==> related(a@, b@),
{
    let (left, right) = (a.sub_authorities(), b.sub_authorities());
    if a.authority() != b.authority() || left.len() != right.len() || left.len() == 0 {
        return false;
    }
    let yes = agree(left, right, left.len() - 1);
    proof {
        assert(left@.take(left@.len() - 1) =~= left@.drop_last());
        assert(right@.take(right@.len() - 1) =~= right@.drop_last());
    }
    yes
}

/// A SID is a principal of at most one domain.
pub proof fn law_one_domain_each(a: SidModel, b: SidModel, principal: SidModel)
    requires
        within(a, principal),
        within(b, principal),
    ensures
        a == b,
{
    let x = choose|x: u32| #[trigger]
        a.subs.push(x) == principal.subs && a.authority == principal.authority;
    let y = choose|y: u32| #[trigger]
        b.subs.push(y) == principal.subs && b.authority == principal.authority;
    assert(a.subs.push(x).drop_last() =~= a.subs);
    assert(b.subs.push(y).drop_last() =~= b.subs);
    assert(a =~= b);
}

/// No domain is a principal of itself, nor of anything it contains.
pub proof fn law_no_domain_contains_itself(domain: SidModel, principal: SidModel)
    ensures
        !within(domain, domain),
        within(domain, principal) ==> !within(principal, domain),
{
    assert(forall|rid: u32| (#[trigger] domain.subs.push(rid)).len() == domain.subs.len() + 1);
    assert(forall|rid: u32|
        (#[trigger] principal.subs.push(rid)).len() == principal.subs.len() + 1);
}

/// Two principals of one domain are siblings, and a sibling of a principal is a
/// principal of the same domain.
pub proof fn law_siblings_share_a_domain(domain: SidModel, a: SidModel, b: SidModel)
    requires
        within(domain, a),
    ensures
        within(domain, b) <==> related(a, b),
{
    let x = choose|x: u32| #[trigger]
        domain.subs.push(x) == a.subs && domain.authority == a.authority;
    assert(domain.subs.push(x).drop_last() =~= domain.subs);
    if within(domain, b) {
        let y = choose|y: u32| #[trigger]
            domain.subs.push(y) == b.subs && domain.authority == b.authority;
        assert(domain.subs.push(y).drop_last() =~= domain.subs);
    }
    if related(a, b) {
        assert(domain.subs.push(b.subs.last()) =~= b.subs);
    }
}

/// A domain a source may claim is never a principal of another such domain.
pub proof fn law_claimable_domains_do_not_nest(a: SidModel, b: SidModel)
    requires
        claimable(a),
        claimable(b),
    ensures
        !within(a, b),
{
    assert(forall|rid: u32| (#[trigger] a.subs.push(rid)).len() == a.subs.len() + 1);
}

/// A domain a source may claim has four numbers after authority 5, the first of
/// them 21; and anything of that shape may be claimed.
pub proof fn law_what_may_be_claimed(sid: SidModel)
    ensures
        claimable(sid) <==> sid.authority == 5 && sid.subs.len() == 4 && sid.subs[0] == 21,
{
}

/// A principal of a domain has the domain's authority, the domain's numbers, and
/// one more; and whatever does is one.
pub proof fn law_what_living_in_a_domain_is(domain: SidModel, principal: SidModel)
    ensures
        within(domain, principal) <==> {
            &&& principal.authority == domain.authority
            &&& principal.subs.len() == domain.subs.len() + 1
            &&& forall|i: int|
                0 <= i < domain.subs.len() ==> #[trigger] principal.subs[i] == domain.subs[i]
        },
{
    if within(domain, principal) {
        let rid = choose|rid: u32| #[trigger]
            domain.subs.push(rid) == principal.subs && domain.authority == principal.authority;
        assert(domain.subs.push(rid).len() == domain.subs.len() + 1);
    }
    if principal.subs.len() == domain.subs.len() + 1 && (forall|i: int|
        0 <= i < domain.subs.len() ==> #[trigger] principal.subs[i] == domain.subs[i]) {
        assert(domain.subs.push(principal.subs.last()) =~= principal.subs);
    }
}

/// Siblings have one authority and as many numbers as each other, at least one,
/// of which only the last may differ; and whatever does are siblings.
pub proof fn law_what_siblings_are(a: SidModel, b: SidModel)
    ensures
        related(a, b) <==> {
            &&& a.authority == b.authority
            &&& a.subs.len() == b.subs.len()
            &&& a.subs.len() > 0
            &&& forall|i: int| 0 <= i < a.subs.len() - 1 ==> #[trigger] a.subs[i] == b.subs[i]
        },
{
    if related(a, b) {
        assert forall|i: int| 0 <= i < a.subs.len() - 1 implies #[trigger] a.subs[i]
            == b.subs[i] by {
            assert(a.subs.drop_last()[i] == b.subs.drop_last()[i]);
        }
    }
    if a.subs.len() == b.subs.len() && a.subs.len() > 0 && (forall|i: int|
        0 <= i < a.subs.len() - 1 ==> #[trigger] a.subs[i] == b.subs[i]) {
        assert(a.subs.drop_last() =~= b.subs.drop_last());
    }
}

/// A sub-authority is four bytes, least significant first, after the first eight
/// bytes of a SID and the four of each sub-authority before it.
pub proof fn law_where_a_sub_authority_stands(sid: Seq<u8>, index: int)
    requires
        0 <= index,
        8 + 4 * index + 4 <= sid.len(),
    ensures
        sub_authority_at(sid, index) == sid[8 + 4 * index] + 256 * sid[9 + 4 * index] + 65536
            * sid[10 + 4 * index] + 16777216 * sid[11 + 4 * index],
{
}

} // verus!
