//! Claims: what a source says of a principal beyond who they are.
//!
//! A claim is the one asserted field that is a *trusted input to access
//! decisions* rather than a statement of identity: a conditional ACE can turn
//! one into a grant.

use crate::sid::{Sid, SidModel};
use vstd::prelude::*;

verus! {

/// What the protocol says of a claim.
#[derive(Debug, Clone, Copy, PartialEq, Eq, Structural)]
pub struct Flags {
    pub non_inheritable: bool,
    pub case_sensitive: bool,
    pub use_for_deny_only: bool,
    pub disabled: bool,
    pub mandatory: bool,
}

/// A claim's values as a source sends them. SIDs are bytes, and are not held to
/// being SIDs yet.
#[derive(Debug, PartialEq, Eq)]
pub enum Values {
    Int64(Vec<i64>),
    Uint64(Vec<u64>),
    Boolean(Vec<bool>),
    String(Vec<String>),
    Octet(Vec<Vec<u8>>),
    Sid(Vec<Vec<u8>>),
}

/// A claim as a source sends it.
#[derive(Debug, PartialEq, Eq)]
pub struct Claim {
    pub name: String,
    pub flags: Flags,
    pub values: Values,
    /// Whether the protocol library found the claim within its own rules.
    pub usable: bool,
}

/// What a token carries of a claim's flags.
///
/// Two of the five do not survive. One governs whether an unprivileged caller
/// may remove the attribute, the other its inheritance to children; both are
/// about a claim living in a *security descriptor*, and neither has any meaning
/// for one living on a token.
#[derive(Debug, Clone, Copy, PartialEq, Eq, Structural)]
pub struct TokenFlags {
    pub case_sensitive: bool,
    pub use_for_deny_only: bool,
    pub disabled: bool,
}

/// A claim's values as a token carries them.
#[derive(Debug, PartialEq, Eq)]
pub enum TokenValues {
    Int64(Vec<i64>),
    Uint64(Vec<u64>),
    Boolean(Vec<bool>),
    String(Vec<String>),
    Octet(Vec<Vec<u8>>),
    Sid(Vec<Sid>),
}

/// A claim as a token carries it.
#[derive(Debug, PartialEq, Eq)]
pub struct TokenClaim {
    pub name: String,
    pub flags: TokenFlags,
    pub values: TokenValues,
}

/// Claim values, mathematically. SIDs on a source's side are bytes.
pub enum ValuesModel<S> {
    Int64(Seq<i64>),
    Uint64(Seq<u64>),
    Boolean(Seq<bool>),
    String(Seq<Seq<char>>),
    Octet(Seq<Seq<u8>>),
    Sid(Seq<S>),
}

/// Texts as values.
pub open spec fn texts(of: Seq<String>) -> Seq<Seq<char>> {
    of.map_values(|text: String| text@)
}

/// Byte strings as values.
pub open spec fn octets(of: Seq<Vec<u8>>) -> Seq<Seq<u8>> {
    of.map_values(|bytes: Vec<u8>| bytes@)
}

/// SIDs as values.
pub open spec fn sids(of: Seq<Sid>) -> Seq<SidModel> {
    of.map_values(|sid: Sid| sid@)
}

impl View for Values {
    type V = ValuesModel<Seq<u8>>;

    open spec fn view(&self) -> ValuesModel<Seq<u8>> {
        match *self {
            Values::Int64(v) => ValuesModel::Int64(v@),
            Values::Uint64(v) => ValuesModel::Uint64(v@),
            Values::Boolean(v) => ValuesModel::Boolean(v@),
            Values::String(v) => ValuesModel::String(texts(v@)),
            Values::Octet(v) => ValuesModel::Octet(octets(v@)),
            Values::Sid(v) => ValuesModel::Sid(octets(v@)),
        }
    }
}

impl View for TokenValues {
    type V = ValuesModel<SidModel>;

    open spec fn view(&self) -> ValuesModel<SidModel> {
        match *self {
            TokenValues::Int64(v) => ValuesModel::Int64(v@),
            TokenValues::Uint64(v) => ValuesModel::Uint64(v@),
            TokenValues::Boolean(v) => ValuesModel::Boolean(v@),
            TokenValues::String(v) => ValuesModel::String(texts(v@)),
            TokenValues::Octet(v) => ValuesModel::Octet(octets(v@)),
            TokenValues::Sid(v) => ValuesModel::Sid(sids(v@)),
        }
    }
}

/// A claim on a token, mathematically.
pub struct TokenClaimModel {
    pub name: Seq<char>,
    pub flags: TokenFlags,
    pub values: ValuesModel<SidModel>,
}

impl View for TokenClaim {
    type V = TokenClaimModel;

    open spec fn view(&self) -> TokenClaimModel {
        TokenClaimModel { name: self.name@, flags: self.flags, values: self.values@ }
    }
}

/// Whether each of these is a SID.
pub open spec fn all_sids(of: Seq<Seq<u8>>) -> bool {
    forall|i: int| 0 <= i < of.len() ==> crate::sid::is_sid(#[trigger] of[i])
}

/// Whether every value that should be a SID is one.
pub open spec fn carried(values: ValuesModel<Seq<u8>>) -> bool {
    match values {
        ValuesModel::Sid(v) => all_sids(v),
        _ => true,
    }
}

/// Values as a token carries them.
pub open spec fn converted(values: ValuesModel<Seq<u8>>) -> ValuesModel<SidModel> {
    match values {
        ValuesModel::Int64(v) => ValuesModel::Int64(v),
        ValuesModel::Uint64(v) => ValuesModel::Uint64(v),
        ValuesModel::Boolean(v) => ValuesModel::Boolean(v),
        ValuesModel::String(v) => ValuesModel::String(v),
        ValuesModel::Octet(v) => ValuesModel::Octet(v),
        ValuesModel::Sid(v) => ValuesModel::Sid(
            v.map_values(|bytes: Seq<u8>| crate::sid::decoded(bytes)),
        ),
    }
}

/// The claim a token carries for one a source sent.
pub open spec fn on_token(claim: Claim) -> TokenClaimModel {
    TokenClaimModel {
        name: claim.name@,
        flags: TokenFlags {
            case_sensitive: claim.flags.case_sensitive,
            use_for_deny_only: claim.flags.use_for_deny_only,
            disabled: claim.flags.disabled,
        },
        values: converted(claim.values@),
    }
}

fn copy_texts(of: &Vec<String>) -> (copy: Vec<String>)
    ensures
        texts(copy@) == texts(of@),
{
    let mut copy: Vec<String> = Vec::new();
    let mut i: usize = 0;
    while i < of.len()
        invariant
            i <= of@.len(),
            copy@.len() == i,
            forall|j: int| 0 <= j < i ==> (#[trigger] copy@[j])@ == of@[j]@,
        decreases of@.len() - i,
    {
        copy.push(of[i].clone());
        i += 1;
    }
    assert(texts(copy@) =~= texts(of@));
    copy
}

fn copy_octets(of: &Vec<Vec<u8>>) -> (copy: Vec<Vec<u8>>)
    ensures
        octets(copy@) == octets(of@),
{
    let mut copy: Vec<Vec<u8>> = Vec::new();
    let mut i: usize = 0;
    while i < of.len()
        invariant
            i <= of@.len(),
            copy@.len() == i,
            forall|j: int| 0 <= j < i ==> (#[trigger] copy@[j])@ == of@[j]@,
        decreases of@.len() - i,
    {
        let one = of[i].clone();
        assert(one@ =~= of@[i as int]@);
        copy.push(one);
        i += 1;
    }
    assert(octets(copy@) =~= octets(of@));
    copy
}

fn copy_sids(of: &Vec<Sid>) -> (copy: Vec<Sid>)
    ensures
        sids(copy@) == sids(of@),
{
    let mut copy: Vec<Sid> = Vec::new();
    let mut i: usize = 0;
    while i < of.len()
        invariant
            i <= of@.len(),
            copy@.len() == i,
            forall|j: int| 0 <= j < i ==> (#[trigger] copy@[j])@ == of@[j]@,
        decreases of@.len() - i,
    {
        copy.push(of[i].clone());
        i += 1;
    }
    assert(sids(copy@) =~= sids(of@));
    copy
}

/// Reads every value as a SID, or none of them.
fn read_sids(of: &Vec<Vec<u8>>) -> (read: Option<Vec<Sid>>)
    ensures
        read is Some <==> all_sids(octets(of@)),
        read matches Some(found) ==> sids(found@) == octets(of@).map_values(
            |bytes: Seq<u8>| crate::sid::decoded(bytes),
        ),
{
    let ghost bytes = octets(of@);
    let mut found: Vec<Sid> = Vec::new();
    let mut i: usize = 0;
    while i < of.len()
        invariant
            i <= of@.len(),
            bytes == octets(of@),
            found@.len() == i,
            forall|j: int| 0 <= j < i ==> crate::sid::is_sid(#[trigger] bytes[j]),
            forall|j: int| 0 <= j < i ==> (#[trigger] found@[j])@ == crate::sid::decoded(bytes[j]),
        decreases of@.len() - i,
    {
        assert(bytes[i as int] == of@[i as int]@);
        match Sid::from_bytes(of[i].as_slice()) {
            Some(sid) => {
                found.push(sid);
            },
            None => {
                assert(!crate::sid::is_sid(octets(of@)[i as int]));
                return None;
            },
        }
        i += 1;
    }
    assert(sids(found@) =~= bytes.map_values(|bytes: Seq<u8>| crate::sid::decoded(bytes)));
    Some(found)
}

impl Clone for TokenClaim {
    fn clone(&self) -> (copy: Self)
        ensures
            copy@ == self@,
    {
        let values = match &self.values {
            TokenValues::Int64(v) => {
                let w = v.clone();
                assert(w@ =~= v@);
                TokenValues::Int64(w)
            },
            TokenValues::Uint64(v) => {
                let w = v.clone();
                assert(w@ =~= v@);
                TokenValues::Uint64(w)
            },
            TokenValues::Boolean(v) => {
                let w = v.clone();
                assert(w@ =~= v@);
                TokenValues::Boolean(w)
            },
            TokenValues::String(v) => TokenValues::String(copy_texts(v)),
            TokenValues::Octet(v) => TokenValues::Octet(copy_octets(v)),
            TokenValues::Sid(v) => TokenValues::Sid(copy_sids(v)),
        };
        TokenClaim { name: self.name.clone(), flags: self.flags, values }
    }
}

/// Convert one of a source's claims into the form the kernel takes.
fn kacs_claim(claim: &Claim) -> (on: Option<TokenClaim>)
    ensures
        on is Some <==> carried(claim.values@),
        on matches Some(found) ==> found@ == on_token(*claim),
{
    let values = match &claim.values {
        Values::Int64(v) => {
            let w = v.clone();
            assert(w@ =~= v@);
            TokenValues::Int64(w)
        },
        Values::Uint64(v) => {
            let w = v.clone();
            assert(w@ =~= v@);
            TokenValues::Uint64(w)
        },
        Values::Boolean(v) => {
            let w = v.clone();
            assert(w@ =~= v@);
            TokenValues::Boolean(w)
        },
        Values::String(v) => TokenValues::String(copy_texts(v)),
        Values::Octet(v) => TokenValues::Octet(copy_octets(v)),
        // The only arm that can fail: a source's SIDs are opaque bytes, so this
        // is where they are first held to being SIDs at all.
        Values::Sid(v) => match read_sids(v) {
            Some(found) => TokenValues::Sid(found),
            None => return None,
        },
    };
    Some(
        TokenClaim {
            name: claim.name.clone(),
            flags: TokenFlags {
                case_sensitive: claim.flags.case_sensitive,
                use_for_deny_only: claim.flags.use_for_deny_only,
                disabled: claim.flags.disabled,
            },
            values,
        },
    )
}

/// Convert a source's claims into the form the kernel takes.
///
/// `None` if any of them cannot be carried, which means only a claim value that
/// is not a structurally valid SID. Refusing the whole set rather than dropping
/// the offender is deliberate, and matches how a malformed group SID is handled:
/// a claim is an *input to access decisions*, so silently losing one signs
/// somebody in against a different policy than the one the source stated, with
/// nothing anywhere to point at.
pub fn kacs_claims(claims: &[Claim]) -> (on: Option<Vec<TokenClaim>>)
    ensures
        on is Some <==> forall|i: int|
            0 <= i < claims@.len() ==> carried((#[trigger] claims@[i]).values@),
        on matches Some(found) ==> {
            &&& found@.len() == claims@.len()
            &&& forall|i: int|
                0 <= i < claims@.len() ==> (#[trigger] found@[i])@ == on_token(claims@[i])
        },
{
    let mut found: Vec<TokenClaim> = Vec::new();
    let mut i: usize = 0;
    while i < claims.len()
        invariant
            i <= claims@.len(),
            found@.len() == i,
            forall|j: int| 0 <= j < i ==> carried((#[trigger] claims@[j]).values@),
            forall|j: int| 0 <= j < i ==> (#[trigger] found@[j])@ == on_token(claims@[j]),
        decreases claims@.len() - i,
    {
        match kacs_claim(&claims[i]) {
            Some(claim) => {
                found.push(claim);
            },
            None => {
                return None;
            },
        }
        i += 1;
    }
    Some(found)
}

/// A claim on a token has the name and the values its source sent, of the kind it sent
/// and in its order, and the three flags a token has a use for.
pub proof fn law_a_claim_is_carried_as_it_was_sent(claim: Claim, i: int)
    ensures
        ({
            let on = on_token(claim);
            &&& on.name == claim.name@
            &&& on.flags.case_sensitive == claim.flags.case_sensitive
            &&& on.flags.use_for_deny_only == claim.flags.use_for_deny_only
            &&& on.flags.disabled == claim.flags.disabled
            &&& match claim.values {
                Values::Int64(v) => on.values == ValuesModel::<SidModel>::Int64(v@),
                Values::Uint64(v) => on.values == ValuesModel::<SidModel>::Uint64(v@),
                Values::Boolean(v) => on.values == ValuesModel::<SidModel>::Boolean(v@),
                Values::String(v) => on.values matches ValuesModel::String(w) && w.len() == v@.len()
                    && (0 <= i < v@.len() ==> w[i] == v@[i]@),
                Values::Octet(v) => on.values matches ValuesModel::Octet(w) && w.len() == v@.len()
                    && (0 <= i < v@.len() ==> w[i] == v@[i]@),
                Values::Sid(v) => on.values matches ValuesModel::Sid(w) && w.len() == v@.len() && (0
                    <= i < v@.len() ==> w[i] == crate::sid::decoded(v@[i]@)),
            }
        }),
{
}

/// A claim can be carried exactly where none of its values should be a SID and is not.
pub proof fn law_which_claims_can_be_carried(claim: Claim)
    ensures
        carried(claim.values@) <==> (claim.values matches Values::Sid(v) ==> forall|i: int|
            0 <= i < v@.len() ==> crate::sid::is_sid((#[trigger] v@[i])@)),
{
    if let Values::Sid(v) = claim.values {
        let all = octets(v@);
        assert forall|i: int| 0 <= i < v@.len() implies all[i] == (#[trigger] v@[i])@ by {}
        if carried(claim.values@) {
            assert forall|i: int| 0 <= i < v@.len() implies crate::sid::is_sid(
                (#[trigger] v@[i])@,
            ) by {
                assert(crate::sid::is_sid(all[i]));
            }
        }
        if forall|i: int| 0 <= i < v@.len() ==> crate::sid::is_sid((#[trigger] v@[i])@) {
            assert forall|i: int| 0 <= i < all.len() implies crate::sid::is_sid(
                #[trigger] all[i],
            ) by {
                assert(crate::sid::is_sid(v@[i]@));
            }
        }
    }
}

/// A claim on a token is its name, its flags and its values, of their kind, one by one and
/// in order.
pub proof fn law_a_claim_is_its_parts(claim: TokenClaim, i: int)
    ensures
        claim@.name == claim.name@,
        claim@.flags == claim.flags,
        match claim.values {
            TokenValues::Int64(v) => claim@.values == ValuesModel::<SidModel>::Int64(v@),
            TokenValues::Uint64(v) => claim@.values == ValuesModel::<SidModel>::Uint64(v@),
            TokenValues::Boolean(v) => claim@.values == ValuesModel::<SidModel>::Boolean(v@),
            TokenValues::String(v) => claim@.values matches ValuesModel::String(w) && w.len()
                == v@.len() && (0 <= i < v@.len() ==> w[i] == v@[i]@),
            TokenValues::Octet(v) => claim@.values matches ValuesModel::Octet(w) && w.len()
                == v@.len() && (0 <= i < v@.len() ==> w[i] == v@[i]@),
            TokenValues::Sid(v) => claim@.values matches ValuesModel::Sid(w) && w.len() == v@.len()
                && (0 <= i < v@.len() ==> w[i] == v@[i]@),
        },
{
}

} // verus!
