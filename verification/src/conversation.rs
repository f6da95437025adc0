//! One connection, one logon conversation, relayed to a principal source.
//!
//! Establishes who is calling, finds the source that should answer for them,
//! and then gets out of the way: the source decides what to ask for, and
//! messages are carried between it and the client until one side reaches a
//! terminal state.
//!
//! # A relay in the middle and an authority at both ends
//!
//! - **Peer verification**, on both sockets.
//! - **Routing**: which source answers for this identifier.
//! - **Constraint**: whether this peer may originate this logon type.
//! - **Policing**: a source must not prompt for a credential type the client
//!   never advertised, which is the one thing a relay must refuse to carry.
//! - **Limits**: how many rounds, and how long each may take.
//! - **Derivation and minting**, which no source can do.
//!
//! # The peer check is correctness, not hardening
//!
//! It is tempting to read peer verification as defence in depth on top of the
//! socket's DACL. It is not: it is load-bearing for *correctness*, because the
//! peer's identity is an input to derivation. Only the caller knows whether a
//! connection is an interactive shell or a batch command, so the client proposes
//! a logon type; but if that proposal were accepted unchecked, anything able to
//! reach the socket could claim `Interactive` and collect the `S-1-5-4` group
//! SID that ACLs across the system are written against.
//!
//! So the client proposes and the authority constrains, against a peer identity
//! taken from the connected socket and never from the message body.

use crate::claim::{self, TokenClaim};
use crate::derive::{Evidence, Minting, TokenPlan};
use crate::domain;
use crate::logon::{
    CredentialType, Denial, LogonStart, LogonType, LogonTypes, Profile, ServiceAttest,
};
use crate::peer;
use crate::policy::principal::{self, Configured, Outcome};
use crate::psi::{Assertion, Membership, Refusal};
use crate::resolve::route::{Route, RouteModel};
use crate::sid::{Sid, SidModel};
use crate::source::{Facts, FactsModel};
use crate::unix_id::{self, Numbered, Projection};
use crate::well_known::WellKnown;
use vstd::prelude::*;

verus! {

/// How many prompt/answer rounds a single logon may take.
///
/// The conversational shape exists for choosing between authentication paths
/// and for chained requirements, not for unbounded interrogation. Without a
/// ceiling a source could hold a client in a prompt loop forever.
pub const MAX_ROUNDS: u32 = 8;

/// How long a single conversation may sit waiting for the client, in seconds.
///
/// [`MAX_ROUNDS`] bounds how *many* exchanges happen; this bounds how long each
/// may take.
pub const CLIENT_TIMEOUT: u64 = 120;

/// The wall-clock ceiling on one conversation, start to finish, in seconds.
///
/// [`CLIENT_TIMEOUT`] is per *read*: a client sending one byte every 119 seconds
/// resets it indefinitely and would hold one of the conversation slots for as
/// long as it liked.
///
/// Sized above a well-behaved client's emergent worst case, so this bounds the
/// deliberate case without cutting off a slow but honest one.
pub const CONVERSATION_DEADLINE: u64 = 1500;

/// How long to wait to hand bytes to the client, in seconds.
pub const CLIENT_WRITE_TIMEOUT: u64 = 10;

/// How long the source has to answer, in seconds.
///
/// Generous because a directory-backed source may be doing network work, but
/// finite because a wedged source must not wedge every logon behind it.
pub const SOURCE_TIMEOUT: u64 = 30;

/// Whether the conversation has outlived its wall-clock bound, both times being
/// on one clock.
pub fn expired(now: u64, deadline: u64) -> (yes: bool)
    ensures
        yes <==> now >= deadline,
{
    now >= deadline
}

/// The ceiling on a conversation sits above a well-behaved client's worst case:
/// every round of it taking all the time it is allowed.
pub proof fn law_the_deadline_leaves_room(rounds: u32)
    requires
        rounds <= MAX_ROUNDS,
    ensures
        CONVERSATION_DEADLINE > (CLIENT_TIMEOUT + SOURCE_TIMEOUT) * rounds,
{
    assert(rounds <= 8 ==> 1500 > 150 * rounds) by (nonlinear_arith);
}

/// How a read or a write failed, as far as it matters.
#[derive(Debug, Clone, Copy, PartialEq, Eq, Structural)]
pub enum IoKind {
    WouldBlock,
    TimedOut,
    BrokenPipe,
    ConnectionReset,
    UnexpectedEof,
    Other,
}

/// The two ways a receive timeout surfaces.
pub open spec fn ran_out_of_time(kind: IoKind) -> bool {
    kind == IoKind::WouldBlock || kind == IoKind::TimedOut
}

/// Whether an I/O error is the client running out of answering time.
///
/// A client that sits at the prompt too long surfaces as `WouldBlock` (or
/// `TimedOut` on some platforms) rather than as a broken connection. That case
/// has to end in a terminal denial carrying `ConversationLimit` rather than a
/// silent close, so a client can distinguish a policy limit from a crash.
///
/// It matters because an abnormal close is to be treated as a failed logon and
/// **not** retried automatically. A principal who simply took too long at the
/// prompt would get the treatment reserved for "something is broken and we do
/// not know what".
pub fn is_read_timeout(kind: IoKind) -> (yes: bool)
    ensures
        yes <==> ran_out_of_time(kind),
{
    match kind {
        IoKind::WouldBlock => true,
        IoKind::TimedOut => true,
        _ => false,
    }
}

/// A denial with the reason the caller is given.
pub(crate) fn deny(denial: Denial, reason: &str) -> (refusal: Refusal)
    ensures
        refusal@ == (denial, reason@),
{
    Refusal { denial, reason: reason.to_owned() }
}

/// A request to change the caller's own credential.
#[derive(Debug, PartialEq, Eq)]
pub struct CredentialChangeStart {
    /// What the client is able to ask a person for.
    pub supported_credential_types: Vec<CredentialType>,
}

/// What reading the first message came to.
#[derive(Debug, PartialEq, Eq)]
pub enum Received {
    /// Nothing was read.
    Failed(IoKind),
    /// It is of a protocol version this build does not implement.
    UnsupportedVersion,
    /// Its header makes no sense.
    MalformedHeader,
    /// It says it opens a logon; `None` if the rest makes no sense.
    Logon(Option<LogonStart>),
    /// It says it is a service attestation; `None` if the rest makes no sense.
    Attest(Option<ServiceAttest>),
    /// It says it opens a credential change; `None` if the rest makes no sense.
    Change(Option<CredentialChangeStart>),
    /// It is some other message.
    Unexpected,
}

/// What a client opened with.
#[derive(Debug, PartialEq, Eq)]
pub enum Opening {
    /// A logon conversation, which will exchange credentials.
    Logon(LogonStart),
    /// A service attestation, which will not. See [`crate::attest`].
    Attest(ServiceAttest),
    /// A change of the caller's own credential. See [`crate::change`].
    Change(CredentialChangeStart),
}

/// What an opening message that opens nothing is answered with.
pub open spec fn opening_refused(received: Received) -> Option<(Denial, Seq<char>)> {
    match received {
        Received::Failed(kind) => if ran_out_of_time(kind) {
            Some((Denial::ConversationLimit, "The logon did not begin in time."@))
        } else {
            Some((Denial::MalformedRequest, "Could not read the opening message."@))
        },
        Received::UnsupportedVersion => Some(
            (
                Denial::UnsupportedVersion,
                "This authority does not implement that protocol version."@,
            ),
        ),
        Received::MalformedHeader => Some(
            (Denial::MalformedRequest, "Malformed message header."@),
        ),
        Received::Logon(None) => Some((Denial::MalformedRequest, "Malformed LogonStart."@)),
        Received::Attest(None) => Some((Denial::MalformedRequest, "Malformed ServiceAttest."@)),
        Received::Change(None) => Some(
            (Denial::MalformedRequest, "Malformed CredentialChangeStart."@),
        ),
        Received::Unexpected => Some(
            (
                Denial::MalformedRequest,
                "A connection must open with LogonStart or ServiceAttest."@,
            ),
        ),
        _ => None,
    }
}

/// Read and validate the opening message.
///
/// A client slow to begin hit a policy limit, not a malformed message. A client
/// speaking a version this build does not implement is told so, rather than that
/// its message is malformed.
pub fn read_opening(received: Received) -> (opening: Result<Opening, Refusal>)
    ensures
        opening is Err <==> opening_refused(received) is Some,
        opening matches Err(refusal) ==> Some(refusal@) == opening_refused(received),
        received matches Received::Logon(Some(start)) ==> opening == Ok::<Opening, Refusal>(
            Opening::Logon(start),
        ),
        received matches Received::Attest(Some(attest)) ==> opening == Ok::<Opening, Refusal>(
            Opening::Attest(attest),
        ),
        received matches Received::Change(Some(start)) ==> opening == Ok::<Opening, Refusal>(
            Opening::Change(start),
        ),
{
    match received {
        Received::Failed(kind) => {
            if is_read_timeout(kind) {
                Err(deny(Denial::ConversationLimit, "The logon did not begin in time."))
            } else {
                Err(deny(Denial::MalformedRequest, "Could not read the opening message."))
            }
        },
        Received::UnsupportedVersion => Err(
            deny(
                Denial::UnsupportedVersion,
                "This authority does not implement that protocol version.",
            ),
        ),
        Received::MalformedHeader => Err(
            deny(Denial::MalformedRequest, "Malformed message header."),
        ),
        Received::Logon(Some(start)) => Ok(Opening::Logon(start)),
        Received::Logon(None) => Err(deny(Denial::MalformedRequest, "Malformed LogonStart.")),
        Received::Attest(Some(attest)) => Ok(Opening::Attest(attest)),
        Received::Attest(None) => Err(deny(Denial::MalformedRequest, "Malformed ServiceAttest.")),
        Received::Change(Some(start)) => Ok(Opening::Change(start)),
        Received::Change(None) => Err(
            deny(Denial::MalformedRequest, "Malformed CredentialChangeStart."),
        ),
        Received::Unexpected => Err(
            deny(
                Denial::MalformedRequest,
                "A connection must open with LogonStart or ServiceAttest.",
            ),
        ),
    }
}

/// Whether a principal may originate logons at all.
pub open spec fn originates(peer: SidModel, types: Option<LogonTypes>) -> bool {
    peer == WellKnown::System.model() || (types matches Some(types) && types.states())
}

/// Whether an originator may request a logon type.
pub open spec fn requests(peer: SidModel, types: Option<LogonTypes>, logon_type: LogonType) -> bool {
    peer == WellKnown::System.model() || (types matches Some(types) && types.holds(logon_type))
}

/// Whether a principal may originate logons at all, given what its policy record
/// says of originating.
///
/// SYSTEM unconditionally, plus any peer whose policy record grants at least one
/// logon type. Widening the originator set is therefore a registry edit, which
/// is the visible, deliberate act this check exists to require.
pub fn may_originate(peer: &Sid, types: Option<LogonTypes>) -> (yes: bool)
    ensures
        yes <==> originates(peer@, types),
{
    peer::is_system(peer) || match types {
        Some(types) => types.stated(),
        None => false,
    }
}

/// Whether a given originator may request a given logon type.
///
/// The constraint half of "client proposes, authority constrains": the logon
/// type selects a group SID the minted token will carry, and derivation policy
/// is evaluated against it, so the type must be what the *peer* is permitted,
/// not what it proposed.
///
/// SYSTEM is permitted every type, compiled in rather than configured: SYSTEM
/// administers the policy store, so a registry constraint on it enforces
/// nothing. Every other peer gets exactly what its record lists, and a peer with
/// no record gets nothing. Tested against the set itself, never
/// [`LogonTypes::permits`], whose substitution of a default for the empty set is
/// right for a principal's own sign-on surface and wrong for a grant.
pub fn may_request(peer: &Sid, types: Option<LogonTypes>, logon_type: LogonType) -> (yes: bool)
    ensures
        yes <==> requests(peer@, types, logon_type),
{
    if peer::is_system(peer) {
        return true;
    }
    match types {
        Some(types) => types.has(logon_type),
        None => false,
    }
}

/// What a caller that may not have the logon it asks for is answered with.
pub open spec fn admission_refused(
    peer: SidModel,
    types: Option<LogonTypes>,
    logon_type: LogonType,
) -> Option<(Denial, Seq<char>)> {
    if !originates(peer, types) {
        Some((Denial::PermissionDenied, "Caller may not originate logons."@))
    } else if !requests(peer, types, logon_type) {
        Some((Denial::LogonTypeNotPermitted, "Caller may not request that logon type."@))
    } else {
        None
    }
}

/// Whether a caller may have the logon it asks for, and what it is told if not.
pub fn admission(peer: &Sid, types: Option<LogonTypes>, logon_type: LogonType) -> (refused: Option<
    Refusal,
>)
    ensures
        refused is Some <==> admission_refused(peer@, types, logon_type) is Some,
        refused matches Some(refusal) ==> Some(refusal@) == admission_refused(
            peer@,
            types,
            logon_type,
        ),
{
    if !may_originate(peer, types) {
        return Some(deny(Denial::PermissionDenied, "Caller may not originate logons."));
    }
    if !may_request(peer, types, logon_type) {
        return Some(
            deny(Denial::LogonTypeNotPermitted, "Caller may not request that logon type."),
        );
    }
    None
}

/// No peer but SYSTEM gets a logon its policy record does not list, and one with
/// no record, or with an empty list, gets none at all.
pub proof fn law_the_authority_constrains(
    peer: SidModel,
    types: Option<LogonTypes>,
    logon_type: LogonType,
)
    requires
        peer != WellKnown::System.model(),
    ensures
        admission_refused(peer, types, logon_type) is None <==> (types matches Some(types)
            && types.holds(logon_type)),
        types is None || !types->0.states() ==> admission_refused(peer, types, logon_type) is Some,
{
}

/// What a caller nobody can identify is answered with.
pub fn unidentified() -> (refusal: Refusal)
    ensures
        refusal@ == (Denial::PermissionDenied, "Caller identity could not be established."@),
{
    deny(Denial::PermissionDenied, "Caller identity could not be established.")
}

/// What a caller is answered with whose source has all the conversations it can
/// hold.
pub fn busy() -> (refusal: Refusal)
    ensures
        refusal@ == (Denial::AuthorityUnavailable, "The authority is busy. Try again shortly."@),
{
    deny(Denial::AuthorityUnavailable, "The authority is busy. Try again shortly.")
}

/// What a caller is answered with whose source cannot be reached.
pub fn out_of_reach() -> (refusal: Refusal)
    ensures
        refusal@ == (Denial::AuthorityUnavailable, "The authority could not be reached."@),
{
    deny(Denial::AuthorityUnavailable, "The authority could not be reached.")
}

/// What a caller is answered with for whom the kernel makes no token.
pub fn no_token() -> (refusal: Refusal)
    ensures
        refusal@ == (Denial::Internal, "The authority could not issue a token."@),
{
    deny(Denial::Internal, "The authority could not issue a token.")
}

/// The source a routed logon is sent to, or what the caller is answered with.
///
/// A source that holds the principal and one that is to blind an unknown name
/// are one case: the caller learns nothing of the difference.
pub open spec fn sent_to(route: RouteModel) -> Result<FactsModel, (Denial, Seq<char>)> {
    match route {
        RouteModel::Owner(source) => Ok(source),
        RouteModel::Blind(source) => Ok(source),
        RouteModel::Unavailable => Err(
            (Denial::AuthorityUnavailable, "The authority could not be reached."@),
        ),
        RouteModel::NoSources => Err(
            (Denial::AuthorityUnavailable, "No authority is available for that principal."@),
        ),
    }
}

/// Find the source a routed logon is sent to, or what the caller is answered
/// with.
pub fn send_to(route: Route) -> (source: Result<Facts, Refusal>)
    ensures
        match source {
            Ok(found) => sent_to(route@) == Ok::<FactsModel, (Denial, Seq<char>)>(found@),
            Err(refusal) => sent_to(route@) == Err::<FactsModel, (Denial, Seq<char>)>(refusal@),
        },
{
    match route {
        Route::Owner(source) => Ok(source),
        Route::Blind(source) => Ok(source),
        Route::Unavailable => Err(out_of_reach()),
        Route::NoSources => Err(
            deny(Denial::AuthorityUnavailable, "No authority is available for that principal."),
        ),
    }
}

/// Memberships as a source sent them, read as SIDs.
pub open spec fn read_memberships(groups: Seq<Membership>) -> Seq<(SidModel, u32)> {
    groups.map_values(|group: Membership| (crate::sid::decoded(group.sid@), group.unix_id))
}

/// Memberships without logon SIDs, and with the first mention of each.
pub open spec fn kept(memberships: Seq<(SidModel, u32)>) -> Seq<(SidModel, u32)>
    decreases memberships.len(),
{
    if memberships.len() == 0 {
        Seq::empty()
    } else {
        let rest = kept(memberships.drop_last());
        let (sid, unix_id) = memberships.last();
        if crate::derive::logon_sid(sid) {
            rest
        } else {
            crate::derive::added(rest, sid, unix_id)
        }
    }
}

/// Drops what no source may assert, and what it already has.
///
/// An asserted logon SID is **dropped** rather than refusing the assertion: the
/// token still ends up correct, and refusing would punish a principal for a
/// source's defect without making anything safer. So is a duplicate.
///
/// Both come *before* membership scope, and the ordering is load-bearing rather
/// than tidy. A logon SID is `S-1-5-5-X-Y`, by construction never a sibling of
/// an `S-1-5-21` principal, so a scope check running first would catch it and
/// refuse the very logon that is to be survived by dropping.
pub fn drop_unassertable(memberships: Vec<(Sid, u32)>) -> (assertable: Vec<(Sid, u32)>)
    ensures
        crate::derive::models(assertable@) == kept(crate::derive::models(memberships@)),
{
    let ghost all = crate::derive::models(memberships@);
    let mut assertable: Vec<(Sid, u32)> = Vec::new();
    let mut i: usize = 0;
    assert(crate::derive::models(assertable@) =~= kept(all.take(0)));
    while i < memberships.len()
        invariant
            i <= memberships@.len(),
            all == crate::derive::models(memberships@),
            crate::derive::models(assertable@) == kept(all.take(i as int)),
        decreases memberships@.len() - i,
    {
        let (sid, unix_id) = &memberships[i];
        proof {
            assert(all.take(i + 1).drop_last() =~= all.take(i as int));
            assert(all.take(i + 1).last() == (sid@, *unix_id));
        }
        if !crate::derive::is_logon_sid(sid) {
            crate::derive::add_unique(&mut assertable, sid.clone(), *unix_id);
        }
        i += 1;
    }
    assert(all.take(i as int) =~= all);
    assertable
}

/// The memberships scope applies to.
pub open spec fn in_scope(
    memberships: Seq<(SidModel, u32)>,
    primary_group: SidModel,
    primary_group_asserted: bool,
) -> Seq<SidModel>
    decreases memberships.len(),
{
    if memberships.len() == 0 {
        Seq::empty()
    } else {
        let rest = in_scope(memberships.drop_last(), primary_group, primary_group_asserted);
        let sid = memberships.last().0;
        if primary_group_asserted || sid != primary_group {
            rest.push(sid)
        } else {
            rest
        }
    }
}

/// The memberships membership scope applies to.
///
/// Every group the source claimed, including a primary group it named, but
/// **not** a primary group substituted for an empty field: the authority needs
/// no permission from anybody to apply its own default.
///
/// Conflating the two cancels two correct rules against each other. The default
/// is `Authenticated Users`, `S-1-5-11`, and a principal is
/// `S-1-5-21-A-B-C-RID`, so [`domain::siblings`] can never hold between them.
/// Every source that omitted its primary group would have every logon denied,
/// naming the source for a claim it never made.
pub fn scoped_groups<'a>(
    memberships: &'a [(Sid, u32)],
    primary_group: &Sid,
    primary_group_asserted: bool,
) -> (groups: Vec<&'a Sid>)
    ensures
        crate::sid::models(groups@) == in_scope(
            crate::derive::models(memberships@),
            primary_group@,
            primary_group_asserted,
        ),
{
    let ghost all = crate::derive::models(memberships@);
    let mut groups: Vec<&'a Sid> = Vec::new();
    let mut i: usize = 0;
    assert(crate::sid::models(groups@) =~= in_scope(
        all.take(0),
        primary_group@,
        primary_group_asserted,
    ));
    while i < memberships.len()
        invariant
            i <= memberships@.len(),
            all == crate::derive::models(memberships@),
            crate::sid::models(groups@) == in_scope(
                all.take(i as int),
                primary_group@,
                primary_group_asserted,
            ),
        decreases memberships@.len() - i,
    {
        let sid = &memberships[i].0;
        proof {
            assert(all.take(i + 1).drop_last() =~= all.take(i as int));
            assert(all.take(i + 1).last().0 == sid@);
        }
        if primary_group_asserted || !sid.same(primary_group) {
            let ghost before = crate::sid::models(groups@);
            groups.push(sid);
            assert(crate::sid::models(groups@) =~= before.push(sid@));
        }
        i += 1;
    }
    assert(all.take(i as int) =~= all);
    groups
}

/// The relative id a source gave a group, or 0 if it named no number for it.
///
/// 0 is what the protocol already means by "this source does not number this
/// group", so a group the source never mentioned at all, one stapled on, lands
/// on the same answer without a separate case.
pub fn asserted_relative(memberships: &[(Sid, u32)], sid: &Sid) -> (relative: u32)
    ensures
        relative == unix_id::relative_of(crate::derive::models(memberships@), sid@),
{
    let ghost all = crate::derive::models(memberships@);
    let mut i: usize = 0;
    assert(all.skip(0) =~= all);
    while i < memberships.len()
        invariant
            i <= memberships@.len(),
            all == crate::derive::models(memberships@),
            unix_id::relative_of(all, sid@) == unix_id::relative_of(all.skip(i as int), sid@),
        decreases memberships@.len() - i,
    {
        assert(all.skip(i as int)[0] == (memberships@[i as int].0@, memberships@[i as int].1));
        if memberships[i].0.same(sid) {
            return memberships[i].1;
        }
        assert(all.skip(i as int).drop_first() =~= all.skip(i + 1));
        i += 1;
    }
    0
}

/// The first group that is not a sibling of the user, if any.
pub open spec fn foreign(user: SidModel, groups: Seq<SidModel>) -> Option<SidModel>
    decreases groups.len(),
{
    if groups.len() == 0 {
        None
    } else if !domain::related(user, groups[0]) {
        Some(groups[0])
    } else {
        foreign(user, groups.drop_first())
    }
}

/// The first group a source may not assert for this principal, if any.
///
/// An ordinary source vouches for its own users and its own groups, and nothing
/// else: a directory must not be able to declare its users administrators of
/// this machine. The local source is exempt, because local group membership of
/// *any* principal, domain ones included, is a local decision.
pub fn foreign_membership<'a>(user: &Sid, groups: &[&'a Sid]) -> (found: Option<&'a Sid>)
    ensures
        found is Some <==> foreign(user@, crate::sid::models(groups@)) is Some,
        found matches Some(sid) ==> foreign(user@, crate::sid::models(groups@)) == Some(sid@),
{
    let ghost all = crate::sid::models(groups@);
    let mut i: usize = 0;
    assert(all.skip(0) =~= all);
    while i < groups.len()
        invariant
            i <= groups@.len(),
            all == crate::sid::models(groups@),
            foreign(user@, all) == foreign(user@, all.skip(i as int)),
        decreases groups@.len() - i,
    {
        assert(all.skip(i as int)[0] == groups@[i as int]@);
        if !domain::siblings(user, groups[i]) {
            return Some(groups[i]);
        }
        assert(all.skip(i as int).drop_first() =~= all.skip(i + 1));
        i += 1;
    }
    None
}

/// Everything a logon's token is made from, short of local policy.
pub struct Vetted {
    pub user: Sid,
    pub primary_group: Sid,
    /// Every SID the token will carry.
    pub token_groups: Vec<(Sid, u32)>,
    pub projection: Projection,
    pub claims: Vec<TokenClaim>,
    pub profile: Profile,
}

/// The primary group an assertion names, or the one substituted for it.
pub open spec fn primary_of(assertion: Assertion) -> SidModel {
    if assertion.primary_group@.len() == 0 {
        WellKnown::AuthenticatedUsers.model()
    } else {
        crate::sid::decoded(assertion.primary_group@)
    }
}

/// Every membership an assertion comes to, its primary group among them.
pub open spec fn memberships_of(assertion: Assertion) -> Seq<(SidModel, u32)> {
    crate::derive::added(kept(read_memberships(assertion.groups@)), primary_of(assertion), 0)
}

/// The memberships of an assertion that scope applies to, which are also the
/// ones the token takes from it.
pub open spec fn scope_of(assertion: Assertion) -> Seq<SidModel> {
    in_scope(
        memberships_of(assertion),
        primary_of(assertion),
        assertion.primary_group@.len() > 0,
    )
}

/// Whether every membership is a SID.
pub open spec fn groups_are_sids(groups: Seq<Membership>) -> bool {
    forall|i: int| 0 <= i < groups.len() ==> crate::sid::is_sid((#[trigger] groups[i]).sid@)
}

/// Whether every claim may go on a token.
pub open spec fn claims_are_usable(assertion: Assertion) -> bool {
    forall|i: int|
        0 <= i < assertion.claims@.len() ==> (#[trigger] assertion.claims@[i]).usable
            && claim::carried(assertion.claims@[i].values@)
}

/// What an assertion nothing may be minted from is answered with.
pub open spec fn assertion_refused(
    source: FactsModel,
    logon_type: LogonType,
    assertion: Assertion,
) -> Option<(Denial, Seq<char>)> {
    let user = crate::sid::decoded(assertion.user_sid@);
    if !crate::sid::is_sid(assertion.user_sid@) {
        Some((Denial::Internal, "The authority returned an unusable identity."@))
    } else if !assertion.permitted_logon_types.allows(logon_type) {
        Some(
            (
                Denial::AccountRestricted,
                "That account may not be used for this kind of sign-on."@,
            ),
        )
    } else if !domain::within(source.domain, user) {
        Some(
            (
                Denial::Internal,
                "The authority returned an identity it is not entitled to assert."@,
            ),
        )
    } else if !groups_are_sids(assertion.groups@) {
        Some((Denial::Internal, "The authority returned an unusable group membership."@))
    } else if assertion.primary_group@.len() > 0 && !crate::sid::is_sid(
        assertion.primary_group@,
    ) {
        Some((Denial::Internal, "The authority returned an unusable primary group."@))
    } else if !source.may_assert_foreign_memberships && foreign(user, scope_of(assertion)) is Some {
        Some(
            (
                Denial::Internal,
                "The authority returned a membership it is not permitted to assert."@,
            ),
        )
    } else if !claims_are_usable(assertion) {
        Some((Denial::Internal, "The authority returned an unusable claim."@))
    } else {
        None
    }
}

/// Every SID the token of an assertion carries.
pub open spec fn token_of(assertion: Assertion, logon_type: LogonType) -> Seq<(SidModel, u32)> {
    crate::derive::carried(
        crate::sid::decoded(assertion.user_sid@),
        scope_of(assertion),
        logon_type,
    )
}

/// The groups of a token with the numbers a source gave them.
pub open spec fn numbered_of(assertion: Assertion, logon_type: LogonType) -> Seq<(SidModel, u32)> {
    token_of(assertion, logon_type).map_values(
        |group: (SidModel, u32)|
            (group.0, unix_id::relative_of(memberships_of(assertion), group.0)),
    )
}

/// A path, or nothing where it is not an absolute one.
pub open spec fn absolute(path: Seq<char>) -> Seq<char> {
    if path.len() > 0 && path[0] == '/' {
        path
    } else {
        Seq::empty()
    }
}

/// What vetting an assertion gives, where it gives anything.
pub open spec fn vetted(
    source: FactsModel,
    logon_type: LogonType,
    assertion: Assertion,
    result: Vetted,
) -> bool {
    let numbered = numbered_of(assertion, logon_type);
    &&& result.user@ == crate::sid::decoded(assertion.user_sid@)
    &&& result.primary_group@ == primary_of(assertion)
    &&& crate::derive::models(result.token_groups@) == token_of(assertion, logon_type)
    &&& result.projection.uid == unix_id::uid_of(source.unix_id_range, assertion.unix_id)
    &&& result.projection.gid == unix_id::or_unmapped(
        unix_id::numbering(
            source.unix_id_range,
            primary_of(assertion),
            unix_id::relative_of(numbered, primary_of(assertion)),
        ),
    )
    &&& result.projection.supplementary@ == unix_id::supplementary_of(
        source.unix_id_range,
        numbered,
    )
    &&& result.claims@.len() == assertion.claims@.len()
    &&& forall|i: int|
        0 <= i < assertion.claims@.len() ==> (#[trigger] result.claims@[i])@ == claim::on_token(
            assertion.claims@[i],
        )
    &&& result.profile.home@ == absolute(assertion.profile.home@)
    &&& result.profile.shell@ == absolute(assertion.profile.shell@)
}

/// Reads every membership as a SID, or none of them.
fn read_groups(groups: &Vec<Membership>) -> (memberships: Option<Vec<(Sid, u32)>>)
    ensures
        memberships is Some <==> groups_are_sids(groups@),
        memberships matches Some(found) ==> crate::derive::models(found@) == read_memberships(
            groups@,
        ),
{
    let mut found: Vec<(Sid, u32)> = Vec::new();
    let mut i: usize = 0;
    while i < groups.len()
        invariant
            i <= groups@.len(),
            found@.len() == i,
            forall|j: int| 0 <= j < i ==> crate::sid::is_sid((#[trigger] groups@[j]).sid@),
            forall|j: int|
                0 <= j < i ==> ((#[trigger] found@[j]).0@, found@[j].1) == (
                    crate::sid::decoded(groups@[j].sid@),
                    groups@[j].unix_id,
                ),
        decreases groups@.len() - i,
    {
        match Sid::from_bytes(groups[i].sid.as_slice()) {
            Some(sid) => {
                found.push((sid, groups[i].unix_id));
            },
            None => {
                return None;
            },
        }
        i += 1;
    }
    assert(crate::derive::models(found@) =~= read_memberships(groups@));
    Some(found)
}

/// The first claim that is not within the protocol's own rules is where reading
/// them stops.
fn all_usable(assertion: &Assertion) -> (yes: bool)
    ensures
        yes <==> forall|i: int|
            0 <= i < assertion.claims@.len() ==> (#[trigger] assertion.claims@[i]).usable,
{
    let mut i: usize = 0;
    while i < assertion.claims.len()
        invariant
            i <= assertion.claims@.len(),
            forall|j: int| 0 <= j < i ==> (#[trigger] assertion.claims@[j]).usable,
        decreases assertion.claims@.len() - i,
    {
        if !assertion.claims[i].usable {
            return false;
        }
        i += 1;
    }
    true
}

/// Hold a path to being absolute.
///
/// Cleared to empty rather than refused: an empty field already means "the
/// authority did not say", and every client already falls back for it. A logon
/// is not worth failing over a home directory.
pub fn absolute_or_empty(path: &str) -> (held: String)
    ensures
        held@ == absolute(path@),
{
    if path.unicode_len() > 0 && path.get_char(0) == '/' {
        path.to_owned()
    } else {
        let nothing = String::new();
        assert(nothing@ =~= Seq::empty());
        nothing
    }
}

/// The numbers of a token's groups, as the projection takes them.
fn number_groups<'a>(
    token_groups: &'a Vec<(Sid, u32)>,
    memberships: &Vec<(Sid, u32)>,
) -> (numbered: Vec<Numbered<'a>>)
    ensures
        unix_id::numbered_models(numbered@) == crate::derive::models(token_groups@).map_values(
            |group: (SidModel, u32)|
                (
                    group.0,
                    unix_id::relative_of(crate::derive::models(memberships@), group.0),
                ),
        ),
{
    let ghost all = crate::derive::models(memberships@);
    let mut numbered: Vec<Numbered<'a>> = Vec::new();
    let mut i: usize = 0;
    while i < token_groups.len()
        invariant
            i <= token_groups@.len(),
            all == crate::derive::models(memberships@),
            numbered@.len() == i,
            forall|j: int|
                0 <= j < i ==> (#[trigger] numbered@[j]).model() == (
                    token_groups@[j].0@,
                    unix_id::relative_of(all, token_groups@[j].0@),
                ),
        decreases token_groups@.len() - i,
    {
        let sid = &token_groups[i].0;
        // What the source called it, where the source named it at all. A
        // stapled group has no relative id and needs none: its built-in number
        // answers for it first, and deliberately outranks a source.
        numbered.push(Numbered { sid, relative: asserted_relative(memberships.as_slice(), sid) });
        i += 1;
    }
    assert(unix_id::numbered_models(numbered@) =~= crate::derive::models(
        token_groups@,
    ).map_values(
        |group: (SidModel, u32)| (group.0, unix_id::relative_of(all, group.0)),
    ));
    numbered
}

/// Decide what, if anything, an assertion entitles a logon to.
///
/// Checked in this order:
///
/// - **The user SID is a SID.** Validating it here, before it becomes identity,
///   is the business of the process that mints tokens.
/// - **Logon type restrictions.** The principal's own record says which kinds of
///   sign-on it may be used for, and the authority enforces it. Checked after
///   the credential held, rather than before asking: which principal it is is
///   not known until the source says so.
/// - **Identity confinement.** A source is authoritative for its own domain and
///   no other, whatever else it is permitted, and no flag lifts it: a source
///   that could assert identities outside its domain could hand out a *different
///   authority's* principals to anyone who satisfied *its* credential check.
/// - **Every group SID is a SID.** Dropping one would silently sign someone in
///   with less authority than the source granted them; a source that cannot
///   encode a SID is broken, and saying so is more useful than half-believing
///   it.
/// - **The primary group is a SID.** Empty means the source did not say, and
///   Authenticated Users is the answer: it is a membership derived for every
///   principal anyway, so naming it as primary asserts nothing new.
/// - **Membership scope.** A source naming a primary group it did not list is
///   taken to be asserting the membership too, *before* this check: a source
///   must not be able to reach `BUILTIN\Administrators` through the one field
///   that skipped it.
/// - **Claims.** A source that cannot produce a usable one fails the logon
///   rather than having it quietly dropped.
pub fn vet(source: &Facts, logon_type: LogonType, assertion: &Assertion) -> (result: Result<
    Vetted,
    Refusal,
>)
    ensures
        result is Err <==> assertion_refused(source@, logon_type, *assertion) is Some,
        result matches Err(refusal) ==> Some(refusal@) == assertion_refused(
            source@,
            logon_type,
            *assertion,
        ),
        result matches Ok(found) ==> vetted(source@, logon_type, *assertion, found),
{
    let user = match Sid::from_bytes(assertion.user_sid.as_slice()) {
        Some(user) => user,
        None => {
            return Err(
                deny(Denial::Internal, "The authority returned an unusable identity."),
            );
        },
    };
    if !assertion.permitted_logon_types.permits(logon_type) {
        return Err(
            deny(
                Denial::AccountRestricted,
                "That account may not be used for this kind of sign-on.",
            ),
        );
    }
    if !domain::contains(&source.domain, &user) {
        return Err(
            deny(
                Denial::Internal,
                "The authority returned an identity it is not entitled to assert.",
            ),
        );
    }
    let memberships = match read_groups(&assertion.groups) {
        Some(memberships) => memberships,
        None => {
            return Err(
                deny(Denial::Internal, "The authority returned an unusable group membership."),
            );
        },
    };
    let mut memberships = drop_unassertable(memberships);

    let primary_group_asserted = assertion.primary_group.len() > 0;
    let primary_group = if primary_group_asserted {
        match Sid::from_bytes(assertion.primary_group.as_slice()) {
            Some(sid) => sid,
            None => {
                return Err(
                    deny(Denial::Internal, "The authority returned an unusable primary group."),
                );
            },
        }
    } else {
        WellKnown::AuthenticatedUsers.sid()
    };
    crate::derive::add_unique(&mut memberships, primary_group.clone(), 0);
    let groups = scoped_groups(memberships.as_slice(), &primary_group, primary_group_asserted);
    assert(crate::sid::models(groups@) == scope_of(*assertion));

    if !source.may_assert_foreign_memberships {
        if foreign_membership(&user, groups.as_slice()).is_some() {
            return Err(
                deny(
                    Denial::Internal,
                    "The authority returned a membership it is not permitted to assert.",
                ),
            );
        }
    }

    // The SID set the token will carry, derived SIDs included. Everything below
    // is a statement about *this* set rather than about what the source sent:
    // local policy is evaluated against it, and so is the projection.
    let token_groups = crate::derive::token_groups(&user, groups.as_slice(), logon_type);

    // The POSIX numbers. Every id a source sends is *relative* to the range the
    // registry assigned it; this is where the base is added.
    //
    // Numbered from the token's groups rather than from the assertion: the
    // groups stapled on are numbered by the authority's own table, which no
    // source can speak for.
    let numbered = number_groups(&token_groups, &memberships);
    assert(unix_id::numbered_models(numbered@) == numbered_of(*assertion, logon_type));
    let projection = unix_id::project(
        source.unix_id_range.as_ref(),
        assertion.unix_id,
        &primary_group,
        numbered.as_slice(),
    );

    if !all_usable(assertion) {
        return Err(deny(Denial::Internal, "The authority returned an unusable claim."));
    }
    let claims = match crate::derive::kacs_claims(assertion.claims.as_slice()) {
        Some(claims) => claims,
        None => {
            return Err(deny(Denial::Internal, "The authority returned an unusable claim."));
        },
    };
    let profile = Profile {
        home: absolute_or_empty(assertion.profile.home.as_str()),
        shell: absolute_or_empty(assertion.profile.shell.as_str()),
    };
    Ok(Vetted { user, primary_group, token_groups, projection, claims, profile })
}

/// What the token of a vetted logon is made from.
pub open spec fn minting_of(
    source_name: Seq<char>,
    logon_type: LogonType,
    result: Vetted,
    configured: Configured,
) -> crate::derive::MintingModel {
    let groups = crate::derive::models(result.token_groups@);
    crate::derive::MintingModel {
        user: result.user@,
        groups,
        primary_group: result.primary_group@,
        uid: result.projection.uid,
        gid: result.projection.gid,
        supplementary: result.projection.supplementary@,
        claims: crate::derive::claim_models(result.claims@),
        logon_type,
        auth_package: source_name,
        policy: principal::decided(configured, result.user@, crate::derive::sids(groups)),
        evidence: Evidence::Verified,
    }
}

/// The token a vetted logon gets, under the policy in force.
///
/// The policy is read per logon rather than cached at startup, so a change takes
/// effect on the next sign-on. It is evaluated against the SIDs the token
/// carries, derived ones included. A source checked a credential, which is
/// evidence that does not stop at this machine's edge.
pub fn grant(source_name: &str, logon_type: LogonType, result: &Vetted, configured: &Configured) -> (plan:
    TokenPlan)
    ensures
        crate::derive::planned(
            minting_of(source_name@, logon_type, *result, *configured),
            plan,
        ),
{
    let token_sids = crate::derive::borrowed_sids(result.token_groups.as_slice());
    let outcome: Outcome = principal::evaluate(configured, &result.user, token_sids.as_slice());
    crate::derive::mint(
        Minting {
            user: &result.user,
            groups: result.token_groups.as_slice(),
            primary_group: &result.primary_group,
            projection: &result.projection,
            claims: result.claims.as_slice(),
            logon_type,
            auth_package: source_name,
            policy: outcome,
            evidence: Evidence::Verified,
        },
    )
}

/// **Identity confinement.** Whatever a source is permitted, it signs nobody in
/// who is not a principal of the domain it registered for.
pub proof fn law_identity_confinement(
    source: FactsModel,
    logon_type: LogonType,
    assertion: Assertion,
)
    requires
        assertion_refused(source, logon_type, assertion) is None,
    ensures
        domain::within(source.domain, crate::sid::decoded(assertion.user_sid@)),
{
}

/// **Logon type restrictions.** Nobody is signed in a way their own record does
/// not permit, and nobody whose record is silent is signed in as a service.
pub proof fn law_logon_type_restrictions(
    source: FactsModel,
    logon_type: LogonType,
    assertion: Assertion,
)
    requires
        assertion_refused(source, logon_type, assertion) is None,
    ensures
        assertion.permitted_logon_types.allows(logon_type),
        !assertion.permitted_logon_types.states() ==> logon_type != LogonType::Service,
{
}

/// The first foreign membership is there exactly when some membership is
/// foreign.
proof fn lemma_foreign(user: SidModel, groups: Seq<SidModel>)
    ensures
        foreign(user, groups) is None <==> forall|i: int|
            0 <= i < groups.len() ==> domain::related(user, #[trigger] groups[i]),
    decreases groups.len(),
{
    if groups.len() > 0 {
        let rest = groups.drop_first();
        lemma_foreign(user, rest);
        if foreign(user, groups) is None {
            assert forall|i: int| 0 <= i < groups.len() implies domain::related(
                user,
                #[trigger] groups[i],
            ) by {
                if i > 0 {
                    assert(rest[i - 1] == groups[i]);
                }
            }
        } else if domain::related(user, groups[0]) {
            let j = choose|j: int|
                0 <= j < rest.len() && !domain::related(user, #[trigger] rest[j]);
            assert(groups[j + 1] == rest[j]);
        }
    }
}

/// **Membership scope.** A source that may not assert foreign memberships puts
/// nothing on a token but the principal's own domain: every SID the token
/// carries is a sibling of the principal, or one every logon of its type
/// carries.
pub proof fn law_membership_scope(
    source: FactsModel,
    logon_type: LogonType,
    assertion: Assertion,
    sid: SidModel,
)
    requires
        assertion_refused(source, logon_type, assertion) is None,
        !source.may_assert_foreign_memberships,
        crate::derive::present(token_of(assertion, logon_type), sid),
    ensures
        domain::related(crate::sid::decoded(assertion.user_sid@), sid) || crate::derive::derived(
            sid,
            logon_type,
        ),
{
    let user = crate::sid::decoded(assertion.user_sid@);
    let groups = scope_of(assertion);
    crate::derive::law_what_a_token_carries(user, groups, logon_type, sid);
    lemma_foreign(user, groups);
    if groups.contains(sid) {
        let i = choose|i: int| 0 <= i < groups.len() && groups[i] == sid;
        assert(domain::related(user, groups[i]));
    }
    let rid = choose|rid: u32| #[trigger]
        source.domain.subs.push(rid) == user.subs && source.domain.authority
            == user.authority;
    assert(user.subs.len() > 0);
}

/// What is in scope is in the memberships, and is not the substituted primary
/// group.
proof fn lemma_in_scope(
    memberships: Seq<(SidModel, u32)>,
    primary_group: SidModel,
    asserted: bool,
    sid: SidModel,
)
    ensures
        in_scope(memberships, primary_group, asserted).contains(sid) <==> (crate::derive::present(
            memberships,
            sid,
        ) && (asserted || sid != primary_group)),
    decreases memberships.len(),
{
    let found = in_scope(memberships, primary_group, asserted);
    if memberships.len() > 0 {
        let front = memberships.drop_last();
        let last = memberships.last().0;
        lemma_in_scope(front, primary_group, asserted, sid);
        let rest = in_scope(front, primary_group, asserted);
        if crate::derive::present(front, sid) {
            let j = choose|j: int| 0 <= j < front.len() && (#[trigger] front[j]).0 == sid;
            assert(memberships[j].0 == sid);
        }
        if crate::derive::present(memberships, sid) && sid != last {
            let j = choose|j: int|
                0 <= j < memberships.len() && (#[trigger] memberships[j]).0 == sid;
            assert(front[j].0 == sid);
        }
        if sid == last {
            assert(memberships[memberships.len() - 1].0 == sid);
        }
        if asserted || last != primary_group {
            assert(found == rest.push(last));
            if rest.contains(sid) {
                let j = choose|j: int| 0 <= j < rest.len() && rest[j] == sid;
                assert(found[j] == sid);
            }
            if sid == last {
                assert(found[rest.len() as int] == sid);
            }
            if found.contains(sid) && sid != last {
                let j = choose|j: int| 0 <= j < found.len() && found[j] == sid;
                assert(rest[j] == sid);
            }
        }
    } else {
        assert(found =~= Seq::empty());
    }
}

/// What is kept is what was sent, without logon SIDs.
proof fn lemma_kept(memberships: Seq<(SidModel, u32)>, sid: SidModel)
    ensures
        crate::derive::present(kept(memberships), sid) <==> (crate::derive::present(
            memberships,
            sid,
        ) && !crate::derive::logon_sid(sid)),
    decreases memberships.len(),
{
    if memberships.len() > 0 {
        let front = memberships.drop_last();
        let (last, unix_id) = memberships.last();
        lemma_kept(front, sid);
        crate::derive::lemma_added(kept(front), last, unix_id);
        if crate::derive::present(front, sid) {
            let j = choose|j: int| 0 <= j < front.len() && (#[trigger] front[j]).0 == sid;
            assert(memberships[j].0 == sid);
        }
        if crate::derive::present(memberships, sid) && sid != last {
            let j = choose|j: int|
                0 <= j < memberships.len() && (#[trigger] memberships[j]).0 == sid;
            assert(front[j].0 == sid);
        }
        if sid == last {
            assert(memberships[memberships.len() - 1].0 == sid);
        }
        assert(crate::derive::present(
            crate::derive::added(kept(front), last, unix_id),
            sid,
        ) <==> (crate::derive::present(kept(front), sid) || sid == last));
    }
}

/// A primary group substituted for an empty field is never held against the
/// source, nor is a logon SID or a duplicate: an assertion is refused on scope
/// exactly when some group it *claims*, and that is not to be dropped, is
/// foreign.
pub proof fn law_scope_is_held_against_claims_alone(
    user: SidModel,
    assertion: Assertion,
)
    requires
        assertion.primary_group@.len() == 0,
    ensures
        foreign(user, scope_of(assertion)) is None <==> forall|sid: SidModel|
            #![trigger crate::derive::present(read_memberships(assertion.groups@), sid)]
            crate::derive::present(read_memberships(assertion.groups@), sid)
                && !crate::derive::logon_sid(sid) && sid != WellKnown::AuthenticatedUsers.model()
                ==> domain::related(user, sid),
{
    let sent = read_memberships(assertion.groups@);
    let primary = primary_of(assertion);
    let all = memberships_of(assertion);
    let scope = scope_of(assertion);
    lemma_foreign(user, scope);
    crate::derive::lemma_added(kept(sent), primary, 0);
    assert forall|sid: SidModel| #[trigger] scope.contains(sid) <==> (crate::derive::present(
        sent,
        sid,
    ) && !crate::derive::logon_sid(sid) && sid != primary) by {
        lemma_in_scope(all, primary, false, sid);
        lemma_kept(sent, sid);
        assert(crate::derive::present(all, sid) <==> (crate::derive::present(kept(sent), sid)
            || sid == primary));
    }
    if foreign(user, scope) is None {
        assert forall|sid: SidModel|
            #![trigger crate::derive::present(sent, sid)]
            crate::derive::present(sent, sid) && !crate::derive::logon_sid(sid) && sid
                != primary implies domain::related(user, sid) by {
            assert(scope.contains(sid));
            let i = choose|i: int| 0 <= i < scope.len() && scope[i] == sid;
            assert(domain::related(user, scope[i]));
        }
    } else {
        let i = choose|i: int| 0 <= i < scope.len() && !domain::related(user, #[trigger] scope[i]);
        assert(scope.contains(scope[i]));
        assert(crate::derive::present(sent, scope[i]));
    }
}

/// No token carries a logon SID a source asserted: a principal of a claimable
/// domain is not one, and nothing else puts one there.
pub proof fn law_no_logon_sid_is_minted(
    source: FactsModel,
    logon_type: LogonType,
    assertion: Assertion,
    sid: SidModel,
)
    requires
        domain::claimable(source.domain),
        assertion_refused(source, logon_type, assertion) is None,
        crate::derive::present(token_of(assertion, logon_type), sid),
    ensures
        !crate::derive::logon_sid(sid),
{
    let user = crate::sid::decoded(assertion.user_sid@);
    let rid = choose|rid: u32| #[trigger]
        source.domain.subs.push(rid) == user.subs && source.domain.authority
            == user.authority;
    assert(user.subs[0] == source.domain.subs[0]);
    if crate::derive::logon_sid(sid) {
        crate::derive::law_no_asserted_logon_sid(user, scope_of(assertion), logon_type, sid);
    }
}

/// A primary group a source did name is on the token, and is in scope: there is
/// no field through which a membership escapes the check.
pub proof fn law_a_named_primary_group_is_a_membership(
    source: FactsModel,
    logon_type: LogonType,
    assertion: Assertion,
)
    requires
        assertion_refused(source, logon_type, assertion) is None,
        assertion.primary_group@.len() > 0,
    ensures
        scope_of(assertion).contains(primary_of(assertion)),
        !source.may_assert_foreign_memberships ==> domain::related(
            crate::sid::decoded(assertion.user_sid@),
            primary_of(assertion),
        ),
{
    let sent = read_memberships(assertion.groups@);
    let primary = primary_of(assertion);
    let scope = scope_of(assertion);
    crate::derive::lemma_added(kept(sent), primary, 0);
    lemma_in_scope(memberships_of(assertion), primary, true, primary);
    lemma_foreign(crate::sid::decoded(assertion.user_sid@), scope);
    let i = choose|i: int| 0 <= i < scope.len() && scope[i] == primary;
    assert(scope[i] == primary);
}

/// No relative path leaves in a profile.
pub proof fn law_profiles_hold_absolute_paths(
    source: FactsModel,
    logon_type: LogonType,
    assertion: Assertion,
    result: Vetted,
)
    requires
        vetted(source, logon_type, assertion, result),
    ensures
        result.profile.home@.len() > 0 ==> result.profile.home@[0] == '/',
        result.profile.shell@.len() > 0 ==> result.profile.shell@[0] == '/',
{
}

/// A logon through a source never projects to SYSTEM's number, and stays inside
/// the range the source was given or falls to `nobody`.
pub proof fn law_numbers_stay_in_range(
    source: FactsModel,
    logon_type: LogonType,
    assertion: Assertion,
    result: Vetted,
)
    requires
        vetted(source, logon_type, assertion, result),
        source.unix_id_range matches Some(range) ==> range.usable(),
    ensures
        result.projection.uid == unix_id::UNMAPPED || (source.unix_id_range matches Some(range)
            && range.base < result.projection.uid < range.base + range.count),
        result.projection.uid != 0,
{
}

/// Whether a source claims a membership of a SID.
pub open spec fn claims_group(assertion: Assertion, sid: SidModel) -> bool {
    exists|i: int|
        0 <= i < assertion.groups@.len() && crate::sid::decoded(
            (#[trigger] assertion.groups@[i]).sid@,
        ) == sid
}

/// What is claimed is what is read.
proof fn lemma_claims(assertion: Assertion, sid: SidModel)
    ensures
        crate::derive::present(read_memberships(assertion.groups@), sid) <==> claims_group(
            assertion,
            sid,
        ),
{
    let sent = read_memberships(assertion.groups@);
    assert forall|i: int| 0 <= i < sent.len() implies (#[trigger] sent[i]).0
        == crate::sid::decoded(assertion.groups@[i].sid@) by {}
    if claims_group(assertion, sid) {
        let i = choose|i: int|
            0 <= i < assertion.groups@.len() && crate::sid::decoded(
                (#[trigger] assertion.groups@[i]).sid@,
            ) == sid;
        assert(sent[i].0 == sid);
    }
    if crate::derive::present(sent, sid) {
        let i = choose|i: int| 0 <= i < sent.len() && (#[trigger] sent[i]).0 == sid;
        assert(crate::sid::decoded(assertion.groups@[i].sid@) == sid);
    }
}

/// The token of an assertion carries the principal, every group the source
/// claims, the primary group the source names, and what every logon of its kind
/// carries; no logon SID among the claims, and nothing else.
pub proof fn law_who_is_on_the_token(assertion: Assertion, logon_type: LogonType, sid: SidModel)
    ensures
        crate::derive::present(token_of(assertion, logon_type), sid) <==> {
            ||| sid == crate::sid::decoded(assertion.user_sid@)
            ||| {
                &&& !(sid.authority == 5 && sid.subs.len() > 0 && sid.subs[0] == 5)
                &&& claims_group(assertion, sid) || (assertion.primary_group@.len() > 0 && sid
                    == crate::sid::decoded(assertion.primary_group@))
            }
            ||| crate::derive::derived(sid, logon_type)
        },
{
    let sent = read_memberships(assertion.groups@);
    let primary = primary_of(assertion);
    let named = assertion.primary_group@.len() > 0;
    lemma_claims(assertion, sid);
    lemma_kept(sent, sid);
    crate::derive::lemma_added(kept(sent), primary, 0);
    lemma_in_scope(memberships_of(assertion), primary, named, sid);
    crate::derive::law_what_a_token_carries(
        crate::sid::decoded(assertion.user_sid@),
        scope_of(assertion),
        logon_type,
        sid,
    );
    assert(crate::derive::present(memberships_of(assertion), sid) <==> (crate::derive::present(
        kept(sent),
        sid,
    ) || sid == primary));
}

/// What is counted of a list, and of the list with one more.
proof fn lemma_relative_push(
    groups: Seq<(SidModel, u32)>,
    other: SidModel,
    unix_id: u32,
    sid: SidModel,
)
    ensures
        unix_id::relative_of(groups.push((other, unix_id)), sid) == (if crate::derive::present(
            groups,
            sid,
        ) {
            unix_id::relative_of(groups, sid)
        } else if other == sid {
            unix_id
        } else {
            0
        }),
    decreases groups.len(),
{
    let more = groups.push((other, unix_id));
    reveal_with_fuel(unix_id::relative_of, 2);
    if groups.len() == 0 {
        assert(more[0] == (other, unix_id));
        assert(more.drop_first() =~= Seq::empty());
    } else {
        let rest = groups.drop_first();
        assert(more[0] == groups[0]);
        assert(more.drop_first() =~= rest.push((other, unix_id)));
        lemma_relative_push(rest, other, unix_id, sid);
        if groups[0].0 == sid {
            assert(crate::derive::present(groups, sid));
        } else {
            if crate::derive::present(groups, sid) {
                let j = choose|j: int| 0 <= j < groups.len() && (#[trigger] groups[j]).0 == sid;
                assert(rest[j - 1].0 == sid);
            }
            if crate::derive::present(rest, sid) {
                let j = choose|j: int| 0 <= j < rest.len() && (#[trigger] rest[j]).0 == sid;
                assert(groups[j + 1].0 == sid);
            }
        }
    }
}

/// Dropping what no source may assert changes nothing of how the rest is
/// counted.
proof fn lemma_kept_counts(memberships: Seq<(SidModel, u32)>, sid: SidModel)
    requires
        !crate::derive::logon_sid(sid),
    ensures
        unix_id::relative_of(kept(memberships), sid) == unix_id::relative_of(memberships, sid),
    decreases memberships.len(),
{
    if memberships.len() > 0 {
        let front = memberships.drop_last();
        let (last, unix_id) = memberships.last();
        lemma_kept_counts(front, sid);
        lemma_kept(front, sid);
        lemma_kept(front, last);
        assert(front.push((last, unix_id)) =~= memberships);
        lemma_relative_push(front, last, unix_id, sid);
        lemma_relative_push(kept(front), last, unix_id, sid);
        if !crate::derive::present(kept(front), sid) {
            assert forall|j: int| 0 <= j < front.len() implies (#[trigger] front[j]).0 != sid by {
                if front[j].0 == sid {
                    assert(crate::derive::present(front, sid));
                }
            }
            unix_id::law_no_mention_counts_nothing(front, sid);
        }
    }
}

/// What the numbers of a token's groups are made from: what its source counts
/// each as where it first claims it.
proof fn lemma_counted(assertion: Assertion, at: int)
    requires
        0 <= at < assertion.groups@.len(),
        forall|j: int|
            0 <= j < at ==> crate::sid::decoded((#[trigger] assertion.groups@[j]).sid@)
                != crate::sid::decoded(assertion.groups@[at].sid@),
        !crate::derive::logon_sid(crate::sid::decoded(assertion.groups@[at].sid@)),
    ensures
        unix_id::relative_of(
            memberships_of(assertion),
            crate::sid::decoded(assertion.groups@[at].sid@),
        ) == assertion.groups@[at].unix_id,
{
    let sent = read_memberships(assertion.groups@);
    let sid = crate::sid::decoded(assertion.groups@[at].sid@);
    assert forall|j: int| 0 <= j < sent.len() implies (#[trigger] sent[j]) == (
        crate::sid::decoded(assertion.groups@[j].sid@),
        assertion.groups@[j].unix_id,
    ) by {}
    assert(sent[at].0 == sid);
    unix_id::law_the_first_mention_counts(sent, sid, at);
    lemma_kept_counts(sent, sid);
    lemma_kept(sent, sid);
    lemma_relative_push(kept(sent), primary_of(assertion), 0, sid);
}

/// A SID on a token has its number among the token's, and is the token's gid
/// where it is the primary group.
proof fn lemma_projected(
    source: FactsModel,
    logon_type: LogonType,
    assertion: Assertion,
    result: Vetted,
    sid: SidModel,
    number: u32,
)
    requires
        vetted(source, logon_type, assertion, result),
        crate::derive::present(token_of(assertion, logon_type), sid),
        unix_id::numbering(
            source.unix_id_range,
            sid,
            unix_id::relative_of(memberships_of(assertion), sid),
        ) == Some(number),
    ensures
        result.projection.supplementary@.contains(number),
        sid == primary_of(assertion) ==> result.projection.gid == number,
{
    let range = source.unix_id_range;
    let token = token_of(assertion, logon_type);
    let numbered = numbered_of(assertion, logon_type);
    let relative = unix_id::relative_of(memberships_of(assertion), sid);
    let p = choose|p: int| 0 <= p < token.len() && (#[trigger] token[p]).0 == sid;
    assert(numbered[p] == (sid, relative));
    unix_id::law_every_numbered_group_is_projected(range, numbered);
    let wanted = unix_id::has_number(range);
    assert(wanted(numbered[p]));
    let out = result.projection.supplementary@;
    assert(out[crate::select::tally(numbered, wanted, p)] == number);
    lemma_all_alike(numbered, sid, relative);
}

/// A SID that is always counted alike is counted so.
proof fn lemma_all_alike(groups: Seq<(SidModel, u32)>, sid: SidModel, relative: u32)
    requires
        crate::derive::present(groups, sid),
        forall|j: int|
            0 <= j < groups.len() && (#[trigger] groups[j]).0 == sid ==> groups[j].1 == relative,
    ensures
        unix_id::relative_of(groups, sid) == relative,
    decreases groups.len(),
{
    if groups[0].0 != sid {
        let rest = groups.drop_first();
        let j = choose|j: int| 0 <= j < groups.len() && (#[trigger] groups[j]).0 == sid;
        assert(rest[j - 1].0 == sid);
        assert forall|j: int| 0 <= j < rest.len() && (#[trigger] rest[j]).0 == sid implies rest[j].1
            == relative by {
            assert(groups[j + 1] == rest[j]);
        }
        lemma_all_alike(rest, sid, relative);
    } else {
        assert(groups[0].1 == relative);
    }
}

/// A group projects to what its source counted it as: where the first claim of a
/// SID the authority's table does not number carries a count that the source's
/// range expresses, the base and that count are among the numbers of the token,
/// and are the token's gid where that SID is the primary group.
pub proof fn law_a_group_projects_to_what_its_source_counted(
    source: FactsModel,
    logon_type: LogonType,
    assertion: Assertion,
    result: Vetted,
    range: unix_id::Range,
    at: int,
)
    requires
        vetted(source, logon_type, assertion, result),
        source.unix_id_range == Some(range),
        0 <= at < assertion.groups@.len(),
        ({
            let sid = crate::sid::decoded(assertion.groups@[at].sid@);
            &&& forall|j: int|
                0 <= j < at ==> crate::sid::decoded((#[trigger] assertion.groups@[j]).sid@) != sid
            &&& !(sid.authority == 5 && sid.subs.len() > 0 && sid.subs[0] == 5)
            &&& forall|w: WellKnown| (#[trigger] w.model()) == sid ==> w.projected() is None
        }),
        0 < assertion.groups@[at].unix_id < range.count,
        range.base + assertion.groups@[at].unix_id <= u32::MAX,
    ensures
        result.projection.supplementary@.contains(
            (range.base + assertion.groups@[at].unix_id) as u32,
        ),
        assertion.primary_group@.len() > 0 && crate::sid::decoded(assertion.primary_group@)
            == crate::sid::decoded(assertion.groups@[at].sid@) ==> result.projection.gid
            == range.base + assertion.groups@[at].unix_id,
{
    let sid = crate::sid::decoded(assertion.groups@[at].sid@);
    let number = (range.base + assertion.groups@[at].unix_id) as u32;
    lemma_counted(assertion, at);
    unix_id::law_a_source_numbers_what_the_table_does_not(
        source.unix_id_range,
        sid,
        assertion.groups@[at].unix_id,
        number,
    );
    law_who_is_on_the_token(assertion, logon_type, sid);
    assert(claims_group(assertion, sid));
    lemma_projected(source, logon_type, assertion, result, sid, number);
}

/// A well-known group on a token projects to the authority's own number for it,
/// whatever its source counts it as; a logon whose source names no primary group
/// has the number of `Authenticated Users`, 101, for its gid.
pub proof fn law_a_well_known_group_keeps_its_number(
    source: FactsModel,
    logon_type: LogonType,
    assertion: Assertion,
    result: Vetted,
    entry: WellKnown,
    number: u32,
)
    requires
        vetted(source, logon_type, assertion, result),
        crate::derive::present(token_of(assertion, logon_type), entry.model()),
        entry.projected() == Some(number),
    ensures
        result.projection.supplementary@.contains(number),
        assertion.primary_group@.len() > 0 && crate::sid::decoded(assertion.primary_group@)
            == entry.model() ==> result.projection.gid == number,
        assertion.primary_group@.len() == 0 ==> result.projection.gid == 101,
{
    let all = memberships_of(assertion);
    unix_id::law_the_table_numbers_its_own(
        source.unix_id_range,
        entry,
        unix_id::relative_of(all, entry.model()),
    );
    lemma_projected(source, logon_type, assertion, result, entry.model(), number);
    let default = WellKnown::AuthenticatedUsers;
    law_who_is_on_the_token(assertion, logon_type, default.model());
    unix_id::law_the_table_numbers_its_own(
        source.unix_id_range,
        default,
        unix_id::relative_of(all, default.model()),
    );
    lemma_projected(source, logon_type, assertion, result, default.model(), 101);
}

/// A token projects to nothing its groups do not: every number of it is the
/// authority's own for a well-known SID on the token, or is inside the range of
/// the source that vouched for it.
pub proof fn law_nothing_else_is_projected(
    source: FactsModel,
    logon_type: LogonType,
    assertion: Assertion,
    result: Vetted,
    k: int,
)
    requires
        vetted(source, logon_type, assertion, result),
        0 <= k < result.projection.supplementary@.len(),
    ensures
        (exists|entry: WellKnown|
            (#[trigger] entry.projected()) == Some(result.projection.supplementary@[k])
                && crate::derive::present(token_of(assertion, logon_type), entry.model())) || (
        source.unix_id_range matches Some(range) && range.base < result.projection.supplementary@[k]
            < range.base + range.count),
{
    let range = source.unix_id_range;
    let token = token_of(assertion, logon_type);
    let numbered = numbered_of(assertion, logon_type);
    let out = result.projection.supplementary@;
    unix_id::law_every_numbered_group_is_projected(range, numbered);
    let i = crate::select::lemma_picked_for(
        numbered,
        unix_id::has_number(range),
        unix_id::its_number(range),
        out,
        k,
    );
    let sid = numbered[i].0;
    assert(token[i].0 == sid);
    if let Some(number) = crate::well_known::number_of(sid) {
        let entry = crate::well_known::identified(sid)->0;
        assert(entry.model() == sid) by {
            assert(exists|w: WellKnown| #[trigger] w.model() == sid);
        }
        assert(entry.projected() == Some(out[k]));
        assert(crate::derive::present(token, entry.model()));
    }
}

/// A logon is numbered as its source counted it, and is `nobody`'s where that
/// expresses nothing.
pub proof fn law_a_logon_has_its_principals_number(
    source: FactsModel,
    logon_type: LogonType,
    assertion: Assertion,
    result: Vetted,
)
    requires
        vetted(source, logon_type, assertion, result),
    ensures
        result.projection.uid == (match source.unix_id_range {
            Some(range) => if 0 < assertion.unix_id && assertion.unix_id < range.count
                && range.base + assertion.unix_id <= u32::MAX {
                range.base + assertion.unix_id
            } else {
                65534
            },
            None => 65534,
        }),
{
}

/// A logon is for the principal that was asserted, with the primary group that
/// was asserted, or `Authenticated Users` where none was, and with each claim
/// that was asserted.
pub proof fn law_a_logon_is_for_whom_its_source_says(
    source: FactsModel,
    logon_type: LogonType,
    assertion: Assertion,
    result: Vetted,
    i: int,
)
    requires
        vetted(source, logon_type, assertion, result),
    ensures
        result.user@ == crate::sid::decoded(assertion.user_sid@),
        assertion.primary_group@.len() > 0 ==> result.primary_group@ == crate::sid::decoded(
            assertion.primary_group@,
        ),
        assertion.primary_group@.len() == 0 ==> result.primary_group@ == (SidModel {
            authority: 5,
            subs: seq![11u32],
        }),
        result.claims@.len() == assertion.claims@.len(),
        0 <= i < assertion.claims@.len() ==> result.claims@[i].name@ == assertion.claims@[i].name@,
        crate::derive::models(result.token_groups@) == token_of(assertion, logon_type),
{
}

/// An absolute path in a profile is passed on as it came; any other is cleared.
pub proof fn law_an_absolute_path_is_passed_on(
    source: FactsModel,
    logon_type: LogonType,
    assertion: Assertion,
    result: Vetted,
)
    requires
        vetted(source, logon_type, assertion, result),
    ensures
        assertion.profile.home@.len() > 0 && assertion.profile.home@[0] == '/'
            ==> result.profile.home@ == assertion.profile.home@,
        assertion.profile.shell@.len() > 0 && assertion.profile.shell@[0] == '/'
            ==> result.profile.shell@ == assertion.profile.shell@,
        assertion.profile.home@.len() == 0 || assertion.profile.home@[0] != '/'
            ==> result.profile.home@.len() == 0,
        assertion.profile.shell@.len() == 0 || assertion.profile.shell@[0] != '/'
            ==> result.profile.shell@.len() == 0,
{
}

/// An assertion is good exactly where it names a SID of its source's own domain
/// as the principal, the principal permits this kind of logon, everything it says
/// is a SID is one, every claim of it is usable, and it names no group outside the
/// principal's domain unless its source may. Where it is not, the caller is told
/// that the account is restricted if that is why, and of a fault otherwise.
pub proof fn law_what_makes_an_assertion_good(
    source: FactsModel,
    logon_type: LogonType,
    assertion: Assertion,
)
    ensures
        ({
            let user = crate::sid::decoded(assertion.user_sid@);
            let primary = crate::sid::decoded(assertion.primary_group@);
            let refused = assertion_refused(source, logon_type, assertion);
            &&& refused is None <==> {
                &&& crate::sid::is_sid(assertion.user_sid@)
                &&& assertion.permitted_logon_types.allows(logon_type)
                &&& domain::within(source.domain, user)
                &&& forall|i: int|
                    0 <= i < assertion.groups@.len() ==> crate::sid::is_sid(
                        (#[trigger] assertion.groups@[i]).sid@,
                    )
                &&& assertion.primary_group@.len() > 0 ==> crate::sid::is_sid(
                    assertion.primary_group@,
                )
                &&& source.may_assert_foreign_memberships || (forall|sid: SidModel|
                    #![trigger claims_group(assertion, sid)]
                    claims_group(assertion, sid) && !crate::derive::logon_sid(sid) && (
                    assertion.primary_group@.len() > 0 || sid
                        != WellKnown::AuthenticatedUsers.model()) ==> domain::related(user, sid))
                    && (assertion.primary_group@.len() > 0 ==> domain::related(user, primary))
                &&& forall|i: int|
                    0 <= i < assertion.claims@.len() ==> (#[trigger] assertion.claims@[i]).usable
                        && claim::carried(assertion.claims@[i].values@)
            }
            &&& refused matches Some((denial, _)) ==> if crate::sid::is_sid(assertion.user_sid@)
                && !assertion.permitted_logon_types.allows(logon_type) {
                denial is AccountRestricted
            } else {
                denial is Internal
            }
        }),
{
    let user = crate::sid::decoded(assertion.user_sid@);
    let sent = read_memberships(assertion.groups@);
    let primary = primary_of(assertion);
    let named = assertion.primary_group@.len() > 0;
    let scope = scope_of(assertion);
    lemma_foreign(user, scope);
    crate::derive::lemma_added(kept(sent), primary, 0);
    assert forall|sid: SidModel| #[trigger] scope.contains(sid) <==> (if named {
        sid == primary || (claims_group(assertion, sid) && !crate::derive::logon_sid(sid))
    } else {
        sid != primary && claims_group(assertion, sid) && !crate::derive::logon_sid(sid)
    }) by {
        lemma_in_scope(memberships_of(assertion), primary, named, sid);
        lemma_kept(sent, sid);
        lemma_claims(assertion, sid);
        assert(crate::derive::present(memberships_of(assertion), sid) <==> (
        crate::derive::present(kept(sent), sid) || sid == primary));
    }
    if foreign(user, scope) is None {
        assert forall|sid: SidModel| #[trigger] scope.contains(sid) implies domain::related(
            user,
            sid,
        ) by {
            let i = choose|i: int| 0 <= i < scope.len() && scope[i] == sid;
            assert(domain::related(user, scope[i]));
        }
        assert forall|sid: SidModel|
            #![trigger claims_group(assertion, sid)]
            claims_group(assertion, sid) && !crate::derive::logon_sid(sid) && (named || sid
                != WellKnown::AuthenticatedUsers.model()) implies domain::related(user, sid) by {
            assert(scope.contains(sid));
        }
        if named {
            assert(scope.contains(primary));
        }
    } else {
        let i = choose|i: int| 0 <= i < scope.len() && !domain::related(user, #[trigger] scope[i]);
        assert(scope.contains(scope[i]));
        assert(claims_group(assertion, scope[i]) || scope[i] == primary);
    }
}

/// SYSTEM may have any logon. Anybody else is told that they may not originate
/// logons where their record lists none, and that they may not request this one
/// where it lists others.
pub proof fn law_why_a_caller_is_turned_away(
    peer: SidModel,
    types: Option<LogonTypes>,
    logon_type: LogonType,
)
    ensures
        peer == (SidModel { authority: 5, subs: seq![18u32] }) ==> admission_refused(
            peer,
            types,
            logon_type,
        ) is None,
        peer != (SidModel { authority: 5, subs: seq![18u32] }) ==> {
            &&& types is None || !types->0.states() ==> (admission_refused(
                peer,
                types,
                logon_type,
            ) matches Some((denial, _)) && denial is PermissionDenied)
            &&& types is Some && types->0.states() && !types->0.holds(logon_type) ==> (
            admission_refused(peer, types, logon_type) matches Some((denial, _))
                && denial is LogonTypeNotPermitted)
            &&& types is Some && types->0.holds(logon_type) ==> admission_refused(
                peer,
                types,
                logon_type,
            ) is None
        },
{
    if types is Some && types->0.holds(logon_type) {
        assert(types->0.states());
    }
}

/// A client that runs out of time is told of a limit, one of another version that
/// its version is not implemented, and any other that opens nothing that its
/// message makes no sense.
pub proof fn law_why_an_opening_opens_nothing(received: Received)
    ensures
        match received {
            Received::Logon(Some(_)) => opening_refused(received) is None,
            Received::Attest(Some(_)) => opening_refused(received) is None,
            Received::Change(Some(_)) => opening_refused(received) is None,
            Received::Failed(IoKind::WouldBlock) => opening_refused(received) matches Some((d, _))
                && d is ConversationLimit,
            Received::Failed(IoKind::TimedOut) => opening_refused(received) matches Some((d, _))
                && d is ConversationLimit,
            Received::UnsupportedVersion => opening_refused(received) matches Some((d, _))
                && d is UnsupportedVersion,
            _ => opening_refused(received) matches Some((d, _)) && d is MalformedRequest,
        },
{
}

/// The caller learns nothing of whether anybody holds a name: a logon that is
/// blinded goes on as one that is not. Nothing is sent where nobody can be
/// reached.
pub proof fn law_a_blinded_logon_goes_on_as_any_other(source: FactsModel)
    ensures
        sent_to(RouteModel::Owner(source)) == Ok::<FactsModel, (Denial, Seq<char>)>(source),
        sent_to(RouteModel::Blind(source)) == sent_to(RouteModel::Owner(source)),
        sent_to(RouteModel::Unavailable) matches Err((denial, _)) && denial is AuthorityUnavailable,
        sent_to(RouteModel::NoSources) matches Err((denial, _)) && denial is AuthorityUnavailable,
{
}

/// A logon's token is vouched for by its source and may be delegated, is for whom
/// it was vetted for, carries and projects to what was vetted, and has what local
/// policy decides for the whole of what it carries.
pub proof fn law_a_grant_is_of_what_was_vetted(
    source_name: Seq<char>,
    logon_type: LogonType,
    result: Vetted,
    configured: Configured,
)
    ensures
        ({
            let minting = minting_of(source_name, logon_type, result, configured);
            let token = crate::derive::models(result.token_groups@);
            &&& minting.auth_package == source_name
            &&& minting.evidence is Verified
            &&& minting.logon_type == logon_type
            &&& minting.user == result.user@
            &&& minting.primary_group == result.primary_group@
            &&& minting.groups == token
            &&& minting.uid == result.projection.uid
            &&& minting.gid == result.projection.gid
            &&& minting.supplementary == result.projection.supplementary@
            &&& minting.claims.len() == result.claims@.len()
            &&& forall|i: int|
                0 <= i < result.claims@.len() ==> #[trigger] minting.claims[i]
                    == result.claims@[i]@
            &&& forall|groups: Seq<SidModel>|
                #![trigger principal::decided(configured, result.user@, groups)]
                groups.len() == token.len() && (forall|i: int|
                    0 <= i < token.len() ==> groups[i] == (#[trigger] token[i]).0)
                    ==> minting.policy == principal::decided(configured, result.user@, groups)
        }),
{
    let minting = minting_of(source_name, logon_type, result, configured);
    let token = crate::derive::models(result.token_groups@);
    assert forall|groups: Seq<SidModel>|
        #![trigger principal::decided(configured, result.user@, groups)]
        groups.len() == token.len() && (forall|i: int|
            0 <= i < token.len() ==> groups[i] == (#[trigger] token[i]).0) implies minting.policy
        == principal::decided(configured, result.user@, groups) by {
        assert(groups =~= crate::derive::sids(token)) by {
            assert forall|i: int| 0 <= i < token.len() implies groups[i] == crate::derive::sids(
                token,
            )[i] by {
                assert(groups[i] == token[i].0);
            }
        }
    }
}

/// Whether one SID stands before another in a list.
pub open spec fn stands_before(groups: Seq<(SidModel, u32)>, a: SidModel, b: SidModel) -> bool {
    exists|p: int, q: int|
        0 <= p < q < groups.len() && (#[trigger] groups[p]).0 == a && (#[trigger] groups[q]).0 == b
}

/// What is claimed first is kept first.
proof fn lemma_kept_in_order(memberships: Seq<(SidModel, u32)>, i: int, j: int)
    requires
        0 <= i < j < memberships.len(),
        forall|k: int|
            0 <= k < j ==> (#[trigger] memberships[k]).0 != memberships[j].0,
        !crate::derive::logon_sid(memberships[i].0),
        !crate::derive::logon_sid(memberships[j].0),
    ensures
        stands_before(kept(memberships), memberships[i].0, memberships[j].0),
    decreases memberships.len(),
{
    let front = memberships.drop_last();
    let (a, b) = (memberships[i].0, memberships[j].0);
    let (last, unix_id) = memberships.last();
    let (rest, all) = (kept(front), kept(memberships));
    if !crate::derive::logon_sid(last) {
        crate::derive::lemma_added(rest, last, unix_id);
    }
    if j == memberships.len() - 1 {
        lemma_kept(front, a);
        lemma_kept(front, b);
        assert(front[i].0 == a);
        assert(crate::derive::present(front, a));
        assert(!crate::derive::present(front, b)) by {
            if crate::derive::present(front, b) {
                let k = choose|k: int| 0 <= k < front.len() && (#[trigger] front[k]).0 == b;
                assert(memberships[k].0 == b);
            }
        }
        assert(crate::derive::present(rest, a));
        let p = choose|p: int| 0 <= p < rest.len() && (#[trigger] rest[p]).0 == a;
        assert(all[p].0 == a);
        assert(all[rest.len() as int].0 == b);
    } else {
        assert(front[i] == memberships[i]);
        assert(front[j] == memberships[j]);
        assert forall|k: int| 0 <= k < j implies (#[trigger] front[k]).0 != front[j].0 by {
            assert(memberships[k].0 != memberships[j].0);
        }
        lemma_kept_in_order(front, i, j);
        let (p, q) = choose|p: int, q: int|
            0 <= p < q < rest.len() && (#[trigger] rest[p]).0 == a && (#[trigger] rest[q]).0 == b;
        assert(all[p].0 == a && all[q].0 == b);
    }
}

/// What stands before stands before in what scope applies to.
proof fn lemma_scope_in_order(
    memberships: Seq<(SidModel, u32)>,
    primary: SidModel,
    named: bool,
    a: SidModel,
    b: SidModel,
)
    requires
        stands_before(memberships, a, b),
        named || (a != primary && b != primary),
    ensures
        exists|p: int, q: int|
            0 <= p < q < in_scope(memberships, primary, named).len() && (#[trigger] in_scope(
                memberships,
                primary,
                named,
            )[p]) == a && (#[trigger] in_scope(memberships, primary, named)[q]) == b,
    decreases memberships.len(),
{
    let front = memberships.drop_last();
    let (rest, all) = (in_scope(front, primary, named), in_scope(memberships, primary, named));
    let (p, q) = choose|p: int, q: int|
        0 <= p < q < memberships.len() && (#[trigger] memberships[p]).0 == a && (
        #[trigger] memberships[q]).0 == b;
    if q == memberships.len() - 1 {
        lemma_in_scope(front, primary, named, a);
        assert(front[p].0 == a);
        assert(crate::derive::present(front, a));
        assert(rest.contains(a));
        let x = choose|x: int| 0 <= x < rest.len() && rest[x] == a;
        assert(all[x] == a);
        assert(all[rest.len() as int] == b);
    } else {
        assert(front[p] == memberships[p]);
        assert(front[q] == memberships[q]);
        lemma_scope_in_order(front, primary, named, a, b);
        let (x, y) = choose|x: int, y: int|
            0 <= x < y < rest.len() && (#[trigger] rest[x]) == a && (#[trigger] rest[y]) == b;
        assert(all[x] == a && all[y] == b);
    }
}

/// Groups stand on a token in the order they were first claimed in, but for those that
/// are no source's to place: the principal, and what every logon carries.
pub proof fn law_groups_keep_the_order_of_their_claims(
    assertion: Assertion,
    logon_type: LogonType,
    i: int,
    j: int,
)
    requires
        0 <= i < j < assertion.groups@.len(),
        ({
            let (a, b) = (
                crate::sid::decoded(assertion.groups@[i].sid@),
                crate::sid::decoded(assertion.groups@[j].sid@),
            );
            let user = crate::sid::decoded(assertion.user_sid@);
            &&& forall|k: int|
                0 <= k < j ==> crate::sid::decoded((#[trigger] assertion.groups@[k]).sid@) != b
            &&& !(a.authority == 5 && a.subs.len() > 0 && a.subs[0] == 5)
            &&& !(b.authority == 5 && b.subs.len() > 0 && b.subs[0] == 5)
            &&& a != user && b != user
            &&& assertion.primary_group@.len() == 0 ==> a != WellKnown::AuthenticatedUsers.model()
                && b != WellKnown::AuthenticatedUsers.model()
        }),
    ensures
        stands_before(
            token_of(assertion, logon_type),
            crate::sid::decoded(assertion.groups@[i].sid@),
            crate::sid::decoded(assertion.groups@[j].sid@),
        ),
{
    let sent = read_memberships(assertion.groups@);
    let (a, b) = (
        crate::sid::decoded(assertion.groups@[i].sid@),
        crate::sid::decoded(assertion.groups@[j].sid@),
    );
    let user = crate::sid::decoded(assertion.user_sid@);
    let primary = primary_of(assertion);
    let named = assertion.primary_group@.len() > 0;
    let scope = scope_of(assertion);
    let token = token_of(assertion, logon_type);
    assert forall|k: int| 0 <= k < sent.len() implies (#[trigger] sent[k]).0
        == crate::sid::decoded(assertion.groups@[k].sid@) by {}
    lemma_kept_in_order(sent, i, j);
    let (p, q) = choose|p: int, q: int|
        0 <= p < q < kept(sent).len() && (#[trigger] kept(sent)[p]).0 == a && (
        #[trigger] kept(sent)[q]).0 == b;
    crate::derive::lemma_added(kept(sent), primary, 0);
    assert(memberships_of(assertion)[p].0 == a && memberships_of(assertion)[q].0 == b);
    lemma_scope_in_order(memberships_of(assertion), primary, named, a, b);
    let (x, y) = choose|x: int, y: int|
        0 <= x < y < scope.len() && (#[trigger] scope[x]) == a && (#[trigger] scope[y]) == b;
    assert(scope.contains(a) && scope.contains(b));
    crate::derive::law_what_a_token_carries(user, scope, logon_type, a);
    crate::derive::law_what_a_token_carries(user, scope, logon_type, b);
    let s = choose|s: int| 0 <= s < token.len() && (#[trigger] token[s]).0 == a;
    let t = choose|t: int| 0 <= t < token.len() && (#[trigger] token[t]).0 == b;
    lemma_scope_is_distinct(assertion);
    assert forall|k: int| 0 <= k <= x implies #[trigger] scope[k] != b by {
        if scope[k] == b {
            assert(k < y);
            assert(scope[k] != scope[y]);
        }
    }
    crate::derive::law_a_token_keeps_the_order(user, scope, logon_type, x, s, t);
}

/// Nothing is in scope twice.
proof fn lemma_scope_is_distinct(assertion: Assertion)
    ensures
        forall|p: int, q: int|
            0 <= p < q < scope_of(assertion).len() ==> scope_of(assertion)[p] != scope_of(
                assertion,
            )[q],
{
    let sent = read_memberships(assertion.groups@);
    lemma_kept_is_distinct(sent);
    crate::derive::lemma_added(kept(sent), primary_of(assertion), 0);
    lemma_in_scope_is_distinct(
        memberships_of(assertion),
        primary_of(assertion),
        assertion.primary_group@.len() > 0,
    );
}

proof fn lemma_kept_is_distinct(memberships: Seq<(SidModel, u32)>)
    ensures
        crate::derive::distinct(kept(memberships)),
    decreases memberships.len(),
{
    if memberships.len() > 0 {
        let front = memberships.drop_last();
        lemma_kept_is_distinct(front);
        crate::derive::lemma_added(kept(front), memberships.last().0, memberships.last().1);
    }
}

proof fn lemma_in_scope_is_distinct(
    memberships: Seq<(SidModel, u32)>,
    primary: SidModel,
    named: bool,
)
    requires
        crate::derive::distinct(memberships),
    ensures
        forall|p: int, q: int|
            0 <= p < q < in_scope(memberships, primary, named).len() ==> in_scope(
                memberships,
                primary,
                named,
            )[p] != in_scope(memberships, primary, named)[q],
    decreases memberships.len(),
{
    if memberships.len() > 0 {
        let front = memberships.drop_last();
        let (rest, all) = (in_scope(front, primary, named), in_scope(memberships, primary, named));
        assert(crate::derive::distinct(front)) by {
            assert forall|i: int, j: int| 0 <= i < j < front.len() implies (#[trigger] front[i]).0
                != (#[trigger] front[j]).0 by {
                assert(memberships[i].0 != memberships[j].0);
            }
        }
        lemma_in_scope_is_distinct(front, primary, named);
        let last = memberships.last().0;
        assert(!rest.contains(last)) by {
            lemma_in_scope(front, primary, named, last);
            if crate::derive::present(front, last) {
                let k = choose|k: int| 0 <= k < front.len() && (#[trigger] front[k]).0 == last;
                assert(memberships[k].0 != memberships[memberships.len() - 1].0);
            }
        }
        assert forall|p: int, q: int| 0 <= p < q < all.len() implies all[p] != all[q] by {
            if q < rest.len() {
                assert(rest[p] != rest[q]);
            } else {
                assert(rest.contains(rest[p]));
            }
        }
    }
}

/// What is wrong with an assertion is told in one order: the principal's SID, the kind
/// of logon, the principal's domain, the groups' SIDs, the primary group's, the groups'
/// domain, and the claims.
pub proof fn law_what_is_told_of_a_bad_assertion(
    source: FactsModel,
    logon_type: LogonType,
    assertion: Assertion,
)
    ensures
        ({
            let told = assertion_refused(source, logon_type, assertion);
            let no_sid = !crate::sid::is_sid(assertion.user_sid@);
            let not_so = !assertion.permitted_logon_types.allows(logon_type);
            let elsewhere = !domain::within(
                source.domain,
                crate::sid::decoded(assertion.user_sid@),
            );
            let bad_group = exists|i: int|
                0 <= i < assertion.groups@.len() && !crate::sid::is_sid(
                    (#[trigger] assertion.groups@[i]).sid@,
                );
            let bad_primary = assertion.primary_group@.len() > 0 && !crate::sid::is_sid(
                assertion.primary_group@,
            );
            &&& no_sid ==> told == Some(
                (Denial::Internal, "The authority returned an unusable identity."@),
            )
            &&& !no_sid && not_so ==> told == Some(
                (
                    Denial::AccountRestricted,
                    "That account may not be used for this kind of sign-on."@,
                ),
            )
            &&& !no_sid && !not_so && elsewhere ==> told == Some(
                (
                    Denial::Internal,
                    "The authority returned an identity it is not entitled to assert."@,
                ),
            )
            &&& !no_sid && !not_so && !elsewhere && bad_group ==> told == Some(
                (Denial::Internal, "The authority returned an unusable group membership."@),
            )
            &&& !no_sid && !not_so && !elsewhere && !bad_group && bad_primary ==> told == Some(
                (Denial::Internal, "The authority returned an unusable primary group."@),
            )
            &&& !no_sid && !not_so && !elsewhere && !bad_group && !bad_primary && told is Some
                ==> told == Some(
                (
                    Denial::Internal,
                    "The authority returned a membership it is not permitted to assert."@,
                ),
            ) || told == Some((Denial::Internal, "The authority returned an unusable claim."@))
        }),
{
}

/// What is left of what a source claims: every SID of it but the logon SIDs, each once,
/// counted as it first was, and in the order of first mention.
pub proof fn law_what_is_left_of_the_claims(
    memberships: Seq<(SidModel, u32)>,
    sid: SidModel,
    i: int,
    j: int,
)
    ensures
        crate::derive::present(kept(memberships), sid) <==> crate::derive::present(
            memberships,
            sid,
        ) && !(sid.authority == 5 && sid.subs.len() > 0 && sid.subs[0] == 5),
        crate::derive::distinct(kept(memberships)),
        !(sid.authority == 5 && sid.subs.len() > 0 && sid.subs[0] == 5) ==> unix_id::relative_of(
            kept(memberships),
            sid,
        ) == unix_id::relative_of(memberships, sid),
        0 <= i < j < memberships.len() && (forall|k: int|
            0 <= k < j ==> (#[trigger] memberships[k]).0 != memberships[j].0)
            && !crate::derive::logon_sid(memberships[i].0) && !crate::derive::logon_sid(
            memberships[j].0,
        ) ==> stands_before(kept(memberships), memberships[i].0, memberships[j].0),
{
    lemma_kept(memberships, sid);
    lemma_kept_is_distinct(memberships);
    if !crate::derive::logon_sid(sid) {
        lemma_kept_counts(memberships, sid);
    }
    if 0 <= i < j < memberships.len() && (forall|k: int|
        0 <= k < j ==> (#[trigger] memberships[k]).0 != memberships[j].0)
        && !crate::derive::logon_sid(memberships[i].0) && !crate::derive::logon_sid(
        memberships[j].0,
    ) {
        lemma_kept_in_order(memberships, i, j);
    }
}

/// Which memberships scope applies to.
pub open spec fn scope_applies(primary: SidModel, named: bool) -> spec_fn((SidModel, u32)) -> bool {
    |membership: (SidModel, u32)| named || membership.0 != primary
}

/// The SID of a membership.
pub open spec fn of_membership() -> spec_fn((SidModel, u32)) -> SidModel {
    |membership: (SidModel, u32)| membership.0
}

/// Scope applies to every membership, in their order, but for a primary group that the
/// source did not name.
pub proof fn law_what_scope_applies_to(
    memberships: Seq<(SidModel, u32)>,
    primary: SidModel,
    named: bool,
)
    ensures
        crate::select::picks(
            memberships,
            scope_applies(primary, named),
            of_membership(),
            in_scope(memberships, primary, named),
        ),
    decreases memberships.len(),
{
    let (wanted, made) = (scope_applies(primary, named), of_membership());
    if memberships.len() == 0 {
        crate::select::lemma_picks_nothing(memberships, wanted, made);
    } else {
        law_what_scope_applies_to(memberships.drop_last(), primary, named);
        crate::select::lemma_picks_last(
            memberships,
            wanted,
            made,
            in_scope(memberships.drop_last(), primary, named),
            in_scope(memberships, primary, named),
        );
    }
}

/// The membership a source may not assert is the first that differs from the principal
/// in more than its last number, and there is none where each differs in no more.
pub proof fn law_which_membership_is_foreign(user: SidModel, groups: Seq<SidModel>, at: int)
    ensures
        0 <= at < groups.len() && !domain::related(user, groups[at]) && (forall|j: int|
            0 <= j < at ==> domain::related(user, #[trigger] groups[j])) ==> foreign(user, groups)
            == Some(groups[at]),
        (forall|j: int| 0 <= j < groups.len() ==> domain::related(user, #[trigger] groups[j]))
            ==> foreign(user, groups) is None,
    decreases groups.len(),
{
    if groups.len() > 0 {
        let rest = groups.drop_first();
        law_which_membership_is_foreign(user, rest, at - 1);
        assert forall|j: int| 0 <= j < rest.len() implies #[trigger] rest[j] == groups[j + 1] by {}
        if 0 < at < groups.len() {
            assert(rest[at - 1] == groups[at]);
        }
    }
}

/// A path is kept exactly where its first character is a slash.
pub proof fn law_which_paths_are_kept(path: Seq<char>)
    ensures
        path.len() > 0 && path[0] == '/' ==> absolute(path) == path,
        path.len() == 0 || path[0] != '/' ==> absolute(path).len() == 0,
{
}

/// Who may originate a logon, and which: SYSTEM any; and anybody else what their record
/// lists, if it lists anything.
pub proof fn law_who_may_originate_what(
    peer: SidModel,
    types: Option<LogonTypes>,
    logon_type: LogonType,
)
    ensures
        originates(peer, types) <==> peer == (SidModel { authority: 5, subs: seq![18u32] }) || (
        types is Some && types->0.states()),
        requests(peer, types, logon_type) <==> peer == (SidModel {
            authority: 5,
            subs: seq![18u32],
        }) || (types is Some && types->0.holds(logon_type)),
{
}

/// A primary group that is not in the authority's table, and that its source has no
/// range for, or does not claim, or first claims with a count its range does not
/// express, has no number: the gid is 65534.
pub proof fn law_an_unnumbered_primary_group_is_nobodys(
    source: FactsModel,
    logon_type: LogonType,
    assertion: Assertion,
    result: Vetted,
    at: int,
)
    requires
        vetted(source, logon_type, assertion, result),
        assertion.primary_group@.len() > 0,
        forall|w: WellKnown|
            (#[trigger] w.model()) == crate::sid::decoded(assertion.primary_group@)
                ==> w.projected() is None,
        ({
            let primary = crate::sid::decoded(assertion.primary_group@);
            ||| source.unix_id_range is None
            ||| !claims_group(assertion, primary)
            ||| {
                &&& 0 <= at < assertion.groups@.len()
                &&& crate::sid::decoded(assertion.groups@[at].sid@) == primary
                &&& forall|j: int|
                    0 <= j < at ==> crate::sid::decoded((#[trigger] assertion.groups@[j]).sid@)
                        != primary
                &&& assertion.groups@[at].unix_id == 0 || assertion.groups@[at].unix_id
                    >= source.unix_id_range->0.count
            }
        }),
    ensures
        result.projection.gid == 65534,
{
    let primary = crate::sid::decoded(assertion.primary_group@);
    let sent = read_memberships(assertion.groups@);
    let all = memberships_of(assertion);
    let token = token_of(assertion, logon_type);
    let numbered = numbered_of(assertion, logon_type);
    let counted = unix_id::relative_of(all, primary);
    lemma_claims(assertion, primary);
    lemma_kept(sent, primary);
    lemma_relative_push(kept(sent), primary, 0, primary);
    if crate::derive::present(token, primary) {
        let p = choose|p: int| 0 <= p < token.len() && (#[trigger] token[p]).0 == primary;
        assert(numbered[p] == (primary, counted));
        lemma_all_alike(numbered, primary, counted);
    } else {
        assert forall|j: int| 0 <= j < numbered.len() implies (#[trigger] numbered[j]).0
            != primary by {
            assert(token[j].0 == numbered[j].0);
        }
        unix_id::law_no_mention_counts_nothing(numbered, primary);
    }
    if claims_group(assertion, primary) && source.unix_id_range is Some {
        if crate::derive::logon_sid(primary) {
            assert(!crate::derive::present(kept(sent), primary));
        } else {
            lemma_counted(assertion, at);
        }
    }
    let relative = unix_id::relative_of(numbered, primary);
    if let Some(number) = unix_id::numbering(source.unix_id_range, primary, relative) {
        unix_id::law_a_source_numbers_what_the_table_does_not(
            source.unix_id_range,
            primary,
            relative,
            number,
        );
    }
}

/// What a caller is told whose message opens nothing, who may not have the logon it
/// asks for, or whose logon nobody can be sent.
pub proof fn law_what_a_caller_is_told(
    peer: SidModel,
    types: Option<LogonTypes>,
    logon_type: LogonType,
)
    ensures
        opening_refused(Received::Failed(IoKind::TimedOut)) == Some(
            (Denial::ConversationLimit, "The logon did not begin in time."@),
        ),
        opening_refused(Received::Failed(IoKind::BrokenPipe)) == Some(
            (Denial::MalformedRequest, "Could not read the opening message."@),
        ),
        opening_refused(Received::UnsupportedVersion) == Some(
            (
                Denial::UnsupportedVersion,
                "This authority does not implement that protocol version."@,
            ),
        ),
        opening_refused(Received::MalformedHeader) == Some(
            (Denial::MalformedRequest, "Malformed message header."@),
        ),
        opening_refused(Received::Logon(None)) == Some(
            (Denial::MalformedRequest, "Malformed LogonStart."@),
        ),
        opening_refused(Received::Attest(None)) == Some(
            (Denial::MalformedRequest, "Malformed ServiceAttest."@),
        ),
        opening_refused(Received::Change(None)) == Some(
            (Denial::MalformedRequest, "Malformed CredentialChangeStart."@),
        ),
        opening_refused(Received::Unexpected) == Some(
            (
                Denial::MalformedRequest,
                "A connection must open with LogonStart or ServiceAttest."@,
            ),
        ),
        admission_refused(peer, types, logon_type) matches Some((denial, told)) ==> {
            &&& denial is PermissionDenied ==> told == "Caller may not originate logons."@
            &&& denial is LogonTypeNotPermitted ==> told
                == "Caller may not request that logon type."@
        },
        sent_to(RouteModel::Unavailable) == Err::<FactsModel, (Denial, Seq<char>)>(
            (Denial::AuthorityUnavailable, "The authority could not be reached."@),
        ),
        sent_to(RouteModel::NoSources) == Err::<FactsModel, (Denial, Seq<char>)>(
            (Denial::AuthorityUnavailable, "No authority is available for that principal."@),
        ),
{
}

} // verus!
