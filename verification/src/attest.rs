//! Service attestation: a token for a service, with no credential behind it.
//!
//! A service identity has no credential and must never acquire one. A machine
//! that could authenticate its own services would have to hold their secret, and
//! a store of service passwords is a thing to design out rather than to protect.
//!
//! What stands in for the credential is *attestation*. The service manager asks
//! for a token, the authority satisfies itself about **who is asking**, and
//! takes the service name on that peer's word because no other component is in a
//! position to know it: the process the request is about does not exist yet, so
//! there is no token to interrogate.
//!
//! # Two facts, from two places
//!
//! Both are required, and neither is sufficient:
//!
//! 1. **The peer is SYSTEM**, from its token.
//! 2. **The peer is PID 1**, from the connected socket.
//!
//! SYSTEM alone is every platform daemon on the box, so with only the first,
//! compromising any one of them would mint any service identity on the machine.
//!
//! # Evidence, and why these tokens are weaker
//!
//! An attested token is minted at [`Evidence::Attested`], so it starts one rung
//! below a credentialled logon on the impersonation ratchet: a token that could
//! be forwarded to another machine on the strength of the service manager's word
//! would let one box's PID 1 act as an arbitrary account across the network.

use crate::claim::TokenClaim;
use crate::conversation::deny;
use crate::derive::{Evidence, Minting, TokenPlan};
use crate::identity::{
    Fields, Key, KeyModel, Kind, Outcome, Protocol, RecordModel, Reference, ReferenceModel, Value,
    ValueModel, GROUPS, LOGON_TYPES,
};
use crate::logon::{Denial, LogonType, LogonTypes, Profile, ServiceAttest};
use crate::peer;
use crate::policy::principal::{self, Configured};
use crate::psi::Refusal;
use crate::registry::Registry;
use crate::resolve::{self, Answer, AnswerModel, Step};
use crate::service_sid;
use crate::sid::{Sid, SidModel};
use crate::text;
use crate::unix_id::{self, Projection};
use crate::well_known::WellKnown;
use vstd::prelude::*;

verus! {

/// Whether a peer may attest a service identity.
pub open spec fn attests(peer: SidModel, peer_is_init: bool) -> bool {
    peer == WellKnown::System.model() && peer_is_init
}

/// Whether a peer may attest a service identity: obtain a token with no
/// credential behind it.
pub fn may_attest(peer: &Sid, peer_is_init: bool) -> (yes: bool)
    ensures
        yes <==> attests(peer@, peer_is_init),
{
    peer::is_system(peer) && peer_is_init
}

/// The identities the authority mints without consulting any source.
///
/// They have no domain SID and no record anywhere, and nothing for a principal
/// source to hold. Spelled as the service manager spells them in a service
/// definition, matched without regard to case.
pub open spec fn own_identity(identity: Seq<char>) -> Option<WellKnown> {
    if text::same_word("SYSTEM"@, identity) {
        Some(WellKnown::System)
    } else if text::same_word("LocalService"@, identity) {
        Some(WellKnown::LocalService)
    } else if text::same_word("NetworkService"@, identity) {
        Some(WellKnown::NetworkService)
    } else {
        None
    }
}

/// Resolve one of the authority's own service identities.
pub fn well_known_identity(identity: &str) -> (user: Option<Sid>)
    ensures
        user is Some <==> own_identity(identity@) is Some,
        user matches Some(sid) ==> sid@ == own_identity(identity@)->0.model(),
{
    if text::eq_ignoring_case("SYSTEM", identity) {
        Some(WellKnown::System.sid())
    } else if text::eq_ignoring_case("LocalService", identity) {
        Some(WellKnown::LocalService.sid())
    } else if text::eq_ignoring_case("NetworkService", identity) {
        Some(WellKnown::NetworkService.sid())
    } else {
        None
    }
}

/// What an attestation comes to before anybody is looked up.
#[derive(Debug, PartialEq, Eq)]
pub enum Attestation {
    /// The caller is denied.
    Refuse(Refusal),
    /// A token is minted for one of the authority's own identities, which are
    /// designated by construction.
    Mint {
        user: Sid,
        memberships: Vec<Sid>,
        service: Sid,
    },
    /// The identity is a principal somebody holds, so its record is consulted.
    Resolve { service: Sid },
}

/// What an attestation is refused with before anybody is looked up, if it is.
///
/// The service name becomes a SID that goes on the token, so it is validated
/// before anything else uses it. An empty name would derive a perfectly
/// well-formed SID naming nothing, shared by every service that made the same
/// mistake.
pub open spec fn attestation_refused(
    peer: SidModel,
    peer_is_init: bool,
    service: Seq<char>,
) -> Option<(Denial, Seq<char>)> {
    if !attests(peer, peer_is_init) {
        Some((Denial::PermissionDenied, "Caller may not attest service identities."@))
    } else if text::trimmed(service).len() == 0 {
        Some((Denial::MalformedRequest, "A service attestation must name a service."@))
    } else if service_sid::digested(service).len() >= service_sid::DIGEST_LIMIT {
        Some((Denial::MalformedRequest, "That service name does not derive a usable identity."@))
    } else {
        None
    }
}

/// Temporary: `BUILTIN\Administrators`, on the token of every service that runs
/// as one of the authority's own identities, so that it can reach a filesystem
/// whose root grants nobody else anything.
///
/// Privileges union across every SID on a token, so this does not grant
/// filesystem access alone, it grants the whole of what local policy gives
/// administrators. Scaffolding, to be deleted once the filesystem's descriptors
/// can name services.
fn temporary_administrator_membership() -> (memberships: Vec<Sid>)
    ensures
        crate::sid::owned_models(memberships@) == seq![WellKnown::Administrators.model()],
{
    let mut memberships: Vec<Sid> = Vec::new();
    memberships.push(WellKnown::Administrators.sid());
    assert(crate::sid::owned_models(memberships@) =~= seq![WellKnown::Administrators.model()]);
    memberships
}

/// Begin serving an attestation, the peer's identity having been established.
pub fn begin(peer: &Sid, peer_is_init: bool, attest: &ServiceAttest) -> (attestation: Attestation)
    ensures
        attestation is Refuse <==> attestation_refused(
            peer@,
            peer_is_init,
            attest.service@,
        ) is Some,
        match attestation {
            Attestation::Refuse(refusal) => Some(refusal@) == attestation_refused(
                peer@,
                peer_is_init,
                attest.service@,
            ),
            Attestation::Mint { user, memberships, service } => {
                &&& own_identity(attest.identity@) matches Some(own)
                &&& user@ == own.model()
                &&& crate::sid::owned_models(memberships@) == seq![
                    WellKnown::Administrators.model(),
                ]
                &&& service@ == service_sid::service_sid(attest.service@)
            },
            Attestation::Resolve { service } => {
                &&& own_identity(attest.identity@) is None
                &&& service@ == service_sid::service_sid(attest.service@)
            },
        },
{
    if !may_attest(peer, peer_is_init) {
        return Attestation::Refuse(
            deny(Denial::PermissionDenied, "Caller may not attest service identities."),
        );
    }
    if text::trim(attest.service.as_str()).is_empty() {
        return Attestation::Refuse(
            deny(Denial::MalformedRequest, "A service attestation must name a service."),
        );
    }
    let service = match service_sid::of(attest.service.as_str()) {
        Some(service) => service,
        None => {
            return Attestation::Refuse(
                deny(
                    Denial::MalformedRequest,
                    "That service name does not derive a usable identity.",
                ),
            );
        },
    };
    match well_known_identity(attest.identity.as_str()) {
        Some(user) => Attestation::Mint {
            user,
            memberships: temporary_administrator_membership(),
            service,
        },
        None => Attestation::Resolve { service },
    }
}

/// Begin looking up a principal that is to be used for a service logon.
pub fn resolve_service_principal(registry: &Registry, identity: &str, protocol: Protocol) -> (step:
    Step)
    ensures
        step@ == resolve::begins(
            registry@,
            KeyModel::Name(identity@),
            Kind::Principal,
            resolve::meant(Fields { bits: LOGON_TYPES | GROUPS }, protocol),
            protocol,
        ),
{
    let name = identity.to_owned();
    let key = Key::Name(name);
    resolve::lookup(
        registry,
        &key,
        Kind::Principal,
        Fields { bits: LOGON_TYPES | GROUPS },
        protocol,
    )
}

/// The logon types a record states, if it states any.
pub open spec fn stated_types(values: Seq<ValueModel>) -> Option<LogonTypes>
    decreases values.len(),
{
    if values.len() == 0 {
        None
    } else {
        match values[0] {
            ValueModel::LogonTypes(types) => Some(types),
            _ => stated_types(values.drop_first()),
        }
    }
}

/// The groups a record states, if it states any.
pub open spec fn stated_groups(values: Seq<ValueModel>) -> Option<Seq<ReferenceModel>>
    decreases values.len(),
{
    if values.len() == 0 {
        None
    } else {
        match values[0] {
            ValueModel::Groups(refs) => Some(refs),
            _ => stated_groups(values.drop_first()),
        }
    }
}

/// The SIDs among some references.
pub open spec fn readable(refs: Seq<ReferenceModel>) -> Seq<SidModel>
    decreases refs.len(),
{
    if refs.len() == 0 {
        Seq::empty()
    } else {
        let rest = readable(refs.drop_last());
        if crate::sid::is_sid(refs.last().sid) {
            rest.push(crate::sid::decoded(refs.last().sid))
        } else {
            rest
        }
    }
}

/// Whether a record permits a service logon. One that does not say does not.
pub open spec fn permits_service(record: RecordModel) -> bool {
    stated_types(record.values) matches Some(types) && types.allows(LogonType::Service)
}

/// The principal an answer designates for a service logon, with its groups.
pub open spec fn designation(answer: AnswerModel) -> Option<(SidModel, Seq<SidModel>)> {
    match answer.record {
        Some(record) => if answer.outcome is Found && permits_service(record) && crate::sid::is_sid(
            record.sid,
        ) {
            Some(
                (
                    crate::sid::decoded(record.sid),
                    match stated_groups(record.values) {
                        Some(refs) => readable(refs),
                        None => Seq::empty(),
                    },
                ),
            )
        } else {
            None
        },
        None => None,
    }
}

/// A principal the authority is willing to attest.
#[derive(Debug, PartialEq, Eq)]
pub struct Resolved {
    pub user: Sid,
    pub groups: Vec<Sid>,
}

/// Find the logon types a record states.
fn find_types(values: &Vec<Value>) -> (types: Option<LogonTypes>)
    ensures
        types == stated_types(crate::identity::value_models(values@)),
{
    let ghost all = crate::identity::value_models(values@);
    let mut i: usize = 0;
    assert(all.skip(0) =~= all);
    while i < values.len()
        invariant
            i <= values@.len(),
            all == crate::identity::value_models(values@),
            stated_types(all) == stated_types(all.skip(i as int)),
        decreases values@.len() - i,
    {
        assert(all.skip(i as int)[0] == values@[i as int]@);
        assert(all.skip(i as int).drop_first() =~= all.skip(i + 1));
        if let Value::LogonTypes(types) = &values[i] {
            return Some(*types);
        }
        i += 1;
    }
    None
}

/// The SIDs among some references, as they are.
fn read(refs: &Vec<Reference>) -> (sids: Vec<Sid>)
    ensures
        crate::sid::owned_models(sids@) == readable(crate::identity::references(refs@)),
{
    let ghost all = crate::identity::references(refs@);
    let mut sids: Vec<Sid> = Vec::new();
    let mut i: usize = 0;
    assert(all.take(0) =~= Seq::empty());
    assert(crate::sid::owned_models(sids@) =~= Seq::empty());
    while i < refs.len()
        invariant
            i <= refs@.len(),
            all == crate::identity::references(refs@),
            crate::sid::owned_models(sids@) == readable(all.take(i as int)),
        decreases refs@.len() - i,
    {
        assert(all.take(i + 1).drop_last() =~= all.take(i as int));
        assert(all.take(i + 1).last() == refs@[i as int]@);
        let ghost before = sids@;
        if let Some(sid) = Sid::from_bytes(refs[i].sid.as_slice()) {
            let ghost it = sid@;
            sids.push(sid);
            assert(crate::sid::owned_models(sids@) =~= crate::sid::owned_models(before).push(it));
        }
        i += 1;
    }
    assert(all.take(i as int) =~= all);
    sids
}

/// Find the groups a record states.
fn find_groups(values: &Vec<Value>) -> (groups: Vec<Sid>)
    ensures
        crate::sid::owned_models(groups@) == (match stated_groups(
            crate::identity::value_models(values@),
        ) {
            Some(refs) => readable(refs),
            None => Seq::empty(),
        }),
{
    let ghost all = crate::identity::value_models(values@);
    let mut i: usize = 0;
    assert(all.skip(0) =~= all);
    while i < values.len()
        invariant
            i <= values@.len(),
            all == crate::identity::value_models(values@),
            stated_groups(all) == stated_groups(all.skip(i as int)),
        decreases values@.len() - i,
    {
        assert(all.skip(i as int)[0] == values@[i as int]@);
        assert(all.skip(i as int).drop_first() =~= all.skip(i + 1));
        if let Value::Groups(refs) = &values[i] {
            return read(refs);
        }
        i += 1;
    }
    let none: Vec<Sid> = Vec::new();
    assert(crate::sid::owned_models(none@) =~= Seq::empty());
    none
}

/// Decide whether a looked-up principal may be used for a service logon.
///
/// A record that does not answer the field is not a record that permits a
/// service logon: silence means what it means on the logon path, everything a
/// person could use and never `Service`.
///
/// Nothing distinguishes one refusal from another. "No such principal" and "not
/// designated for service logon" are one answer: the difference would say which
/// accounts exist.
pub fn designated(answer: &Answer) -> (resolved: Option<Resolved>)
    ensures
        resolved is Some <==> designation(answer@) is Some,
        resolved matches Some(found) ==> designation(answer@) == Some(
            (found.user@, crate::sid::owned_models(found.groups@)),
        ),
{
    match answer.outcome {
        Outcome::Found => {},
        _ => return None,
    }
    let record = match &answer.record {
        Some(record) => record,
        None => return None,
    };
    let permitted = match find_types(&record.values) {
        Some(types) => types,
        None => LogonTypes::unstated(),
    };
    if !permitted.permits(LogonType::Service) {
        return None;
    }
    match Sid::from_bytes(record.sid.as_slice()) {
        Some(user) => Some(Resolved { user, groups: find_groups(&record.values) }),
        None => None,
    }
}

/// What the service manager is answered with when an identity may not be used.
pub fn refused() -> (refusal: Refusal)
    ensures
        refusal@ == (
            Denial::AccountRestricted,
            "That identity may not be used for a service logon."@,
        ),
{
    deny(Denial::AccountRestricted, "That identity may not be used for a service logon.")
}

/// The numbers of those among some groups that have one.
pub open spec fn numbers(groups: Seq<(SidModel, u32)>) -> Seq<u32>
    decreases groups.len(),
{
    if groups.len() == 0 {
        Seq::empty()
    } else {
        let rest = numbers(groups.drop_last());
        match crate::well_known::number_of(groups.last().0) {
            Some(number) => rest.push(number),
            None => rest,
        }
    }
}

/// The SIDs a service's token carries.
///
/// The service SID stands alongside what a source would have claimed. It is what
/// keeps two services running as the same identity distinguishable in an ACL.
pub open spec fn service_groups(
    user: SidModel,
    memberships: Seq<SidModel>,
    service: SidModel,
) -> Seq<(SidModel, u32)> {
    crate::derive::carried(user, seq![service] + memberships, LogonType::Service)
}

/// What a service's token is made from.
///
/// These principals are numbered by the authority's own table rather than by a
/// source, so there is no range to rebase through. A SID with no number projects
/// to `nobody`.
pub open spec fn minting_for(
    user: SidModel,
    memberships: Seq<SidModel>,
    service: SidModel,
    configured: Configured,
) -> crate::derive::MintingModel {
    let groups = service_groups(user, memberships, service);
    let number = unix_id::or_unmapped(crate::well_known::number_of(user));
    crate::derive::MintingModel {
        user,
        groups,
        primary_group: user,
        uid: number,
        gid: number,
        supplementary: numbers(groups),
        claims: Seq::empty(),
        logon_type: LogonType::Service,
        auth_package: "attested"@,
        policy: principal::decided(configured, user, crate::derive::sids(groups)),
        evidence: Evidence::Attested,
    }
}

/// The number the authority's own table gives a SID, or `nobody`'s.
fn number_or_unmapped(sid: &Sid) -> (number: u32)
    ensures
        number == unix_id::or_unmapped(crate::well_known::number_of(sid@)),
{
    match unix_id::built_in(sid) {
        Some(number) => number,
        None => unix_id::UNMAPPED,
    }
}

/// The numbers of those among some groups that have one.
fn numbered(groups: &Vec<(Sid, u32)>) -> (found: Vec<u32>)
    ensures
        found@ == numbers(crate::derive::models(groups@)),
{
    let ghost all = crate::derive::models(groups@);
    let mut found: Vec<u32> = Vec::new();
    let mut i: usize = 0;
    assert(all.take(0) =~= Seq::empty());
    while i < groups.len()
        invariant
            i <= groups@.len(),
            all == crate::derive::models(groups@),
            found@ == numbers(all.take(i as int)),
        decreases groups@.len() - i,
    {
        assert(all.take(i + 1).drop_last() =~= all.take(i as int));
        assert(all.take(i + 1).last() == (groups@[i as int].0@, groups@[i as int].1));
        if let Some(number) = unix_id::built_in(&groups[i].0) {
            found.push(number);
        }
        i += 1;
    }
    assert(all.take(i as int) =~= all);
    found
}

/// The token a service gets, under the policy in force.
///
/// Local policy is evaluated against the SIDs the token actually ends up
/// carrying, exactly as for a credentialled logon: privileges and integrity for
/// an identity are a statement about how much this machine trusts it, and a
/// second component deciding that in parallel is a disagreement waiting to
/// happen. What vouched for the logon is recorded, so that no audit record reads
/// as though a source verified something.
pub fn mint(user: &Sid, memberships: &Vec<Sid>, service: &Sid, configured: &Configured) -> (plan:
    TokenPlan)
    ensures
        crate::derive::planned(
            minting_for(
                user@,
                crate::sid::owned_models(memberships@),
                service@,
                *configured,
            ),
            plan,
        ),
{
    let mut asserted: Vec<&Sid> = Vec::new();
    asserted.push(service);
    let mut i: usize = 0;
    while i < memberships.len()
        invariant
            i <= memberships@.len(),
            asserted@.len() == i + 1,
            asserted@[0]@ == service@,
            forall|j: int| 0 <= j < i ==> (#[trigger] asserted@[j + 1])@ == memberships@[j]@,
        decreases memberships@.len() - i,
    {
        asserted.push(&memberships[i]);
        i += 1;
    }
    assert(crate::sid::models(asserted@) =~= seq![service@] + crate::sid::owned_models(
        memberships@,
    )) by {
        assert forall|j: int| 0 <= j < asserted@.len() implies (#[trigger] asserted@[j])@ == (seq![
            service@,
        ] + crate::sid::owned_models(memberships@))[j] by {
            if j > 0 {
                assert(asserted@[(j - 1) + 1]@ == memberships@[j - 1]@);
            }
        }
    }
    let groups = crate::derive::token_groups(user, asserted.as_slice(), LogonType::Service);
    let token_sids = crate::derive::borrowed_sids(groups.as_slice());
    let outcome = principal::evaluate(configured, user, token_sids.as_slice());
    let projection = Projection {
        uid: number_or_unmapped(user),
        gid: number_or_unmapped(user),
        supplementary: numbered(&groups),
    };
    let claims: Vec<TokenClaim> = Vec::new();
    assert(crate::derive::claim_models(claims@) =~= Seq::empty());
    crate::derive::mint(
        Minting {
            user,
            groups: groups.as_slice(),
            primary_group: user,
            projection: &projection,
            claims: claims.as_slice(),
            logon_type: LogonType::Service,
            auth_package: "attested",
            policy: outcome,
            evidence: Evidence::Attested,
        },
    )
}

/// What a service's session starts with. A service has no profile.
pub fn profile() -> (profile: Profile)
    ensures
        profile.home@.len() == 0,
        profile.shell@.len() == 0,
{
    Profile { home: String::new(), shell: String::new() }
}

/// Nobody is attested on silence: a principal the authority is willing to attest
/// has a record that names the service logon among what it permits.
pub proof fn law_only_the_designated_are_attested(answer: AnswerModel)
    requires
        designation(answer) is Some,
    ensures
        answer.outcome is Found,
        answer.record matches Some(record) && stated_types(record.values) matches Some(types)
            && types.holds(LogonType::Service),
{
}

/// Every service's token carries the service's own SID, so two services running
/// as one identity can be told apart.
pub proof fn law_a_service_is_named_on_its_token(
    user: SidModel,
    memberships: Seq<SidModel>,
    name: Seq<char>,
)
    ensures
        crate::derive::present(
            service_groups(user, memberships, service_sid::service_sid(name)),
            service_sid::service_sid(name),
        ),
{
    let service = service_sid::service_sid(name);
    let asserted = seq![service] + memberships;
    assert(asserted[0] == service);
    service_sid::law_the_shape_is_a_service_sid(name);
    crate::derive::law_what_a_token_carries(user, asserted, LogonType::Service, service);
}

/// Who may attest: process 1, as eighteen after authority 5, and nobody else.
pub proof fn law_who_may_attest(peer: SidModel, peer_is_init: bool)
    ensures
        attests(peer, peer_is_init) <==> peer_is_init && peer == (SidModel {
            authority: 5,
            subs: seq![18u32],
        }),
{
}

/// Whom the authority answers for itself: these three names, however they are
/// capitalised, and no other.
pub proof fn law_which_identities_are_the_authoritys_own(identity: Seq<char>)
    ensures
        own_identity(identity) == Some(WellKnown::System) <==> text::same_word(
            "SYSTEM"@,
            identity,
        ),
        own_identity(identity) == Some(WellKnown::LocalService) <==> text::same_word(
            "LocalService"@,
            identity,
        ),
        own_identity(identity) == Some(WellKnown::NetworkService) <==> text::same_word(
            "NetworkService"@,
            identity,
        ),
        own_identity(identity) matches Some(own) ==> own is System || own is LocalService
            || own is NetworkService,
{
    reveal_strlit("SYSTEM");
    reveal_strlit("LocalService");
    reveal_strlit("NetworkService");
    assert("SYSTEM"@.len() == 6 && "LocalService"@.len() == 12 && "NetworkService"@.len() == 14);
}

/// Why an attestation is refused: the caller may not attest; or the name is blank, or
/// is too long to have a digest, which is malformed. There is no other reason.
pub proof fn law_why_an_attestation_is_refused(
    peer: SidModel,
    peer_is_init: bool,
    service: Seq<char>,
)
    ensures
        ({
            let refused = attestation_refused(peer, peer_is_init, service);
            let may = peer_is_init && peer == (SidModel { authority: 5, subs: seq![18u32] });
            let blank = text::trimmed(service).len() == 0;
            let long = service_sid::digested(service).len() >= 0x2000_0000_0000_0000;
            &&& refused is None <==> may && !blank && !long
            &&& !may ==> (refused matches Some((d, _)) && d is PermissionDenied)
            &&& may && (blank || long) ==> (refused matches Some((d, _)) && d is MalformedRequest)
        }),
{
}

/// What a record states of the kinds of logon, and of groups, is the first thing it
/// states of each; where it states nothing of one there is nothing.
pub proof fn law_the_first_statement_counts(values: Seq<ValueModel>, at: int)
    ensures
        0 <= at < values.len() && (forall|j: int|
            0 <= j < at ==> !((#[trigger] values[j]) is LogonTypes)) ==> (
        values[at] matches ValueModel::LogonTypes(types) ==> stated_types(values) == Some(types)),
        0 <= at < values.len() && (forall|j: int|
            0 <= j < at ==> !((#[trigger] values[j]) is Groups)) ==> (
        values[at] matches ValueModel::Groups(refs) ==> stated_groups(values) == Some(refs)),
        (forall|j: int| 0 <= j < values.len() ==> !((#[trigger] values[j]) is LogonTypes))
            ==> stated_types(values) is None,
        (forall|j: int| 0 <= j < values.len() ==> !((#[trigger] values[j]) is Groups))
            ==> stated_groups(values) is None,
    decreases values.len(),
{
    if values.len() > 0 {
        let rest = values.drop_first();
        law_the_first_statement_counts(rest, at - 1);
        assert forall|j: int| 0 <= j < rest.len() implies #[trigger] rest[j] == values[j + 1] by {}
        if 0 < at < values.len() {
            assert(rest[at - 1] == values[at]);
        }
    }
}

/// Which references are SIDs.
pub open spec fn is_readable() -> spec_fn(ReferenceModel) -> bool {
    |reference: ReferenceModel| crate::sid::is_sid(reference.sid)
}

/// The SID a reference is.
pub open spec fn as_read() -> spec_fn(ReferenceModel) -> SidModel {
    |reference: ReferenceModel| crate::sid::decoded(reference.sid)
}

/// Every reference that is a SID is read, in the record's order, and no other.
pub proof fn law_every_readable_group_is_read(refs: Seq<ReferenceModel>)
    ensures
        crate::select::picks(refs, is_readable(), as_read(), readable(refs)),
    decreases refs.len(),
{
    if refs.len() == 0 {
        crate::select::lemma_picks_nothing(refs, is_readable(), as_read());
    } else {
        law_every_readable_group_is_read(refs.drop_last());
        crate::select::lemma_picks_last(
            refs,
            is_readable(),
            as_read(),
            readable(refs.drop_last()),
            readable(refs),
        );
    }
}

/// Who is designated for a service: exactly who is found under a SID, with a record
/// that states kinds of logon and that service is one of them; as that SID, and with
/// every group of the record that is a SID, or none where it states no groups.
pub proof fn law_who_is_designated(answer: AnswerModel)
    ensures
        designation(answer) is Some <==> {
            &&& answer.outcome is Found
            &&& answer.record matches Some(record)
            &&& crate::sid::is_sid(record.sid)
            &&& stated_types(record.values) matches Some(types)
            &&& types.holds(LogonType::Service)
        },
        designation(answer) matches Some((user, groups)) ==> {
            &&& user == crate::sid::decoded(answer.record->0.sid)
            &&& stated_groups(answer.record->0.values) is None ==> groups.len() == 0
            &&& stated_groups(answer.record->0.values) matches Some(refs) ==> crate::select::picks(
                refs,
                is_readable(),
                as_read(),
                groups,
            )
        },
{
    if let Some(record) = answer.record {
        if let Some(types) = stated_types(record.values) {
            if types.holds(LogonType::Service) {
                assert(types.states());
            }
        }
        if let Some(refs) = stated_groups(record.values) {
            law_every_readable_group_is_read(refs);
        }
    }
}

/// Which groups the authority numbers itself.
pub open spec fn has_own_number() -> spec_fn((SidModel, u32)) -> bool {
    |group: (SidModel, u32)|
        exists|w: WellKnown| #[trigger] w.model() == group.0 && w.projected() is Some
}

/// The number the authority gives a group itself.
pub open spec fn own_number() -> spec_fn((SidModel, u32)) -> u32 {
    |group: (SidModel, u32)| crate::well_known::number_of(group.0)->0
}

/// Every group of a service's token that the authority numbers itself is projected, in
/// the token's order, and no other.
pub proof fn law_every_group_of_a_service_is_numbered_by_the_table(groups: Seq<(SidModel, u32)>)
    ensures
        crate::select::picks(groups, has_own_number(), own_number(), numbers(groups)),
    decreases groups.len(),
{
    if groups.len() == 0 {
        crate::select::lemma_picks_nothing(groups, has_own_number(), own_number());
    } else {
        law_every_group_of_a_service_is_numbered_by_the_table(groups.drop_last());
        let sid = groups.last().0;
        assert forall|w: WellKnown| #[trigger] w.model() == sid implies crate::well_known::number_of(
            sid,
        ) == w.projected() by {
            crate::well_known::law_every_name_round_trips(w);
        }
        if let Some(number) = crate::well_known::number_of(sid) {
            let w = crate::well_known::identified(sid)->0;
            assert(w.model() == sid) by {
                assert(exists|v: WellKnown| #[trigger] v.model() == sid);
            }
        }
        crate::select::lemma_picks_last(
            groups,
            has_own_number(),
            own_number(),
            numbers(groups.drop_last()),
            numbers(groups),
        );
    }
}

/// What a service's token is made from. It is for the identity it runs as, which is
/// its primary group too; it carries that, the service, what the identity is a member
/// of, and what every service carries, and no logon SID; it is numbered by the
/// authority's own table, 65534 standing for nobody; it has no claims; it was attested;
/// and it has what local policy decides for the whole of what it carries.
pub proof fn law_what_a_service_is_minted_from(
    user: SidModel,
    memberships: Seq<SidModel>,
    service: SidModel,
    configured: Configured,
    sid: SidModel,
)
    ensures
        ({
            let minting = minting_for(user, memberships, service, configured);
            &&& minting.user == user
            &&& minting.primary_group == user
            &&& crate::derive::present(minting.groups, sid) <==> {
                ||| sid == user
                ||| !(sid.authority == 5 && sid.subs.len() > 0 && sid.subs[0] == 5) && (sid
                    == service || memberships.contains(sid))
                ||| crate::derive::derived(sid, LogonType::Service)
            }
            &&& forall|w: WellKnown|
                #[trigger] w.model() == user && w.projected() is Some ==> minting.uid
                    == w.projected()->0
            &&& (forall|w: WellKnown| #[trigger] w.model() == user ==> w.projected() is None)
                ==> minting.uid == 65534
            &&& minting.gid == minting.uid
            &&& crate::select::picks(
                minting.groups,
                has_own_number(),
                own_number(),
                minting.supplementary,
            )
            &&& minting.claims.len() == 0
            &&& minting.logon_type is Service
            &&& minting.auth_package == "attested"@
            &&& minting.evidence is Attested
            &&& minting.policy == principal::decided(
                configured,
                user,
                minting.groups.map_values(|group: (SidModel, u32)| group.0),
            )
        }),
{
    let minting = minting_for(user, memberships, service, configured);
    let asserted = seq![service] + memberships;
    crate::derive::law_what_a_token_carries(user, asserted, LogonType::Service, sid);
    law_every_group_of_a_service_is_numbered_by_the_table(minting.groups);
    assert(asserted.contains(sid) <==> sid == service || memberships.contains(sid)) by {
        assert(asserted[0] == service);
        if memberships.contains(sid) {
            let k = choose|k: int| 0 <= k < memberships.len() && memberships[k] == sid;
            assert(asserted[k + 1] == sid);
        }
        if asserted.contains(sid) && sid != service {
            let k = choose|k: int| 0 <= k < asserted.len() && asserted[k] == sid;
            assert(memberships[k - 1] == sid);
        }
    }
    assert forall|w: WellKnown| #[trigger] w.model() == user implies crate::well_known::number_of(
        user,
    ) == w.projected() by {
        crate::well_known::law_every_name_round_trips(w);
    }
    if crate::well_known::number_of(user) is Some {
        let w = crate::well_known::identified(user)->0;
        assert(w.model() == user) by {
            assert(exists|v: WellKnown| #[trigger] v.model() == user);
        }
    }
    assert(minting.groups.map_values(|group: (SidModel, u32)| group.0) =~= crate::derive::sids(
        minting.groups,
    ));
}

/// What the service manager is told where an attestation is refused: first of the
/// caller, then of a blank name, then of a long one.
pub proof fn law_what_is_told_of_a_refused_attestation(
    peer: SidModel,
    peer_is_init: bool,
    service: Seq<char>,
)
    ensures
        ({
            let refused = attestation_refused(peer, peer_is_init, service);
            let may = peer_is_init && peer == (SidModel { authority: 5, subs: seq![18u32] });
            let blank = text::trimmed(service).len() == 0;
            &&& !may ==> refused == Some(
                (Denial::PermissionDenied, "Caller may not attest service identities."@),
            )
            &&& may && blank ==> refused == Some(
                (Denial::MalformedRequest, "A service attestation must name a service."@),
            )
            &&& may && !blank && refused is Some ==> refused == Some(
                (
                    Denial::MalformedRequest,
                    "That service name does not derive a usable identity."@,
                ),
            )
        }),
{
}

} // verus!
