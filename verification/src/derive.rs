//! Turning "this principal authenticated, this way, from here" into a token.
//!
//! This is the part the kernel cannot do. It validates a token's *structure* and
//! then trusts it: it does not decide integrity levels, it does not choose
//! privilege sets, and it does not add the `S-1-5-4` / `S-1-5-2` / `S-1-5-6`
//! group SIDs that ACLs across the whole system are written against. Those come
//! from here.
//!
//! # Assert versus derive
//!
//! A principal source says *who* someone is: the user SID, the memberships, the
//! POSIX numbers, the primary group, the claims. Everything else on the token is
//! derived here, from the logon type and from local policy.
//!
//! The line is not where it first appears. `Everyone`, `Authenticated Users`,
//! `Local` and the logon-type SID are all added below and none of them come from
//! a source, because they are properties of *how* this logon happened rather
//! than of who the principal is. Group *attributes* are on the same side of the
//! line: whether a membership is enabled, owner-marked or deny-only is a
//! decision about building a token.

use crate::claim::{TokenClaim, TokenClaimModel};
use crate::logon::LogonType;
use crate::policy::principal::{Acl, IntegrityLevel, Outcome, OutcomeModel, Privileges};
use crate::sid::{Sid, SidModel};
use crate::unix_id::Projection;
use crate::well_known::WellKnown;
use vstd::prelude::*;

pub use crate::claim::kacs_claims;

verus! {

/// The source name stamped into every token this authority mints, so provenance
/// is answerable from the token alone. Eight bytes at most.
///
/// Distinct from the session's auth-package name, which is the *principal
/// source* that authenticated the logon: the token records who minted it, the
/// session records who vouched for it.
pub const SOURCE_NAME: &'static str = "authd";

/// The membership cannot be switched off.
pub const MANDATORY: u32 = 1;

/// The membership starts switched on.
pub const ENABLED_BY_DEFAULT: u32 = 2;

/// The membership is switched on.
pub const ENABLED: u32 = 4;

/// The SID may own objects the token creates.
pub const OWNER: u32 = 8;

/// What every membership carries.
pub const MEMBER: u32 = 7;

/// What the principal's own SID carries.
pub const PRINCIPAL: u32 = 15;

/// The kernel's logon types.
///
/// Deliberately separate from [`LogonType`]. The logon protocol outlives any one
/// kernel; this is this kernel. That they currently agree value for value is a
/// convenience, not a contract.
#[derive(Debug, Clone, Copy, PartialEq, Eq, Structural)]
pub enum KacsLogonType {
    Interactive,
    Network,
    Batch,
    Service,
    NetworkCleartext,
    NewCredentials,
}

/// How far a token may be carried.
#[derive(Debug, Clone, Copy, PartialEq, Eq, Structural)]
pub enum ImpersonationLevel {
    Anonymous,
    Identification,
    Impersonation,
    Delegation,
}

/// The kernel's name for a logon type.
pub open spec fn session_type(logon_type: LogonType) -> KacsLogonType {
    match logon_type {
        LogonType::Interactive => KacsLogonType::Interactive,
        LogonType::Network => KacsLogonType::Network,
        LogonType::Batch => KacsLogonType::Batch,
        LogonType::Service => KacsLogonType::Service,
        LogonType::NetworkCleartext => KacsLogonType::NetworkCleartext,
        LogonType::NewCredentials => KacsLogonType::NewCredentials,
    }
}

/// Map a logon type onto the kernel's.
pub fn kacs_logon_type(logon_type: LogonType) -> (kernel: KacsLogonType)
    ensures
        kernel == session_type(logon_type),
{
    match logon_type {
        LogonType::Interactive => KacsLogonType::Interactive,
        LogonType::Network => KacsLogonType::Network,
        LogonType::Batch => KacsLogonType::Batch,
        LogonType::Service => KacsLogonType::Service,
        LogonType::NetworkCleartext => KacsLogonType::NetworkCleartext,
        LogonType::NewCredentials => KacsLogonType::NewCredentials,
    }
}

/// The group a logon type confers, if any.
pub open spec fn conferred(logon_type: LogonType) -> Option<SidModel> {
    match logon_type {
        LogonType::Network | LogonType::NetworkCleartext => Some(WellKnown::Network.model()),
        LogonType::Batch => Some(WellKnown::Batch.model()),
        LogonType::Interactive => Some(WellKnown::Interactive.model()),
        LogonType::Service => Some(WellKnown::Service.model()),
        LogonType::NewCredentials => None,
    }
}

/// The well-known group SID a logon type confers, if any.
///
/// This is the derivation rule that makes the logon type load-bearing rather
/// than merely descriptive: an access check never reads the logon type, so an
/// ACE that wants to distinguish console users from network users matches on the
/// SID this function returns.
///
/// - `NetworkCleartext` confers the same SID as `Network`. The type exists to
///   record that the credential crossed the wire in the clear, which is an audit
///   distinction, not an access-control one.
/// - `NewCredentials` confers nothing: the local identity is deliberately
///   unchanged, and only outbound credentials differ.
pub fn logon_type_sid(logon_type: LogonType) -> (sid: Option<Sid>)
    ensures
        crate::sid::maybe(sid) == conferred(logon_type),
{
    match logon_type {
        LogonType::Network => Some(WellKnown::Network.sid()),
        LogonType::NetworkCleartext => Some(WellKnown::Network.sid()),
        LogonType::Batch => Some(WellKnown::Batch.sid()),
        LogonType::Interactive => Some(WellKnown::Interactive.sid()),
        LogonType::Service => Some(WellKnown::Service.sid()),
        LogonType::NewCredentials => None,
    }
}

/// Groups and their attributes as values.
pub open spec fn models(groups: Seq<(Sid, u32)>) -> Seq<(SidModel, u32)> {
    groups.map_values(|group: (Sid, u32)| (group.0@, group.1))
}

/// Just the SIDs.
pub open spec fn sids(groups: Seq<(SidModel, u32)>) -> Seq<SidModel> {
    groups.map_values(|group: (SidModel, u32)| group.0)
}

/// Where a SID first stands among some groups, if it is among them.
pub open spec fn stands_at(groups: Seq<(SidModel, u32)>, sid: SidModel, at: int) -> bool {
    &&& 0 <= at < groups.len()
    &&& groups[at].0 == sid
    &&& forall|j: int| 0 <= j < at ==> (#[trigger] groups[j]).0 != sid
}

/// A SID's index in the token's SID array.
///
/// **0 is the user SID**, and 1..N is the Nth group. The groups already carry
/// the user SID at position 0, since it is added as a group as well as being the
/// user field, so a group at position `i` is index `i + 1`, and index 0 and
/// index 1 both name the principal.
///
/// `None` when the SID is not on the token at all (or stands further along than
/// an index can count), which every caller has to handle rather than defaulting
/// silently: the kernel refuses a token whose index points past its array, so a
/// wrong answer here fails the whole logon.
pub fn index_of(groups: &[(Sid, u32)], sid: &Sid) -> (index: Option<u32>)
    ensures
        index matches Some(index) ==> index > 0 && stands_at(models(groups@), sid@, index - 1),
        index is None ==> forall|at: int|
            stands_at(models(groups@), sid@, at) ==> at >= u32::MAX,
{
    let ghost all = models(groups@);
    let mut i: usize = 0;
    while i < groups.len() && i < u32::MAX as usize
        invariant
            i <= groups@.len(),
            i <= u32::MAX,
            all == models(groups@),
            forall|j: int| 0 <= j < i ==> (#[trigger] all[j]).0 != sid@,
        decreases groups@.len() - i,
    {
        assert(all[i as int] == (groups@[i as int].0@, groups@[i as int].1));
        if groups[i].0.same(sid) {
            assert(stands_at(all, sid@, i as int));
            return Some(i as u32 + 1);
        }
        i += 1;
    }
    None
}

/// Whether a SID is among some groups.
pub open spec fn present(groups: Seq<(SidModel, u32)>, sid: SidModel) -> bool {
    exists|j: int| 0 <= j < groups.len() && (#[trigger] groups[j]).0 == sid
}

/// The groups with one more, unless it is there already.
pub open spec fn added(
    groups: Seq<(SidModel, u32)>,
    sid: SidModel,
    attributes: u32,
) -> Seq<(SidModel, u32)> {
    if present(groups, sid) {
        groups
    } else {
        groups.push((sid, attributes))
    }
}

/// Append a group unless it is already present.
///
/// The first mention wins, which matters because the principal's own SID is
/// added first and carries `OWNER`: a source redundantly asserting the user as a
/// group must not silently strip that attribute back off.
pub fn add_unique(groups: &mut Vec<(Sid, u32)>, sid: Sid, attributes: u32)
    ensures
        models(final(groups)@) == added(models(old(groups)@), sid@, attributes),
{
    let ghost all = models(groups@);
    let mut i: usize = 0;
    while i < groups.len()
        invariant
            i <= groups@.len(),
            groups@ == old(groups)@,
            all == models(groups@),
            forall|j: int| 0 <= j < i ==> (#[trigger] all[j]).0 != sid@,
        decreases groups@.len() - i,
    {
        assert(all[i as int] == (groups@[i as int].0@, groups@[i as int].1));
        if groups[i].0.same(&sid) {
            assert(present(all, sid@));
            return;
        }
        i += 1;
    }
    groups.push((sid, attributes));
    assert(models(groups@) =~= all.push((sid@, attributes)));
}

/// `S-1-5-5-…`.
pub open spec fn logon_sid(sid: SidModel) -> bool {
    sid.authority == 5 && sid.subs.len() > 0 && sid.subs[0] == 5
}

/// Whether a SID is a logon SID (`S-1-5-5-X-Y`).
///
/// No principal source is authoritative for one: logon SIDs are minted by the
/// kernel, per session, at the moment a session is created. A source could not
/// know this session's, which does not exist when the source answers, so a
/// source asserting one is either buggy or reaching for a *different* session's
/// SID, which would forge membership of someone else's logon for any ACE keyed
/// on it.
///
/// NT Authority (5) with a first sub-authority of 5 is the logon-SID namespace,
/// whatever follows.
pub fn is_logon_sid(sid: &Sid) -> (yes: bool)
    ensures
        yes <==> logon_sid(sid@),
{
    let subs = sid.sub_authorities();
    sid.authority() == 5 && subs.len() > 0 && subs[0] == 5
}

/// The groups with each asserted membership that is not a logon SID.
pub open spec fn with_asserted(
    groups: Seq<(SidModel, u32)>,
    asserted: Seq<SidModel>,
) -> Seq<(SidModel, u32)>
    decreases asserted.len(),
{
    if asserted.len() == 0 {
        groups
    } else {
        let rest = with_asserted(groups, asserted.drop_last());
        if logon_sid(asserted.last()) {
            rest
        } else {
            added(rest, asserted.last(), MEMBER)
        }
    }
}

/// The groups with what every logon has.
pub open spec fn with_derived(
    groups: Seq<(SidModel, u32)>,
    logon_type: LogonType,
) -> Seq<(SidModel, u32)> {
    let everyone = added(groups, WellKnown::Everyone.model(), MEMBER);
    let authenticated = added(everyone, WellKnown::AuthenticatedUsers.model(), MEMBER);
    let local = added(authenticated, WellKnown::Local.model(), MEMBER);
    match conferred(logon_type) {
        Some(sid) => added(local, sid, MEMBER),
        None => local,
    }
}

/// Every SID a token carries, with its attributes.
pub open spec fn carried(
    user: SidModel,
    asserted: Seq<SidModel>,
    logon_type: LogonType,
) -> Seq<(SidModel, u32)> {
    with_derived(with_asserted(seq![(user, PRINCIPAL)], asserted), logon_type)
}

/// Every SID the token will carry, with its attributes, in the order the
/// builder will see them.
///
/// Apart from minting because **local policy has to be evaluated against this
/// exact set**, including the SIDs derived here rather than asserted. Evaluating
/// against only the asserted memberships would mean `Everyone`'s policy record
/// never applied, and would silently remove the ability to write policy against
/// *how* a logon happened rather than who it was.
///
/// `asserted` are the memberships the source claimed. They are believed, since a
/// source is authoritative for its own principals, but they are *filtered*, not
/// pasted in:
///
/// - A logon SID is dropped (see [`is_logon_sid`]). The kernel adds the correct
///   one itself and refuses a token that already carries it, so passing one
///   through would fail every logon behind a buggy source.
/// - Duplicates are dropped, including against the derived set. A source
///   asserting `Everyone` is not wrong, merely redundant.
pub fn token_groups(user: &Sid, asserted: &[&Sid], logon_type: LogonType) -> (groups: Vec<
    (Sid, u32),
>)
    ensures
        models(groups@) == carried(user@, crate::sid::models(asserted@), logon_type),
{
    // OWNER marks the SID that becomes the default owner of objects this token
    // creates. It belongs on the principal: a file jack creates should be owned
    // by jack.
    let mut groups: Vec<(Sid, u32)> = Vec::new();
    groups.push((user.clone(), PRINCIPAL));
    let ghost start = seq![(user@, PRINCIPAL)];
    assert(models(groups@) =~= start);

    // Asserted: who the source says they are.
    let ghost all = crate::sid::models(asserted@);
    let mut i: usize = 0;
    assert(all.take(0) =~= Seq::empty());
    while i < asserted.len()
        invariant
            i <= asserted@.len(),
            all == crate::sid::models(asserted@),
            models(groups@) == with_asserted(start, all.take(i as int)),
        decreases asserted@.len() - i,
    {
        proof {
            assert(all.take(i + 1).drop_last() =~= all.take(i as int));
            assert(all.take(i + 1).last() == asserted@[i as int]@);
        }
        if !is_logon_sid(asserted[i]) {
            add_unique(&mut groups, asserted[i].clone(), MEMBER);
        }
        i += 1;
    }
    assert(all.take(i as int) =~= all);

    // Derived: how this logon happened, rather than who they are. A source
    // could not assert these meaningfully even if the protocol let it.
    add_unique(&mut groups, WellKnown::Everyone.sid(), MEMBER);
    add_unique(&mut groups, WellKnown::AuthenticatedUsers.sid(), MEMBER);
    add_unique(&mut groups, WellKnown::Local.sid(), MEMBER);

    // The logon-type SID. This is the derivation that matters most here.
    if let Some(sid) = logon_type_sid(logon_type) {
        add_unique(&mut groups, sid, MEMBER);
    }
    groups
}

/// The SIDs of some groups, borrowed.
pub fn borrowed_sids<'a>(groups: &'a [(Sid, u32)]) -> (found: Vec<&'a Sid>)
    ensures
        crate::sid::models(found@) == sids(models(groups@)),
{
    let mut found: Vec<&'a Sid> = Vec::new();
    let mut i: usize = 0;
    while i < groups.len()
        invariant
            i <= groups@.len(),
            found@.len() == i,
            forall|j: int| 0 <= j < i ==> (#[trigger] found@[j])@ == groups@[j].0@,
        decreases groups@.len() - i,
    {
        found.push(&groups[i].0);
        i += 1;
    }
    assert(crate::sid::models(found@) =~= sids(models(groups@)));
    found
}

/// How strong the evidence behind a logon is.
///
/// This fixes the impersonation level of the token, and through the ratchet the
/// ceiling on everything derived from it. The rule is that **the level tracks
/// the strength of the evidence**, rather than every logon starting at the top:
///
/// - A credential a principal source verified is evidence another machine could
///   in principle check too, so the token may be delegated.
/// - A local process's attestation is evidence only here. The service manager
///   vouching for a service it is launching says nothing a second machine has
///   any reason to believe, so the token must not leave this one.
#[derive(Debug, Clone, Copy, PartialEq, Eq, Structural)]
pub enum Evidence {
    /// A credential, verified by a principal source.
    Verified,
    /// A trusted local process's word, with no credential behind it.
    Attested,
}

impl Evidence {
    /// The impersonation level this evidence supports.
    pub open spec fn supports(self) -> ImpersonationLevel {
        match self {
            Evidence::Verified => ImpersonationLevel::Delegation,
            Evidence::Attested => ImpersonationLevel::Impersonation,
        }
    }

    /// The impersonation level this evidence supports.
    pub fn impersonation_level(self) -> (level: ImpersonationLevel)
        ensures
            level == self.supports(),
    {
        match self {
            Evidence::Verified => ImpersonationLevel::Delegation,
            Evidence::Attested => ImpersonationLevel::Impersonation,
        }
    }
}

/// Everything a mint needs. A struct rather than nine positional arguments,
/// several of which are SIDs and would otherwise be interchangeable at a call
/// site by mistake.
pub struct Minting<'a> {
    pub user: &'a Sid,
    /// Every SID the token will carry, from [`token_groups`].
    pub groups: &'a [(Sid, u32)],
    /// Which group projects to the POSIX gid and becomes the default group of
    /// objects this token creates.
    pub primary_group: &'a Sid,
    /// The POSIX numbers, computed by [`crate::unix_id`].
    pub projection: &'a Projection,
    /// The principal's claims, already converted by [`kacs_claims`].
    pub claims: &'a [TokenClaim],
    pub logon_type: LogonType,
    pub auth_package: &'a str,
    /// What local policy decided this principal gets. Never from a source.
    pub policy: Outcome,
    /// What satisfied the authority that this logon should happen, which sets
    /// the token's impersonation level.
    pub evidence: Evidence,
}

/// Everything a mint needs, mathematically.
pub struct MintingModel {
    pub user: SidModel,
    pub groups: Seq<(SidModel, u32)>,
    pub primary_group: SidModel,
    pub uid: u32,
    pub gid: u32,
    pub supplementary: Seq<u32>,
    pub claims: Seq<TokenClaimModel>,
    pub logon_type: LogonType,
    pub auth_package: Seq<char>,
    pub policy: OutcomeModel,
    pub evidence: Evidence,
}

impl View for Minting<'_> {
    type V = MintingModel;

    open spec fn view(&self) -> MintingModel {
        MintingModel {
            user: self.user@,
            groups: models(self.groups@),
            primary_group: self.primary_group@,
            uid: self.projection.uid,
            gid: self.projection.gid,
            supplementary: self.projection.supplementary@,
            claims: claim_models(self.claims@),
            logon_type: self.logon_type,
            auth_package: self.auth_package@,
            policy: self.policy@,
            evidence: self.evidence,
        }
    }
}

/// A token, and the session it belongs to, as the kernel is to be asked for
/// them.
pub struct TokenPlan {
    pub session_type: KacsLogonType,
    pub auth_package: String,
    pub user: Sid,
    pub groups: Vec<(Sid, u32)>,
    /// Which SID owns the objects this token creates, counting as in
    /// [`index_of`].
    pub owner_index: u32,
    /// Which SID is the primary group, counting as in [`index_of`].
    pub primary_group_index: u32,
    /// The DACL an object created by this token gets when nothing else supplies
    /// one. Left unset, the kernel applies its own default.
    pub default_dacl: Option<Acl>,
    pub claims: Vec<TokenClaim>,
    pub impersonation_level: ImpersonationLevel,
    pub integrity: IntegrityLevel,
    /// Whether the integrity level is enforced at all.
    pub no_write_up: bool,
    pub privileges: Privileges,
    pub enabled_privileges: Privileges,
    pub projection: Projection,
    pub source_name: &'static str,
}

/// Claims as values.
pub open spec fn claim_models(of: Seq<TokenClaim>) -> Seq<TokenClaimModel> {
    of.map_values(|claim: TokenClaim| claim@)
}

/// Attributes with the owner mark.
pub open spec fn marked(groups: Seq<(SidModel, u32)>, owner_index: u32) -> Seq<(SidModel, u32)> {
    groups.map(
        |i: int, group: (SidModel, u32)|
            if owner_index == i + 1 {
                (group.0, group.1 | OWNER)
            } else {
                group
            },
    )
}

/// The index of a SID, or the user's where the token does not carry it.
pub open spec fn index_or_user(groups: Seq<(SidModel, u32)>, sid: SidModel, index: u32) -> bool {
    if index == 0 {
        forall|at: int| stands_at(groups, sid, at) ==> at >= u32::MAX
    } else {
        stands_at(groups, sid, index - 1)
    }
}

/// What a plan says, given what it was made from.
pub open spec fn planned(minting: MintingModel, plan: TokenPlan) -> bool {
    &&& plan.session_type == session_type(minting.logon_type)
    &&& plan.auth_package@ == minting.auth_package
    &&& plan.user@ == minting.user
    &&& models(plan.groups@) == marked(minting.groups, plan.owner_index)
    &&& index_or_user(minting.groups, minting.primary_group, plan.primary_group_index)
    &&& match minting.policy.owner {
        Some(owner) => index_or_user(minting.groups, owner, plan.owner_index),
        None => plan.owner_index == 0,
    }
    &&& crate::policy::principal::maybe_acl(plan.default_dacl) == minting.policy.default_dacl
    &&& claim_models(plan.claims@) == minting.claims
    &&& plan.impersonation_level == minting.evidence.supports()
    &&& plan.integrity.0 == minting.policy.integrity
    &&& plan.no_write_up
    &&& plan.privileges.bits == minting.policy.privileges
    &&& plan.enabled_privileges.bits == minting.policy.privileges
    &&& plan.projection.uid == minting.uid
    &&& plan.projection.gid == minting.gid
    &&& plan.projection.supplementary@ == minting.supplementary
    &&& plan.source_name@ == SOURCE_NAME@
}

/// A SID's index, or the user's.
fn index_or_zero(groups: &[(Sid, u32)], sid: &Sid) -> (index: u32)
    ensures
        index_or_user(models(groups@), sid@, index),
{
    match index_of(groups, sid) {
        Some(index) => index,
        None => 0,
    }
}

/// Decide the session and the token of a logon.
///
/// The primary group falls back to 0, the user SID, rather than failing: the
/// kernel requires the primary group to be the user SID or a group on the token,
/// so an index that is not there would be refused outright, taking the whole
/// logon with it. The caller ensures the primary group is among the groups; a
/// principal whose primary group is themselves is odd but harmless.
///
/// Policy names an owner; the token wants an index, which means something
/// different on every logon. Falling back to the user is right for every failure
/// there too: a policy naming a principal this token does not carry is a
/// misconfiguration, and "owned by their creator" is both the ordinary case and
/// always valid.
pub fn mint(minting: Minting<'_>) -> (plan: TokenPlan)
    ensures
        planned(minting@, plan),
{
    let primary_group_index: u32 = index_or_zero(minting.groups, minting.primary_group);
    let owner_index: u32 = match &minting.policy.owner {
        None => 0,
        Some(owner) => index_or_zero(minting.groups, owner),
    };

    // The kernel refuses a token outright whose owner index names a group
    // without the owner mark, so marking it is not decoration: it is the
    // difference between this policy working and every logon for the principal
    // failing. The user SID is already marked in `token_groups`.
    let ghost all = models(minting.groups@);
    let mut groups: Vec<(Sid, u32)> = Vec::new();
    let mut i: usize = 0;
    while i < minting.groups.len()
        invariant
            i <= minting.groups@.len(),
            all == models(minting.groups@),
            groups@.len() == i,
            forall|j: int|
                0 <= j < i ==> ((#[trigger] groups@[j]).0@, groups@[j].1) == marked(
                    all,
                    owner_index,
                )[j],
        decreases minting.groups@.len() - i,
    {
        let group = &minting.groups[i];
        assert(all[i as int] == (group.0@, group.1));
        let attributes: u32 = if i < u32::MAX as usize && owner_index == i as u32 + 1 {
            group.1 | OWNER
        } else {
            group.1
        };
        groups.push((group.0.clone(), attributes));
        i += 1;
    }
    assert(models(groups@) =~= marked(all, owner_index));

    // Claims are fixed at creation, like every other identity field: a token
    // carries the claims its principal held at the moment of the logon.
    let mut claims: Vec<TokenClaim> = Vec::new();
    let mut k: usize = 0;
    while k < minting.claims.len()
        invariant
            k <= minting.claims@.len(),
            claims@.len() == k,
            forall|j: int| 0 <= j < k ==> (#[trigger] claims@[j])@ == minting.claims@[j]@,
        decreases minting.claims@.len() - k,
    {
        claims.push(minting.claims[k].clone());
        k += 1;
    }
    assert(claim_models(claims@) =~= claim_models(minting.claims@));

    TokenPlan {
        session_type: kacs_logon_type(minting.logon_type),
        auth_package: minting.auth_package.to_owned(),
        user: minting.user.clone(),
        groups,
        owner_index,
        primary_group_index,
        default_dacl: minting.policy.default_dacl,
        claims,
        // A ratchet on every token: nothing captured from, conveyed by, or
        // duplicated out of this token can act above it.
        impersonation_level: minting.evidence.impersonation_level(),
        integrity: minting.policy.integrity,
        // Without this the integrity level is decorative: nothing checks it.
        no_write_up: true,
        // Enabled as well as present: a granted privilege that a caller had to
        // enable before it worked would be a grant in name only.
        privileges: minting.policy.privileges,
        enabled_privileges: minting.policy.privileges,
        projection: minting.projection.clone(),
        source_name: SOURCE_NAME,
    }
}

/// No SID stands among the groups twice.
pub open spec fn distinct(groups: Seq<(SidModel, u32)>) -> bool {
    forall|i: int, j: int|
        0 <= i < j < groups.len() ==> (#[trigger] groups[i]).0 != (#[trigger] groups[j]).0
}

/// Adding keeps what is there, adds the one thing, and adds it once.
pub proof fn lemma_added(groups: Seq<(SidModel, u32)>, sid: SidModel, attributes: u32)
    ensures
        added(groups, sid, attributes).len() >= groups.len(),
        forall|i: int|
            0 <= i < groups.len() ==> (#[trigger] added(groups, sid, attributes)[i]) == groups[i],
        present(added(groups, sid, attributes), sid),
        forall|other: SidModel|
            #[trigger] present(added(groups, sid, attributes), other) <==> (present(groups, other) || other
                == sid),
        distinct(groups) ==> distinct(added(groups, sid, attributes)),
{
    let more = added(groups, sid, attributes);
    if !present(groups, sid) {
        assert(more[groups.len() as int].0 == sid);
        assert forall|other: SidModel|
            #[trigger] present(more, other) <==> (present(groups, other) || other == sid) by {
            if present(groups, other) {
                let j = choose|j: int| 0 <= j < groups.len() && (#[trigger] groups[j]).0 == other;
                assert(more[j].0 == other);
            }
            if present(more, other) && other != sid {
                let j = choose|j: int| 0 <= j < more.len() && (#[trigger] more[j]).0 == other;
                assert(groups[j].0 == other);
            }
        }
        if distinct(groups) {
            assert forall|i: int, j: int| 0 <= i < j < more.len() implies (#[trigger] more[i]).0 != (
            #[trigger] more[j]).0 by {
                if j == groups.len() {
                    assert(groups[i] == more[i]);
                } else {
                    assert(groups[i] == more[i]);
                    assert(groups[j] == more[j]);
                }
            }
        }
    }
}

/// What asserting adds, and what it cannot.
proof fn lemma_with_asserted(groups: Seq<(SidModel, u32)>, asserted: Seq<SidModel>)
    requires
        distinct(groups),
    ensures
        distinct(with_asserted(groups, asserted)),
        with_asserted(groups, asserted).len() >= groups.len(),
        forall|i: int|
            0 <= i < groups.len() ==> (#[trigger] with_asserted(groups, asserted)[i]) == groups[i],
        forall|sid: SidModel|
            #[trigger] present(with_asserted(groups, asserted), sid) <==> (present(groups, sid) || (
            asserted.contains(sid) && !logon_sid(sid))),
    decreases asserted.len(),
{
    if asserted.len() > 0 {
        let front = asserted.drop_last();
        let last = asserted.last();
        lemma_with_asserted(groups, front);
        let rest = with_asserted(groups, front);
        lemma_added(rest, last, MEMBER);
        assert forall|sid: SidModel| #[trigger] asserted.contains(sid) <==> (front.contains(sid) || sid
            == last) by {
            if front.contains(sid) {
                let j = choose|j: int| 0 <= j < front.len() && front[j] == sid;
                assert(asserted[j] == sid);
            }
            if asserted.contains(sid) && sid != last {
                let j = choose|j: int| 0 <= j < asserted.len() && asserted[j] == sid;
                assert(front[j] == sid);
            }
            if sid == last {
                assert(asserted[asserted.len() - 1] == sid);
            }
        }
        let all = with_asserted(groups, asserted);
        assert forall|sid: SidModel|
            #[trigger] present(all, sid) <==> (present(groups, sid) || (asserted.contains(sid) && !logon_sid(
                sid,
            ))) by {
            assert(present(rest, sid) <==> (present(groups, sid) || (front.contains(sid)
                && !logon_sid(sid))));
            assert(asserted.contains(sid) <==> (front.contains(sid) || sid == last));
            if !logon_sid(last) {
                assert(present(added(rest, last, MEMBER), sid) <==> (present(rest, sid) || sid
                    == last));
            }
        }
        assert forall|i: int| 0 <= i < groups.len() implies (#[trigger] all[i]) == groups[i] by {
            assert(rest[i] == groups[i]);
            if !logon_sid(last) {
                assert(added(rest, last, MEMBER)[i] == rest[i]);
            }
        }
    }
}

/// What deriving adds.
proof fn lemma_with_derived(groups: Seq<(SidModel, u32)>, logon_type: LogonType)
    requires
        distinct(groups),
    ensures
        distinct(with_derived(groups, logon_type)),
        with_derived(groups, logon_type).len() >= groups.len(),
        forall|i: int|
            0 <= i < groups.len() ==> (#[trigger] with_derived(groups, logon_type)[i]) == groups[i],
        forall|sid: SidModel|
            #[trigger] present(with_derived(groups, logon_type), sid) <==> (present(groups, sid) || derived(
                sid,
                logon_type,
            )),
{
    let everyone = added(groups, WellKnown::Everyone.model(), MEMBER);
    let authenticated = added(everyone, WellKnown::AuthenticatedUsers.model(), MEMBER);
    let local = added(authenticated, WellKnown::Local.model(), MEMBER);
    lemma_added(groups, WellKnown::Everyone.model(), MEMBER);
    lemma_added(everyone, WellKnown::AuthenticatedUsers.model(), MEMBER);
    lemma_added(authenticated, WellKnown::Local.model(), MEMBER);
    if let Some(sid) = conferred(logon_type) {
        lemma_added(local, sid, MEMBER);
    }
    let all = with_derived(groups, logon_type);
    assert forall|i: int| 0 <= i < groups.len() implies (#[trigger] all[i]) == groups[i] by {
        assert(everyone[i] == groups[i]);
        assert(authenticated[i] == everyone[i]);
        assert(local[i] == authenticated[i]);
        if let Some(sid) = conferred(logon_type) {
            assert(added(local, sid, MEMBER)[i] == local[i]);
        }
    }
}

/// A SID every logon of this type carries, whoever it is.
pub open spec fn derived(sid: SidModel, logon_type: LogonType) -> bool {
    ||| sid == WellKnown::Everyone.model()
    ||| sid == WellKnown::AuthenticatedUsers.model()
    ||| sid == WellKnown::Local.model()
    ||| conferred(logon_type) == Some(sid)
}

/// The principal stands first on their own token and keeps the owner mark,
/// whatever a source asserts.
pub proof fn law_the_principal_comes_first(
    user: SidModel,
    asserted: Seq<SidModel>,
    logon_type: LogonType,
)
    ensures
        carried(user, asserted, logon_type).len() > 0,
        carried(user, asserted, logon_type)[0] == (user, PRINCIPAL),
{
    let start = seq![(user, PRINCIPAL)];
    lemma_with_asserted(start, asserted);
    let middle = with_asserted(start, asserted);
    lemma_with_derived(middle, logon_type);
    assert(middle[0] == start[0]);
    assert(with_derived(middle, logon_type)[0] == middle[0]);
}

/// No SID stands on a token twice.
pub proof fn law_no_sid_twice(user: SidModel, asserted: Seq<SidModel>, logon_type: LogonType)
    ensures
        distinct(carried(user, asserted, logon_type)),
{
    let start = seq![(user, PRINCIPAL)];
    lemma_with_asserted(start, asserted);
    lemma_with_derived(with_asserted(start, asserted), logon_type);
}

/// A token carries exactly the principal, the asserted memberships that are not
/// logon SIDs, and what every logon of its type carries.
pub proof fn law_what_a_token_carries(
    user: SidModel,
    asserted: Seq<SidModel>,
    logon_type: LogonType,
    sid: SidModel,
)
    ensures
        present(carried(user, asserted, logon_type), sid) <==> (sid == user || (asserted.contains(
            sid,
        ) && !logon_sid(sid)) || derived(sid, logon_type)),
{
    let start = seq![(user, PRINCIPAL)];
    lemma_with_asserted(start, asserted);
    lemma_with_derived(with_asserted(start, asserted), logon_type);
    assert(start[0].0 == user);
    assert(present(start, sid) <==> sid == user);
    assert(present(with_asserted(start, asserted), sid) <==> (present(start, sid) || (
    asserted.contains(sid) && !logon_sid(sid))));
}

/// No source puts a logon SID on a token: the only one a token could carry is
/// the principal's own SID.
pub proof fn law_no_asserted_logon_sid(
    user: SidModel,
    asserted: Seq<SidModel>,
    logon_type: LogonType,
    sid: SidModel,
)
    requires
        logon_sid(sid),
        present(carried(user, asserted, logon_type), sid),
    ensures
        sid == user,
{
    law_what_a_token_carries(user, asserted, logon_type, sid);
}

/// That a credential crossed the wire in the clear does not change what a token
/// can reach.
pub proof fn law_cleartext_is_indistinguishable(user: SidModel, asserted: Seq<SidModel>)
    ensures
        carried(user, asserted, LogonType::NetworkCleartext) == carried(
            user,
            asserted,
            LogonType::Network,
        ),
{
}

/// Every group stapled onto every token has a number, and no logon-type SID
/// has one.
pub proof fn law_every_stapled_group_is_numbered(sid: SidModel, logon_type: LogonType)
    requires
        derived(sid, logon_type),
    ensures
        crate::well_known::number_of(sid) is Some <==> conferred(logon_type) != Some(sid),
{
    crate::well_known::law_every_name_round_trips(WellKnown::Everyone);
    crate::well_known::law_every_name_round_trips(WellKnown::AuthenticatedUsers);
    crate::well_known::law_every_name_round_trips(WellKnown::Local);
    crate::well_known::law_every_name_round_trips(WellKnown::Network);
    crate::well_known::law_every_name_round_trips(WellKnown::Batch);
    crate::well_known::law_every_name_round_trips(WellKnown::Interactive);
    crate::well_known::law_every_name_round_trips(WellKnown::Service);
}

/// The kernel accepts the indices of every plan: each names a SID of the token,
/// and the SID that owns what the token creates carries the owner mark.
pub proof fn law_a_plan_is_acceptable(minting: MintingModel, plan: TokenPlan)
    requires
        planned(minting, plan),
        minting.groups.len() > 0,
        minting.groups[0] == (minting.user, PRINCIPAL),
    ensures
        plan.owner_index <= plan.groups@.len(),
        plan.primary_group_index <= plan.groups@.len(),
        models(plan.groups@)[if plan.owner_index == 0 {
            0
        } else {
            plan.owner_index - 1
        }].1 & OWNER == OWNER,
{
    let groups = minting.groups;
    assert(models(plan.groups@).len() == groups.len());
    let at: int = if plan.owner_index == 0 {
        0
    } else {
        plan.owner_index - 1
    };
    let attributes = groups[at].1;
    assert((attributes | 8) & 8 == 8) by (bit_vector);
    assert(15u32 & 8 == 8) by (bit_vector);
}

/// A logon nobody verified a credential for never reaches a token that may leave
/// this machine.
pub proof fn law_an_attested_token_is_not_delegated(minting: MintingModel, plan: TokenPlan)
    requires
        planned(minting, plan),
    ensures
        plan.impersonation_level == ImpersonationLevel::Delegation <==> minting.evidence
            == Evidence::Verified,
{
}

/// A membership is on by default, on, and there to stay; the principal's own SID
/// may own what the token creates besides.
pub proof fn law_what_the_attributes_are()
    ensures
        MANDATORY == 1,
        ENABLED_BY_DEFAULT == 2,
        ENABLED == 4,
        OWNER == 8,
        MEMBER == MANDATORY | ENABLED_BY_DEFAULT | ENABLED,
        PRINCIPAL == MANDATORY | ENABLED_BY_DEFAULT | ENABLED | OWNER,
{
    assert(1u32 | 2u32 | 4u32 == 7u32) by (bit_vector);
    assert(1u32 | 2u32 | 4u32 | 8u32 == 15u32) by (bit_vector);
}

/// Adding gives no attributes but those it is told to.
proof fn lemma_added_attributes(groups: Seq<(SidModel, u32)>, sid: SidModel)
    requires
        groups.len() > 0,
        forall|i: int| 0 < i < groups.len() ==> (#[trigger] groups[i]).1 == 7,
    ensures
        added(groups, sid, MEMBER).len() > 0,
        added(groups, sid, MEMBER)[0] == groups[0],
        forall|i: int|
            0 < i < added(groups, sid, MEMBER).len() ==> (#[trigger] added(
                groups,
                sid,
                MEMBER,
            )[i]).1 == 7,
{
    let more = added(groups, sid, MEMBER);
    assert forall|i: int| 0 < i < more.len() implies (#[trigger] more[i]).1 == 7 by {
        if i < groups.len() {
            assert(more[i] == groups[i]);
        }
    }
}

/// Asserting gives no attributes but a membership's.
proof fn lemma_asserted_attributes(groups: Seq<(SidModel, u32)>, asserted: Seq<SidModel>)
    requires
        groups.len() > 0,
        forall|i: int| 0 < i < groups.len() ==> (#[trigger] groups[i]).1 == 7,
    ensures
        with_asserted(groups, asserted).len() > 0,
        with_asserted(groups, asserted)[0] == groups[0],
        forall|i: int|
            0 < i < with_asserted(groups, asserted).len() ==> (#[trigger] with_asserted(
                groups,
                asserted,
            )[i]).1 == 7,
    decreases asserted.len(),
{
    if asserted.len() > 0 {
        lemma_asserted_attributes(groups, asserted.drop_last());
        lemma_added_attributes(with_asserted(groups, asserted.drop_last()), asserted.last());
    }
}

/// Every group of a token but the principal's own SID is switched on, on by
/// default and there to stay, and is nothing else; the principal's own SID may
/// own what the token creates as well.
pub proof fn law_every_membership_is_switched_on(
    user: SidModel,
    asserted: Seq<SidModel>,
    logon_type: LogonType,
    i: int,
)
    requires
        0 <= i < carried(user, asserted, logon_type).len(),
    ensures
        carried(user, asserted, logon_type)[i].1 == (if i == 0 {
            15u32
        } else {
            7u32
        }),
{
    let start = seq![(user, PRINCIPAL)];
    let middle = with_asserted(start, asserted);
    lemma_asserted_attributes(start, asserted);
    let everyone = added(middle, WellKnown::Everyone.model(), MEMBER);
    let authenticated = added(everyone, WellKnown::AuthenticatedUsers.model(), MEMBER);
    let local = added(authenticated, WellKnown::Local.model(), MEMBER);
    lemma_added_attributes(middle, WellKnown::Everyone.model());
    lemma_added_attributes(everyone, WellKnown::AuthenticatedUsers.model());
    lemma_added_attributes(authenticated, WellKnown::Local.model());
    if let Some(sid) = conferred(logon_type) {
        lemma_added_attributes(local, sid);
    }
    assert(carried(user, asserted, logon_type)[0] == start[0]);
}

/// Every token carries `S-1-1-0`, `S-1-5-11` and `S-1-2-0`, and the SID that says
/// how the logon happened: `S-1-5-4` at the console, `S-1-5-2` over the network,
/// `S-1-5-3` for a batch, `S-1-5-6` for a service, and none of these otherwise.
pub proof fn law_how_a_logon_happened_is_on_its_token(
    user: SidModel,
    asserted: Seq<SidModel>,
    logon_type: LogonType,
)
    ensures
        ({
            let token = carried(user, asserted, logon_type);
            &&& present(token, SidModel { authority: 1, subs: seq![0u32] })
            &&& present(token, SidModel { authority: 5, subs: seq![11u32] })
            &&& present(token, SidModel { authority: 2, subs: seq![0u32] })
            &&& logon_type is Interactive ==> present(
                token,
                SidModel { authority: 5, subs: seq![4u32] },
            )
            &&& logon_type is Network || logon_type is NetworkCleartext ==> present(
                token,
                SidModel { authority: 5, subs: seq![2u32] },
            )
            &&& logon_type is Batch ==> present(token, SidModel { authority: 5, subs: seq![3u32] })
            &&& logon_type is Service ==> present(
                token,
                SidModel { authority: 5, subs: seq![6u32] },
            )
        }),
{
    let one = |authority: u64, sub: u32| SidModel { authority, subs: seq![sub] };
    law_what_a_token_carries(user, asserted, logon_type, one(1, 0));
    law_what_a_token_carries(user, asserted, logon_type, one(5, 11));
    law_what_a_token_carries(user, asserted, logon_type, one(2, 0));
    law_what_a_token_carries(user, asserted, logon_type, one(5, 4));
    law_what_a_token_carries(user, asserted, logon_type, one(5, 2));
    law_what_a_token_carries(user, asserted, logon_type, one(5, 3));
    law_what_a_token_carries(user, asserted, logon_type, one(5, 6));
}

/// A SID that says how a logon happened is on no token of another kind of logon,
/// unless it is asserted.
pub proof fn law_no_logon_passes_for_another(
    user: SidModel,
    asserted: Seq<SidModel>,
    logon_type: LogonType,
    sub: u32,
)
    requires
        user != (SidModel { authority: 5, subs: seq![sub] }),
        !asserted.contains(SidModel { authority: 5, subs: seq![sub] }),
        present(
            carried(user, asserted, logon_type),
            SidModel { authority: 5, subs: seq![sub] },
        ),
    ensures
        sub == 11 || (sub == 4 && logon_type is Interactive) || (sub == 2 && (logon_type is Network
            || logon_type is NetworkCleartext)) || (sub == 3 && logon_type is Batch) || (sub == 6
            && logon_type is Service),
{
    let sid = SidModel { authority: 5, subs: seq![sub] };
    law_what_a_token_carries(user, asserted, logon_type, sid);
    assert(sid.subs[0] == sub);
}

/// What is asserted first stands first.
proof fn lemma_asserted_so_far(groups: Seq<(SidModel, u32)>, asserted: Seq<SidModel>, n: int)
    requires
        0 <= n <= asserted.len(),
    ensures
        ({
            let some = with_asserted(groups, asserted.take(n));
            let all = with_asserted(groups, asserted);
            &&& some.len() <= all.len()
            &&& forall|i: int| 0 <= i < some.len() ==> #[trigger] all[i] == some[i]
        }),
    decreases asserted.len(),
{
    if n == asserted.len() {
        assert(asserted.take(n) =~= asserted);
    } else {
        let front = asserted.drop_last();
        assert(front.take(n) =~= asserted.take(n));
        lemma_asserted_so_far(groups, front, n);
        let rest = with_asserted(groups, front);
        let all = with_asserted(groups, asserted);
        let some = with_asserted(groups, asserted.take(n));
        lemma_added(rest, asserted.last(), MEMBER);
        assert forall|i: int| 0 <= i < some.len() implies #[trigger] all[i] == some[i] by {
            assert(rest[i] == some[i]);
            if !logon_sid(asserted.last()) {
                assert(added(rest, asserted.last(), MEMBER)[i] == rest[i]);
            }
        }
    }
}

/// A token carries what was asserted in the order it was asserted, behind the
/// principal and before what is derived: a SID mentioned by some place stands
/// before every SID that is not.
pub proof fn law_a_token_keeps_the_order(
    user: SidModel,
    asserted: Seq<SidModel>,
    logon_type: LogonType,
    mentioned: int,
    p: int,
    q: int,
)
    requires
        0 <= mentioned < asserted.len(),
        0 <= p < carried(user, asserted, logon_type).len(),
        0 <= q < carried(user, asserted, logon_type).len(),
        carried(user, asserted, logon_type)[p].0 == asserted[mentioned],
        carried(user, asserted, logon_type)[q].0 != user,
        forall|i: int|
            0 <= i <= mentioned ==> #[trigger] asserted[i] != carried(
                user,
                asserted,
                logon_type,
            )[q].0,
        !(asserted[mentioned].authority == 5 && asserted[mentioned].subs.len() > 0
            && asserted[mentioned].subs[0] == 5),
    ensures
        p < q,
{
    let start = seq![(user, PRINCIPAL)];
    let some = asserted.take(mentioned + 1);
    let early = with_asserted(start, some);
    let middle = with_asserted(start, asserted);
    let all = carried(user, asserted, logon_type);
    let (a, b) = (all[p].0, all[q].0);
    assert(start[0].0 == user);
    lemma_with_asserted(start, some);
    lemma_with_asserted(start, asserted);
    lemma_asserted_so_far(start, asserted, mentioned + 1);
    lemma_with_derived(middle, logon_type);
    law_no_sid_twice(user, asserted, logon_type);
    assert(some[mentioned] == a);
    assert(present(early, a));
    let at = choose|at: int| 0 <= at < early.len() && (#[trigger] early[at]).0 == a;
    assert(middle[at] == early[at]);
    assert(with_derived(middle, logon_type)[at] == middle[at]);
    if p != at {
        if p < at {
            assert(all[p].0 != all[at].0);
        } else {
            assert(all[at].0 != all[p].0);
        }
    }
    if q < early.len() {
        assert(middle[q] == early[q]);
        assert(with_derived(middle, logon_type)[q] == middle[q]);
        assert(present(early, b));
        assert(present(start, b) <==> b == user);
        let i = choose|i: int| 0 <= i < some.len() && some[i] == b;
        assert(asserted[i] == b);
    }
}

/// The kernel is told the kind of logon there was, and no other.
pub proof fn law_a_session_is_of_its_logons_kind(minting: MintingModel, plan: TokenPlan)
    requires
        planned(minting, plan),
    ensures
        plan.session_type is Interactive <==> minting.logon_type is Interactive,
        plan.session_type is Network <==> minting.logon_type is Network,
        plan.session_type is Batch <==> minting.logon_type is Batch,
        plan.session_type is Service <==> minting.logon_type is Service,
        plan.session_type is NetworkCleartext <==> minting.logon_type is NetworkCleartext,
        plan.session_type is NewCredentials <==> minting.logon_type is NewCredentials,
{
}

/// What policy grants is on the token, and switched on there; the level policy
/// decided is enforced; and nothing of who the logon is for, what vouched for it,
/// what was claimed of it or how it is numbered is lost on the way.
pub proof fn law_a_plan_is_what_was_decided(minting: MintingModel, plan: TokenPlan)
    requires
        planned(minting, plan),
    ensures
        plan.privileges.bits == minting.policy.privileges,
        plan.enabled_privileges.bits == minting.policy.privileges,
        plan.integrity.0 == minting.policy.integrity,
        plan.no_write_up,
        minting.policy.default_dacl is None <==> plan.default_dacl is None,
        minting.policy.default_dacl matches Some(bytes) ==> plan.default_dacl->0.bytes@ == bytes,
        plan.user@ == minting.user,
        plan.auth_package@ == minting.auth_package,
        plan.source_name@ == "authd"@,
        plan.claims@.len() == minting.claims.len(),
        forall|i: int|
            0 <= i < minting.claims.len() ==> (#[trigger] plan.claims@[i])@ == minting.claims[i],
        plan.projection.uid == minting.uid,
        plan.projection.gid == minting.gid,
        plan.projection.supplementary@ == minting.supplementary,
        minting.evidence is Attested ==> plan.impersonation_level is Impersonation,
        minting.evidence is Verified ==> plan.impersonation_level is Delegation,
{
    assert(claim_models(plan.claims@).len() == plan.claims@.len());
    assert forall|i: int| 0 <= i < minting.claims.len() implies (#[trigger] plan.claims@[i])@
        == minting.claims[i] by {
        assert(claim_models(plan.claims@)[i] == plan.claims@[i]@);
    }
}

/// A plan carries the SIDs it was given, in their order, with the attributes they
/// had; only the SID that is to own what the token creates gains the owner mark.
pub proof fn law_only_the_owner_is_marked(minting: MintingModel, plan: TokenPlan, i: int)
    requires
        planned(minting, plan),
        0 <= i < minting.groups.len(),
    ensures
        plan.groups@.len() == minting.groups.len(),
        plan.groups@[i].0@ == minting.groups[i].0,
        plan.groups@[i].1 == (if minting.policy.owner == Some(minting.groups[i].0)
            && plan.owner_index == i + 1 {
            minting.groups[i].1 | 8u32
        } else {
            minting.groups[i].1
        }),
{
    let made = models(plan.groups@);
    assert(made.len() == plan.groups@.len());
    assert(made[i] == (plan.groups@[i].0@, plan.groups@[i].1));
}

/// A plan's owner is the one policy names, wherever the token carries it, and the
/// principal otherwise; its primary group is the one asked for, likewise.
pub proof fn law_a_plan_names_its_owner_and_its_group(
    minting: MintingModel,
    plan: TokenPlan,
    at: int,
)
    requires
        planned(minting, plan),
        distinct(minting.groups),
        0 <= at < minting.groups.len() < u32::MAX,
    ensures
        minting.policy.owner is None ==> plan.owner_index == 0,
        minting.policy.owner == Some(minting.groups[at].0) ==> plan.owner_index == at + 1,
        minting.policy.owner matches Some(owner) && !present(minting.groups, owner)
            ==> plan.owner_index == 0,
        minting.primary_group == minting.groups[at].0 ==> plan.primary_group_index == at + 1,
        !present(minting.groups, minting.primary_group) ==> plan.primary_group_index == 0,
{
    let groups = minting.groups;
    let sid = groups[at].0;
    assert(stands_at(groups, sid, at));
    assert forall|other: int| #[trigger] stands_at(groups, sid, other) implies other == at by {
        if other < at {
            assert(groups[other].0 != groups[at].0);
        } else if at < other {
            assert(groups[at].0 != groups[other].0);
        }
    }
    assert forall|x: SidModel, other: int| #[trigger] stands_at(groups, x, other) implies present(
        groups,
        x,
    ) by {
        assert(groups[other].0 == x);
    }
}

/// What every logon carries, whoever it is for: `S-1-1-0`, `S-1-5-11` and `S-1-2-0`,
/// and one SID for how it happened, `S-1-5-4`, `S-1-5-2`, `S-1-5-3` or `S-1-5-6`; and
/// nothing else.
pub proof fn law_what_every_logon_carries(sid: SidModel, logon_type: LogonType)
    ensures
        derived(sid, logon_type) <==> {
            ||| sid == (SidModel { authority: 1, subs: seq![0u32] })
            ||| sid == (SidModel { authority: 2, subs: seq![0u32] })
            ||| sid == (SidModel { authority: 5, subs: seq![11u32] })
            ||| logon_type is Interactive && sid == (SidModel { authority: 5, subs: seq![4u32] })
            ||| (logon_type is Network || logon_type is NetworkCleartext) && sid == (SidModel {
                authority: 5,
                subs: seq![2u32],
            })
            ||| logon_type is Batch && sid == (SidModel { authority: 5, subs: seq![3u32] })
            ||| logon_type is Service && sid == (SidModel { authority: 5, subs: seq![6u32] })
        },
{
}

/// Whatever is on a token and is neither the principal nor asserted is one of those
/// that every logon of its kind carries: nobody becomes an administrator by signing in.
pub proof fn law_nothing_else_is_on_a_token(
    user: SidModel,
    asserted: Seq<SidModel>,
    logon_type: LogonType,
    i: int,
)
    requires
        0 <= i < carried(user, asserted, logon_type).len(),
    ensures
        ({
            let sid = carried(user, asserted, logon_type)[i].0;
            ||| sid == user
            ||| asserted.contains(sid)
            ||| sid == (SidModel { authority: 1, subs: seq![0u32] })
            ||| sid == (SidModel { authority: 2, subs: seq![0u32] })
            ||| sid == (SidModel { authority: 5, subs: seq![11u32] })
            ||| logon_type is Interactive && sid == (SidModel { authority: 5, subs: seq![4u32] })
            ||| (logon_type is Network || logon_type is NetworkCleartext) && sid == (SidModel {
                authority: 5,
                subs: seq![2u32],
            })
            ||| logon_type is Batch && sid == (SidModel { authority: 5, subs: seq![3u32] })
            ||| logon_type is Service && sid == (SidModel { authority: 5, subs: seq![6u32] })
        }),
{
    let sid = carried(user, asserted, logon_type)[i].0;
    assert(present(carried(user, asserted, logon_type), sid));
    law_what_a_token_carries(user, asserted, logon_type, sid);
    law_what_every_logon_carries(sid, logon_type);
}

/// The SIDs that every logon carries, in the order they are added: `S-1-1-0`,
/// `S-1-5-11`, `S-1-2-0`, and the one for how it happened.
pub open spec fn stapled(logon_type: LogonType, k: int) -> SidModel {
    if k == 0 {
        SidModel { authority: 1, subs: seq![0u32] }
    } else if k == 1 {
        SidModel { authority: 5, subs: seq![11u32] }
    } else if k == 2 {
        SidModel { authority: 2, subs: seq![0u32] }
    } else {
        SidModel {
            authority: 5,
            subs: seq![
                match logon_type {
                    LogonType::Interactive => 4u32,
                    LogonType::Batch => 3u32,
                    LogonType::Service => 6u32,
                    _ => 2u32,
                },
            ],
        }
    }
}

/// What every logon carries stands in this order behind what was asserted, wherever it
/// was not asserted itself.
pub proof fn law_what_every_logon_carries_comes_last_and_in_order(
    user: SidModel,
    asserted: Seq<SidModel>,
    logon_type: LogonType,
    k: int,
    p: int,
    q: int,
)
    requires
        0 <= p < carried(user, asserted, logon_type).len(),
        0 <= q < carried(user, asserted, logon_type).len(),
        0 <= k < 4,
        k == 3 ==> !(logon_type is NewCredentials),
        carried(user, asserted, logon_type)[q].0 == stapled(logon_type, k),
        stapled(logon_type, k) != user,
        !asserted.contains(stapled(logon_type, k)),
        carried(user, asserted, logon_type)[p].0 == user || asserted.contains(
            carried(user, asserted, logon_type)[p].0,
        ) || exists|j: int|
            0 <= j < k && carried(user, asserted, logon_type)[p].0 == #[trigger] stapled(
                logon_type,
                j,
            ),
        !logon_sid(carried(user, asserted, logon_type)[p].0) || carried(
            user,
            asserted,
            logon_type,
        )[p].0 == user,
    ensures
        p < q,
{
    let start = seq![(user, PRINCIPAL)];
    let g0 = with_asserted(start, asserted);
    let g1 = added(g0, WellKnown::Everyone.model(), MEMBER);
    let g2 = added(g1, WellKnown::AuthenticatedUsers.model(), MEMBER);
    let g3 = added(g2, WellKnown::Local.model(), MEMBER);
    let all = carried(user, asserted, logon_type);
    let (a, b) = (all[p].0, all[q].0);
    assert(start[0].0 == user);
    lemma_with_asserted(start, asserted);
    lemma_added(g0, WellKnown::Everyone.model(), MEMBER);
    lemma_added(g1, WellKnown::AuthenticatedUsers.model(), MEMBER);
    lemma_added(g2, WellKnown::Local.model(), MEMBER);
    if let Some(sid) = conferred(logon_type) {
        lemma_added(g3, sid, MEMBER);
    }
    lemma_with_derived(g0, logon_type);
    law_no_sid_twice(user, asserted, logon_type);
    let before = if k == 0 {
        g0
    } else if k == 1 {
        g1
    } else if k == 2 {
        g2
    } else {
        g3
    };
    assert forall|i: int| 0 <= i < before.len() implies #[trigger] all[i] == before[i] by {
        if i < g0.len() {
            assert(g1[i] == g0[i]);
        }
        if i < g1.len() {
            assert(g2[i] == g1[i]);
        }
        if i < g2.len() {
            assert(g3[i] == g2[i]);
        }
        if i < g3.len() {
            if let Some(sid) = conferred(logon_type) {
                assert(added(g3, sid, MEMBER)[i] == g3[i]);
            }
        }
    }
    assert forall|x: SidModel| present(start, x) implies x == user by {}
    assert(present(start, user));
    assert(!present(g0, b)) by {
        assert(present(g0, b) <==> (present(start, b) || (asserted.contains(b) && !logon_sid(b))));
    }
    lemma_stapled(logon_type);
    assert(!present(before, b));
    assert(present(g0, a) <==> (present(start, a) || (asserted.contains(a) && !logon_sid(a))));
    assert(present(before, a)) by {
        if a != user && !asserted.contains(a) {
            let j = choose|j: int| 0 <= j < k && a == #[trigger] stapled(logon_type, j);
            assert(j == 0 || j == 1 || j == 2);
        }
    }
    let at = choose|at: int| 0 <= at < before.len() && (#[trigger] before[at]).0 == a;
    assert(all[at] == before[at]);
    if p < at {
        assert(all[p].0 != all[at].0);
    } else if at < p {
        assert(all[at].0 != all[p].0);
    }
    if q < before.len() {
        assert(all[q] == before[q]);
        assert(present(before, b));
    }
}

/// What is stapled is what is derived, and no two of them are one SID.
proof fn lemma_stapled(logon_type: LogonType)
    ensures
        stapled(logon_type, 0) == WellKnown::Everyone.model(),
        stapled(logon_type, 1) == WellKnown::AuthenticatedUsers.model(),
        stapled(logon_type, 2) == WellKnown::Local.model(),
        !(logon_type is NewCredentials) ==> conferred(logon_type) == Some(stapled(logon_type, 3)),
        forall|i: int, j: int|
            0 <= i < j < 4 ==> #[trigger] stapled(logon_type, i) != #[trigger] stapled(
                logon_type,
                j,
            ),
{
    assert forall|i: int, j: int| 0 <= i < j < 4 implies #[trigger] stapled(logon_type, i)
        != #[trigger] stapled(logon_type, j) by {
        assert(stapled(logon_type, i).subs[0] != stapled(logon_type, j).subs[0] || stapled(
            logon_type,
            i,
        ).authority != stapled(logon_type, j).authority);
    }
}

/// Which SIDs are logon SIDs: any whose first number after authority 5 is 5.
pub proof fn law_which_sids_are_logon_sids(sid: SidModel)
    ensures
        logon_sid(sid) <==> sid.authority == 5 && sid.subs.len() > 0 && sid.subs[0] == 5,
{
}

/// Adding a group that is there changes nothing, and one that is not stands last, with
/// the attributes it is given.
pub proof fn law_a_group_is_added_once(
    groups: Seq<(SidModel, u32)>,
    sid: SidModel,
    attributes: u32,
)
    ensures
        (exists|i: int| 0 <= i < groups.len() && (#[trigger] groups[i]).0 == sid) ==> added(
            groups,
            sid,
            attributes,
        ) == groups,
        (forall|i: int| 0 <= i < groups.len() ==> (#[trigger] groups[i]).0 != sid) ==> added(
            groups,
            sid,
            attributes,
        ) == groups.push((sid, attributes)),
{
}

/// A token's groups are its SIDs and their attributes, and its claims its claims, one by
/// one and in order.
pub proof fn law_a_list_is_its_groups(
    groups: Seq<(Sid, u32)>,
    plain: Seq<(SidModel, u32)>,
    claims: Seq<TokenClaim>,
    i: int,
)
    ensures
        models(groups).len() == groups.len(),
        0 <= i < groups.len() ==> models(groups)[i] == (groups[i].0@, groups[i].1),
        sids(plain).len() == plain.len(),
        0 <= i < plain.len() ==> sids(plain)[i] == plain[i].0,
        claim_models(claims).len() == claims.len(),
        0 <= i < claims.len() ==> claim_models(claims)[i] == claims[i]@,
{
}

} // verus!
