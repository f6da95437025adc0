//! What this machine grants a principal.
//!
//! *Who someone is* (SID, memberships, POSIX numbers, primary group, profile,
//! claims) is **asserted** by a principal source. This is the other half: how
//! much this machine trusts them. It is local policy, and no source has any
//! message with which to ask for it.
//!
//! # One record per principal
//!
//! ```text
//! Machine\Generic\Authn\Policy
//!   DeniedPrivileges  REG_MULTI_SZ  ["SeDebugPrivilege"]
//!   \Administrators
//!       Privileges    REG_MULTI_SZ  ["SeBackupPrivilege", …]
//!       Integrity     REG_SZ        "High"
//!   \Everyone
//!       Privileges    REG_MULTI_SZ  ["SeChangeNotifyPrivilege"]
//! ```
//!
//! Keyed by principal rather than by privilege so that **one key shows the
//! totality of a principal's authority**. Authority scattered across twenty
//! values is authority nobody audits.
//!
//! A subkey's name is a bare well-known name ([`crate::well_known`]) or a
//! literal SID. `BUILTIN\Administrators` is unrepresentable, because a backslash
//! is the registry's path separator.
//!
//! # If the key exists, the key is the whole answer
//!
//! There is no per-value merge with a compiled table. Either the key is absent,
//! which means an unconfigured machine and falls back to [`floor`] so it still
//! boots and still logs in, or the key exists, and nothing compiled contributes
//! anything.

use super::{dword, multi_sz, sz, Value};
use crate::logon::{LogonType, LogonTypes};
use crate::sid::{Sid, SidModel};
use crate::text;
use crate::well_known::{self, WellKnown};
use vstd::prelude::*;

verus! {

/// Where a principal's policy record lives.
///
/// Under `Generic` because this is policy about what a logon means, not
/// configuration belonging to a particular authority's implementation.
pub const KEY: &'static str = "Machine\\Generic\\Authn\\Policy";

/// The privileges a principal is granted.
pub const PRIVILEGES_VALUE: &'static str = "Privileges";

/// The integrity level a principal's token carries.
pub const INTEGRITY_VALUE: &'static str = "Integrity";

/// Which principal owns the objects a token creates.
pub const OWNER_VALUE: &'static str = "Owner";

/// The DACL objects a token creates inherit, as SDDL.
pub const DEFAULT_DACL_VALUE: &'static str = "DefaultDacl";

/// The logon types this principal may *originate*: request of the authority on
/// behalf of somebody else.
///
/// Distinct from the per-principal set a source states about the account being
/// signed in; this one is the machine's statement about the *asker*. A graphical
/// greeter gets `["Interactive"]`, a web console `["Network"]`, and neither can
/// mint itself a differently shaped token by proposing a different type.
pub const LOGON_TYPES_VALUE: &'static str = "LogonTypes";

/// The security descriptor the logon socket carries, as SDDL.
///
/// On the parent key beside [`DENIED_PRIVILEGES_VALUE`], because which
/// principals may reach the logon socket is machine-wide authentication policy,
/// not a property of any one principal's record.
pub const LOGON_SOCKET_SD_VALUE: &'static str = "LogonSocketDescriptor";

/// Privileges no principal may hold, whatever any record says.
///
/// On the parent key rather than in a record, so it cannot collide with a
/// principal who happens to be called `Denied`, and so the lockdown is one edit
/// that no record you have not read can defeat.
pub const DENIED_PRIVILEGES_VALUE: &'static str = "DeniedPrivileges";

/// How many records are read.
///
/// A bound on work per logon, not a policy limit.
pub const MAX_RECORDS: usize = 256;

/// A set of privileges, one bit each.
#[derive(Debug, Clone, Copy, PartialEq, Eq, Structural)]
pub struct Privileges {
    pub bits: u64,
}

impl Privileges {
    /// The empty set.
    pub fn empty() -> (set: Privileges)
        ensures
            set.bits == 0,
    {
        Privileges { bits: 0 }
    }

    /// Everything in either set.
    pub fn union(self, other: Privileges) -> (set: Privileges)
        ensures
            set.bits == self.bits | other.bits,
    {
        Privileges { bits: self.bits | other.bits }
    }

    /// What is left after taking a set out.
    pub fn without(self, other: Privileges) -> (set: Privileges)
        ensures
            set.bits == self.bits & !other.bits,
    {
        Privileges { bits: self.bits & !other.bits }
    }

    /// Whether every privilege of another set is in this one.
    pub fn contains(self, other: Privileges) -> (yes: bool)
        ensures
            yes <==> self.bits & other.bits == other.bits,
    {
        self.bits & other.bits == other.bits
    }
}

/// An integrity level. Compared numerically, and any value is legal.
#[derive(Debug, Clone, Copy, PartialEq, Eq, Structural)]
pub struct IntegrityLevel(pub u32);

/// The level of a principal nothing is trusted with.
pub const UNTRUSTED: u32 = 0;

/// Below the ordinary.
pub const LOW: u32 = 4096;

/// The ordinary level.
pub const MEDIUM: u32 = 8192;

/// Above the ordinary.
pub const HIGH: u32 = 12288;

/// The level of the system itself.
pub const SYSTEM: u32 = 16384;

/// The integrity level of a principal no record names.
///
/// Compiled in **unconditionally**: unlike privileges, this is not a grant.
/// Every token must carry some level to be valid, so "the key exists" cannot be
/// allowed to mean "mint at Untrusted".
pub const DEFAULT_INTEGRITY: u32 = 8192;

/// An access control list, in the binary form the security library gave it.
#[derive(Debug, PartialEq, Eq)]
pub struct Acl {
    pub bytes: Vec<u8>,
}

impl View for Acl {
    type V = Seq<u8>;

    open spec fn view(&self) -> Seq<u8> {
        self.bytes@
    }
}

impl Clone for Acl {
    fn clone(&self) -> (copy: Self)
        ensures
            copy@ == self@,
    {
        let bytes = self.bytes.clone();
        assert(bytes@ =~= self.bytes@);
        Acl { bytes }
    }
}

impl Acl {
    /// Whether two lists are byte for byte the same.
    pub fn same(&self, other: &Acl) -> (yes: bool)
        ensures
            yes <==> self@ == other@,
    {
        if self.bytes.len() != other.bytes.len() {
            return false;
        }
        let mut i: usize = 0;
        while i < self.bytes.len()
            invariant
                i <= self.bytes@.len() == other.bytes@.len(),
                forall|j: int| 0 <= j < i ==> self.bytes@[j] == other.bytes@[j],
            decreases self.bytes@.len() - i,
        {
            if self.bytes[i] != other.bytes[i] {
                return false;
            }
            i += 1;
        }
        assert(self@ =~= other@);
        true
    }
}

/// A list that may be missing, as a value.
pub open spec fn maybe_acl(of: Option<Acl>) -> Option<Seq<u8>> {
    match of {
        Some(acl) => Some(acl@),
        None => None,
    }
}

/// What policy decided for one logon.
#[derive(Debug, PartialEq, Eq)]
pub struct Outcome {
    /// Present *and* enabled on the token. A privilege a caller had to enable
    /// before it worked would be a grant in name only.
    pub privileges: Privileges,
    /// The token's integrity level.
    pub integrity: IntegrityLevel,
    /// Which principal owns the objects this token creates. `None` means the
    /// user themselves, which is both the default and the ordinary case.
    pub owner: Option<Sid>,
    /// The DACL objects this token creates inherit when nothing else supplies
    /// one. `None` leaves the kernel's default in place.
    pub default_dacl: Option<Acl>,
}

/// What a policy decision is, mathematically.
pub struct OutcomeModel {
    pub privileges: u64,
    pub integrity: u32,
    pub owner: Option<SidModel>,
    pub default_dacl: Option<Seq<u8>>,
}

impl View for Outcome {
    type V = OutcomeModel;

    open spec fn view(&self) -> OutcomeModel {
        OutcomeModel {
            privileges: self.privileges.bits,
            integrity: self.integrity.0,
            owner: crate::sid::maybe(self.owner),
            default_dacl: maybe_acl(self.default_dacl),
        }
    }
}

/// What one principal's record says. Every field optional: absent means "this
/// record does not speak to that", which is not the same as "none".
#[derive(Debug, PartialEq, Eq)]
pub struct Entry {
    pub privileges: Option<Privileges>,
    pub integrity: Option<IntegrityLevel>,
    pub owner: Option<Sid>,
    pub default_dacl: Option<Acl>,
    /// `None` means the value is absent and this record does not speak to
    /// origination. A set that states nothing is an explicitly empty list,
    /// which *revokes*: the two must not be conflated, because
    /// [`LogonTypes::permits`] substitutes a default for the empty set that
    /// would silently turn "may originate nothing" into "may originate almost
    /// anything".
    pub logon_types: Option<LogonTypes>,
}

/// One principal's record.
#[derive(Debug, PartialEq, Eq)]
pub struct Record {
    pub sid: Sid,
    pub entry: Entry,
}

/// Everything the key says.
#[derive(Debug, PartialEq, Eq)]
pub struct Configured {
    pub records: Vec<Record>,
    pub denied: Privileges,
}

/// A record, mathematically.
pub struct RecordModel {
    pub sid: SidModel,
    pub privileges: Option<u64>,
    pub integrity: Option<u32>,
    pub owner: Option<SidModel>,
    pub default_dacl: Option<Seq<u8>>,
    pub logon_types: Option<LogonTypes>,
}

/// The record a principal has, given what it says.
pub open spec fn record_of(sid: SidModel, entry: Entry) -> RecordModel {
    RecordModel {
        sid,
        privileges: match entry.privileges {
            Some(set) => Some(set.bits),
            None => None,
        },
        integrity: match entry.integrity {
            Some(level) => Some(level.0),
            None => None,
        },
        owner: crate::sid::maybe(entry.owner),
        default_dacl: maybe_acl(entry.default_dacl),
        logon_types: entry.logon_types,
    }
}

impl View for Record {
    type V = RecordModel;

    open spec fn view(&self) -> RecordModel {
        record_of(self.sid@, self.entry)
    }
}

/// Records as values.
pub open spec fn models(of: Seq<Record>) -> Seq<RecordModel> {
    of.map_values(|record: Record| record@)
}

/// Whether a record speaks for a SID this token carries.
pub open spec fn applies(record: RecordModel, user: SidModel, groups: Seq<SidModel>) -> bool {
    record.sid == user || groups.contains(record.sid)
}

/// Every privilege a record for a SID this token carries grants.
pub open spec fn granted(records: Seq<RecordModel>, user: SidModel, groups: Seq<SidModel>) -> u64
    decreases records.len(),
{
    if records.len() == 0 {
        0
    } else {
        let rest = granted(records.drop_last(), user, groups);
        match records.last().privileges {
            Some(more) if applies(records.last(), user, groups) => rest | more,
            _ => rest,
        }
    }
}

/// The record for a SID: the first one that names it.
pub open spec fn record_for(records: Seq<RecordModel>, sid: SidModel) -> Option<RecordModel>
    decreases records.len(),
{
    if records.len() == 0 {
        None
    } else if records[0].sid == sid {
        Some(records[0])
    } else {
        record_for(records.drop_first(), sid)
    }
}

/// What the record for a SID says about integrity.
pub open spec fn integrity_said(records: Seq<RecordModel>, sid: SidModel) -> Option<u32> {
    match record_for(records, sid) {
        Some(record) => record.integrity,
        None => None,
    }
}

/// What the record for a SID says about ownership.
pub open spec fn owner_said(records: Seq<RecordModel>, sid: SidModel) -> Option<SidModel> {
    match record_for(records, sid) {
        Some(record) => record.owner,
        None => None,
    }
}

/// What the record for a SID says about the default DACL.
pub open spec fn dacl_said(records: Seq<RecordModel>, sid: SidModel) -> Option<Seq<u8>> {
    match record_for(records, sid) {
        Some(record) => record.default_dacl,
        None => None,
    }
}

/// Something was said at `at`, and nobody said anything else.
pub open spec fn decides<T>(said: Seq<Option<T>>, at: int) -> bool {
    &&& 0 <= at < said.len()
    &&& said[at] is Some
    &&& forall|j: int| 0 <= j < said.len() && said[j] is Some ==> said[j] == said[at]
}

/// What everyone who spoke agrees on, if anyone spoke and they do.
pub open spec fn agreed<T>(said: Seq<Option<T>>) -> Option<T> {
    if exists|at: int| decides(said, at) {
        said[choose|at: int| decides(said, at)]
    } else {
        None
    }
}

/// A level was said at `at`, and nobody said a higher one.
pub open spec fn tops(said: Seq<Option<u32>>, at: int) -> bool {
    &&& 0 <= at < said.len()
    &&& said[at] is Some
    &&& forall|j: int| 0 <= j < said.len() && said[j] is Some ==> said[j]->0 <= said[at]->0
}

/// The highest level anyone said.
pub open spec fn highest(said: Seq<Option<u32>>) -> Option<u32> {
    if exists|at: int| tops(said, at) {
        said[choose|at: int| tops(said, at)]
    } else {
        None
    }
}

/// The integrity level of a logon: the user's own record's, or the highest among
/// the groups', or the default.
pub open spec fn level_of(records: Seq<RecordModel>, user: SidModel, groups: Seq<SidModel>) -> u32 {
    match integrity_said(records, user) {
        Some(level) => level,
        None => match highest(groups.map_values(|group: SidModel| integrity_said(records, group))) {
            Some(level) => level,
            None => DEFAULT_INTEGRITY,
        },
    }
}

/// The owner of what a logon creates: the user's own record's, or what the
/// groups agree on.
pub open spec fn owner_of_created(
    records: Seq<RecordModel>,
    user: SidModel,
    groups: Seq<SidModel>,
) -> Option<SidModel> {
    match owner_said(records, user) {
        Some(owner) => Some(owner),
        None => agreed(groups.map_values(|group: SidModel| owner_said(records, group))),
    }
}

/// The default DACL of what a logon creates: the user's own record's, or what
/// the groups agree on.
pub open spec fn dacl_of_created(
    records: Seq<RecordModel>,
    user: SidModel,
    groups: Seq<SidModel>,
) -> Option<Seq<u8>> {
    match dacl_said(records, user) {
        Some(acl) => Some(acl),
        None => agreed(groups.map_values(|group: SidModel| dacl_said(records, group))),
    }
}

/// What policy decides for a logon.
pub open spec fn decided(configured: Configured, user: SidModel, groups: Seq<SidModel>) -> OutcomeModel {
    let records = models(configured.records@);
    OutcomeModel {
        privileges: granted(records, user, groups) & !configured.denied.bits,
        integrity: level_of(records, user, groups),
        owner: owner_of_created(records, user, groups),
        default_dacl: dacl_of_created(records, user, groups),
    }
}

/// The first record that names a SID.
fn find<'a>(records: &'a [Record], sid: &Sid) -> (found: Option<&'a Record>)
    ensures
        found is Some <==> record_for(models(records@), sid@) is Some,
        found matches Some(record) ==> record_for(models(records@), sid@) == Some(record@),
{
    let ghost all = models(records@);
    let mut i: usize = 0;
    assert(all.skip(0) =~= all);
    while i < records.len()
        invariant
            i <= records@.len(),
            all == models(records@),
            record_for(all, sid@) == record_for(all.skip(i as int), sid@),
        decreases records@.len() - i,
    {
        assert(all.skip(i as int)[0] == records@[i as int]@);
        if records[i].sid.same(sid) {
            return Some(&records[i]);
        }
        assert(all.skip(i as int).drop_first() =~= all.skip(i + 1));
        i += 1;
    }
    None
}

/// Decide what a logon gets.
///
/// `groups` must be the **final** SID set the token will carry, including the
/// derived ones: `Everyone`, `Authenticated Users`, `Local`, the logon-type SID.
/// Evaluating against only the asserted memberships would mean `Everyone`'s
/// record never applied, and would quietly remove the ability to write policy
/// against how a logon happened.
pub fn evaluate(configured: &Configured, user: &Sid, groups: &[&Sid]) -> (outcome: Outcome)
    ensures
        outcome@ == decided(*configured, user@, crate::sid::models(groups@)),
{
    let records = configured.records.as_slice();
    let privileges = union(records, user, groups).without(configured.denied);
    Outcome {
        privileges,
        integrity: integrity(records, user, groups),
        owner: owner(records, user, groups),
        default_dacl: default_dacl(records, user, groups),
    }
}

/// Privileges union across every SID on the token. A record that names a
/// principal the token does not carry contributes nothing.
pub fn union(records: &[Record], user: &Sid, groups: &[&Sid]) -> (set: Privileges)
    ensures
        set.bits == granted(models(records@), user@, crate::sid::models(groups@)),
{
    let ghost all = models(records@);
    let mut set = Privileges::empty();
    let mut i: usize = 0;
    assert(all.take(0) =~= Seq::empty());
    while i < records.len()
        invariant
            i <= records@.len(),
            all == models(records@),
            set.bits == granted(all.take(i as int), user@, crate::sid::models(groups@)),
        decreases records@.len() - i,
    {
        let record = &records[i];
        proof {
            assert(all.take(i + 1).drop_last() =~= all.take(i as int));
            assert(all.take(i + 1).last() == record@);
        }
        if record.sid.same(user) || record.sid.among(groups) {
            if let Some(more) = record.entry.privileges {
                set = set.union(more);
            }
        }
        i += 1;
    }
    assert(all.take(i as int) =~= all);
    set
}

/// Which principal owns the objects this token creates.
///
/// The user's own record wins, as with integrity. Otherwise a *group* may name
/// one; that is the whole point of the setting, since the case it exists for is
/// "objects created by administrators are owned by Administrators" rather than
/// by the individual.
///
/// Groups are **not** ordered, so unlike integrity there is no sensible way to
/// pick between two that disagree: registry enumeration order is not something
/// policy should depend on. Two groups naming different owners is therefore a
/// misconfiguration, and it falls back to the user rather than picking
/// arbitrarily. Two naming the *same* owner is not a conflict.
pub fn owner(records: &[Record], user: &Sid, groups: &[&Sid]) -> (owner: Option<Sid>)
    ensures
        crate::sid::maybe(owner) == owner_of_created(
            models(records@),
            user@,
            crate::sid::models(groups@),
        ),
{
    if let Some(record) = find(records, user) {
        if record.entry.owner.is_some() {
            return Sid::copied(&record.entry.owner);
        }
    }
    let ghost all = models(records@);
    let ghost said = crate::sid::models(groups@).map_values(|group: SidModel| owner_said(all, group));
    let mut chosen: Option<Sid> = None;
    let ghost mut at: int = 0;
    let mut i: usize = 0;
    while i < groups.len()
        invariant
            i <= groups@.len() == said.len(),
            all == models(records@),
            said == crate::sid::models(groups@).map_values(|group: SidModel| owner_said(all, group)),
            owner_said(all, user@) is None,
            chosen is None ==> forall|j: int| 0 <= j < i ==> said[j] is None,
            chosen matches Some(owner) ==> 0 <= at < i && said[at] == Some(owner@) && forall|j: int|
                0 <= j < i && said[j] is Some ==> said[j] == said[at],
        decreases groups@.len() - i,
    {
        assert(said[i as int] == owner_said(all, groups@[i as int]@));
        if let Some(record) = find(records, groups[i]) {
            if let Some(named) = &record.entry.owner {
                assert(said[i as int] == Some(named@));
                match &chosen {
                    None => {
                        chosen = Some(named.clone());
                        proof {
                            at = i as int;
                        }
                    },
                    Some(existing) => {
                        if !existing.same(named) {
                            proof {
                                assert forall|k: int| !decides(said, k) by {
                                    if decides(said, k) {
                                        assert(said[at] == said[k]);
                                        assert(said[i as int] == said[k]);
                                    }
                                }
                            }
                            return None;
                        }
                    },
                }
            }
        }
        i += 1;
    }
    proof {
        if chosen is Some {
            assert(decides(said, at));
            let k = choose|k: int| decides(said, k);
            assert(said[at] == said[k]);
        } else {
            assert forall|k: int| !decides(said, k) by {}
        }
    }
    chosen
}

/// The user's own record wins outright; otherwise the maximum across the groups.
///
/// Not the privilege rule, and the difference is deliberate: privileges are a
/// set that accumulates, integrity is a single number that has to be chosen.
///
/// A flat maximum was rejected because it made a principal impossible to *lower*:
/// a guest whose own record said `Low` would still come out Medium the moment
/// any group they belonged to named Medium.
///
/// The consequence, which is worth knowing rather than discovering: **a group
/// can no longer impose an integrity floor on a member.** If `Administrators`
/// names High and a member's own record names Low, that member gets Low.
///
/// Precedence is per *value*, not per record: a user record that sets
/// `Privileges` but no `Integrity` does not suppress the group computation, it
/// simply does not speak to integrity.
pub fn integrity(records: &[Record], user: &Sid, groups: &[&Sid]) -> (level: IntegrityLevel)
    ensures
        level.0 == level_of(models(records@), user@, crate::sid::models(groups@)),
{
    if let Some(record) = find(records, user) {
        if let Some(level) = record.entry.integrity {
            return level;
        }
    }
    let ghost all = models(records@);
    let ghost said = crate::sid::models(groups@).map_values(
        |group: SidModel| integrity_said(all, group),
    );
    let mut top: Option<IntegrityLevel> = None;
    let ghost mut at: int = 0;
    let mut i: usize = 0;
    while i < groups.len()
        invariant
            i <= groups@.len() == said.len(),
            all == models(records@),
            said == crate::sid::models(groups@).map_values(
                |group: SidModel| integrity_said(all, group),
            ),
            top is None ==> forall|j: int| 0 <= j < i ==> said[j] is None,
            top matches Some(level) ==> 0 <= at < i && said[at] == Some(level.0) && forall|j: int|
                0 <= j < i && said[j] is Some ==> said[j]->0 <= level.0,
        decreases groups@.len() - i,
    {
        assert(said[i as int] == integrity_said(all, groups@[i as int]@));
        if let Some(record) = find(records, groups[i]) {
            if let Some(level) = record.entry.integrity {
                let higher = match top {
                    Some(so_far) => level.0 > so_far.0,
                    None => true,
                };
                if higher {
                    top = Some(level);
                    proof {
                        at = i as int;
                    }
                }
            }
        }
        i += 1;
    }
    proof {
        if top is Some {
            assert(tops(said, at));
            let k = choose|k: int| tops(said, k);
            assert(said[at]->0 <= said[k]->0);
            assert(said[k]->0 <= said[at]->0);
        } else {
            assert forall|k: int| !tops(said, k) by {}
        }
    }
    match top {
        Some(level) => level,
        None => IntegrityLevel(DEFAULT_INTEGRITY),
    }
}

/// The DACL objects this token creates inherit when nothing else supplies one.
///
/// Same precedence as [`owner`], and for the same reason: a DACL is a single
/// value with no ordering, so two groups disagreeing cannot be resolved by
/// whichever the registry enumerated first. The user's own record wins;
/// otherwise a group may name one; two groups disagreeing falls back to the
/// kernel's default.
pub fn default_dacl(records: &[Record], user: &Sid, groups: &[&Sid]) -> (acl: Option<Acl>)
    ensures
        maybe_acl(acl) == dacl_of_created(models(records@), user@, crate::sid::models(groups@)),
{
    if let Some(record) = find(records, user) {
        if let Some(acl) = &record.entry.default_dacl {
            return Some(acl.clone());
        }
    }
    let ghost all = models(records@);
    let ghost said = crate::sid::models(groups@).map_values(|group: SidModel| dacl_said(all, group));
    let mut chosen: Option<Acl> = None;
    let ghost mut at: int = 0;
    let mut i: usize = 0;
    while i < groups.len()
        invariant
            i <= groups@.len() == said.len(),
            all == models(records@),
            said == crate::sid::models(groups@).map_values(|group: SidModel| dacl_said(all, group)),
            dacl_said(all, user@) is None,
            chosen is None ==> forall|j: int| 0 <= j < i ==> said[j] is None,
            chosen matches Some(acl) ==> 0 <= at < i && said[at] == Some(acl@) && forall|j: int|
                0 <= j < i && said[j] is Some ==> said[j] == said[at],
        decreases groups@.len() - i,
    {
        assert(said[i as int] == dacl_said(all, groups@[i as int]@));
        if let Some(record) = find(records, groups[i]) {
            if let Some(named) = &record.entry.default_dacl {
                assert(said[i as int] == Some(named@));
                match &chosen {
                    None => {
                        chosen = Some(named.clone());
                        proof {
                            at = i as int;
                        }
                    },
                    Some(existing) => {
                        if !existing.same(named) {
                            proof {
                                assert forall|k: int| !decides(said, k) by {
                                    if decides(said, k) {
                                        assert(said[at] == said[k]);
                                        assert(said[i as int] == said[k]);
                                    }
                                }
                            }
                            return None;
                        }
                    },
                }
            }
        }
        i += 1;
    }
    proof {
        if chosen is Some {
            assert(decides(said, at));
            let k = choose|k: int| decides(said, k);
            assert(said[at] == said[k]);
        } else {
            assert forall|k: int| !decides(said, k) by {}
        }
    }
    chosen
}

/// A tier's name, mathematically.
pub open spec fn tier_called(level: u32) -> Option<Seq<char>> {
    if level == UNTRUSTED {
        Some("Untrusted"@)
    } else if level == LOW {
        Some("Low"@)
    } else if level == MEDIUM {
        Some("Medium"@)
    } else if level == HIGH {
        Some("High"@)
    } else if level == SYSTEM {
        Some("System"@)
    } else {
        None
    }
}

/// Whether a text names the tier at a level.
pub open spec fn names_tier(text: Seq<char>, level: u32) -> bool {
    tier_called(level) matches Some(name) && text::same_word(name, text::trimmed(text))
}

/// No two tiers share a name.
proof fn lemma_tiers(text: Seq<char>, a: u32, b: u32)
    requires
        names_tier(text, a),
        names_tier(text, b),
    ensures
        a == b,
{
    reveal_strlit("Untrusted");
    reveal_strlit("Low");
    reveal_strlit("Medium");
    reveal_strlit("High");
    reveal_strlit("System");
    let word = text::trimmed(text);
    let (x, y) = (tier_called(a)->0, tier_called(b)->0);
    assert(text::lowered(x[0]) == text::lowered(word[0]));
    assert(text::lowered(y[0]) == text::lowered(word[0]));
}

/// A tier by name, matched case-insensitively.
///
/// These five are the levels with names. A record may write a raw `REG_DWORD`
/// instead to reach a level between them.
pub fn tier(text: &str) -> (level: Option<IntegrityLevel>)
    ensures
        level matches Some(found) ==> names_tier(text@, found.0),
        level is None ==> forall|found: u32| !names_tier(text@, found),
{
    let word = text::trim(text);
    if text::eq_ignoring_case("Untrusted", word) {
        Some(IntegrityLevel(UNTRUSTED))
    } else if text::eq_ignoring_case("Low", word) {
        Some(IntegrityLevel(LOW))
    } else if text::eq_ignoring_case("Medium", word) {
        Some(IntegrityLevel(MEDIUM))
    } else if text::eq_ignoring_case("High", word) {
        Some(IntegrityLevel(HIGH))
    } else if text::eq_ignoring_case("System", word) {
        Some(IntegrityLevel(SYSTEM))
    } else {
        None
    }
}

/// What this machine calls an integrity level, for rendering one back.
pub fn tier_name(level: IntegrityLevel) -> (name: Option<&'static str>)
    ensures
        name is Some <==> tier_called(level.0) is Some,
        name matches Some(found) ==> found@ == tier_called(level.0)->0,
{
    let level: u32 = level.0;
    if level == UNTRUSTED {
        Some("Untrusted")
    } else if level == LOW {
        Some("Low")
    } else if level == MEDIUM {
        Some("Medium")
    } else if level == HIGH {
        Some("High")
    } else if level == SYSTEM {
        Some("System")
    } else {
        None
    }
}

/// The level a value spells, if it spells one.
pub open spec fn spells_level(value: Value, level: u32) -> bool {
    match super::dword_of(value.ty, value.data@) {
        Some(number) => number == level,
        None => match super::sz_of(value.ty, value.data@) {
            Some(text) => names_tier(text, level),
            None => false,
        },
    }
}

/// Read an integrity level, written either as a tier name or as a raw number.
///
/// Both spellings are accepted because they do different jobs: the name is the
/// readable form of the common case, and the number reaches levels no name can
/// express. A number that happens to equal a tier is accepted rather than
/// refused in favour of the name; being clever there would only break a scripted
/// writer.
pub fn integrity_of(value: &Value) -> (level: Option<IntegrityLevel>)
    ensures
        level matches Some(found) ==> spells_level(*value, found.0),
        level is None ==> forall|found: u32| !spells_level(*value, found),
{
    if let Some(level) = dword(&value.ty, value.data.as_slice()) {
        return Some(IntegrityLevel(level));
    }
    match sz(&value.ty, value.data.as_slice()) {
        Some(text) => tier(text),
        None => None,
    }
}

/// The logon type a name means. Names match exactly: they are what an
/// administrator copies from documentation.
pub open spec fn logon_type_named(name: Seq<char>) -> Option<LogonType> {
    if name == "Interactive"@ {
        Some(LogonType::Interactive)
    } else if name == "Network"@ {
        Some(LogonType::Network)
    } else if name == "Batch"@ {
        Some(LogonType::Batch)
    } else if name == "Service"@ {
        Some(LogonType::Service)
    } else if name == "NetworkCleartext"@ {
        Some(LogonType::NetworkCleartext)
    } else if name == "NewCredentials"@ {
        Some(LogonType::NewCredentials)
    } else {
        None
    }
}

/// The names an administrator writes, matching [`LogonType`]'s variants.
pub fn logon_type_by_name(name: &str) -> (logon_type: Option<LogonType>)
    ensures
        logon_type == logon_type_named(name@),
{
    if text::eq(name, "Interactive") {
        Some(LogonType::Interactive)
    } else if text::eq(name, "Network") {
        Some(LogonType::Network)
    } else if text::eq(name, "Batch") {
        Some(LogonType::Batch)
    } else if text::eq(name, "Service") {
        Some(LogonType::Service)
    } else if text::eq(name, "NetworkCleartext") {
        Some(LogonType::NetworkCleartext)
    } else if text::eq(name, "NewCredentials") {
        Some(LogonType::NewCredentials)
    } else {
        None
    }
}

/// A set holds exactly the types a list names.
pub open spec fn lists(set: LogonTypes, names: Seq<Seq<char>>) -> bool {
    &&& set.other == 0
    &&& forall|logon_type: LogonType|
        set.holds(logon_type) <==> exists|i: int|
            0 <= i < names.len() && logon_type_named(#[trigger] names[i]) == Some(logon_type)
}

/// Turn a list of logon-type names into the set.
///
/// An unknown name is dropped rather than failing the list, because dropping one
/// grants strictly less: the safe direction for a grant.
pub fn parse_logon_type_names(names: &[&str]) -> (set: LogonTypes)
    ensures
        lists(set, super::texts(names@)),
{
    let ghost all = super::texts(names@);
    let mut set = LogonTypes::unstated();
    let mut i: usize = 0;
    while i < names.len()
        invariant
            i <= names@.len(),
            all == super::texts(names@),
            set.other == 0,
            forall|logon_type: LogonType|
                set.holds(logon_type) <==> exists|j: int|
                    0 <= j < i && logon_type_named(#[trigger] all[j]) == Some(logon_type),
        decreases names@.len() - i,
    {
        let ghost before = set;
        assert(all[i as int] == names@[i as int]@);
        if let Some(logon_type) = logon_type_by_name(names[i]) {
            set = set.with(logon_type);
        }
        proof {
            assert forall|logon_type: LogonType|
                set.holds(logon_type) <==> exists|j: int|
                    0 <= j < i + 1 && logon_type_named(#[trigger] all[j]) == Some(logon_type) by {
                if set.holds(logon_type) && !before.holds(logon_type) {
                    assert(logon_type_named(all[i as int]) == Some(logon_type));
                }
                if before.holds(logon_type) {
                    let j = choose|j: int|
                        0 <= j < i && logon_type_named(#[trigger] all[j]) == Some(logon_type);
                    assert(logon_type_named(all[j]) == Some(logon_type));
                }
            }
        }
        i += 1;
    }
    set
}

/// Read a `REG_MULTI_SZ` of logon-type names.
pub fn logon_types_of(value: &Value) -> (set: Option<LogonTypes>)
    ensures
        set is Some <==> super::multi_sz_of(value.ty, value.data@) is Some,
        set matches Some(found) ==> lists(found, super::multi_sz_of(value.ty, value.data@)->0),
{
    match multi_sz(&value.ty, value.data.as_slice()) {
        Some(names) => Some(parse_logon_type_names(names.as_slice())),
        None => None,
    }
}

/// Everything the known names in a list stand for.
pub open spec fn known(parsed: Seq<Option<Privileges>>) -> u64
    decreases parsed.len(),
{
    if parsed.len() == 0 {
        0
    } else {
        match parsed.last() {
            Some(set) => known(parsed.drop_last()) | set.bits,
            None => known(parsed.drop_last()),
        }
    }
}

/// The set a `REG_MULTI_SZ` of privilege names grants, given what each name was
/// found to stand for.
///
/// An unknown name is **dropped rather than failing the whole list**. The names
/// are an ABI vocabulary that grows: a policy written for a newer system can
/// legitimately mention a privilege this build cannot name, and refusing the
/// entire record would take away privileges the administrator did spell
/// correctly. Dropping the one grants strictly less, which is the safe direction
/// for a grant.
pub fn privilege_list(parsed: &[Option<Privileges>]) -> (set: Privileges)
    ensures
        set.bits == known(parsed@),
{
    let mut set = Privileges::empty();
    let mut i: usize = 0;
    assert(parsed@.take(0) =~= Seq::empty());
    while i < parsed.len()
        invariant
            i <= parsed@.len(),
            set.bits == known(parsed@.take(i as int)),
        decreases parsed@.len() - i,
    {
        proof {
            assert(parsed@.take(i + 1).drop_last() =~= parsed@.take(i as int));
            assert(parsed@.take(i + 1).last() == parsed@[i as int]);
        }
        if let Some(more) = parsed[i] {
            set = set.union(more);
        }
        i += 1;
    }
    assert(parsed@.take(i as int) =~= parsed@);
    set
}

/// The principal a name means: a well-known name first, then the SID the name
/// literally spells, if it spells one.
pub open spec fn resolved(name: Seq<char>, literal: Option<SidModel>) -> Option<SidModel> {
    match well_known::named(name) {
        Some(entry) => Some(entry.model()),
        None => literal,
    }
}

/// A record's key name as the SID it means. Well-known name first, then a
/// literal SID.
///
/// `literal` is what reading the trimmed name as a SID came to.
pub fn resolve(name: &str, literal: Option<Sid>) -> (sid: Option<Sid>)
    ensures
        crate::sid::maybe(sid) == resolved(name@, crate::sid::maybe(literal)),
{
    match well_known::by_name(name) {
        Some(sid) => Some(sid),
        None => literal,
    }
}

/// Read the principal a record names as the owner of created objects.
///
/// Named rather than indexed, deliberately. The token field is an *index* into
/// the token's own SID array, a number which would mean something different on
/// the next logon; a policy key has to name the principal.
///
/// `literal` is what reading the value's text as a SID came to.
pub fn owner_of(value: &Value, literal: Option<Sid>) -> (owner: Option<Sid>)
    ensures
        crate::sid::maybe(owner) == (match super::sz_of(value.ty, value.data@) {
            Some(text) => resolved(text, crate::sid::maybe(literal)),
            None => None,
        }),
{
    match sz(&value.ty, value.data.as_slice()) {
        Some(text) => resolve(text, literal),
        None => None,
    }
}

/// Read a record's default DACL, written as SDDL.
///
/// SDDL rather than raw bytes because this has to be *auditable*: the whole
/// argument for policy living in the registry is that an operator can read it.
///
/// A malformed value is dropped rather than failing the logon. The kernel's own
/// default applies instead, so a typo here costs the customisation, not the
/// session.
///
/// `parsed` is what reading the value's text as SDDL came to.
pub fn default_dacl_of(value: &Value, parsed: Option<Acl>) -> (acl: Option<Acl>)
    ensures
        maybe_acl(acl) == (if super::sz_of(value.ty, value.data@) is Some {
            maybe_acl(parsed)
        } else {
            None
        }),
{
    match sz(&value.ty, value.data.as_slice()) {
        Some(_) => parsed,
        None => None,
    }
}

/// The configured SDDL for the logon socket, if a site has stated one.
///
/// Read once at startup rather than per logon: a descriptor is applied to the
/// socket when it is bound, and rereading a value that can no longer be applied
/// would only misreport what is in force.
pub fn logon_socket_descriptor(value: Option<&Value>) -> (text: Option<String>)
    ensures
        text is Some <==> value is Some && super::sz_of(value->0.ty, value->0.data@) is Some,
        text matches Some(found) ==> found@ == super::sz_of(value->0.ty, value->0.data@)->0,
{
    match value {
        Some(value) => match sz(&value.ty, value.data.as_slice()) {
            Some(text) => Some(text.to_owned()),
            None => None,
        },
        None => None,
    }
}

/// The logon types the peer may originate.
///
/// Consulted with the socket peer's user SID and nothing else: no group union,
/// deliberately. Origination is checked before any token exists, so there is no
/// final SID set to evaluate against; the socket yields exactly one verified
/// identity, and a right this consequential should be granted to it by name
/// rather than assembled from memberships nobody stated together.
///
/// `None` means no record speaks to it. What that defaults to is the caller's
/// decision, not this module's.
pub fn originator_logon_types(configured: &Configured, peer: &Sid) -> (set: Option<LogonTypes>)
    ensures
        set == (match record_for(models(configured.records@), peer@) {
            Some(record) => record.logon_types,
            None => None,
        }),
{
    match find(configured.records.as_slice(), peer) {
        Some(record) => record.entry.logon_types,
        None => None,
    }
}

/// The compiled fallback for a machine with no policy key at all: what
/// everyone is granted there, and nothing more.
///
/// Deliberately the bare minimum for a machine to *function* rather than a
/// useful set: without `SeChangeNotifyPrivilege` a process cannot traverse a
/// directory to reach a file, so a token lacking it cannot exec a shell. A
/// machine whose policy was never seeded still boots, still authenticates, and
/// still starts a session, with no administrative powers whatsoever, which is
/// both safe and obvious.
pub fn floor(change_notify: Privileges) -> (configured: Configured)
    ensures
        is_floor(configured, change_notify),
{
    let mut records: Vec<Record> = Vec::new();
    records.push(
        Record {
            sid: WellKnown::Everyone.sid(),
            entry: Entry {
                privileges: Some(change_notify),
                integrity: None,
                owner: None,
                default_dacl: None,
                logon_types: None,
            },
        },
    );
    assert(models(records@) =~= seq![records@[0]@]);
    Configured { records, denied: Privileges::empty() }
}

/// One record, for `Everyone`, that speaks of privileges alone; and nothing
/// denied.
pub open spec fn is_floor(configured: Configured, change_notify: Privileges) -> bool {
    &&& configured.denied.bits == 0
    &&& models(configured.records@) == seq![
        RecordModel {
            sid: WellKnown::Everyone.model(),
            privileges: Some(change_notify.bits),
            integrity: None,
            owner: None,
            default_dacl: None,
            logon_types: None,
        },
    ]
}

/// What opening the policy key came to.
#[derive(Debug, Clone, Copy, PartialEq, Eq, Structural)]
pub enum Opened {
    /// There is no such key.
    Absent,
    /// There is one, and it could not be read.
    Unreadable,
    /// It is open.
    Present,
}

/// How reading the policy goes on from there.
pub enum Reading {
    /// There is nothing to read: this is the policy.
    Settled(Configured),
    /// The key's subkeys are to be offered, one by one.
    Underway(Reader),
}

/// What became of one subkey.
#[derive(Debug, Clone, Copy, PartialEq, Eq, Structural)]
pub enum Offered {
    /// No more records are taken.
    Full,
    /// Its name is not text.
    NotText,
    /// It names neither a well-known principal nor a SID.
    Nobody,
    /// It could not be read, so it grants nothing.
    Unreadable,
    /// It is a record of the policy.
    Taken,
}

/// Policy records as they are read.
pub struct Reader {
    records: Vec<Record>,
}

impl View for Reader {
    type V = Seq<RecordModel>;

    closed spec fn view(&self) -> Seq<RecordModel> {
        models(self.records@)
    }
}

/// What becomes of a subkey, given the records so far, its name, the SID its
/// name literally spells, and whether it could be read.
pub open spec fn fate(
    so_far: nat,
    name: Seq<u8>,
    literal: Option<SidModel>,
    readable: bool,
) -> Offered {
    if so_far >= MAX_RECORDS {
        Offered::Full
    } else if !vstd::utf8::valid_utf8(name) {
        Offered::NotText
    } else if resolved(vstd::utf8::decode_utf8(name), literal) is None {
        Offered::Nobody
    } else if !readable {
        Offered::Unreadable
    } else {
        Offered::Taken
    }
}

/// Start reading the policy.
///
/// A key that is present but unreadable (a descriptor that locked the authority
/// out, or a damaged hive) grants nothing. Treating it as absent would silently
/// restore every privilege an administrator may have deliberately removed, at
/// the one moment nobody can check.
pub fn read(opened: Opened, change_notify: Privileges) -> (reading: Reading)
    ensures
        opened == Opened::Absent ==> (reading matches Reading::Settled(configured) && is_floor(
            configured,
            change_notify,
        )),
        opened == Opened::Unreadable ==> (reading matches Reading::Settled(configured)
            && configured.records@.len() == 0 && configured.denied.bits == 0),
        opened == Opened::Present ==> (reading matches Reading::Underway(reader) && reader@.len()
            == 0),
{
    match opened {
        Opened::Absent => Reading::Settled(floor(change_notify)),
        Opened::Unreadable => Reading::Settled(
            Configured { records: Vec::new(), denied: Privileges::empty() },
        ),
        Opened::Present => Reading::Underway(Reader { records: Vec::new() }),
    }
}

impl Reader {
    #[verifier::type_invariant]
    spec fn bounded(self) -> bool {
        self.records@.len() <= MAX_RECORDS
    }

    /// Whether another record would be taken.
    pub fn wants_more(&self) -> (yes: bool)
        ensures
            yes <==> self@.len() < MAX_RECORDS,
    {
        self.records.len() < MAX_RECORDS
    }

    /// Offer the next subkey: its name, the SID its trimmed name literally
    /// spells, and what it says if it could be read.
    ///
    /// Resolving here, once, is what makes a mistyped principal *visible*. A
    /// record naming nobody would otherwise sit in the key looking authoritative
    /// and applying to no one, forever.
    pub fn offer(&mut self, name: &[u8], literal: Option<Sid>, entry: Option<Entry>) -> (offered:
        Offered)
        ensures
            offered == fate(
                old(self)@.len(),
                name@,
                crate::sid::maybe(literal),
                entry is Some,
            ),
            offered != Offered::Taken ==> final(self)@ == old(self)@,
            offered == Offered::Taken ==> final(self)@ == old(self)@.push(
                record_of(
                    resolved(vstd::utf8::decode_utf8(name@), crate::sid::maybe(literal))->0,
                    entry->0,
                ),
            ),
    {
        if self.records.len() >= MAX_RECORDS {
            return Offered::Full;
        }
        let text = match text::utf8(name) {
            Some(text) => text,
            None => return Offered::NotText,
        };
        let sid = match resolve(text, literal) {
            Some(sid) => sid,
            None => return Offered::Nobody,
        };
        let entry = match entry {
            Some(entry) => entry,
            None => return Offered::Unreadable,
        };
        let record = Record { sid, entry };
        let ghost before = models(self.records@);
        let mut records: Vec<Record> = Vec::new();
        std::mem::swap(&mut records, &mut self.records);
        records.push(record);
        assert(models(records@) =~= before.push(record@));
        self.records = records;
        Offered::Taken
    }

    /// Everything the key says, given the privileges it denies outright.
    pub fn finish(self, denied: Option<Privileges>) -> (configured: Configured)
        ensures
            models(configured.records@) == self@,
            configured.records@.len() <= MAX_RECORDS,
            configured.denied.bits == (match denied {
                Some(set) => set.bits,
                None => 0,
            }),
    {
        proof {
            use_type_invariant(&self);
        }
        let denied = match denied {
            Some(set) => set,
            None => Privileges::empty(),
        };
        Configured { records: self.records, denied }
    }
}

/// No logon holds a privilege the machine denies, whatever any record says.
pub proof fn law_a_denied_privilege_is_never_held(
    configured: Configured,
    user: SidModel,
    groups: Seq<SidModel>,
)
    ensures
        decided(configured, user, groups).privileges & configured.denied.bits == 0,
{
    let (held, denied) = (granted(models(configured.records@), user, groups), configured.denied.bits);
    assert((held & !denied) & denied == 0) by (bit_vector);
}

/// Whether a record grants some of these privileges to a token.
pub open spec fn grants(
    record: RecordModel,
    user: SidModel,
    groups: Seq<SidModel>,
    privileges: u64,
) -> bool {
    applies(record, user, groups) && (record.privileges matches Some(set) && set & privileges != 0)
}

/// What is granted is what some record grants.
proof fn lemma_granted(
    records: Seq<RecordModel>,
    user: SidModel,
    groups: Seq<SidModel>,
    privileges: u64,
)
    ensures
        granted(records, user, groups) & privileges != 0 <==> exists|i: int|
            0 <= i < records.len() && grants(#[trigger] records[i], user, groups, privileges),
    decreases records.len(),
{
    if records.len() == 0 {
        assert(0u64 & privileges == 0) by (bit_vector);
    } else {
        let front = records.drop_last();
        let end = records.len() - 1;
        lemma_granted(front, user, groups, privileges);
        let rest = granted(front, user, groups);
        if let Some(more) = records.last().privileges {
            assert((rest | more) & privileges != 0 <==> (rest & privileges != 0 || more & privileges
                != 0)) by (bit_vector);
        }
        if rest & privileges != 0 {
            let i = choose|i: int|
                0 <= i < front.len() && grants(#[trigger] front[i], user, groups, privileges);
            assert(grants(records[i], user, groups, privileges));
        }
        if exists|i: int|
            0 <= i < records.len() && grants(#[trigger] records[i], user, groups, privileges) {
            let i = choose|i: int|
                0 <= i < records.len() && grants(#[trigger] records[i], user, groups, privileges);
            if i < end {
                assert(grants(front[i], user, groups, privileges));
            }
        }
        if grants(records.last(), user, groups, privileges) {
            assert(grants(records[end], user, groups, privileges));
        }
    }
}

/// A logon holds a privilege exactly where some record for a SID its token
/// carries grants it and the machine does not deny it. Nothing else contributes.
pub proof fn law_a_privilege_comes_from_a_record(
    configured: Configured,
    user: SidModel,
    groups: Seq<SidModel>,
    bit: u64,
)
    requires
        bit < 64,
    ensures
        decided(configured, user, groups).privileges & (1u64 << bit) != 0 <==> (
        configured.denied.bits & (1u64 << bit) == 0 && exists|i: int|
            0 <= i < configured.records@.len() && grants(
                (#[trigger] configured.records@[i])@,
                user,
                groups,
                1u64 << bit,
            )),
{
    let records = models(configured.records@);
    let (held, denied) = (granted(records, user, groups), configured.denied.bits);
    lemma_granted(records, user, groups, 1u64 << bit);
    assert((held & !denied) & (1u64 << bit) != 0 <==> (held & (1u64 << bit) != 0 && denied & (1u64
        << bit) == 0)) by (bit_vector)
        requires
            bit < 64,
    ;
    if held & (1u64 << bit) != 0 {
        let i = choose|i: int|
            0 <= i < records.len() && grants(#[trigger] records[i], user, groups, 1u64 << bit);
        assert(grants(configured.records@[i]@, user, groups, 1u64 << bit));
    }
    if exists|i: int|
        0 <= i < configured.records@.len() && grants(
            (#[trigger] configured.records@[i])@,
            user,
            groups,
            1u64 << bit,
        ) {
        let i = choose|i: int|
            0 <= i < configured.records@.len() && grants(
                (#[trigger] configured.records@[i])@,
                user,
                groups,
                1u64 << bit,
            );
        assert(grants(records[i], user, groups, 1u64 << bit));
    }
}

/// The user's own record decides the integrity level outright, however high or
/// low any group's is: a group cannot impose a floor on a member.
pub proof fn law_the_users_own_level_wins(
    records: Seq<RecordModel>,
    user: SidModel,
    groups: Seq<SidModel>,
)
    requires
        integrity_said(records, user) is Some,
    ensures
        level_of(records, user, groups) == integrity_said(records, user)->0,
{
}

/// Without a level of the user's own, the level is some group's, and no group
/// names a higher one; or nobody names one and it is the default.
pub proof fn law_groups_compose_by_maximum(
    records: Seq<RecordModel>,
    user: SidModel,
    groups: Seq<SidModel>,
)
    requires
        integrity_said(records, user) is None,
    ensures
        forall|i: int|
            0 <= i < groups.len() ==> (integrity_said(records, #[trigger] groups[i]) matches Some(
                level,
            ) ==> level <= level_of(records, user, groups)),
        (exists|i: int|
            0 <= i < groups.len() && integrity_said(records, #[trigger] groups[i]) == Some(
                level_of(records, user, groups),
            )) || (level_of(records, user, groups) == DEFAULT_INTEGRITY && forall|i: int|
            0 <= i < groups.len() ==> integrity_said(records, #[trigger] groups[i]) is None),
{
    let said = groups.map_values(|group: SidModel| integrity_said(records, group));
    lemma_highest(said);
    assert forall|i: int| 0 <= i < groups.len() implies said[i] == integrity_said(
        records,
        #[trigger] groups[i],
    ) by {}
    if exists|at: int| tops(said, at) {
        let at = choose|at: int| tops(said, at);
        assert(integrity_said(records, groups[at]) == said[at]);
        assert forall|i: int| 0 <= i < groups.len() implies (integrity_said(
            records,
            #[trigger] groups[i],
        ) matches Some(level) ==> level <= level_of(records, user, groups)) by {
            assert(said[i] == integrity_said(records, groups[i]));
        }
    } else {
        assert forall|i: int| 0 <= i < groups.len() implies integrity_said(
            records,
            #[trigger] groups[i],
        ) is None by {
            assert(said[i] == integrity_said(records, groups[i]));
        }
    }
}

/// If anyone named a level, somebody named the highest.
proof fn lemma_highest(said: Seq<Option<u32>>)
    ensures
        (exists|at: int| tops(said, at)) || forall|j: int|
            0 <= j < said.len() ==> (#[trigger] said[j]) is None,
    decreases said.len(),
{
    if said.len() > 0 {
        let rest = said.drop_last();
        lemma_highest(rest);
        let end = said.len() - 1;
        if exists|at: int| tops(rest, at) {
            let at = choose|at: int| tops(rest, at);
            assert(rest[at] == said[at]);
            if said[end] is Some && said[end]->0 > said[at]->0 {
                assert forall|j: int| 0 <= j < said.len() && said[j] is Some implies said[j]->0
                    <= said[end]->0 by {
                    if j < end {
                        assert(rest[j] == said[j]);
                    }
                }
                assert(tops(said, end));
            } else {
                assert forall|j: int| 0 <= j < said.len() && said[j] is Some implies said[j]->0
                    <= said[at]->0 by {
                    if j < end {
                        assert(rest[j] == said[j]);
                    }
                }
                assert(tops(said, at));
            }
        } else {
            assert forall|j: int| 0 <= j < end implies (#[trigger] said[j]) is None by {
                assert(rest[j] == said[j]);
            }
            if said[end] is Some {
                assert(tops(said, end));
            }
        }
    }
}

/// A record for a principal the token does not carry changes nothing.
pub proof fn law_a_record_for_somebody_else_changes_nothing(
    records: Seq<RecordModel>,
    other: RecordModel,
    user: SidModel,
    groups: Seq<SidModel>,
)
    requires
        !applies(other, user, groups),
    ensures
        granted(records.push(other), user, groups) == granted(records, user, groups),
        level_of(records.push(other), user, groups) == level_of(records, user, groups),
        owner_of_created(records.push(other), user, groups) == owner_of_created(
            records,
            user,
            groups,
        ),
        dacl_of_created(records.push(other), user, groups) == dacl_of_created(
            records,
            user,
            groups,
        ),
{
    let more = records.push(other);
    assert(more.drop_last() =~= records);
    lemma_push_other(records, other, user);
    assert forall|i: int| 0 <= i < groups.len() implies record_for(more, #[trigger] groups[i])
        == record_for(records, groups[i]) by {
        assert(groups.contains(groups[i]));
        lemma_push_other(records, other, groups[i]);
    }
    assert(groups.map_values(|group: SidModel| integrity_said(more, group)) =~= groups.map_values(
        |group: SidModel| integrity_said(records, group),
    ));
    assert(groups.map_values(|group: SidModel| owner_said(more, group)) =~= groups.map_values(
        |group: SidModel| owner_said(records, group),
    ));
    assert(groups.map_values(|group: SidModel| dacl_said(more, group)) =~= groups.map_values(
        |group: SidModel| dacl_said(records, group),
    ));
}

proof fn lemma_push_other(records: Seq<RecordModel>, other: RecordModel, sid: SidModel)
    requires
        other.sid != sid,
    ensures
        record_for(records.push(other), sid) == record_for(records, sid),
    decreases records.len(),
{
    let more = records.push(other);
    reveal_with_fuel(record_for, 2);
    if records.len() > 0 {
        assert(more[0] == records[0]);
        assert(more.drop_first() =~= records.drop_first().push(other));
        lemma_push_other(records.drop_first(), other, sid);
    } else {
        assert(more[0] == other);
        assert(more.drop_first() =~= Seq::empty());
    }
}

/// The order of a token's groups, and how often one is mentioned, does not
/// change what policy decides.
pub proof fn law_the_order_of_groups_does_not_matter(
    configured: Configured,
    user: SidModel,
    a: Seq<SidModel>,
    b: Seq<SidModel>,
)
    requires
        forall|sid: SidModel| a.contains(sid) <==> b.contains(sid),
    ensures
        decided(configured, user, a) == decided(configured, user, b),
{
    let records = models(configured.records@);
    lemma_granted_by_set(records, user, a, b);
    let levels = |group: SidModel| integrity_said(records, group);
    let owners = |group: SidModel| owner_said(records, group);
    let dacls = |group: SidModel| dacl_said(records, group);
    lemma_highest_by_set(a, b, levels);
    lemma_agreed_by_set(a, b, owners);
    lemma_agreed_by_set(a, b, dacls);
    assert(a.map_values(levels) =~= a.map_values(|group: SidModel| integrity_said(records, group)));
    assert(b.map_values(levels) =~= b.map_values(|group: SidModel| integrity_said(records, group)));
    assert(a.map_values(owners) =~= a.map_values(|group: SidModel| owner_said(records, group)));
    assert(b.map_values(owners) =~= b.map_values(|group: SidModel| owner_said(records, group)));
    assert(a.map_values(dacls) =~= a.map_values(|group: SidModel| dacl_said(records, group)));
    assert(b.map_values(dacls) =~= b.map_values(|group: SidModel| dacl_said(records, group)));
}

proof fn lemma_granted_by_set(
    records: Seq<RecordModel>,
    user: SidModel,
    a: Seq<SidModel>,
    b: Seq<SidModel>,
)
    requires
        forall|sid: SidModel| a.contains(sid) <==> b.contains(sid),
    ensures
        granted(records, user, a) == granted(records, user, b),
    decreases records.len(),
{
    if records.len() > 0 {
        lemma_granted_by_set(records.drop_last(), user, a, b);
        assert(a.contains(records.last().sid) <==> b.contains(records.last().sid));
    }
}

/// Whatever is said at a position of one list is said somewhere in the other.
proof fn lemma_said_elsewhere<T>(
    a: Seq<SidModel>,
    b: Seq<SidModel>,
    says: spec_fn(SidModel) -> Option<T>,
    i: int,
) -> (j: int)
    requires
        forall|sid: SidModel| a.contains(sid) <==> b.contains(sid),
        0 <= i < a.len(),
    ensures
        0 <= j < b.len(),
        b.map_values(says)[j] == a.map_values(says)[i],
{
    assert(a.contains(a[i]));
    assert(b.contains(a[i]));
    let j = choose|j: int| 0 <= j < b.len() && b[j] == a[i];
    j
}

proof fn lemma_agreed_one_way<T>(
    a: Seq<SidModel>,
    b: Seq<SidModel>,
    says: spec_fn(SidModel) -> Option<T>,
    at: int,
)
    requires
        forall|sid: SidModel| a.contains(sid) <==> b.contains(sid),
        decides(a.map_values(says), at),
    ensures
        exists|k: int| decides(b.map_values(says), k),
        agreed(b.map_values(says)) == a.map_values(says)[at],
{
    let (sa, sb) = (a.map_values(says), b.map_values(says));
    let k = lemma_said_elsewhere(a, b, says, at);
    assert forall|j: int| 0 <= j < sb.len() && sb[j] is Some implies sb[j] == sb[k] by {
        let i = lemma_said_elsewhere(b, a, says, j);
        assert(sa[i] == sb[j]);
        assert(sa[i] == sa[at]);
    }
    assert(decides(sb, k));
    let chosen = choose|k: int| decides(sb, k);
    assert(sb[k] == sb[chosen]);
}

proof fn lemma_agreed_by_set<T>(
    a: Seq<SidModel>,
    b: Seq<SidModel>,
    says: spec_fn(SidModel) -> Option<T>,
)
    requires
        forall|sid: SidModel| a.contains(sid) <==> b.contains(sid),
    ensures
        agreed(a.map_values(says)) == agreed(b.map_values(says)),
{
    if exists|at: int| decides(a.map_values(says), at) {
        lemma_agreed_one_way(a, b, says, choose|at: int| decides(a.map_values(says), at));
    } else if exists|at: int| decides(b.map_values(says), at) {
        lemma_agreed_one_way(b, a, says, choose|at: int| decides(b.map_values(says), at));
    }
}

proof fn lemma_highest_one_way(
    a: Seq<SidModel>,
    b: Seq<SidModel>,
    says: spec_fn(SidModel) -> Option<u32>,
    at: int,
)
    requires
        forall|sid: SidModel| a.contains(sid) <==> b.contains(sid),
        tops(a.map_values(says), at),
    ensures
        exists|k: int| tops(b.map_values(says), k),
        highest(b.map_values(says)) == a.map_values(says)[at],
{
    let (sa, sb) = (a.map_values(says), b.map_values(says));
    let k = lemma_said_elsewhere(a, b, says, at);
    assert forall|j: int| 0 <= j < sb.len() && sb[j] is Some implies sb[j]->0 <= sb[k]->0 by {
        let i = lemma_said_elsewhere(b, a, says, j);
        assert(sa[i]->0 <= sa[at]->0);
    }
    assert(tops(sb, k));
    let chosen = choose|k: int| tops(sb, k);
    assert(sb[k]->0 <= sb[chosen]->0);
    assert(sb[chosen]->0 <= sb[k]->0);
}

proof fn lemma_highest_by_set(
    a: Seq<SidModel>,
    b: Seq<SidModel>,
    says: spec_fn(SidModel) -> Option<u32>,
)
    requires
        forall|sid: SidModel| a.contains(sid) <==> b.contains(sid),
    ensures
        highest(a.map_values(says)) == highest(b.map_values(says)),
{
    if exists|at: int| tops(a.map_values(says), at) {
        let at = choose|at: int| tops(a.map_values(says), at);
        lemma_highest_one_way(a, b, says, at);
    } else if exists|at: int| tops(b.map_values(says), at) {
        let at = choose|at: int| tops(b.map_values(says), at);
        lemma_highest_one_way(b, a, says, at);
    }
}

/// On a machine with no policy key, a logon holds at most the one privilege the
/// floor grants, and holds it exactly when the token carries `Everyone`.
pub proof fn law_the_floor_grants_one_thing(
    configured: Configured,
    change_notify: Privileges,
    user: SidModel,
    groups: Seq<SidModel>,
)
    requires
        is_floor(configured, change_notify),
    ensures
        decided(configured, user, groups).privileges == (if user == WellKnown::Everyone.model()
            || groups.contains(WellKnown::Everyone.model()) {
            change_notify.bits
        } else {
            0
        }),
        decided(configured, user, groups).integrity == DEFAULT_INTEGRITY,
        decided(configured, user, groups).owner is None,
        decided(configured, user, groups).default_dacl is None,
{
    let records = models(configured.records@);
    reveal_with_fuel(granted, 2);
    reveal_with_fuel(record_for, 2);
    assert(records.drop_last() =~= Seq::empty());
    assert(records.drop_first() =~= Seq::empty());
    let more = change_notify.bits;
    assert((0u64 | more) & !0u64 == more) by (bit_vector);
    assert(0u64 & !0u64 == 0) by (bit_vector);
    let levels = groups.map_values(|group: SidModel| integrity_said(records, group));
    let owners = groups.map_values(|group: SidModel| owner_said(records, group));
    let dacls = groups.map_values(|group: SidModel| dacl_said(records, group));
    assert forall|sid: SidModel| (#[trigger] record_for(records, sid)) matches Some(record)
        ==> record == records[0] by {}
    assert forall|at: int| !tops(levels, at) by {}
    assert forall|at: int| !decides(owners, at) by {}
    assert forall|at: int| !decides(dacls, at) by {}
}

/// An unreadable policy grants nothing.
pub proof fn law_an_unreadable_policy_grants_nothing(
    configured: Configured,
    user: SidModel,
    groups: Seq<SidModel>,
)
    requires
        configured.records@.len() == 0,
    ensures
        decided(configured, user, groups).privileges == 0,
{
    let denied = configured.denied.bits;
    assert(0u64 & !denied == 0) by (bit_vector);
}

/// Every tier's name reads back as that tier.
pub proof fn law_every_tier_round_trips(level: u32, other: u32)
    requires
        tier_called(level) is Some,
    ensures
        names_tier(tier_called(level)->0, other) <==> other == level,
{
    reveal_strlit("Untrusted");
    reveal_strlit("Low");
    reveal_strlit("Medium");
    reveal_strlit("High");
    reveal_strlit("System");
    let name = tier_called(level)->0;
    assert(!text::blank(name[0]));
    assert(!text::blank(name[name.len() - 1]));
    assert(name.last() == name[name.len() - 1]);
    assert(text::trimmed(name) == name);
    if names_tier(name, other) {
        lemma_tiers(name, level, other);
    }
}

/// Whether a record is the one that speaks for a SID: no earlier one names it.
pub open spec fn speaks(records: Seq<Record>, sid: SidModel, i: int) -> bool {
    &&& 0 <= i < records.len()
    &&& records[i].sid@ == sid
    &&& forall|j: int| 0 <= j < i ==> (#[trigger] records[j]).sid@ != sid
}

/// Whether the record that speaks for a SID names this integrity level.
pub open spec fn says_level(records: Seq<Record>, sid: SidModel, level: u32) -> bool {
    exists|i: int|
        #[trigger] speaks(records, sid, i) && (records[i].entry.integrity matches Some(said)
            && said.0 == level)
}

/// Whether the record that speaks for a SID names this owner.
pub open spec fn says_owner(records: Seq<Record>, sid: SidModel, owner: SidModel) -> bool {
    exists|i: int|
        #[trigger] speaks(records, sid, i) && (records[i].entry.owner matches Some(said) && said@
            == owner)
}

/// Whether the record that speaks for a SID names this default DACL.
pub open spec fn says_dacl(records: Seq<Record>, sid: SidModel, acl: Seq<u8>) -> bool {
    exists|i: int|
        #[trigger] speaks(records, sid, i) && (records[i].entry.default_dacl matches Some(said)
            && said@ == acl)
}

/// The first record that names a SID is the record for it, and where none names
/// it there is none.
pub proof fn law_the_first_record_speaks(records: Seq<Record>, sid: SidModel)
    ensures
        forall|i: int| #[trigger]
            speaks(records, sid, i) ==> record_for(models(records), sid) == Some(records[i]@),
        record_for(models(records), sid) is Some <==> exists|i: int|
            0 <= i < records.len() && (#[trigger] records[i]).sid@ == sid,
        record_for(models(records), sid) is Some ==> exists|i: int| speaks(records, sid, i),
    decreases records.len(),
{
    let all = models(records);
    if records.len() > 0 {
        let rest = records.drop_first();
        assert(all[0] == records[0]@);
        assert(all.drop_first() =~= models(rest));
        law_the_first_record_speaks(rest, sid);
        if records[0].sid@ == sid {
            assert(speaks(records, sid, 0));
            assert forall|i: int| #[trigger] speaks(records, sid, i) implies record_for(all, sid)
                == Some(records[i]@) by {
                if i > 0 {
                    assert(records[0].sid@ != sid);
                }
            }
        } else {
            assert forall|i: int| #[trigger] speaks(records, sid, i) implies record_for(all, sid)
                == Some(records[i]@) by {
                assert(rest[i - 1] == records[i]);
                assert forall|j: int| 0 <= j < i - 1 implies (#[trigger] rest[j]).sid@ != sid by {
                    assert(records[j + 1] == rest[j]);
                }
                assert(speaks(rest, sid, i - 1));
            }
            if record_for(all, sid) is Some {
                let k = choose|k: int| speaks(rest, sid, k);
                assert(records[k + 1] == rest[k]);
                assert forall|j: int| 0 <= j < k + 1 implies (#[trigger] records[j]).sid@ != sid by {
                    if j > 0 {
                        assert(rest[j - 1] == records[j]);
                    }
                }
                assert(speaks(records, sid, k + 1));
            }
            if exists|i: int| 0 <= i < records.len() && (#[trigger] records[i]).sid@ == sid {
                let i = choose|i: int| 0 <= i < records.len() && (#[trigger] records[i]).sid@ == sid;
                assert(rest[i - 1].sid@ == sid);
            }
        }
    }
}

/// What a record is found to say of a SID is what the record that speaks for it
/// says.
proof fn lemma_said(records: Seq<Record>, sid: SidModel)
    ensures
        forall|level: u32|
            integrity_said(models(records), sid) == Some(level) <==> #[trigger] says_level(
                records,
                sid,
                level,
            ),
        forall|owner: SidModel|
            owner_said(models(records), sid) == Some(owner) <==> #[trigger] says_owner(
                records,
                sid,
                owner,
            ),
        forall|acl: Seq<u8>|
            dacl_said(models(records), sid) == Some(acl) <==> #[trigger] says_dacl(
                records,
                sid,
                acl,
            ),
{
    let all = models(records);
    law_the_first_record_speaks(records, sid);
    if record_for(all, sid) is Some {
        let i = choose|i: int| speaks(records, sid, i);
        assert(record_for(all, sid) == Some(records[i]@));
    }
}

/// Something is agreed on exactly where somebody says it and nobody says anything
/// else.
proof fn lemma_agreed<T>(said: Seq<Option<T>>, what: T)
    ensures
        agreed(said) == Some(what) <==> {
            &&& exists|k: int| 0 <= k < said.len() && #[trigger] said[k] == Some(what)
            &&& forall|k: int| 0 <= k < said.len() && (#[trigger] said[k]) is Some ==> said[k] == Some(what)
        },
{
    if agreed(said) == Some(what) {
        let at = choose|at: int| decides(said, at);
        assert(said[at] == Some(what));
    }
    if exists|k: int| 0 <= k < said.len() && #[trigger] said[k] == Some(what) {
        let k = choose|k: int| 0 <= k < said.len() && #[trigger] said[k] == Some(what);
        if forall|k: int| 0 <= k < said.len() && (#[trigger] said[k]) is Some ==> said[k] == Some(what) {
            assert(decides(said, k));
        }
    }
}

/// Who owns what a logon creates: whoever the user's own record names; where it
/// names nobody, or there is no such record, the one every group's record that
/// names anybody names, where some group's does. Otherwise nobody is named.
pub proof fn law_who_owns_what_a_logon_creates(
    configured: Configured,
    user: SidModel,
    groups: Seq<SidModel>,
    owner: SidModel,
)
    ensures
        ({
            let records = configured.records@;
            decided(configured, user, groups).owner == Some(owner) <==> {
                ||| says_owner(records, user, owner)
                ||| {
                    &&& forall|other: SidModel| !says_owner(records, user, other)
                    &&& exists|k: int|
                        0 <= k < groups.len() && says_owner(records, #[trigger] groups[k], owner)
                    &&& forall|k: int, other: SidModel|
                        0 <= k < groups.len() && #[trigger] says_owner(records, groups[k], other)
                            ==> other == owner
                }
            }
        }),
        owner_of_created(models(configured.records@), user, groups) == decided(
            configured,
            user,
            groups,
        ).owner,
{
    let records = configured.records@;
    let all = models(records);
    let said = groups.map_values(|group: SidModel| owner_said(all, group));
    lemma_said(records, user);
    assert forall|k: int, other: SidModel| 0 <= k < groups.len() implies (said[k] == Some(other)
        <==> #[trigger] says_owner(records, groups[k], other)) by {
        lemma_said(records, groups[k]);
        assert(said[k] == owner_said(all, groups[k]));
    }
    lemma_agreed(said, owner);
    if owner_said(all, user) is Some {
        assert(says_owner(records, user, owner_said(all, user)->0));
    } else {
        if agreed(said) == Some(owner) {
            let k = choose|k: int| 0 <= k < said.len() && #[trigger] said[k] == Some(owner);
            assert(says_owner(records, groups[k], owner));
        }
        if exists|k: int|
            0 <= k < groups.len() && says_owner(records, #[trigger] groups[k], owner) {
            let k = choose|k: int|
                0 <= k < groups.len() && says_owner(records, #[trigger] groups[k], owner);
            assert(said[k] == Some(owner));
            assert forall|k: int| 0 <= k < said.len() && (#[trigger] said[k]) is Some && (forall|
                k: int,
                other: SidModel,
            |
                0 <= k < groups.len() && #[trigger] says_owner(records, groups[k], other) ==> other
                    == owner) implies said[k] == Some(owner) by {
                assert(says_owner(records, groups[k], said[k]->0));
            }
        }
    }
}

/// What a logon's objects inherit: the list the user's own record names; where it
/// names none, or there is no such record, the one every group's record that names
/// one names, where some group's does. Otherwise none is named.
pub proof fn law_what_a_logons_objects_inherit(
    configured: Configured,
    user: SidModel,
    groups: Seq<SidModel>,
    acl: Seq<u8>,
)
    ensures
        ({
            let records = configured.records@;
            decided(configured, user, groups).default_dacl == Some(acl) <==> {
                ||| says_dacl(records, user, acl)
                ||| {
                    &&& forall|other: Seq<u8>| !says_dacl(records, user, other)
                    &&& exists|k: int|
                        0 <= k < groups.len() && says_dacl(records, #[trigger] groups[k], acl)
                    &&& forall|k: int, other: Seq<u8>|
                        0 <= k < groups.len() && #[trigger] says_dacl(records, groups[k], other)
                            ==> other == acl
                }
            }
        }),
        dacl_of_created(models(configured.records@), user, groups) == decided(
            configured,
            user,
            groups,
        ).default_dacl,
{
    let records = configured.records@;
    let all = models(records);
    let said = groups.map_values(|group: SidModel| dacl_said(all, group));
    lemma_said(records, user);
    assert forall|k: int, other: Seq<u8>| 0 <= k < groups.len() implies (said[k] == Some(other)
        <==> #[trigger] says_dacl(records, groups[k], other)) by {
        lemma_said(records, groups[k]);
        assert(said[k] == dacl_said(all, groups[k]));
    }
    lemma_agreed(said, acl);
    if dacl_said(all, user) is Some {
        assert(says_dacl(records, user, dacl_said(all, user)->0));
    } else {
        if agreed(said) == Some(acl) {
            let k = choose|k: int| 0 <= k < said.len() && #[trigger] said[k] == Some(acl);
            assert(says_dacl(records, groups[k], acl));
        }
        if exists|k: int| 0 <= k < groups.len() && says_dacl(records, #[trigger] groups[k], acl) {
            let k = choose|k: int|
                0 <= k < groups.len() && says_dacl(records, #[trigger] groups[k], acl);
            assert(said[k] == Some(acl));
            assert forall|k: int| 0 <= k < said.len() && (#[trigger] said[k]) is Some && (forall|
                k: int,
                other: Seq<u8>,
            |
                0 <= k < groups.len() && #[trigger] says_dacl(records, groups[k], other) ==> other
                    == acl) implies said[k] == Some(acl) by {
                assert(says_dacl(records, groups[k], said[k]->0));
            }
        }
    }
}

/// How far a logon is trusted: as far as the user's own record says; where it says
/// nothing, or there is no such record, as far as the highest any group's record
/// says; and 8192 where nobody's says.
pub proof fn law_how_far_a_logon_is_trusted(
    configured: Configured,
    user: SidModel,
    groups: Seq<SidModel>,
    level: u32,
)
    ensures
        ({
            let records = configured.records@;
            decided(configured, user, groups).integrity == level <==> {
                ||| says_level(records, user, level)
                ||| {
                    &&& forall|other: u32| !says_level(records, user, other)
                    &&& exists|k: int|
                        0 <= k < groups.len() && says_level(records, #[trigger] groups[k], level)
                    &&& forall|k: int, other: u32|
                        0 <= k < groups.len() && #[trigger] says_level(records, groups[k], other)
                            ==> other <= level
                }
                ||| {
                    &&& level == 8192
                    &&& forall|other: u32| !says_level(records, user, other)
                    &&& forall|k: int, other: u32|
                        0 <= k < groups.len() ==> !#[trigger] says_level(records, groups[k], other)
                }
            }
        }),
        level_of(models(configured.records@), user, groups) == decided(
            configured,
            user,
            groups,
        ).integrity,
{
    let records = configured.records@;
    let all = models(records);
    lemma_said(records, user);
    assert forall|k: int, other: u32| 0 <= k < groups.len() implies (integrity_said(all, groups[k])
        == Some(other) <==> #[trigger] says_level(records, groups[k], other)) by {
        lemma_said(records, groups[k]);
    }
    if integrity_said(all, user) is Some {
        assert(says_level(records, user, integrity_said(all, user)->0));
    } else {
        law_groups_compose_by_maximum(all, user, groups);
        let top = level_of(all, user, groups);
        assert forall|k: int, other: u32|
            0 <= k < groups.len() && #[trigger] says_level(records, groups[k], other) implies other
            <= top by {
            assert(integrity_said(all, groups[k]) == Some(other));
        }
        if exists|k: int| 0 <= k < groups.len() && integrity_said(all, #[trigger] groups[k]) == Some(top) {
            let k = choose|k: int|
                0 <= k < groups.len() && integrity_said(all, #[trigger] groups[k]) == Some(top);
            assert(says_level(records, groups[k], top));
        }
    }
}

/// A logon holds a privilege exactly where a record that names the user or one of
/// the token's groups lists it, whatever other records say, and the machine does
/// not deny it.
pub proof fn law_what_a_logon_may_do(
    configured: Configured,
    user: SidModel,
    groups: Seq<SidModel>,
    bit: u64,
)
    requires
        bit < 64,
    ensures
        decided(configured, user, groups).privileges & (1u64 << bit) != 0 <==> {
            &&& configured.denied.bits & (1u64 << bit) == 0
            &&& exists|i: int|
                0 <= i < configured.records@.len() && ((#[trigger] configured.records@[i]).sid@
                    == user || exists|k: int|
                    0 <= k < groups.len() && groups[k] == configured.records@[i].sid@) && (
                configured.records@[i].entry.privileges matches Some(set) && set.bits & (1u64
                    << bit) != 0)
        },
        decided(configured, user, groups).privileges & (1u64 << bit) != 0 <==> {
            &&& configured.denied.bits & (1u64 << bit) == 0
            &&& granted(models(configured.records@), user, groups) & (1u64 << bit) != 0
        },
{
    law_a_privilege_comes_from_a_record(configured, user, groups, bit);
    let records = models(configured.records@);
    let (held, denied) = (granted(records, user, groups), configured.denied.bits);
    assert((held & !denied) & (1u64 << bit) != 0 <==> (held & (1u64 << bit) != 0 && denied & (1u64
        << bit) == 0)) by (bit_vector)
        requires
            bit < 64,
    ;
    assert forall|i: int| 0 <= i < configured.records@.len() implies (grants(
        (#[trigger] configured.records@[i])@,
        user,
        groups,
        1u64 << bit,
    ) <==> (configured.records@[i].sid@ == user || exists|k: int|
        0 <= k < groups.len() && groups[k] == configured.records@[i].sid@) && (
    configured.records@[i].entry.privileges matches Some(set) && set.bits & (1u64 << bit) != 0)) by {
        if groups.contains(configured.records@[i].sid@) {
            let k = choose|k: int| 0 <= k < groups.len() && groups[k] == configured.records@[i].sid@;
            assert(groups[k] == configured.records@[i].sid@);
        }
    }
}

/// A list of privileges grants what any of its known names stands for, and an
/// unknown name takes nothing away.
pub proof fn law_a_list_grants_what_it_names(parsed: Seq<Option<Privileges>>, bit: u64)
    ensures
        known(parsed) & (1u64 << bit) != 0 <==> exists|i: int|
            0 <= i < parsed.len() && ((#[trigger] parsed[i]) matches Some(set) && set.bits & (1u64
                << bit) != 0),
    decreases parsed.len(),
{
    let it = 1u64 << bit;
    if parsed.len() == 0 {
        assert(0u64 & it == 0) by (bit_vector);
    } else {
        let front = parsed.drop_last();
        law_a_list_grants_what_it_names(front, bit);
        let rest = known(front);
        if let Some(set) = parsed.last() {
            let more = set.bits;
            assert((rest | more) & it != 0 <==> (rest & it != 0 || more & it != 0)) by (bit_vector);
        }
        let end = parsed.len() - 1;
        assert(parsed[end] == parsed.last());
        if rest & it != 0 {
            let i = choose|i: int|
                0 <= i < front.len() && ((#[trigger] front[i]) matches Some(set) && set.bits & (1u64
                    << bit) != 0);
            assert(parsed[i] == front[i]);
        }
        if exists|i: int|
            0 <= i < parsed.len() && ((#[trigger] parsed[i]) matches Some(set) && set.bits & (1u64
                << bit) != 0) {
            let i = choose|i: int|
                0 <= i < parsed.len() && ((#[trigger] parsed[i]) matches Some(set) && set.bits & (
                1u64 << bit) != 0);
            if i < end {
                assert(front[i] == parsed[i]);
            }
        }
    }
}

/// Which level each tier's name stands for, however it is capitalised and whatever
/// white space surrounds it.
pub proof fn law_what_each_tier_is(text: Seq<char>)
    ensures
        text::same_word("Untrusted"@, text::trimmed(text)) <==> names_tier(text, 0),
        text::same_word("Low"@, text::trimmed(text)) <==> names_tier(text, 4096),
        text::same_word("Medium"@, text::trimmed(text)) <==> names_tier(text, 8192),
        text::same_word("High"@, text::trimmed(text)) <==> names_tier(text, 12288),
        text::same_word("System"@, text::trimmed(text)) <==> names_tier(text, 16384),
        forall|level: u32|
            names_tier(text, level) ==> level == 0 || level == 4096 || level == 8192 || level
                == 12288 || level == 16384,
{
}

/// What each level is called, and that no other is called anything.
pub proof fn law_what_each_level_is_called(level: u32)
    ensures
        tier_called(0) == Some("Untrusted"@),
        tier_called(4096) == Some("Low"@),
        tier_called(8192) == Some("Medium"@),
        tier_called(12288) == Some("High"@),
        tier_called(16384) == Some("System"@),
        level != 0 && level != 4096 && level != 8192 && level != 12288 && level != 16384
            ==> tier_called(level) is None,
{
}

/// A level written as a number is that number, whether or not a tier has it; one
/// written as text is the tier's; anything else is none.
pub proof fn law_how_a_level_is_written(value: Value, level: u32)
    ensures
        value.ty == super::ValueType::Dword && value.data@.len() == 4 ==> (spells_level(value, level)
            <==> value.data@[0] + value.data@[1] * 256 + value.data@[2] * 65536 + value.data@[3]
            * 16777216 == level),
        value.ty == super::ValueType::Sz ==> (spells_level(value, level) <==> super::sz_of(
            value.ty,
            value.data@,
        ) is Some && names_tier(super::sz_of(value.ty, value.data@)->0, level)),
        value.ty != super::ValueType::Sz && !(value.ty == super::ValueType::Dword
            && value.data@.len() == 4) ==> !spells_level(value, level),
{
}

/// Each kind of logon has one name, and nothing else names a kind.
pub proof fn law_what_each_kind_of_logon_is_called(name: Seq<char>)
    ensures
        name == "Interactive"@ <==> logon_type_named(name) == Some(LogonType::Interactive),
        name == "Network"@ <==> logon_type_named(name) == Some(LogonType::Network),
        name == "Batch"@ <==> logon_type_named(name) == Some(LogonType::Batch),
        name == "Service"@ <==> logon_type_named(name) == Some(LogonType::Service),
        name == "NetworkCleartext"@ <==> logon_type_named(name) == Some(
            LogonType::NetworkCleartext,
        ),
        name == "NewCredentials"@ <==> logon_type_named(name) == Some(LogonType::NewCredentials),
{
    reveal_strlit("Interactive");
    reveal_strlit("Network");
    reveal_strlit("Batch");
    reveal_strlit("Service");
    reveal_strlit("NetworkCleartext");
    reveal_strlit("NewCredentials");
    assert("Interactive"@.len() == 11 && "Network"@.len() == 7 && "Batch"@.len() == 5
        && "Service"@.len() == 7 && "NetworkCleartext"@.len() == 16 && "NewCredentials"@.len()
        == 14);
    assert("Network"@[0] == 'N' && "Service"@[0] == 'S');
}

/// A principal is meant by a well-known name first, and only then by the SID the
/// name spells; a name that is neither means nobody.
pub proof fn law_a_well_known_name_comes_first(name: Seq<char>, literal: Option<SidModel>)
    ensures
        forall|entry: WellKnown|
            well_known::named(name) == Some(entry) ==> resolved(name, literal) == Some(
                #[trigger] entry.model(),
            ),
        well_known::named(name) is None ==> resolved(name, literal) == literal,
{
}

/// A subkey is a record exactly where fewer than 256 were taken before it, its
/// name is text and means somebody, and it could be read.
pub proof fn law_what_becomes_of_a_subkey(
    so_far: nat,
    name: Seq<u8>,
    literal: Option<SidModel>,
    readable: bool,
)
    ensures
        ({
            let offered = fate(so_far, name, literal, readable);
            let somebody = well_known::named(vstd::utf8::decode_utf8(name)) is Some || literal
                is Some;
            let text = vstd::utf8::valid_utf8(name);
            &&& offered == Offered::Full <==> so_far >= 256
            &&& offered == Offered::NotText <==> so_far < 256 && !text
            &&& offered == Offered::Nobody <==> so_far < 256 && text && !somebody
            &&& offered == Offered::Unreadable <==> so_far < 256 && text && somebody && !readable
            &&& offered == Offered::Taken <==> so_far < 256 && text && somebody && readable
        }),
{
}

/// A machine without the key has one record: it is for `Everyone`, it grants the
/// one privilege, and it says nothing else.
pub proof fn law_what_the_floor_is(configured: Configured, change_notify: Privileges)
    requires
        is_floor(configured, change_notify),
    ensures
        configured.denied.bits == 0,
        configured.records@.len() == 1,
        configured.records@[0].sid@ == (SidModel { authority: 1, subs: seq![0u32] }),
        configured.records@[0].entry.privileges == Some(change_notify),
        configured.records@[0].entry.integrity is None,
        configured.records@[0].entry.owner is None,
        configured.records@[0].entry.default_dacl is None,
        configured.records@[0].entry.logon_types is None,
{
    let all = models(configured.records@);
    assert(all.len() == 1);
    assert(all[0] == configured.records@[0]@);
}

/// A caller may originate what the record that speaks for it says, and where no
/// record names it nothing is said.
pub proof fn law_a_caller_originates_what_its_record_says(
    configured: Configured,
    peer: SidModel,
    i: int,
)
    ensures
        speaks(configured.records@, peer, i) ==> (record_for(
            models(configured.records@),
            peer,
        ) matches Some(record) && record.logon_types == configured.records@[i].entry.logon_types),
        (forall|j: int|
            0 <= j < configured.records@.len() ==> (#[trigger] configured.records@[j]).sid@ != peer)
            ==> record_for(models(configured.records@), peer) is None,
{
    law_the_first_record_speaks(configured.records@, peer);
}

/// A list of names is the set of the kinds of logon it names, and what has no name here
/// is not in it.
pub proof fn law_a_list_of_names_is_the_set_of_them(set: LogonTypes, names: Seq<Seq<char>>)
    requires
        lists(set, names),
    ensures
        set.other == 0,
        set.interactive <==> names.contains("Interactive"@),
        set.network <==> names.contains("Network"@),
        set.batch <==> names.contains("Batch"@),
        set.service <==> names.contains("Service"@),
        set.network_cleartext <==> names.contains("NetworkCleartext"@),
        set.new_credentials <==> names.contains("NewCredentials"@),
{
    assert forall|logon_type: LogonType, name: Seq<char>|
        (forall|other: Seq<char>| #[trigger] logon_type_named(other) == Some(logon_type) <==> other == name)
            implies (#[trigger] set.holds(logon_type) <==> #[trigger] names.contains(name)) by {
        if set.holds(logon_type) {
            let i = choose|i: int|
                0 <= i < names.len() && logon_type_named(#[trigger] names[i]) == Some(logon_type);
            assert(names[i] == name);
        }
        if names.contains(name) {
            let i = choose|i: int| 0 <= i < names.len() && names[i] == name;
            assert(logon_type_named(names[i]) == Some(logon_type));
        }
    }
    assert forall|other: Seq<char>|
        (#[trigger] logon_type_named(other) == Some(LogonType::Interactive) <==> other
            == "Interactive"@) && (logon_type_named(other) == Some(LogonType::Network) <==> other
            == "Network"@) && (logon_type_named(other) == Some(LogonType::Batch) <==> other
            == "Batch"@) && (logon_type_named(other) == Some(LogonType::Service) <==> other
            == "Service"@) && (logon_type_named(other) == Some(LogonType::NetworkCleartext)
            <==> other == "NetworkCleartext"@) && (logon_type_named(other) == Some(
            LogonType::NewCredentials,
        ) <==> other == "NewCredentials"@) by {
        law_what_each_kind_of_logon_is_called(other);
    }
    assert(set.holds(LogonType::Interactive) <==> names.contains("Interactive"@));
    assert(set.holds(LogonType::Network) <==> names.contains("Network"@));
    assert(set.holds(LogonType::Batch) <==> names.contains("Batch"@));
    assert(set.holds(LogonType::Service) <==> names.contains("Service"@));
    assert(set.holds(LogonType::NetworkCleartext) <==> names.contains("NetworkCleartext"@));
    assert(set.holds(LogonType::NewCredentials) <==> names.contains("NewCredentials"@));
}

/// What policy decided is its privileges, its level, its owner and its list; and a record
/// is its principal and what it says of each.
pub proof fn law_a_decision_is_its_parts(outcome: Outcome, record: Record, acl: Acl)
    ensures
        outcome@.privileges == outcome.privileges.bits,
        outcome@.integrity == outcome.integrity.0,
        outcome@.owner == crate::sid::maybe(outcome.owner),
        outcome@.default_dacl == maybe_acl(outcome.default_dacl),
        maybe_acl(None) is None,
        maybe_acl(Some(acl)) == Some(acl.bytes@),
        record@.sid == record.sid@,
        record.entry.privileges matches Some(set) ==> record@.privileges == Some(set.bits),
        record.entry.privileges is None ==> record@.privileges is None,
        record.entry.integrity matches Some(level) ==> record@.integrity == Some(level.0),
        record.entry.integrity is None ==> record@.integrity is None,
        record@.owner == crate::sid::maybe(record.entry.owner),
        record@.default_dacl == maybe_acl(record.entry.default_dacl),
        record@.logon_types == record.entry.logon_types,
{
}

} // verus!
