//! Who is on the other end of a connection.
//!
//! Both sides of the daemon need this and neither may take the answer from a
//! message body. Towards clients the peer's identity is an *input to
//! derivation*: the client proposes a logon type and the authority constrains it
//! against who is actually asking. Towards sources it decides who may
//! assert identity at all, which is the most dangerous thing any peer can do.

use crate::policy::sources::{EntryModel, SourceEntry};
use crate::sid::{Sid, SidModel};
use crate::well_known::WellKnown;
use vstd::prelude::*;

verus! {

/// Whether a principal is the local SYSTEM account.
pub fn is_system(peer: &Sid) -> (yes: bool)
    ensures
        yes <==> peer@ == WellKnown::System.model(),
{
    peer.same(&WellKnown::System.sid())
}

/// What asking the kernel about a socket's peer came to.
#[derive(Debug, Clone, Copy, PartialEq, Eq, Structural)]
pub struct PeerProcess {
    /// Whether the question was answered.
    pub answered: bool,
    /// Whether the answer was of the size it should be.
    pub whole: bool,
    /// The process that connected.
    pub pid: i32,
}

/// Whether the connected peer is PID 1.
///
/// Layered on top of the peer's identity, never instead of it: the caller has
/// already established *what principal* the peer is, and this narrows "some
/// process running as SYSTEM", which is every platform daemon, to the one
/// process that launches services.
///
/// A PID check is sound here and nowhere else. The kernel captures the process
/// at the moment of connecting, and PID 1 cannot exit and be replaced.
///
/// Fails closed: a question that is not answered is not PID 1.
pub fn is_init(process: PeerProcess) -> (yes: bool)
    ensures
        yes <==> process.answered && process.whole && process.pid == 1,
{
    process.answered && process.whole && process.pid == 1
}

/// Why a connection could not be matched to a configured principal source.
#[derive(Debug, Clone, Copy, PartialEq, Eq, Structural)]
pub enum NotASource {
    /// The peer's token could not be read.
    Unidentifiable,
    /// No entry in the allowlist matched the peer's service SID. Covers both
    /// "not a service" and "a service nobody configured", deliberately: the
    /// distinction is only useful to someone probing.
    NotConfigured,
}

impl NotASource {
    /// What is logged about it, with what reading the peer's token failed with.
    pub open spec fn told(self, error: Seq<char>) -> Seq<char> {
        match self {
            NotASource::Unidentifiable => "peer identity unavailable: "@ + error,
            NotASource::NotConfigured => "peer is not a configured principal source"@,
        }
    }

    /// What is logged about it, given what reading the peer's token failed with,
    /// written as text.
    pub fn message(self, error: &str) -> (message: String)
        ensures
            message@ == self.told(error@),
    {
        match self {
            NotASource::Unidentifiable => {
                let mut message: String = "peer identity unavailable: ".to_owned();
                message.append(error);
                message
            },
            NotASource::NotConfigured => "peer is not a configured principal source".to_owned(),
        }
    }
}

/// The first entry whose service SID the peer's token carries.
pub open spec fn matched(entries: Seq<EntryModel>, carried: Seq<SidModel>) -> Option<EntryModel>
    decreases entries.len(),
{
    if entries.len() == 0 {
        None
    } else if carried.contains(entries[0].service_sid) {
        Some(entries[0])
    } else {
        matched(entries.drop_first(), carried)
    }
}

/// Match a connecting peer against the configured principal sources, given the
/// groups on its token if they could be read.
///
/// The peer's token carries a per-service SID that the service manager derived
/// from the service's name and that only it can mint. So rather than believe a
/// name the peer sends, each *configured* name's SID is looked for on the peer's
/// token. The identity that comes back is therefore built from the registry and
/// the kernel, with nothing contributed by the process on the other end.
///
/// Ambiguity is not possible in practice, since distinct names give distinct
/// SIDs, but the first match wins if it ever were.
pub fn identify_source(groups: Option<&[&Sid]>, configured: &[SourceEntry]) -> (entry: Result<
    SourceEntry,
    NotASource,
>)
    ensures
        entry matches Ok(found) ==> groups is Some && matched(
            crate::policy::sources::models(configured@),
            crate::sid::models(groups->0@),
        ) == Some(found@),
        entry == Err::<SourceEntry, NotASource>(NotASource::Unidentifiable) <==> groups is None,
        entry == Err::<SourceEntry, NotASource>(NotASource::NotConfigured) <==> groups is Some
            && matched(
            crate::policy::sources::models(configured@),
            crate::sid::models(groups->0@),
        ) is None,
{
    let held = match groups {
        Some(held) => held,
        None => return Err(NotASource::Unidentifiable),
    };
    let ghost all = crate::policy::sources::models(configured@);
    let ghost carried = crate::sid::models(held@);
    let mut i: usize = 0;
    assert(all.skip(0) =~= all);
    while i < configured.len()
        invariant
            i <= configured@.len(),
            all == crate::policy::sources::models(configured@),
            groups == Some(held),
            carried == crate::sid::models(held@),
            matched(all, carried) == matched(all.skip(i as int), carried),
        decreases configured@.len() - i,
    {
        assert(all.skip(i as int)[0] == configured@[i as int]@);
        if configured[i].service_sid.among(held) {
            return Ok(configured[i].clone());
        }
        assert(all.skip(i as int).drop_first() =~= all.skip(i + 1));
        i += 1;
    }
    Err(NotASource::NotConfigured)
}

/// A peer is admitted only as an entry of the allowlist, and only if the kernel
/// says its token carries that entry's service SID.
pub proof fn law_a_source_is_who_the_kernel_says(
    entries: Seq<EntryModel>,
    carried: Seq<SidModel>,
)
    ensures
        matched(entries, carried) matches Some(entry) ==> entries.contains(entry)
            && carried.contains(entry.service_sid),
        matched(entries, carried) is None ==> forall|i: int|
            0 <= i < entries.len() ==> !carried.contains((#[trigger] entries[i]).service_sid),
    decreases entries.len(),
{
    if entries.len() > 0 {
        let rest = entries.drop_first();
        law_a_source_is_who_the_kernel_says(rest, carried);
        if carried.contains(entries[0].service_sid) {
            assert(entries.contains(entries[0]));
        } else {
            if let Some(entry) = matched(rest, carried) {
                let j = choose|j: int| 0 <= j < rest.len() && rest[j] == entry;
                assert(entries[j + 1] == entry);
            } else {
                assert forall|i: int| 0 <= i < entries.len() implies !carried.contains(
                    (#[trigger] entries[i]).service_sid,
                ) by {
                    if i > 0 {
                        assert(rest[i - 1] == entries[i]);
                    }
                }
            }
        }
    }
}

/// A peer is the first entry of the allowlist whose service SID its token carries: no
/// earlier entry's is on it.
pub proof fn law_the_first_match_wins(entries: Seq<EntryModel>, carried: Seq<SidModel>, at: int)
    requires
        0 <= at < entries.len(),
        carried.contains(entries[at].service_sid),
        forall|j: int| 0 <= j < at ==> !carried.contains((#[trigger] entries[j]).service_sid),
    ensures
        matched(entries, carried) == Some(entries[at]),
    decreases entries.len(),
{
    if at > 0 {
        let rest = entries.drop_first();
        assert(!carried.contains(entries[0].service_sid));
        assert(rest[at - 1] == entries[at]);
        assert forall|j: int| 0 <= j < at - 1 implies !carried.contains(
            (#[trigger] rest[j]).service_sid,
        ) by {
            assert(entries[j + 1] == rest[j]);
        }
        law_the_first_match_wins(rest, carried, at - 1);
    }
}

/// What is logged of a peer that is no source, with why its token could not be read
/// where that is it.
pub proof fn law_what_is_logged_of_a_peer(error: Seq<char>)
    ensures
        NotASource::Unidentifiable.told(error) == "peer identity unavailable: "@ + error,
        NotASource::NotConfigured.told(error) == "peer is not a configured principal source"@,
{
}

} // verus!
