//! The principals every machine has, and what this machine calls them.
//!
//! A table in code, not configuration. These SIDs are constants and mean the
//! same thing on every machine, so a per-machine value could only ever
//! disagree with another machine's for no benefit.
//!
//! Two things need this table and they need different subsets of it, which is
//! why it is one table with an optional number rather than two lists:
//!
//! - [`crate::unix_id`] projects a SID to a POSIX id. Only some of these have
//!   one.
//! - [`crate::policy`] resolves the name an administrator wrote as a policy
//!   record (`Administrators` rather than `S-1-5-32-544`), because a policy
//!   key nobody can read is a policy nobody audits.
//!
//! The logon-type SIDs are the reason the number is optional. They are real
//! group memberships and ACLs are written against them, but nothing wants a
//! *gid* for "arrived over the network".

use crate::sid::{Sid, SidModel};
use crate::text;
use vstd::prelude::*;

verus! {

/// Every well-known principal there is an entry for.
///
/// Names are the bare form. `BUILTIN\Administrators` is deliberately not here
/// and cannot be: a backslash is the registry's path separator, so the
/// qualified spelling is unrepresentable as a policy record's key name.
#[derive(Debug, Clone, Copy, PartialEq, Eq, Structural)]
pub enum WellKnown {
    System,
    Everyone,
    AuthenticatedUsers,
    Administrators,
    Users,
    Guests,
    LocalService,
    NetworkService,
    Local,
    Interactive,
    Network,
    Batch,
    Service,
    Anonymous,
}

/// How many there are.
pub const ENTRIES: usize = 14;

/// How many of them have a number. They come first in the table.
pub const NUMBERED: usize = 9;

/// The table, in the order it is searched and listed.
pub open spec fn entry(index: int) -> WellKnown {
    if index == 0 {
        WellKnown::System
    } else if index == 1 {
        WellKnown::Everyone
    } else if index == 2 {
        WellKnown::AuthenticatedUsers
    } else if index == 3 {
        WellKnown::Administrators
    } else if index == 4 {
        WellKnown::Users
    } else if index == 5 {
        WellKnown::Guests
    } else if index == 6 {
        WellKnown::LocalService
    } else if index == 7 {
        WellKnown::NetworkService
    } else if index == 8 {
        WellKnown::Local
    } else if index == 9 {
        WellKnown::Interactive
    } else if index == 10 {
        WellKnown::Network
    } else if index == 11 {
        WellKnown::Batch
    } else if index == 12 {
        WellKnown::Service
    } else {
        WellKnown::Anonymous
    }
}

impl WellKnown {
    /// Where this entry stands in the table.
    pub open spec fn position(self) -> int {
        match self {
            WellKnown::System => 0,
            WellKnown::Everyone => 1,
            WellKnown::AuthenticatedUsers => 2,
            WellKnown::Administrators => 3,
            WellKnown::Users => 4,
            WellKnown::Guests => 5,
            WellKnown::LocalService => 6,
            WellKnown::NetworkService => 7,
            WellKnown::Local => 8,
            WellKnown::Interactive => 9,
            WellKnown::Network => 10,
            WellKnown::Batch => 11,
            WellKnown::Service => 12,
            WellKnown::Anonymous => 13,
        }
    }

    /// The SID it is.
    pub open spec fn model(self) -> SidModel {
        match self {
            WellKnown::System => SidModel { authority: 5, subs: seq![18u32] },
            WellKnown::Everyone => SidModel { authority: 1, subs: seq![0u32] },
            WellKnown::AuthenticatedUsers => SidModel { authority: 5, subs: seq![11u32] },
            WellKnown::Administrators => SidModel { authority: 5, subs: seq![32u32, 544u32] },
            WellKnown::Users => SidModel { authority: 5, subs: seq![32u32, 545u32] },
            WellKnown::Guests => SidModel { authority: 5, subs: seq![32u32, 546u32] },
            WellKnown::LocalService => SidModel { authority: 5, subs: seq![19u32] },
            WellKnown::NetworkService => SidModel { authority: 5, subs: seq![20u32] },
            WellKnown::Local => SidModel { authority: 2, subs: seq![0u32] },
            WellKnown::Interactive => SidModel { authority: 5, subs: seq![4u32] },
            WellKnown::Network => SidModel { authority: 5, subs: seq![2u32] },
            WellKnown::Batch => SidModel { authority: 5, subs: seq![3u32] },
            WellKnown::Service => SidModel { authority: 5, subs: seq![6u32] },
            WellKnown::Anonymous => SidModel { authority: 5, subs: seq![7u32] },
        }
    }

    /// What it is called.
    pub open spec fn called(self) -> Seq<char> {
        match self {
            WellKnown::System => "SYSTEM"@,
            WellKnown::Everyone => "Everyone"@,
            WellKnown::AuthenticatedUsers => "Authenticated Users"@,
            WellKnown::Administrators => "Administrators"@,
            WellKnown::Users => "Users"@,
            WellKnown::Guests => "Guests"@,
            WellKnown::LocalService => "Local Service"@,
            WellKnown::NetworkService => "Network Service"@,
            WellKnown::Local => "Local"@,
            WellKnown::Interactive => "Interactive"@,
            WellKnown::Network => "Network"@,
            WellKnown::Batch => "Batch"@,
            WellKnown::Service => "Service"@,
            WellKnown::Anonymous => "Anonymous"@,
        }
    }

    /// The POSIX id it projects to, if it has one.
    ///
    /// SYSTEM is root, and that is fixed elsewhere. The others come from a
    /// block clear of both SYSTEM and the low numbers distributions
    /// traditionally hand to system daemons.
    pub open spec fn projected(self) -> Option<u32> {
        match self {
            WellKnown::System => Some(0u32),
            WellKnown::Everyone => Some(100u32),
            WellKnown::AuthenticatedUsers => Some(101u32),
            WellKnown::Administrators => Some(102u32),
            WellKnown::Users => Some(103u32),
            WellKnown::Guests => Some(104u32),
            WellKnown::LocalService => Some(105u32),
            WellKnown::NetworkService => Some(106u32),
            WellKnown::Local => Some(107u32),
            WellKnown::Interactive => None,
            WellKnown::Network => None,
            WellKnown::Batch => None,
            WellKnown::Service => None,
            WellKnown::Anonymous => None,
        }
    }

    /// The SID it is.
    pub fn sid(self) -> (sid: Sid)
        ensures
            sid@ == self.model(),
    {
        match self {
            WellKnown::System => single(5, 18),
            WellKnown::Everyone => single(1, 0),
            WellKnown::AuthenticatedUsers => single(5, 11),
            WellKnown::Administrators => pair(5, 32, 544),
            WellKnown::Users => pair(5, 32, 545),
            WellKnown::Guests => pair(5, 32, 546),
            WellKnown::LocalService => single(5, 19),
            WellKnown::NetworkService => single(5, 20),
            WellKnown::Local => single(2, 0),
            WellKnown::Interactive => single(5, 4),
            WellKnown::Network => single(5, 2),
            WellKnown::Batch => single(5, 3),
            WellKnown::Service => single(5, 6),
            WellKnown::Anonymous => single(5, 7),
        }
    }

    /// What it is called.
    pub fn name(self) -> (name: &'static str)
        ensures
            name@ == self.called(),
    {
        match self {
            WellKnown::System => "SYSTEM",
            WellKnown::Everyone => "Everyone",
            WellKnown::AuthenticatedUsers => "Authenticated Users",
            WellKnown::Administrators => "Administrators",
            WellKnown::Users => "Users",
            WellKnown::Guests => "Guests",
            WellKnown::LocalService => "Local Service",
            WellKnown::NetworkService => "Network Service",
            WellKnown::Local => "Local",
            WellKnown::Interactive => "Interactive",
            WellKnown::Network => "Network",
            WellKnown::Batch => "Batch",
            WellKnown::Service => "Service",
            WellKnown::Anonymous => "Anonymous",
        }
    }

    /// The POSIX id it projects to, if it has one.
    pub fn number(self) -> (number: Option<u32>)
        ensures
            number == self.projected(),
    {
        match self {
            WellKnown::System => Some(0),
            WellKnown::Everyone => Some(100),
            WellKnown::AuthenticatedUsers => Some(101),
            WellKnown::Administrators => Some(102),
            WellKnown::Users => Some(103),
            WellKnown::Guests => Some(104),
            WellKnown::LocalService => Some(105),
            WellKnown::NetworkService => Some(106),
            WellKnown::Local => Some(107),
            WellKnown::Interactive => None,
            WellKnown::Network => None,
            WellKnown::Batch => None,
            WellKnown::Service => None,
            WellKnown::Anonymous => None,
        }
    }

    /// The entry at a position of the table.
    pub fn at(index: usize) -> (found: WellKnown)
        requires
            index < ENTRIES,
        ensures
            found == entry(index as int),
    {
        match index {
            0 => WellKnown::System,
            1 => WellKnown::Everyone,
            2 => WellKnown::AuthenticatedUsers,
            3 => WellKnown::Administrators,
            4 => WellKnown::Users,
            5 => WellKnown::Guests,
            6 => WellKnown::LocalService,
            7 => WellKnown::NetworkService,
            8 => WellKnown::Local,
            9 => WellKnown::Interactive,
            10 => WellKnown::Network,
            11 => WellKnown::Batch,
            12 => WellKnown::Service,
            _ => WellKnown::Anonymous,
        }
    }
}

/// A SID of one sub-authority.
fn single(authority: u64, sub: u32) -> (sid: Sid)
    requires
        authority < crate::sid::AUTHORITY_LIMIT,
    ensures
        sid@ == (SidModel { authority, subs: seq![sub] }),
{
    let subs: [u32; 1] = [sub];
    assert(subs@ =~= seq![sub]);
    Sid::build(authority, &subs).unwrap()
}

/// A SID of two sub-authorities.
fn pair(authority: u64, first: u32, second: u32) -> (sid: Sid)
    requires
        authority < crate::sid::AUTHORITY_LIMIT,
    ensures
        sid@ == (SidModel { authority, subs: seq![first, second] }),
{
    let subs: [u32; 2] = [first, second];
    assert(subs@ =~= seq![first, second]);
    Sid::build(authority, &subs).unwrap()
}

/// The entry a SID is, if it is one.
pub open spec fn identified(sid: SidModel) -> Option<WellKnown> {
    if exists|w: WellKnown| #[trigger] w.model() == sid {
        Some(choose|w: WellKnown| #[trigger] w.model() == sid)
    } else {
        None
    }
}

/// The entry a name means, if it means one.
pub open spec fn named(name: Seq<char>) -> Option<WellKnown> {
    if exists|w: WellKnown| text::same_word(#[trigger] w.called(), text::trimmed(name)) {
        Some(choose|w: WellKnown| text::same_word(#[trigger] w.called(), text::trimmed(name)))
    } else {
        None
    }
}

/// The entry a number means, if it means one.
pub open spec fn numbering(id: u32) -> Option<WellKnown> {
    if exists|w: WellKnown| #[trigger] w.projected() == Some(id) {
        Some(choose|w: WellKnown| #[trigger] w.projected() == Some(id))
    } else {
        None
    }
}

/// The POSIX id a SID has by being well known.
pub open spec fn number_of(sid: SidModel) -> Option<u32> {
    match identified(sid) {
        Some(w) => w.projected(),
        None => None,
    }
}

/// The table holds every entry, each once.
proof fn lemma_table()
    ensures
        forall|w: WellKnown|
            0 <= #[trigger] w.position() < ENTRIES && entry(w.position()) == w,
        forall|i: int| 0 <= i < ENTRIES ==> (#[trigger] entry(i)).position() == i,
{
}

/// No two entries share a SID, so a SID names at most one of them.
pub proof fn law_no_two_share_a_sid(a: WellKnown, b: WellKnown)
    requires
        a.model() == b.model(),
    ensures
        a == b,
{
    let (x, y) = (a.model().subs, b.model().subs);
    assert(x.len() == y.len());
    assert(x[0] == y[0]);
    assert(x.last() == y.last());
}

/// No two entries share a number.
pub proof fn law_no_two_share_a_number(a: WellKnown, b: WellKnown)
    requires
        a.projected() is Some,
        a.projected() == b.projected(),
    ensures
        a == b,
{
}

/// No number reaches the band a principal source's range can reach, and none is
/// the number that means "unmapped".
pub proof fn law_numbers_are_reserved(w: WellKnown)
    ensures
        w.projected() matches Some(id) ==> id < crate::unix_id::RESERVED && id
            != crate::unix_id::UNMAPPED,
{
}

/// The length of each name, and how it begins: enough to tell any two apart.
proof fn lemma_names(w: WellKnown)
    ensures
        w.called().len() > 0,
        w is System ==> w.called().len() == 6 && text::lowered(w.called()[0]) == 's',
        w is Everyone ==> w.called().len() == 8,
        w is AuthenticatedUsers ==> w.called().len() == 19,
        w is Administrators ==> w.called().len() == 14,
        w is Users ==> w.called().len() == 5 && text::lowered(w.called()[0]) == 'u',
        w is Guests ==> w.called().len() == 6 && text::lowered(w.called()[0]) == 'g',
        w is LocalService ==> w.called().len() == 13,
        w is NetworkService ==> w.called().len() == 15,
        w is Local ==> w.called().len() == 5 && text::lowered(w.called()[0]) == 'l',
        w is Interactive ==> w.called().len() == 11,
        w is Network ==> w.called().len() == 7 && text::lowered(w.called()[0]) == 'n',
        w is Batch ==> w.called().len() == 5 && text::lowered(w.called()[0]) == 'b',
        w is Service ==> w.called().len() == 7 && text::lowered(w.called()[0]) == 's',
        w is Anonymous ==> w.called().len() == 9,
{
    reveal_strlit("SYSTEM");
    reveal_strlit("Everyone");
    reveal_strlit("Authenticated Users");
    reveal_strlit("Administrators");
    reveal_strlit("Users");
    reveal_strlit("Guests");
    reveal_strlit("Local Service");
    reveal_strlit("Network Service");
    reveal_strlit("Local");
    reveal_strlit("Interactive");
    reveal_strlit("Network");
    reveal_strlit("Batch");
    reveal_strlit("Service");
    reveal_strlit("Anonymous");
}

/// No two entries share a name, however it is capitalised, so a name means at
/// most one of them.
pub proof fn law_no_two_share_a_name(a: WellKnown, b: WellKnown, name: Seq<char>)
    requires
        text::same_word(a.called(), name),
        text::same_word(b.called(), name),
    ensures
        a == b,
{
    lemma_names(a);
    lemma_names(b);
    assert(text::lowered(a.called()[0]) == text::lowered(name[0]));
    assert(text::lowered(b.called()[0]) == text::lowered(name[0]));
}

/// No name has white space at either end.
proof fn lemma_names_are_trimmed(w: WellKnown)
    ensures
        text::trimmed(w.called()) == w.called(),
{
    reveal_strlit("SYSTEM");
    reveal_strlit("Everyone");
    reveal_strlit("Authenticated Users");
    reveal_strlit("Administrators");
    reveal_strlit("Users");
    reveal_strlit("Guests");
    reveal_strlit("Local Service");
    reveal_strlit("Network Service");
    reveal_strlit("Local");
    reveal_strlit("Interactive");
    reveal_strlit("Network");
    reveal_strlit("Batch");
    reveal_strlit("Service");
    reveal_strlit("Anonymous");
    let name = w.called();
    assert(!text::blank(name[0]));
    assert(!text::blank(name[name.len() - 1]));
    assert(name.last() == name[name.len() - 1]);
}

/// Every name comes back from the SID it names, and every SID from its name.
pub proof fn law_every_name_round_trips(w: WellKnown)
    ensures
        identified(w.model()) == Some(w),
        named(w.called()) == Some(w),
{
    let found = choose|v: WellKnown| #[trigger] v.model() == w.model();
    assert(w.model() == w.model());
    law_no_two_share_a_sid(found, w);
    lemma_names_are_trimmed(w);
    assert(text::same_word(w.called(), text::trimmed(w.called())));
    let meant = choose|v: WellKnown|
        text::same_word(#[trigger] v.called(), text::trimmed(w.called()));
    law_no_two_share_a_name(meant, w, text::trimmed(w.called()));
}

/// The entry a SID is, if it is one.
fn identify(sid: &Sid) -> (found: Option<WellKnown>)
    ensures
        found == identified(sid@),
{
    proof {
        lemma_table();
    }
    let mut i: usize = 0;
    while i < ENTRIES
        invariant
            i <= ENTRIES,
            forall|j: int| 0 <= j < i ==> (#[trigger] entry(j)).model() != sid@,
        decreases ENTRIES - i,
    {
        let entry = WellKnown::at(i);
        if entry.sid().same(sid) {
            proof {
                law_every_name_round_trips(entry);
            }
            return Some(entry);
        }
        i += 1;
    }
    proof {
        assert forall|w: WellKnown| #[trigger] w.model() != sid@ by {
            assert(entry(w.position()) == w);
        }
    }
    None
}

/// The POSIX id this machine projects a well-known SID to, if it has one.
///
/// `None` covers both "not a well-known SID" and "well-known but deliberately
/// unnumbered". The caller wants the same thing in either case, no number, so
/// the distinction is not worth a second return type.
pub fn unix_id(sid: &Sid) -> (number: Option<u32>)
    ensures
        number == number_of(sid@),
{
    match identify(sid) {
        Some(entry) => entry.number(),
        None => None,
    }
}

/// Resolve the name an administrator wrote to the SID it means.
///
/// Matched **case-insensitively**, unlike a privilege name. A privilege name is
/// an ABI identifier copied from documentation; this is a word an administrator
/// types, and `administrators` is not a different principal from
/// `Administrators`.
pub fn by_name(name: &str) -> (sid: Option<Sid>)
    ensures
        sid is Some <==> named(name@) is Some,
        sid matches Some(found) ==> found@ == named(name@)->0.model(),
{
    let word = text::trim(name);
    proof {
        lemma_table();
    }
    let mut i: usize = 0;
    while i < ENTRIES
        invariant
            i <= ENTRIES,
            word@ == text::trimmed(name@),
            forall|j: int|
                0 <= j < i ==> !text::same_word((#[trigger] entry(j)).called(), word@),
        decreases ENTRIES - i,
    {
        let entry = WellKnown::at(i);
        if text::eq_ignoring_case(entry.name(), word) {
            proof {
                let meant = choose|w: WellKnown| text::same_word(#[trigger] w.called(), word@);
                law_no_two_share_a_name(meant, entry, word@);
            }
            return Some(entry.sid());
        }
        i += 1;
    }
    proof {
        assert forall|w: WellKnown| !text::same_word(#[trigger] w.called(), word@) by {
            assert(entry(w.position()) == w);
        }
    }
    None
}

/// What this machine calls a well-known SID.
pub fn name_of(sid: &Sid) -> (name: Option<&'static str>)
    ensures
        name is Some <==> identified(sid@) is Some,
        name matches Some(found) ==> found@ == identified(sid@)->0.called(),
{
    match identify(sid) {
        Some(entry) => Some(entry.name()),
        None => None,
    }
}

/// The well-known SID a POSIX id means, if it means one.
pub fn by_unix_id(id: u32) -> (sid: Option<Sid>)
    ensures
        sid is Some <==> numbering(id) is Some,
        sid matches Some(found) ==> found@ == numbering(id)->0.model(),
{
    proof {
        lemma_table();
    }
    let mut i: usize = 0;
    while i < ENTRIES
        invariant
            i <= ENTRIES,
            forall|j: int| 0 <= j < i ==> (#[trigger] entry(j)).projected() != Some(id),
        decreases ENTRIES - i,
    {
        let entry = WellKnown::at(i);
        if let Some(number) = entry.number() {
            if number == id {
                proof {
                    let meant = choose|w: WellKnown| #[trigger] w.projected() == Some(id);
                    law_no_two_share_a_number(meant, entry);
                }
                return Some(entry.sid());
            }
        }
        i += 1;
    }
    proof {
        assert forall|w: WellKnown| #[trigger] w.projected() != Some(id) by {
            assert(entry(w.position()) == w);
        }
    }
    None
}

/// The entries that have a number, in the order of the table.
pub open spec fn numbered_models() -> Seq<SidModel> {
    Seq::new(NUMBERED as nat, |i: int| entry(i).model())
}

/// Every well-known SID that has a number.
pub fn numbered() -> (sids: Vec<Sid>)
    ensures
        sids@.len() == numbered_models().len(),
        forall|i: int| 0 <= i < sids@.len() ==> (#[trigger] sids@[i])@ == numbered_models()[i],
        forall|w: WellKnown|
            #[trigger] w.projected() is Some <==> exists|i: int|
                0 <= i < sids@.len() && (#[trigger] sids@[i])@ == w.model(),
{
    let mut sids: Vec<Sid> = Vec::new();
    let mut i: usize = 0;
    while i < NUMBERED
        invariant
            i <= NUMBERED,
            sids@.len() == i,
            forall|j: int| 0 <= j < i ==> (#[trigger] sids@[j])@ == entry(j).model(),
        decreases NUMBERED - i,
    {
        sids.push(WellKnown::at(i).sid());
        i += 1;
    }
    proof {
        lemma_table();
        assert forall|w: WellKnown| #[trigger] w.projected() is Some <==> exists|i: int|
            0 <= i < sids@.len() && (#[trigger] sids@[i])@ == w.model() by {
            if w.projected() is Some {
                assert(sids@[w.position()]@ == entry(w.position()).model());
            }
            if exists|i: int| 0 <= i < sids@.len() && (#[trigger] sids@[i])@ == w.model() {
                let i = choose|i: int| 0 <= i < sids@.len() && (#[trigger] sids@[i])@ == w.model();
                law_no_two_share_a_sid(entry(i), w);
            }
        }
    }
    sids
}

/// SYSTEM is 0. The eight that follow it in the table are numbered on from 100, one
/// by one, and the five after those, which say how a logon happened, have no number.
pub proof fn law_the_table_counts_from_a_hundred(w: WellKnown)
    ensures
        0 <= w.position() < 14,
        entry(w.position()) == w,
        w.position() == 0 ==> w.projected() == Some(0u32),
        1 <= w.position() <= 8 ==> w.projected() == Some((99 + w.position()) as u32),
        w.position() >= 9 ==> w.projected() is None,
        w.position() == 0 <==> w is System,
        w is Everyone || w is AuthenticatedUsers || w is Administrators || w is Users
            || w is Guests || w is LocalService || w is NetworkService || w is Local
            <==> 1 <= w.position() <= 8,
{
}

/// Which SID each entry is: `S-1-1-0` is everybody, `S-1-2-0` whoever is here, the
/// three aliases of the built-in domain are 544, 545 and 546 of it, and the others
/// are one number each after authority 5.
pub proof fn law_which_sid_each_is(w: WellKnown, one: u32)
    ensures
        w is Everyone <==> w.model() == (SidModel { authority: 1, subs: seq![0u32] }),
        w is Local <==> w.model() == (SidModel { authority: 2, subs: seq![0u32] }),
        w is Administrators <==> w.model() == (SidModel { authority: 5, subs: seq![32u32, 544u32] }),
        w is Users <==> w.model() == (SidModel { authority: 5, subs: seq![32u32, 545u32] }),
        w is Guests <==> w.model() == (SidModel { authority: 5, subs: seq![32u32, 546u32] }),
        w.model() == (SidModel { authority: 5, subs: seq![one] }) <==> {
            ||| w is System && one == 18
            ||| w is AuthenticatedUsers && one == 11
            ||| w is LocalService && one == 19
            ||| w is NetworkService && one == 20
            ||| w is Interactive && one == 4
            ||| w is Network && one == 2
            ||| w is Batch && one == 3
            ||| w is Service && one == 6
            ||| w is Anonymous && one == 7
        },
{
    let it = SidModel { authority: 5, subs: seq![one] };
    assert(it.subs[0] == one);
    assert(w.model().subs.len() > 0);
    if w.model() == it {
        assert(w.model().subs[0] == one);
    }
    assert(seq![0u32].len() == 1);
    assert(seq![32u32, 544u32][1] == 544);
    assert(seq![32u32, 545u32][1] == 545);
    assert(seq![32u32, 546u32][1] == 546);
    let x = w.model().subs;
    assert(x.len() == 2 ==> x[1] == 544 || x[1] == 545 || x[1] == 546);
}

/// A SID is an entry, a name means one and a number means one exactly where that is
/// the entry's own, the name however it is capitalised and whatever surrounds it;
/// and what is nobody's is found to be nobody's.
pub proof fn law_what_is_looked_up_is_found(w: WellKnown, sid: SidModel, name: Seq<char>, id: u32)
    ensures
        identified(sid) == Some(w) <==> w.model() == sid,
        named(name) == Some(w) <==> text::same_word(w.called(), text::trimmed(name)),
        numbering(id) == Some(w) <==> w.projected() == Some(id),
        w.model() == sid ==> number_of(sid) == w.projected(),
        (forall|v: WellKnown| #[trigger] v.model() != sid) ==> identified(sid) is None
            && number_of(sid) is None,
{
    if w.model() == sid {
        law_every_name_round_trips(w);
    }
    if identified(sid) is Some {
        assert(exists|v: WellKnown| #[trigger] v.model() == sid);
    }
    let word = text::trimmed(name);
    if text::same_word(w.called(), word) {
        let meant = choose|v: WellKnown| text::same_word(#[trigger] v.called(), word);
        law_no_two_share_a_name(meant, w, word);
    }
    if named(name) is Some {
        assert(exists|v: WellKnown| text::same_word(#[trigger] v.called(), word));
    }
    if w.projected() == Some(id) {
        let meant = choose|v: WellKnown| #[trigger] v.projected() == Some(id);
        law_no_two_share_a_number(meant, w);
    }
    if numbering(id) is Some {
        assert(exists|v: WellKnown| #[trigger] v.projected() == Some(id));
    }
}

/// What each entry is called.
pub proof fn law_what_each_is_called(w: WellKnown)
    ensures
        w is System ==> w.called() == "SYSTEM"@,
        w is Everyone ==> w.called() == "Everyone"@,
        w is AuthenticatedUsers ==> w.called() == "Authenticated Users"@,
        w is Administrators ==> w.called() == "Administrators"@,
        w is Users ==> w.called() == "Users"@,
        w is Guests ==> w.called() == "Guests"@,
        w is LocalService ==> w.called() == "Local Service"@,
        w is NetworkService ==> w.called() == "Network Service"@,
        w is Local ==> w.called() == "Local"@,
        w is Interactive ==> w.called() == "Interactive"@,
        w is Network ==> w.called() == "Network"@,
        w is Batch ==> w.called() == "Batch"@,
        w is Service ==> w.called() == "Service"@,
        w is Anonymous ==> w.called() == "Anonymous"@,
{
}

} // verus!
