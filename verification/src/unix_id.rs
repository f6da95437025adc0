//! Unix IDs: turning what a source counted into what a token projects.
//!
//! Tokens are the only identity that decides anything. Programs do not know
//! tokens exist (they call `getuid`, `getgid`, `getgroups`), so every token
//! carries precomputed POSIX numbers. They are computed once, here, and they
//! ride on the token.
//!
//! # Sources count, the authority numbers
//!
//! A principal source counts from 1 and knows nothing about where its numbers
//! land. The authority adds a base from the registry, so a source's first
//! principal is 1 and may project to 1,000,001.
//!
//! That split is not administrative tidiness. It is the numeric half of the same
//! confinement as the domain SID:
//!
//! - A source cannot reach **uid 0**, or any other number in the reserved band,
//!   because the only numbers it can influence are the ones its base is added
//!   to and every base sits at or above [`RESERVED`].
//! - A source cannot reach **another source's** numbers, because a relative id
//!   at or past its count is refused rather than wrapped or clamped.

use crate::sid::{Sid, SidModel};
use crate::well_known;
use vstd::prelude::*;

verus! {

/// The projection given to a SID nothing can number.
///
/// 65534 is the conventional `nobody`. Setting it explicitly is not optional:
/// the projection defaults to **0**, and the kernel refuses to create a token
/// projecting uid 0 for any user SID that is not SYSTEM.
pub const UNMAPPED: u32 = 65534;

/// The first Unix ID a principal source may be given.
///
/// Everything below belongs to the authority. The band is deliberately enormous
/// relative to the number of well-known SIDs, because service SIDs and
/// confinement SIDs will be numbered out of it and there is no bound on how many
/// of those a machine has.
pub const RESERVED: u32 = 1_000_000;

/// How many ids a source gets when the registry names a base but no count.
pub const DEFAULT_COUNT: u32 = 1_000_000;

/// The number this machine projects a well-known SID to, if it is one.
///
/// The logon-type SIDs (`S-1-5-4` Interactive and friends) are in the table but
/// carry no number, so they answer `None` here.
pub fn built_in(sid: &Sid) -> (number: Option<u32>)
    ensures
        number == well_known::number_of(sid@),
{
    well_known::unix_id(sid)
}

/// The span of Unix IDs a principal source's numbers land in.
#[derive(Debug, Clone, Copy, PartialEq, Eq, Structural)]
pub struct Range {
    /// `UnixIDBase`: what is added to every relative id from this source.
    pub base: u32,
    /// `UnixIDCount`: how many ids the range spans, so `[base, base + count)`.
    pub count: u32,
}

/// Why a configured range is not usable.
#[derive(Debug, Clone, Copy, PartialEq, Eq, Structural)]
pub enum RangeError {
    /// Below [`RESERVED`], so it would overlap the authority's own numbers, at
    /// the bottom of which is uid 0.
    Reserved,
    /// Zero-sized, so it could never number anybody.
    Empty,
    /// `base + count` does not fit in a `u32`.
    Overflows,
}

impl RangeError {
    /// What an administrator is told about it.
    pub open spec fn told(self) -> Seq<char> {
        match self {
            RangeError::Reserved => "a Unix ID base below 1000000 would overlap the numbers authd reserves for itself, which begin at uid 0"@,
            RangeError::Empty => "a Unix ID count of zero can number nobody"@,
            RangeError::Overflows => "the Unix ID range runs past the end of a 32-bit id"@,
        }
    }

    /// What an administrator is told about it.
    pub fn message(self) -> (message: &'static str)
        ensures
            message@ == self.told(),
    {
        match self {
            RangeError::Reserved => "a Unix ID base below 1000000 would overlap the numbers authd reserves for itself, which begin at uid 0",
            RangeError::Empty => "a Unix ID count of zero can number nobody",
            RangeError::Overflows => "the Unix ID range runs past the end of a 32-bit id",
        }
    }
}

/// The number a relative id lands on in a range, if the range expresses it.
pub open spec fn rebased(range: Range, relative: u32) -> Option<u32> {
    if 0 < relative < range.count && range.base + relative <= u32::MAX {
        Some((range.base + relative) as u32)
    } else {
        None
    }
}

impl Range {
    /// A range a source may be given.
    pub open spec fn usable(self) -> bool {
        &&& self.base >= RESERVED
        &&& self.count > 0
        &&& self.base + self.count <= u32::MAX
    }

    /// Check a range an administrator configured.
    ///
    /// The reserved-band check is the one that matters. Without it, a base of
    /// zero would make a source's first principal project to **uid 1**, and a
    /// source that could choose its own relative numbers could reach uid 0
    /// outright, which is the whole reason ids are relative in the first place.
    pub fn new(base: u32, count: u32) -> (range: Result<Self, RangeError>)
        ensures
            range is Ok <==> (Range { base, count }).usable(),
            range matches Ok(range) ==> range == (Range { base, count }),
            range == Err::<Range, RangeError>(RangeError::Reserved) <==> base < RESERVED,
            range == Err::<Range, RangeError>(RangeError::Empty) <==> base >= RESERVED && count
                == 0,
            range == Err::<Range, RangeError>(RangeError::Overflows) <==> base >= RESERVED && count
                > 0 && base + count > u32::MAX,
    {
        if base < RESERVED {
            return Err(RangeError::Reserved);
        }
        if count == 0 {
            return Err(RangeError::Empty);
        }
        if base.checked_add(count).is_none() {
            return Err(RangeError::Overflows);
        }
        Ok(Range { base, count })
    }

    /// Turn a source-relative id into the number a token carries.
    ///
    /// `None` for anything this range cannot express:
    ///
    /// - **0**, which is how a source says "I have no number for this". It is
    ///   not an id, so it must not become `base`.
    /// - **At or past `count`**, which is a source reaching outside the range it
    ///   was given. Refused rather than clamped: clamping would silently put two
    ///   principals on one number, and wrapping would land in somebody else's
    ///   range entirely.
    pub fn rebase(&self, relative: u32) -> (number: Option<u32>)
        ensures
            number == rebased(*self, relative),
    {
        if relative == 0 || relative >= self.count {
            return None;
        }
        self.base.checked_add(relative)
    }

    /// The relative id that lands on a number, if one of this source's does.
    pub fn relative(&self, number: u32) -> (relative: Option<u32>)
        ensures
            relative matches Some(r) ==> rebased(*self, r) == Some(number),
            relative is None ==> forall|r: u32| #[trigger] rebased(*self, r) != Some(number),
    {
        if number <= self.base || number - self.base >= self.count {
            return None;
        }
        Some(number - self.base)
    }
}

/// The POSIX numbers a token carries.
#[derive(Debug, PartialEq, Eq)]
pub struct Projection {
    pub uid: u32,
    pub gid: u32,
    /// Every group that has a number, in the order the groups were asserted.
    /// Groups without one are simply absent.
    pub supplementary: Vec<u32>,
}

impl Clone for Projection {
    fn clone(&self) -> (copy: Self)
        ensures
            copy.uid == self.uid,
            copy.gid == self.gid,
            copy.supplementary@ == self.supplementary@,
    {
        Projection { uid: self.uid, gid: self.gid, supplementary: self.supplementary.clone() }
    }
}

/// A group as the projection sees it: its SID, and what its source numbered it.
#[derive(Debug, PartialEq, Eq)]
pub struct Numbered<'a> {
    pub sid: &'a Sid,
    /// The source's relative id, or 0 if the source does not number this group.
    pub relative: u32,
}

impl Numbered<'_> {
    /// The group as a plain value.
    pub open spec fn model(self) -> (SidModel, u32) {
        (self.sid@, self.relative)
    }
}

/// Groups as plain values.
pub open spec fn numbered_models(groups: Seq<Numbered<'_>>) -> Seq<(SidModel, u32)> {
    groups.map_values(|group: Numbered<'_>| group.model())
}

/// The number a single SID projects to: the authority's own table first, and
/// what a source said only for a SID the table does not number.
pub open spec fn numbering(range: Option<Range>, sid: SidModel, relative: u32) -> Option<u32> {
    match well_known::number_of(sid) {
        Some(number) => Some(number),
        None => match range {
            Some(range) => rebased(range, relative),
            None => None,
        },
    }
}

/// A number, or `nobody`'s.
pub open spec fn or_unmapped(number: Option<u32>) -> u32 {
    match number {
        Some(number) => number,
        None => UNMAPPED,
    }
}

/// The uid a principal's relative id gives.
pub open spec fn uid_of(range: Option<Range>, relative: u32) -> u32 {
    match range {
        Some(range) => or_unmapped(rebased(range, relative)),
        None => UNMAPPED,
    }
}

/// What a source numbered a group: the first mention, or 0.
pub open spec fn relative_of(groups: Seq<(SidModel, u32)>, sid: SidModel) -> u32
    decreases groups.len(),
{
    if groups.len() == 0 {
        0
    } else if groups[0].0 == sid {
        groups[0].1
    } else {
        relative_of(groups.drop_first(), sid)
    }
}

/// The numbers of the groups that have one, in order.
pub open spec fn supplementary_of(range: Option<Range>, groups: Seq<(SidModel, u32)>) -> Seq<u32>
    decreases groups.len(),
{
    if groups.len() == 0 {
        Seq::empty()
    } else {
        let rest = supplementary_of(range, groups.drop_last());
        match numbering(range, groups.last().0, groups.last().1) {
            Some(number) => rest.push(number),
            None => rest,
        }
    }
}

/// The number a single SID projects to.
///
/// The authority's own table wins over anything a source said. That ordering is
/// load-bearing rather than a preference: a source asserting
/// `BUILTIN\Administrators` is naming a membership, not claiming authority over
/// what that group projects to, and honouring a relative id for it would put a
/// well-known group inside the source's range, where a second source could
/// number something else the same way.
pub fn number(range: Option<&Range>, sid: &Sid, relative: u32) -> (number: Option<u32>)
    ensures
        number == numbering(borrowed(range), sid@, relative),
{
    match built_in(sid) {
        Some(number) => Some(number),
        None => match range {
            Some(range) => range.rebase(relative),
            None => None,
        },
    }
}

/// A borrowed range as a value.
pub open spec fn borrowed(range: Option<&Range>) -> Option<Range> {
    match range {
        Some(range) => Some(*range),
        None => None,
    }
}

/// Compute everything a token needs to project.
///
/// `range` is `None` for a source that has none configured, in which case
/// nothing it asserts can be numbered and every principal it vouches for
/// projects to `nobody`. That is safe, since 65534 grants nothing, and it is the
/// honest outcome for a source an administrator has not finished configuring.
pub fn project(
    range: Option<&Range>,
    principal_relative: u32,
    primary_group: &Sid,
    groups: &[Numbered<'_>],
) -> (projection: Projection)
    ensures
        projection.uid == uid_of(borrowed(range), principal_relative),
        projection.gid == or_unmapped(
            numbering(
                borrowed(range),
                primary_group@,
                relative_of(numbered_models(groups@), primary_group@),
            ),
        ),
        projection.supplementary@ == supplementary_of(borrowed(range), numbered_models(groups@)),
{
    let uid: u32 = match range {
        Some(range) => match range.rebase(principal_relative) {
            Some(number) => number,
            None => UNMAPPED,
        },
        None => UNMAPPED,
    };

    // The primary group's number, looked up the same way as any other group.
    // Its relative id comes from the group list when it appears there, because
    // a source states a group's number once rather than once per use.
    let ghost models = numbered_models(groups@);
    let mut primary_relative: u32 = 0;
    let mut found = false;
    let mut supplementary: Vec<u32> = Vec::new();
    let mut i: usize = 0;
    assert(models.take(0) =~= Seq::empty());
    assert(models.skip(0) =~= models);
    while i < groups.len()
        invariant
            i <= groups@.len(),
            models == numbered_models(groups@),
            supplementary@ == supplementary_of(borrowed(range), models.take(i as int)),
            found ==> primary_relative == relative_of(models, primary_group@),
            !found ==> primary_relative == 0 && relative_of(models, primary_group@) == relative_of(
                models.skip(i as int),
                primary_group@,
            ),
        decreases groups@.len() - i,
    {
        let group = &groups[i];
        proof {
            assert(models[i as int] == group.model());
            assert(models.skip(i as int)[0] == models[i as int]);
            assert(models.skip(i as int).drop_first() =~= models.skip(i + 1));
            assert(models.take(i + 1).drop_last() =~= models.take(i as int));
            assert(models.take(i + 1).last() == models[i as int]);
        }
        if !found && group.sid.same(primary_group) {
            primary_relative = group.relative;
            found = true;
        }
        if let Some(number) = number(range, group.sid, group.relative) {
            supplementary.push(number);
        }
        i += 1;
    }
    proof {
        assert(models.take(i as int) =~= models);
        assert(models.skip(i as int) =~= Seq::empty());
    }
    let gid: u32 = match number(range, primary_group, primary_relative) {
        Some(number) => number,
        None => UNMAPPED,
    };

    Projection { uid, gid, supplementary }
}

/// Whatever a source with a usable range counts, the number it reaches is
/// inside that range: above the reserved band, and so neither root's nor any
/// well-known principal's nor `nobody`'s.
pub proof fn law_a_source_stays_in_its_range(range: Range, relative: u32)
    requires
        range.usable(),
    ensures
        rebased(range, relative) matches Some(number) ==> {
            &&& range.base < number < range.base + range.count
            &&& number > RESERVED
            &&& number != UNMAPPED
        },
        rebased(range, relative) is Some <==> 0 < relative < range.count,
{
}

/// Two sources whose ranges do not overlap never put two principals on one
/// number.
pub proof fn law_disjoint_ranges_never_collide(a: Range, b: Range, x: u32, y: u32)
    requires
        a.base + a.count <= b.base || b.base + b.count <= a.base,
        rebased(a, x) is Some,
        rebased(b, y) is Some,
    ensures
        rebased(a, x) != rebased(b, y),
{
}

/// One source never puts two of its principals on one number.
pub proof fn law_rebasing_is_one_to_one(range: Range, x: u32, y: u32)
    requires
        rebased(range, x) is Some,
        rebased(range, x) == rebased(range, y),
    ensures
        x == y,
{
}

/// A source cannot renumber a well-known group, with or without a range.
pub proof fn law_a_well_known_number_is_not_the_sources_to_give(
    range: Option<Range>,
    sid: SidModel,
    relative: u32,
)
    requires
        well_known::number_of(sid) is Some,
    ensures
        numbering(range, sid, relative) == well_known::number_of(sid),
{
}

/// No source, whatever its range and whatever it counts, gives a principal the
/// number of SYSTEM.
pub proof fn law_no_source_reaches_root(range: Option<Range>, relative: u32)
    requires
        range matches Some(range) ==> range.usable(),
    ensures
        uid_of(range, relative) != 0,
{
}

/// A number is the base and what the source counted, no more and no less, for
/// every count the range expresses; and for no other.
pub proof fn law_a_number_is_the_base_and_the_count(range: Range, relative: u32, number: u32)
    ensures
        rebased(range, relative) == Some(number) <==> 0 < relative && relative < range.count
            && number == range.base + relative,
{
}

/// What a source counts a group as is what the group projects to, wherever the
/// authority's own table has no number for it; and where there is no range, or
/// the count is outside it, the group has no number at all.
pub proof fn law_a_source_numbers_what_the_table_does_not(
    range: Option<Range>,
    sid: SidModel,
    relative: u32,
    number: u32,
)
    requires
        forall|w: well_known::WellKnown| (#[trigger] w.model()) == sid ==> w.projected() is None,
    ensures
        numbering(range, sid, relative) == Some(number) <==> (range matches Some(range) && 0
            < relative && relative < range.count && number == range.base + relative),
{
    if let Some(w) = well_known::identified(sid) {
        assert(w.model() == sid) by {
            assert(exists|w: well_known::WellKnown| #[trigger] w.model() == sid);
        }
    }
}

/// A group of the authority's own table has the table's number, whatever a
/// source counts it as.
pub proof fn law_the_table_numbers_its_own(
    range: Option<Range>,
    entry: well_known::WellKnown,
    relative: u32,
)
    requires
        entry.projected() is Some,
    ensures
        numbering(range, entry.model(), relative) == entry.projected(),
{
    well_known::law_every_name_round_trips(entry);
}

/// A principal projects to the base and what its source counted it as, or to
/// 65534 where that expresses nothing.
pub proof fn law_a_principal_projects_to_its_own_number(range: Range, relative: u32)
    ensures
        uid_of(None, relative) == 65534,
        0 < relative < range.count && range.base + relative <= u32::MAX ==> uid_of(
            Some(range),
            relative,
        ) == range.base + relative,
        relative == 0 || relative >= range.count ==> uid_of(Some(range), relative) == 65534,
{
}

/// Which groups have a number.
pub open spec fn has_number(range: Option<Range>) -> spec_fn((SidModel, u32)) -> bool {
    |group: (SidModel, u32)| numbering(range, group.0, group.1) is Some
}

/// The number of a group that has one.
pub open spec fn its_number(range: Option<Range>) -> spec_fn((SidModel, u32)) -> u32 {
    |group: (SidModel, u32)| numbering(range, group.0, group.1)->0
}

/// Every group that has a number is projected, in the order of the groups, and
/// nothing besides.
pub proof fn law_every_numbered_group_is_projected(
    range: Option<Range>,
    groups: Seq<(SidModel, u32)>,
)
    ensures
        crate::select::picks(
            groups,
            has_number(range),
            its_number(range),
            supplementary_of(range, groups),
        ),
    decreases groups.len(),
{
    if groups.len() == 0 {
        crate::select::lemma_picks_nothing(groups, has_number(range), its_number(range));
    } else {
        law_every_numbered_group_is_projected(range, groups.drop_last());
        crate::select::lemma_picks_last(
            groups,
            has_number(range),
            its_number(range),
            supplementary_of(range, groups.drop_last()),
            supplementary_of(range, groups),
        );
    }
}

/// What a source counts a group as is what it says where it first names it.
pub proof fn law_the_first_mention_counts(groups: Seq<(SidModel, u32)>, sid: SidModel, at: int)
    requires
        0 <= at < groups.len(),
        groups[at].0 == sid,
        forall|j: int| 0 <= j < at ==> (#[trigger] groups[j]).0 != sid,
    ensures
        relative_of(groups, sid) == groups[at].1,
    decreases at,
{
    if at > 0 {
        let rest = groups.drop_first();
        assert(groups[0].0 != sid);
        assert forall|j: int| 0 <= j < at - 1 implies (#[trigger] rest[j]).0 != sid by {
            assert(groups[j + 1].0 != sid);
        }
        law_the_first_mention_counts(rest, sid, at - 1);
    }
}

/// A group its source does not name is not counted.
pub proof fn law_no_mention_counts_nothing(groups: Seq<(SidModel, u32)>, sid: SidModel)
    requires
        forall|j: int| 0 <= j < groups.len() ==> (#[trigger] groups[j]).0 != sid,
    ensures
        relative_of(groups, sid) == 0,
    decreases groups.len(),
{
    if groups.len() > 0 {
        let rest = groups.drop_first();
        assert(groups[0].0 != sid);
        assert forall|j: int| 0 <= j < rest.len() implies (#[trigger] rest[j]).0 != sid by {
            assert(groups[j + 1].0 != sid);
        }
        law_no_mention_counts_nothing(rest, sid);
    }
}

/// Whoever has no number projects to 65534, and whoever has one to that.
pub proof fn law_who_has_no_number_is_nobody(number: u32)
    ensures
        or_unmapped(None) == 65534,
        or_unmapped(Some(number)) == number,
{
}

/// A range may be given to a source exactly where it begins at a million or after,
/// spans something, and ends within thirty-two bits.
pub proof fn law_which_ranges_are_usable(range: Range)
    ensures
        range.usable() <==> range.base >= 1_000_000 && range.count > 0 && range.base + range.count
            <= 0xffff_ffff,
{
}

/// A group as the projection sees it is its SID and what its source counts it as, one by
/// one and in order, and a range that may be missing is the one there is or none.
pub proof fn law_what_is_projected_is_what_was_given(
    groups: Seq<Numbered<'_>>,
    range: &Range,
    i: int,
)
    ensures
        numbered_models(groups).len() == groups.len(),
        0 <= i < groups.len() ==> numbered_models(groups)[i] == (
            groups[i].sid@,
            groups[i].relative,
        ),
        borrowed(Some(range)) == Some(*range),
        borrowed(None) is None,
{
}

/// What an administrator is told of a range that cannot be given.
pub proof fn law_what_is_told_of_a_bad_range(error: RangeError)
    ensures
        error is Reserved ==> error.told()
            == "a Unix ID base below 1000000 would overlap the numbers authd reserves for itself, which begin at uid 0"@,
        error is Empty ==> error.told() == "a Unix ID count of zero can number nobody"@,
        error is Overflows ==> error.told()
            == "the Unix ID range runs past the end of a 32-bit id"@,
{
}

} // verus!
