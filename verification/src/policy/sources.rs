//! Which principal sources may register, and what each is trusted to say.
//!
//! Under `Software\Authd` rather than `Generic`, and the split is deliberate:
//! principal sources are this authority's own concept, where
//! [`super::principal`] holds what a logon means to any authority.

use super::{dword, sz, Value, ValueType};
use crate::service_sid;
use crate::sid::{Sid, SidModel};
use crate::text;
use crate::unix_id::{self, Range};
use vstd::prelude::*;

verus! {

/// The allowlist of principal sources.
///
/// **A subkey's name is the allowlist entry.** `Sources\lpsd` says "a service
/// named lpsd may register as a principal source", and that is checked by
/// deriving lpsd's service SID and requiring the connecting peer's token to
/// carry it. So listing this key answers "what may assert identity on this
/// machine?" exactly, with no second list anywhere to drift out of step.
pub const SOURCES_KEY: &'static str = "Machine\\Software\\Authd\\Sources";

/// Lifts the cross-reference restriction on asserted *group* memberships.
///
/// An ordinary source may only assert groups in the same domain as the
/// principal it just authenticated: a directory vouches for its own users and
/// its own groups, and nothing else. The local source is different in kind: it
/// is authoritative for local group membership of *any* principal, including
/// domain ones.
///
/// **Memberships only, never identity.** A source with this flag still may not
/// be the authority on *who someone is* outside its own domain.
pub const FOREIGN_MEMBERSHIPS_VALUE: &'static str = "MayAssertForeignMemberships";

/// Pins the domain a source is permitted to declare.
///
/// A source declares the domain it is authoritative for when it registers, and
/// every identity it asserts is confined to that domain. The declaration is a
/// *claim*: a source generates its own domain, so nothing about the SID can
/// prove the claim is honest.
///
/// Absent, the declaration is accepted subject to the checks that need no pin:
/// the domain must be a claimable shape, it must not collide with another
/// registered source's, and a source that re-registers must declare what it
/// declared before.
pub const DOMAIN_VALUE: &'static str = "Domain";

/// Where this source sits when a name nobody qualified is resolved.
///
/// Lower first. This is the value that decides who `jack` is on a machine with
/// more than one source, and it is deliberately explicit: resolving in
/// registration order would let a slow disk change which principal a name refers
/// to.
pub const SEARCH_ORDER_VALUE: &'static str = "SearchOrder";

/// The order a source resolves at when it names none.
///
/// Mid-range, so a source can be configured either side of the default without
/// having to renumber the ones already there.
pub const DEFAULT_SEARCH_ORDER: u32 = 1000;

/// How many source entries are considered.
///
/// A bound on work done for an unauthenticated connection, not a policy limit.
pub const MAX_SOURCE_ENTRIES: usize = 64;

/// The bottom of a source's Unix ID range.
///
/// **Absent means no range, and no range means `nobody`.** Every principal from
/// an unconfigured source projects to 65534. That is the safe direction: 65534
/// grants nothing, and assuming a base would put two sources on the same numbers
/// the moment a second one existed.
pub const UNIX_ID_BASE_VALUE: &'static str = "UnixIDBase";

/// How many ids the range spans. Absent takes [`unix_id::DEFAULT_COUNT`].
pub const UNIX_ID_COUNT_VALUE: &'static str = "UnixIDCount";

/// A principal source the authority is willing to talk to.
#[derive(Debug, PartialEq, Eq)]
pub struct SourceEntry {
    /// The configured name, which is also the service name its SID derives
    /// from. Taken from the registry, never from the connecting process.
    pub name: String,
    /// The service SID a peer must carry to be this source.
    pub service_sid: Sid,
    /// Whether [`FOREIGN_MEMBERSHIPS_VALUE`] is set.
    pub may_assert_foreign_memberships: bool,
    /// The domain this source is required to declare, if [`DOMAIN_VALUE`] pins
    /// one. `None` means unpinned, not unrestricted.
    pub pinned_domain: Option<Sid>,
    /// The Unix ID range this source's numbers land in. `None` when
    /// [`UNIX_ID_BASE_VALUE`] is absent or unusable.
    pub unix_id_range: Option<Range>,
    /// Where this source sits when resolving a bare name.
    pub search_order: u32,
}

/// An allowlist entry, mathematically.
pub struct EntryModel {
    pub name: Seq<char>,
    pub service_sid: SidModel,
    pub may_assert_foreign_memberships: bool,
    pub pinned_domain: Option<SidModel>,
    pub unix_id_range: Option<Range>,
    pub search_order: u32,
}

impl View for SourceEntry {
    type V = EntryModel;

    open spec fn view(&self) -> EntryModel {
        EntryModel {
            name: self.name@,
            service_sid: self.service_sid@,
            may_assert_foreign_memberships: self.may_assert_foreign_memberships,
            pinned_domain: crate::sid::maybe(self.pinned_domain),
            unix_id_range: self.unix_id_range,
            search_order: self.search_order,
        }
    }
}

impl Clone for SourceEntry {
    fn clone(&self) -> (copy: Self)
        ensures
            copy@ == self@,
    {
        SourceEntry {
            name: self.name.clone(),
            service_sid: self.service_sid.clone(),
            may_assert_foreign_memberships: self.may_assert_foreign_memberships,
            pinned_domain: Sid::copied(&self.pinned_domain),
            unix_id_range: self.unix_id_range,
            search_order: self.search_order,
        }
    }
}

/// Entries as values.
pub open spec fn models(of: Seq<SourceEntry>) -> Seq<EntryModel> {
    of.map_values(|entry: SourceEntry| entry@)
}

/// A value that may be missing, as a number.
pub open spec fn number_said(value: Option<Value>) -> Option<u32> {
    match value {
        Some(value) => super::dword_of(value.ty, value.data@),
        None => None,
    }
}

/// `S-1-0-0`, which is never a domain a source may claim.
pub open spec fn null_sid() -> SidModel {
    SidModel { authority: 0, subs: seq![0u32] }
}

/// The pin a value sets: none where there is no value, the SID its text spells,
/// and a pin nobody can satisfy for anything else.
pub open spec fn pin_of(value: Option<Value>, literal: Option<SidModel>) -> Option<SidModel> {
    match value {
        Some(value) => match (super::sz_of(value.ty, value.data@), literal) {
            (Some(_), Some(sid)) => Some(sid),
            _ => Some(null_sid()),
        },
        None => None,
    }
}

/// The range two values configure, if it is usable.
pub open spec fn range_of(base: Option<Value>, count: Option<Value>) -> Option<Range> {
    match number_said(base) {
        Some(base) => {
            let count = match number_said(count) {
                Some(count) => count,
                None => unix_id::DEFAULT_COUNT,
            };
            let range = Range { base, count };
            if range.usable() {
                Some(range)
            } else {
                None
            }
        },
        None => None,
    }
}

/// The search order a value configures.
pub open spec fn order_of(value: Option<Value>) -> u32 {
    match number_said(value) {
        Some(order) => order,
        None => DEFAULT_SEARCH_ORDER,
    }
}

/// Stands in for a pin nobody can parse.
///
/// `S-1-0-0` (Null) is never a claimable domain shape, so a source pinned to it
/// can never satisfy the pin. That turns "the administrator wrote a broken pin"
/// into "this source cannot register", which is the outcome a broken pin should
/// have: visible, and failing towards nobody registering.
pub fn unsatisfiable_pin() -> (pin: Sid)
    ensures
        pin@ == null_sid(),
{
    let subs: [u32; 1] = [0];
    assert(subs@ =~= seq![0u32]);
    Sid::build(0, &subs).unwrap()
}

/// Read a pinned domain, if one is configured.
///
/// A malformed value is **not** treated as absent. Absence means "no pin"; a
/// value that cannot be parsed means an administrator tried to write a pin and
/// got it wrong, and quietly downgrading that to "unpinned" would remove the
/// control they were trying to apply, silently, at the moment they were trying
/// to apply it.
///
/// `literal` is what reading the value's text as a SID came to.
pub fn pinned_domain(value: Option<&Value>, literal: Option<Sid>) -> (pin: Option<Sid>)
    ensures
        crate::sid::maybe(pin) == pin_of(owned(value), crate::sid::maybe(literal)),
{
    let value = match value {
        Some(value) => value,
        None => return None,
    };
    if value.ty != ValueType::Sz {
        return Some(unsatisfiable_pin());
    }
    match (sz(&value.ty, value.data.as_slice()), literal) {
        (Some(_), Some(sid)) => Some(sid),
        _ => Some(unsatisfiable_pin()),
    }
}

/// A borrowed value as a value.
pub open spec fn owned(value: Option<&Value>) -> Option<Value> {
    match value {
        Some(value) => Some(*value),
        None => None,
    }
}

/// A value that may be missing, as a number.
fn number(value: Option<&Value>) -> (number: Option<u32>)
    ensures
        number == number_said(owned(value)),
{
    match value {
        Some(value) => dword(&value.ty, value.data.as_slice()),
        None => None,
    }
}

/// Read a source's Unix ID range, if one is configured and usable.
///
/// Unlike a pinned domain, a malformed value here is treated as absent rather
/// than as an unsatisfiable constraint. The two differ because of what each
/// value *is*: a pin is a restriction, so discarding it would remove a control.
/// A range is a grant, what lets a source's principals project to real numbers
/// at all, so discarding it grants strictly less.
pub fn unix_id_range(base: Option<&Value>, count: Option<&Value>) -> (range: Option<Range>)
    ensures
        range == range_of(owned(base), owned(count)),
{
    let base: u32 = match number(base) {
        Some(base) => base,
        None => return None,
    };
    let count: u32 = match number(count) {
        Some(count) => count,
        None => unix_id::DEFAULT_COUNT,
    };
    match Range::new(base, count) {
        Ok(range) => Some(range),
        Err(_) => None,
    }
}

/// Where a source sits when resolving a bare name.
///
/// Lower is consulted first. Sources sharing a value are ordered by name, so the
/// result never depends on which source happened to register first.
pub fn search_order(value: Option<&Value>) -> (order: u32)
    ensures
        order == order_of(owned(value)),
{
    match number(value) {
        Some(order) => order,
        None => DEFAULT_SEARCH_ORDER,
    }
}

/// Whether a value is present and not zero. Absent is false.
///
/// This grants a permission rather than restoring a documented default, so
/// silence must mean "no".
pub fn is_set(value: Option<&Value>) -> (yes: bool)
    ensures
        yes <==> (number_said(owned(value)) matches Some(number) && number != 0),
{
    match number(value) {
        Some(number) => number != 0,
        None => false,
    }
}

/// What one source's subkey holds.
pub struct Settings {
    pub foreign_memberships: Option<Value>,
    pub domain: Option<Value>,
    /// What reading the text of `domain` as a SID came to.
    pub domain_literal: Option<Sid>,
    pub unix_id_base: Option<Value>,
    pub unix_id_count: Option<Value>,
    pub search_order: Option<Value>,
}

/// The allowlist entry a subkey is. One that could not be read is admitted with
/// the narrower permission rather than dropped.
pub open spec fn entry_of(name: Seq<char>, settings: Option<Settings>) -> EntryModel {
    EntryModel {
        name,
        service_sid: service_sid::service_sid(name),
        may_assert_foreign_memberships: match settings {
            Some(settings) => number_said(settings.foreign_memberships) matches Some(number)
                && number != 0,
            None => false,
        },
        pinned_domain: match settings {
            Some(settings) => pin_of(settings.domain, crate::sid::maybe(settings.domain_literal)),
            None => None,
        },
        unix_id_range: match settings {
            Some(settings) => range_of(settings.unix_id_base, settings.unix_id_count),
            None => None,
        },
        search_order: match settings {
            Some(settings) => order_of(settings.search_order),
            None => DEFAULT_SEARCH_ORDER,
        },
    }
}

/// What became of one subkey.
#[derive(Debug, Clone, Copy, PartialEq, Eq, Structural)]
pub enum Offered {
    /// No more entries are taken.
    Full,
    /// Its name is not text.
    NotText,
    /// No service SID derives from its name.
    Underivable,
    /// It is an entry of the allowlist.
    Taken,
}

/// What becomes of a subkey, given how many entries there are already.
pub open spec fn fate(so_far: nat, name: Seq<u8>) -> Offered {
    if so_far >= MAX_SOURCE_ENTRIES {
        Offered::Full
    } else if !vstd::utf8::valid_utf8(name) {
        Offered::NotText
    } else if service_sid::digested(vstd::utf8::decode_utf8(name)).len()
        >= service_sid::DIGEST_LIMIT {
        Offered::Underivable
    } else {
        Offered::Taken
    }
}

/// The allowlist as it is read.
///
/// An empty list, including when the key does not exist, means **no source may
/// register**. An absent *policy* value means "use the documented default"; an
/// absent *allowlist* must mean "nobody", because an allowlist that fails open
/// is not an allowlist.
pub struct Reader {
    entries: Vec<SourceEntry>,
}

impl View for Reader {
    type V = Seq<EntryModel>;

    closed spec fn view(&self) -> Seq<EntryModel> {
        models(self.entries@)
    }
}

/// Start reading the allowlist.
pub fn sources() -> (reader: Reader)
    ensures
        reader@.len() == 0,
{
    Reader { entries: Vec::new() }
}

impl Reader {
    #[verifier::type_invariant]
    spec fn bounded(self) -> bool {
        self.entries@.len() <= MAX_SOURCE_ENTRIES
    }

    /// Whether another entry would be taken.
    pub fn wants_more(&self) -> (yes: bool)
        ensures
            yes <==> self@.len() < MAX_SOURCE_ENTRIES,
    {
        self.entries.len() < MAX_SOURCE_ENTRIES
    }

    /// Offer the next subkey: its name, and what it holds if it could be read.
    pub fn offer(&mut self, name: &[u8], settings: Option<Settings>) -> (offered: Offered)
        ensures
            offered == fate(old(self)@.len(), name@),
            offered != Offered::Taken ==> final(self)@ == old(self)@,
            offered == Offered::Taken ==> final(self)@ == old(self)@.push(
                entry_of(vstd::utf8::decode_utf8(name@), settings),
            ),
    {
        if self.entries.len() >= MAX_SOURCE_ENTRIES {
            return Offered::Full;
        }
        let name = match text::utf8(name) {
            Some(name) => name,
            None => return Offered::NotText,
        };
        let service_sid = match service_sid::of(name) {
            Some(sid) => sid,
            None => return Offered::Underivable,
        };
        let ghost given = settings;
        let entry = match settings {
            Some(settings) => SourceEntry {
                name: name.to_owned(),
                service_sid,
                may_assert_foreign_memberships: is_set(settings.foreign_memberships.as_ref()),
                pinned_domain: pinned_domain(settings.domain.as_ref(), settings.domain_literal),
                unix_id_range: unix_id_range(
                    settings.unix_id_base.as_ref(),
                    settings.unix_id_count.as_ref(),
                ),
                search_order: search_order(settings.search_order.as_ref()),
            },
            None => SourceEntry {
                name: name.to_owned(),
                service_sid,
                may_assert_foreign_memberships: false,
                pinned_domain: None,
                unix_id_range: None,
                search_order: DEFAULT_SEARCH_ORDER,
            },
        };
        assert(entry@ == entry_of(name@, given));
        let ghost before = models(self.entries@);
        let mut entries: Vec<SourceEntry> = Vec::new();
        std::mem::swap(&mut entries, &mut self.entries);
        entries.push(entry);
        assert(models(entries@) =~= before.push(entry@));
        self.entries = entries;
        Offered::Taken
    }

    /// Every configured principal source.
    pub fn finish(self) -> (entries: Vec<SourceEntry>)
        ensures
            models(entries@) == self@,
            entries@.len() <= MAX_SOURCE_ENTRIES,
    {
        proof {
            use_type_invariant(&self);
        }
        self.entries
    }
}

/// A pin nobody could parse is one no domain satisfies: the source it is set on
/// can never register.
pub proof fn law_a_broken_pin_admits_nobody(value: Value, literal: Option<SidModel>)
    requires
        super::sz_of(value.ty, value.data@) is None || literal is None,
    ensures
        pin_of(Some(value), literal) == Some(null_sid()),
        !crate::domain::claimable(null_sid()),
{
}

/// A range that survives being read is one a source may be given.
pub proof fn law_a_configured_range_is_usable(base: Option<Value>, count: Option<Value>)
    ensures
        range_of(base, count) matches Some(range) ==> range.usable(),
{
}

/// What pins a source: nothing where there is no such value, the SID where its text
/// spells one, and otherwise the SID nobody may claim, which is zero after authority
/// zero.
pub proof fn law_what_pins_a_source(value: Value, literal: Option<SidModel>, sid: SidModel)
    ensures
        pin_of(None, literal) is None,
        super::sz_of(value.ty, value.data@) is Some && literal == Some(sid) ==> pin_of(
            Some(value),
            literal,
        ) == Some(sid),
        super::sz_of(value.ty, value.data@) is None || literal is None ==> pin_of(
            Some(value),
            literal,
        ) == Some(SidModel { authority: 0, subs: seq![0u32] }),
{
}

/// Which range a source has: a base of at least a million and a count, a million
/// where none is said, that is not zero and does not run past the last number. There
/// is none without a base, and none where that does not hold.
pub proof fn law_which_range_a_source_has(base: Option<Value>, count: Option<Value>)
    ensures
        ({
            let many = match number_said(count) {
                Some(many) => many,
                None => 1_000_000u32,
            };
            &&& number_said(base) is None ==> range_of(base, count) is None
            &&& number_said(base) matches Some(first) ==> if first >= 1_000_000 && many > 0 && first
                + many <= 0xffff_ffff {
                range_of(base, count) == Some(Range { base: first, count: many })
            } else {
                range_of(base, count) is None
            }
        }),
{
}

/// A value that says a number says it, and one that says none, or is not there, does
/// not.
pub proof fn law_which_number_is_said(value: Value, number: u32)
    ensures
        number_said(None) is None,
        number_said(Some(value)) == Some(number) <==> value.ty is Dword && value.data@.len() == 4
            && value.data@[0] + 256 * (value.data@[1] + 256 * (value.data@[2] + 256
            * value.data@[3])) == number,
{
}

/// Where a source stands in the search order: where its value says, and at a thousand
/// where none does.
pub proof fn law_where_a_source_stands(value: Option<Value>)
    ensures
        number_said(value) matches Some(order) ==> order_of(value) == order,
        number_said(value) is None ==> order_of(value) == 1000,
{
}

/// What an entry of the allowlist is: the service of that name, and what its values
/// say of it, each by itself. One that could not be read is pinned to nothing, has no
/// range, may name nobody foreign, and stands at a thousand.
pub proof fn law_what_an_entry_is(name: Seq<char>, settings: Settings)
    ensures
        ({
            let (entry, bare) = (entry_of(name, Some(settings)), entry_of(name, None));
            &&& entry.name == name
            &&& entry.service_sid == service_sid::service_sid(name)
            &&& entry.may_assert_foreign_memberships <==> (number_said(
                settings.foreign_memberships,
            ) is Some && number_said(settings.foreign_memberships) != Some(0u32))
            &&& entry.pinned_domain == pin_of(
                settings.domain,
                crate::sid::maybe(settings.domain_literal),
            )
            &&& entry.unix_id_range == range_of(settings.unix_id_base, settings.unix_id_count)
            &&& entry.search_order == order_of(settings.search_order)
            &&& bare.name == name
            &&& bare.service_sid == service_sid::service_sid(name)
            &&& !bare.may_assert_foreign_memberships
            &&& bare.pinned_domain is None
            &&& bare.unix_id_range is None
            &&& bare.search_order == 1000
        }),
{
}

/// A subkey is an entry exactly where fewer than 64 were taken before it, and its name
/// is text that a service could have.
pub proof fn law_what_becomes_of_an_entry(so_far: nat, name: Seq<u8>)
    ensures
        ({
            let offered = fate(so_far, name);
            let text = vstd::utf8::valid_utf8(name);
            let short = service_sid::digested(vstd::utf8::decode_utf8(name)).len()
                < 0x2000_0000_0000_0000;
            &&& offered == Offered::Full <==> so_far >= 64
            &&& offered == Offered::NotText <==> so_far < 64 && !text
            &&& offered == Offered::Underivable <==> so_far < 64 && text && !short
            &&& offered == Offered::Taken <==> so_far < 64 && text && short
        }),
{
}

/// An entry is its name, its service, its flag, its pin, its range and its order; and a
/// value that may be missing is the one there is or none.
pub proof fn law_an_entry_is_its_parts(entry: SourceEntry, all: Seq<SourceEntry>, value: &Value, i: int)
    ensures
        entry@.name == entry.name@,
        entry@.service_sid == entry.service_sid@,
        entry@.may_assert_foreign_memberships == entry.may_assert_foreign_memberships,
        entry@.pinned_domain == crate::sid::maybe(entry.pinned_domain),
        entry@.unix_id_range == entry.unix_id_range,
        entry@.search_order == entry.search_order,
        models(all).len() == all.len(),
        0 <= i < all.len() ==> models(all)[i] == all[i]@,
        owned(Some(value)) == Some(*value),
        owned(None) is None,
{
}

} // verus!
