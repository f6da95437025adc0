//! Every source currently registered, and every one that should be.

use crate::domain;
use crate::policy::sources::{EntryModel, SourceEntry};
use crate::sid::{Sid, SidModel};
use crate::source::{Conversation, Delivery, Pumped, Read, Source, SourceModel, MAX_SOURCES};
use crate::text;
use crate::unix_id::{self, Range};
use vstd::prelude::*;
use vstd::seq_lib::*;

verus! {

/// A source this machine is configured to have, whether or not it is here.
///
/// Load-bearing for resolution rather than bookkeeping. A configured source that
/// is *absent* must still occupy its place in the search order: without that, a
/// crashed local source would make `jack` silently resolve to a directory's
/// `jack`, which is a different principal with a different SID, and every
/// descriptor granting the local one would stop applying to the person signing
/// in under that name.
#[derive(Debug, PartialEq, Eq)]
pub struct Configured {
    pub name: String,
    pub search_order: u32,
    pub unix_id_range: Option<Range>,
}

/// A configured source, mathematically.
pub struct ConfiguredModel {
    pub name: Seq<char>,
    pub search_order: u32,
    pub unix_id_range: Option<Range>,
}

impl View for Configured {
    type V = ConfiguredModel;

    open spec fn view(&self) -> ConfiguredModel {
        ConfiguredModel {
            name: self.name@,
            search_order: self.search_order,
            unix_id_range: self.unix_id_range,
        }
    }
}

impl Clone for Configured {
    fn clone(&self) -> (copy: Self)
        ensures
            copy@ == self@,
    {
        Configured {
            name: self.name.clone(),
            search_order: self.search_order,
            unix_id_range: self.unix_id_range,
        }
    }
}

/// A place in the search order, filled or not.
#[derive(Clone, Copy)]
pub enum Slot<'a> {
    Live(&'a Source),
    /// Configured, and not currently registered. Everything behind it in the
    /// order is unreachable, because an answer from further down would be a
    /// different principal than the one this machine gives when it is healthy.
    Absent(&'a Configured),
}

/// A place in the search order, mathematically.
pub enum SlotModel {
    Live(SourceModel),
    Absent(ConfiguredModel),
}

impl SlotModel {
    /// What it is sorted by first.
    pub open spec fn order(self) -> u32 {
        match self {
            SlotModel::Live(source) => source.facts.search_order,
            SlotModel::Absent(entry) => entry.search_order,
        }
    }

    /// What it is sorted by next.
    pub open spec fn name(self) -> Seq<char> {
        match self {
            SlotModel::Live(source) => source.facts.name,
            SlotModel::Absent(entry) => entry.name,
        }
    }
}

impl View for Slot<'_> {
    type V = SlotModel;

    open spec fn view(&self) -> SlotModel {
        match *self {
            Slot::Live(source) => SlotModel::Live(source@),
            Slot::Absent(entry) => SlotModel::Absent(entry@),
        }
    }
}

/// Slots as values.
pub open spec fn slot_models(of: Seq<Slot<'_>>) -> Seq<SlotModel> {
    of.map_values(|slot: Slot<'_>| slot@)
}

/// Borrowed sources as values.
pub open spec fn source_models(of: Seq<&Source>) -> Seq<SourceModel> {
    of.map_values(|source: &Source| source@)
}

/// Whether one place comes before another: by search order, then by name.
pub open spec fn ahead(a: SlotModel, b: SlotModel) -> bool {
    a.order() < b.order() || (a.order() == b.order() && text::before(a.name(), b.name()))
}

/// Nothing stands behind what it comes before.
pub open spec fn in_order(slots: Seq<SlotModel>) -> bool {
    forall|i: int, j: int| 0 <= i < j < slots.len() ==> !ahead(slots[j], slots[i])
}

/// Every source currently registered, and every one that should be.
pub struct Registry {
    sources: Vec<Source>,
    /// Every source the allowlist names.
    configured: Vec<Configured>,
    /// The domain each source name was *first* seen to declare, kept including
    /// across a source disconnecting.
    ///
    /// This is trust-on-first-use, and it is the check that survives a restart
    /// of the source. Without it, a source that is killed and comes back
    /// compromised could declare a different domain and be believed, because
    /// every other check would pass: it still holds the right service SID, its
    /// new domain is still a claimable shape, and with itself deregistered there
    /// is nothing left to collide with.
    first_declared: Vec<(String, Sid)>,
}

/// A registry, mathematically.
pub struct RegistryModel {
    pub sources: Seq<SourceModel>,
    pub configured: Seq<ConfiguredModel>,
    pub first_declared: Seq<(Seq<char>, SidModel)>,
}

impl View for Registry {
    type V = RegistryModel;

    closed spec fn view(&self) -> RegistryModel {
        RegistryModel {
            sources: self.sources@.map_values(|source: Source| source@),
            configured: self.configured@.map_values(|entry: Configured| entry@),
            first_declared: self.first_declared@.map_values(
                |declared: (String, Sid)| (declared.0@, declared.1@),
            ),
        }
    }
}

/// The domain a name was first seen to declare, if it ever declared one.
pub open spec fn declared(first: Seq<(Seq<char>, SidModel)>, name: Seq<char>) -> Option<SidModel>
    decreases first.len(),
{
    if first.len() == 0 {
        None
    } else if first[0].0 == name {
        Some(first[0].1)
    } else {
        declared(first.drop_first(), name)
    }
}

impl RegistryModel {
    /// At most so many sources, no two of one name, no two of one domain, and
    /// each of the domain its name first declared.
    pub open spec fn valid(self) -> bool {
        &&& self.sources.len() <= MAX_SOURCES
        &&& forall|i: int, j: int|
            0 <= i < j < self.sources.len() ==> (#[trigger] self.sources[i]).facts.name != (
            #[trigger] self.sources[j]).facts.name
        &&& forall|i: int, j: int|
            0 <= i < j < self.sources.len() ==> (#[trigger] self.sources[i]).facts.domain != (
            #[trigger] self.sources[j]).facts.domain
        &&& forall|i: int|
            0 <= i < self.sources.len() ==> declared(
                self.first_declared,
                (#[trigger] self.sources[i]).facts.name,
            ) == Some(self.sources[i].facts.domain)
    }

    /// Whether a source is registered under a name.
    pub open spec fn holds(self, name: Seq<char>) -> bool {
        exists|i: int| 0 <= i < self.sources.len() && (#[trigger] self.sources[i]).facts.name == name
    }

    /// Whether a source is registered under a name and its connection stands.
    pub open spec fn has_live(self, name: Seq<char>) -> bool {
        exists|i: int|
            0 <= i < self.sources.len() && (#[trigger] self.sources[i]).facts.name == name
                && self.sources[i].live
    }

    /// Whether a source is registered for a domain.
    pub open spec fn claims(self, domain: SidModel) -> bool {
        exists|i: int|
            0 <= i < self.sources.len() && (#[trigger] self.sources[i]).facts.domain == domain
    }

    /// The live sources, as they stand.
    pub open spec fn live(self) -> Seq<SourceModel> {
        self.sources.filter(|source: SourceModel| source.live)
    }

    /// The configured sources that are not here.
    pub open spec fn missing(self) -> Seq<ConfiguredModel> {
        self.configured.filter(|entry: ConfiguredModel| !self.has_live(entry.name))
    }

    /// Whether every configured source is here.
    pub open spec fn whole(self) -> bool {
        forall|i: int|
            0 <= i < self.configured.len() ==> self.has_live((#[trigger] self.configured[i]).name)
    }

    /// Every place in the search order, in no order yet.
    pub open spec fn places(self) -> Seq<SlotModel> {
        as_places(self.live())
            + self.missing().map_values(|entry: ConfiguredModel| SlotModel::Absent(entry))
    }

    /// The live sources, in the order a bare name is resolved.
    pub open spec fn order(self) -> Seq<SourceModel> {
        ranking(self.sources)
    }

    /// The search order: the live sources, and every configured one that is not
    /// here in the place it would have.
    pub open spec fn search_order(self) -> Seq<SlotModel> {
        with_gaps(self, self.configured)
    }

    /// Every place, and in order.
    pub open spec fn arranged(self, slots: Seq<SlotModel>) -> bool {
        in_order(slots) && slots.to_multiset() == self.places().to_multiset()
    }

    /// Every live source, and in order.
    pub open spec fn ranked(self, sources: Seq<SourceModel>) -> bool {
        &&& in_order(as_places(sources))
        &&& sources.to_multiset() == self.live().to_multiset()
    }
}

/// Live sources as places.
pub open spec fn as_places(sources: Seq<SourceModel>) -> Seq<SlotModel> {
    sources.map_values(|source: SourceModel| SlotModel::Live(source))
}

/// A source put among others, before the first that it comes before.
pub open spec fn ranked_among(sources: Seq<SourceModel>, source: SourceModel) -> Seq<SourceModel>
    decreases sources.len(),
{
    if sources.len() == 0 {
        seq![source]
    } else if ahead(SlotModel::Live(source), SlotModel::Live(sources[0])) {
        seq![source] + sources
    } else {
        seq![sources[0]] + ranked_among(sources.drop_first(), source)
    }
}

/// The live ones among some sources, in order.
pub open spec fn ranking(sources: Seq<SourceModel>) -> Seq<SourceModel>
    decreases sources.len(),
{
    if sources.len() == 0 {
        Seq::empty()
    } else {
        let rest = ranking(sources.drop_last());
        if sources.last().live {
            ranked_among(rest, sources.last())
        } else {
            rest
        }
    }
}

/// A place put among others, before the first that it comes before.
pub open spec fn placed(slots: Seq<SlotModel>, slot: SlotModel) -> Seq<SlotModel>
    decreases slots.len(),
{
    if slots.len() == 0 {
        seq![slot]
    } else if ahead(slot, slots[0]) {
        seq![slot] + slots
    } else {
        seq![slots[0]] + placed(slots.drop_first(), slot)
    }
}

/// The live sources of a registry, and those of some entries that are not here,
/// in order.
pub open spec fn with_gaps(registry: RegistryModel, entries: Seq<ConfiguredModel>) -> Seq<SlotModel>
    decreases entries.len(),
{
    if entries.len() == 0 {
        as_places(registry.order())
    } else {
        let rest = with_gaps(registry, entries.drop_last());
        if registry.has_live(entries.last().name) {
            rest
        } else {
            placed(rest, SlotModel::Absent(entries.last()))
        }
    }
}

/// Why a source was not admitted.
#[derive(Debug, PartialEq, Eq)]
pub enum Rejected {
    /// [`MAX_SOURCES`] are already registered.
    TooMany,
    /// A source of this name is already registered.
    AlreadyRegistered,
    /// Another registered source claims this domain.
    DomainTaken(String),
    /// This source previously declared a different domain.
    DomainChanged(Sid),
}

/// Why a source was not admitted, mathematically.
pub enum RejectedModel {
    TooMany,
    AlreadyRegistered,
    DomainTaken(Seq<char>),
    DomainChanged(SidModel),
}

impl View for Rejected {
    type V = RejectedModel;

    open spec fn view(&self) -> RejectedModel {
        match *self {
            Rejected::TooMany => RejectedModel::TooMany,
            Rejected::AlreadyRegistered => RejectedModel::AlreadyRegistered,
            Rejected::DomainTaken(other) => RejectedModel::DomainTaken(other@),
            Rejected::DomainChanged(before) => RejectedModel::DomainChanged(before@),
        }
    }
}

impl RejectedModel {
    /// What it says, with an earlier domain written as text.
    pub open spec fn told(self, shown: Seq<char>) -> Seq<char> {
        match self {
            RejectedModel::TooMany => "8 sources are already registered"@,
            RejectedModel::AlreadyRegistered => "a source of that name is already registered"@,
            RejectedModel::DomainTaken(other) => other
                + " is already registered for that domain"@,
            RejectedModel::DomainChanged(_) => "it previously declared "@ + shown
                + " and may not change domain without restarting the authority"@,
        }
    }
}

impl Rejected {
    /// What it says, given the domain that was declared before, written as text.
    pub fn message(&self, shown: &str) -> (message: String)
        ensures
            message@ == self@.told(shown@),
    {
        match self {
            Rejected::TooMany => "8 sources are already registered".to_owned(),
            Rejected::AlreadyRegistered => "a source of that name is already registered".to_owned(),
            Rejected::DomainTaken(other) => {
                let mut message: String = other.clone();
                message.append(" is already registered for that domain");
                message
            },
            Rejected::DomainChanged(_) => {
                let mut message: String = "it previously declared ".to_owned();
                message.append(shown);
                message.append(" and may not change domain without restarting the authority");
                message
            },
        }
    }
}

/// Whether a rejection is the one a source earns.
pub open spec fn earns(registry: RegistryModel, source: SourceModel, rejected: RejectedModel) -> bool {
    match rejected {
        RejectedModel::TooMany => registry.sources.len() >= MAX_SOURCES,
        RejectedModel::AlreadyRegistered => registry.sources.len() < MAX_SOURCES && registry.holds(
            source.facts.name,
        ),
        RejectedModel::DomainTaken(other) => {
            &&& registry.sources.len() < MAX_SOURCES
            &&& !registry.holds(source.facts.name)
            &&& exists|i: int|
                0 <= i < registry.sources.len() && (#[trigger] registry.sources[i]).facts.domain
                    == source.facts.domain && registry.sources[i].facts.name == other
        },
        RejectedModel::DomainChanged(before) => {
            &&& registry.sources.len() < MAX_SOURCES
            &&& !registry.holds(source.facts.name)
            &&& !registry.claims(source.facts.domain)
            &&& declared(registry.first_declared, source.facts.name) == Some(before)
            &&& before != source.facts.domain
        },
    }
}

/// Whether a source is let in.
pub open spec fn admissible(registry: RegistryModel, source: SourceModel) -> bool {
    &&& registry.sources.len() < MAX_SOURCES
    &&& !registry.holds(source.facts.name)
    &&& !registry.claims(source.facts.domain)
    &&& declared(registry.first_declared, source.facts.name) matches Some(before) ==> before
        == source.facts.domain
}

/// The registry with one more source in it.
pub open spec fn with_source(registry: RegistryModel, source: SourceModel) -> RegistryModel {
    RegistryModel {
        sources: registry.sources.push(source),
        first_declared: if declared(registry.first_declared, source.facts.name) is Some {
            registry.first_declared
        } else {
            registry.first_declared.push((source.facts.name, source.facts.domain))
        },
        ..registry
    }
}

/// The registry without a source of a name.
pub open spec fn without_source(registry: RegistryModel, name: Seq<char>) -> RegistryModel {
    RegistryModel {
        sources: registry.sources.filter(|source: SourceModel| source.facts.name != name),
        ..registry
    }
}

proof fn lemma_declared_push(
    first: Seq<(Seq<char>, SidModel)>,
    name: Seq<char>,
    domain: SidModel,
    other: Seq<char>,
)
    ensures
        declared(first.push((name, domain)), other) == (match declared(first, other) {
            Some(before) => Some(before),
            None => if other == name {
                Some(domain)
            } else {
                None
            },
        }),
    decreases first.len(),
{
    let more = first.push((name, domain));
    reveal_with_fuel(declared, 2);
    if first.len() > 0 {
        assert(more[0] == first[0]);
        assert(more.drop_first() =~= first.drop_first().push((name, domain)));
        lemma_declared_push(first.drop_first(), name, domain, other);
    } else {
        assert(more[0] == (name, domain));
        assert(more.drop_first() =~= Seq::empty());
    }
}

/// Letting an admissible source in keeps the registry sound.
proof fn lemma_with_source(registry: RegistryModel, source: SourceModel)
    requires
        registry.valid(),
        admissible(registry, source),
    ensures
        with_source(registry, source).valid(),
{
    let more = with_source(registry, source);
    let n = registry.sources.len() as int;
    assert forall|i: int| 0 <= i < n implies (#[trigger] more.sources[i])
        == registry.sources[i] by {}
    assert forall|i: int, j: int| 0 <= i < j < more.sources.len() implies (
    #[trigger] more.sources[i]).facts.name != (#[trigger] more.sources[j]).facts.name by {
        if j < n {
            assert(registry.sources[i].facts.name != registry.sources[j].facts.name);
        }
    }
    assert forall|i: int, j: int| 0 <= i < j < more.sources.len() implies (
    #[trigger] more.sources[i]).facts.domain != (#[trigger] more.sources[j]).facts.domain by {
        if j < n {
            assert(registry.sources[i].facts.domain != registry.sources[j].facts.domain);
        }
    }
    assert forall|i: int| 0 <= i < more.sources.len() implies declared(
        more.first_declared,
        (#[trigger] more.sources[i]).facts.name,
    ) == Some(more.sources[i].facts.domain) by {
        lemma_declared_push(
            registry.first_declared,
            source.facts.name,
            source.facts.domain,
            more.sources[i].facts.name,
        );
        if i < n {
            assert(declared(registry.first_declared, registry.sources[i].facts.name) == Some(
                registry.sources[i].facts.domain,
            ));
        }
    }
}

impl Registry {
    #[verifier::type_invariant]
    spec fn sound(self) -> bool {
        self@.valid()
    }

    /// A registry that knows of no configured source.
    ///
    /// Only correct where there genuinely is no allowlist: a registry that does
    /// not know which sources *should* be present cannot tell an absence from an
    /// outage.
    pub fn new() -> (registry: Registry)
        ensures
            registry@.sources.len() == 0,
            registry@.configured.len() == 0,
            registry@.first_declared.len() == 0,
    {
        Registry { sources: Vec::new(), configured: Vec::new(), first_declared: Vec::new() }
    }

    /// A registry that knows which sources should be here.
    pub fn expecting(configured: Vec<Configured>) -> (registry: Registry)
        ensures
            registry@.sources.len() == 0,
            registry@.configured == configured@.map_values(|entry: Configured| entry@),
            registry@.first_declared.len() == 0,
    {
        Registry { sources: Vec::new(), configured, first_declared: Vec::new() }
    }

    /// A registry that knows what the allowlist names.
    ///
    /// Read once, rather than per lookup: a name resolver in every process on
    /// the system takes this path thousands of times a second.
    pub fn configured(entries: &[SourceEntry]) -> (registry: Registry)
        ensures
            registry@.sources.len() == 0,
            registry@.first_declared.len() == 0,
            registry@.configured == crate::policy::sources::models(entries@).map_values(
                |entry: EntryModel|
                    ConfiguredModel {
                        name: entry.name,
                        search_order: entry.search_order,
                        unix_id_range: entry.unix_id_range,
                    },
            ),
    {
        let mut configured: Vec<Configured> = Vec::new();
        let mut i: usize = 0;
        while i < entries.len()
            invariant
                i <= entries@.len(),
                configured@.len() == i,
                forall|j: int|
                    0 <= j < i ==> (#[trigger] configured@[j])@ == (ConfiguredModel {
                        name: entries@[j].name@,
                        search_order: entries@[j].search_order,
                        unix_id_range: entries@[j].unix_id_range,
                    }),
            decreases entries@.len() - i,
        {
            configured.push(
                Configured {
                    name: entries[i].name.clone(),
                    search_order: entries[i].search_order,
                    unix_id_range: entries[i].unix_id_range,
                },
            );
            i += 1;
        }
        let registry = Registry::expecting(configured);
        assert(registry@.configured =~= crate::policy::sources::models(entries@).map_values(
            |entry: EntryModel|
                ConfiguredModel {
                    name: entry.name,
                    search_order: entry.search_order,
                    unix_id_range: entry.unix_id_range,
                },
        ));
        registry
    }

    /// How many sources are registered.
    pub fn count(&self) -> (count: usize)
        ensures
            count == self@.sources.len(),
    {
        self.sources.len()
    }

    /// The source registered under a name.
    pub fn named(&self, name: &str) -> (source: Option<&Source>)
        ensures
            source is Some <==> self@.holds(name@),
            source matches Some(found) ==> found@.facts.name == name@ && self@.sources.contains(
                found@,
            ),
    {
        let mut i: usize = 0;
        while i < self.sources.len()
            invariant
                i <= self.sources@.len(),
                forall|j: int| 0 <= j < i ==> (#[trigger] self@.sources[j]).facts.name != name@,
            decreases self.sources@.len() - i,
        {
            assert(self@.sources[i as int] == self.sources@[i as int]@);
            if text::eq(self.sources[i].name(), name) {
                return Some(&self.sources[i]);
            }
            i += 1;
        }
        None
    }

    /// The first source registered for a domain.
    fn holding(&self, domain: &Sid) -> (source: Option<&Source>)
        ensures
            source is Some <==> self@.claims(domain@),
            source matches Some(found) ==> found@.facts.domain == domain@
                && self@.sources.contains(found@),
    {
        let mut i: usize = 0;
        while i < self.sources.len()
            invariant
                i <= self.sources@.len(),
                forall|j: int| 0 <= j < i ==> (#[trigger] self@.sources[j]).facts.domain != domain@,
            decreases self.sources@.len() - i,
        {
            assert(self@.sources[i as int] == self.sources@[i as int]@);
            if self.sources[i].domain().same(domain) {
                return Some(&self.sources[i]);
            }
            i += 1;
        }
        None
    }

    /// The domain a name was first seen to declare.
    fn first_domain(&self, name: &str) -> (domain: Option<&Sid>)
        ensures
            domain is Some <==> declared(self@.first_declared, name@) is Some,
            domain matches Some(found) ==> declared(self@.first_declared, name@) == Some(found@),
    {
        let ghost all = self@.first_declared;
        let mut i: usize = 0;
        assert(all.skip(0) =~= all);
        while i < self.first_declared.len()
            invariant
                i <= self.first_declared@.len(),
                all == self@.first_declared,
                declared(all, name@) == declared(all.skip(i as int), name@),
            decreases self.first_declared@.len() - i,
        {
            assert(all.skip(i as int)[0] == (
                self.first_declared@[i as int].0@,
                self.first_declared@[i as int].1@,
            ));
            if text::eq(self.first_declared[i].0.as_str(), name) {
                return Some(&self.first_declared[i].1);
            }
            assert(all.skip(i as int).drop_first() =~= all.skip(i + 1));
            i += 1;
        }
        None
    }

    /// Let a source in, or say why not.
    ///
    /// The two domain checks here are the ones that need to see every *other*
    /// source.
    ///
    /// - **Disjointness.** Two sources sharing a domain means two authorities
    ///   for one namespace: whichever answers first decides who a name belongs
    ///   to, and the other's principals become impersonable by the first.
    /// - **Constancy.** A source declares what it declared before.
    pub fn accept(&mut self, source: Source) -> (accepted: Result<(), Rejected>)
        ensures
            accepted is Ok <==> admissible(old(self)@, source@),
            accepted is Ok ==> final(self)@ == with_source(old(self)@, source@),
            accepted matches Err(rejected) ==> earns(old(self)@, source@, rejected@)
                && final(self)@ == old(self)@,
    {
        proof {
            use_type_invariant(&*self);
        }
        if self.sources.len() >= MAX_SOURCES {
            return Err(Rejected::TooMany);
        }
        if self.named(source.name()).is_some() {
            return Err(Rejected::AlreadyRegistered);
        }
        if let Some(other) = self.holding(source.domain()) {
            let name = other.name().to_owned();
            proof {
                let at = choose|at: int|
                    0 <= at < self@.sources.len() && self@.sources[at] == other@;
                assert(self@.sources[at].facts.name == name@);
            }
            return Err(Rejected::DomainTaken(name));
        }
        let known = match self.first_domain(source.name()) {
            Some(before) => {
                if !before.same(source.domain()) {
                    return Err(Rejected::DomainChanged(before.clone()));
                }
                true
            },
            None => false,
        };
        let ghost was = self@;
        proof {
            lemma_with_source(was, source@);
        }
        let name = source.name().to_owned();
        let domain = source.domain().clone();
        let mut sources: Vec<Source> = Vec::new();
        std::mem::swap(&mut sources, &mut self.sources);
        let mut first_declared: Vec<(String, Sid)> = Vec::new();
        std::mem::swap(&mut first_declared, &mut self.first_declared);
        if !known {
            first_declared.push((name, domain));
        }
        sources.push(source);
        proof {
            let now = with_source(was, source@);
            assert(sources@.map_values(|source: Source| source@) =~= now.sources);
            assert(first_declared@.map_values(
                |declared: (String, Sid)| (declared.0@, declared.1@),
            ) =~= now.first_declared);
        }
        self.first_declared = first_declared;
        self.sources = sources;
        assert(self@ == with_source(was, source@));
        Ok(())
    }
}

/// A source changed in place, everything else as it was.
pub open spec fn with_change(
    registry: RegistryModel,
    name: Seq<char>,
    change: spec_fn(SourceModel) -> SourceModel,
) -> RegistryModel {
    RegistryModel {
        sources: registry.sources.map_values(
            |source: SourceModel|
                if source.facts.name == name {
                    change(source)
                } else {
                    source
                },
        ),
        ..registry
    }
}

/// What is left after filtering stands in the order it stood in.
proof fn lemma_filter_keeps_order<T>(of: Seq<T>, keep: spec_fn(T) -> bool)
    ensures
        of.filter(keep).len() <= of.len(),
        forall|i: int|
            0 <= i < of.filter(keep).len() ==> exists|a: int|
                0 <= a < of.len() && of[a] == #[trigger] of.filter(keep)[i],
        forall|i: int, j: int|
            #![trigger of.filter(keep)[i], of.filter(keep)[j]]
            0 <= i < j < of.filter(keep).len() ==> exists|a: int, b: int|
                0 <= a < b < of.len() && #[trigger] of[a] == of.filter(keep)[i] && #[trigger] of[b]
                    == of.filter(keep)[j],
    decreases of.len(),
{
    reveal(Seq::filter);
    let found = of.filter(keep);
    if of.len() > 0 {
        let front = of.drop_last();
        lemma_filter_keeps_order(front, keep);
        let rest = front.filter(keep);
        assert forall|i: int| 0 <= i < found.len() implies exists|a: int|
            0 <= a < of.len() && of[a] == #[trigger] found[i] by {
            if i < rest.len() {
                let a = choose|a: int| 0 <= a < front.len() && front[a] == rest[i];
                assert(of[a] == found[i]);
            } else {
                assert(of[of.len() - 1] == found[i]);
            }
        }
        assert forall|i: int, j: int|
            #![trigger found[i], found[j]]
            0 <= i < j < found.len() implies exists|a: int, b: int|
            0 <= a < b < of.len() && #[trigger] of[a] == found[i] && #[trigger] of[b] == found[j] by {
            if j < rest.len() {
                assert(rest[i] == found[i] && rest[j] == found[j]);
                let (a, b) = choose|a: int, b: int|
                    0 <= a < b < front.len() && #[trigger] front[a] == rest[i] && #[trigger] front[b]
                        == rest[j];
                assert(of[a] == found[i] && of[b] == found[j]);
            } else {
                let a = choose|a: int| 0 <= a < front.len() && front[a] == rest[i];
                assert(of[a] == found[i] && of[of.len() - 1] == found[j]);
            }
        }
    }
}

/// Taking a source out keeps the registry sound.
proof fn lemma_without_source(registry: RegistryModel, name: Seq<char>)
    requires
        registry.valid(),
    ensures
        without_source(registry, name).valid(),
{
    let keep = |source: SourceModel| source.facts.name != name;
    let less = without_source(registry, name);
    lemma_filter_keeps_order(registry.sources, keep);
    assert(less.sources == registry.sources.filter(keep));
    assert forall|i: int, j: int| 0 <= i < j < less.sources.len() implies (
    #[trigger] less.sources[i]).facts.name != (#[trigger] less.sources[j]).facts.name by {
        let (a, b) = choose|a: int, b: int|
            0 <= a < b < registry.sources.len() && #[trigger] registry.sources[a]
                == less.sources[i] && #[trigger] registry.sources[b] == less.sources[j];
        assert(registry.sources[a].facts.name != registry.sources[b].facts.name);
    }
    assert forall|i: int, j: int| 0 <= i < j < less.sources.len() implies (
    #[trigger] less.sources[i]).facts.domain != (#[trigger] less.sources[j]).facts.domain by {
        let (a, b) = choose|a: int, b: int|
            0 <= a < b < registry.sources.len() && #[trigger] registry.sources[a]
                == less.sources[i] && #[trigger] registry.sources[b] == less.sources[j];
        assert(registry.sources[a].facts.domain != registry.sources[b].facts.domain);
    }
    assert forall|i: int| 0 <= i < less.sources.len() implies declared(
        less.first_declared,
        (#[trigger] less.sources[i]).facts.name,
    ) == Some(less.sources[i].facts.domain) by {
        let a = choose|a: int|
            0 <= a < registry.sources.len() && registry.sources[a] == less.sources[i];
        assert(declared(registry.first_declared, registry.sources[a].facts.name) == Some(
            registry.sources[a].facts.domain,
        ));
    }
}

/// Changing what a source is doing, and not what it is, keeps the registry
/// sound.
proof fn lemma_with_change(
    registry: RegistryModel,
    name: Seq<char>,
    change: spec_fn(SourceModel) -> SourceModel,
)
    requires
        registry.valid(),
        forall|source: SourceModel| (#[trigger] change(source)).facts == source.facts,
    ensures
        with_change(registry, name, change).valid(),
{
    let now = with_change(registry, name, change);
    assert forall|i: int| 0 <= i < now.sources.len() implies (#[trigger] now.sources[i]).facts
        == registry.sources[i].facts by {}
    assert forall|i: int, j: int| 0 <= i < j < now.sources.len() implies (
    #[trigger] now.sources[i]).facts.name != (#[trigger] now.sources[j]).facts.name by {
        assert(registry.sources[i].facts.name != registry.sources[j].facts.name);
    }
    assert forall|i: int, j: int| 0 <= i < j < now.sources.len() implies (
    #[trigger] now.sources[i]).facts.domain != (#[trigger] now.sources[j]).facts.domain by {
        assert(registry.sources[i].facts.domain != registry.sources[j].facts.domain);
    }
    assert forall|i: int| 0 <= i < now.sources.len() implies declared(
        now.first_declared,
        (#[trigger] now.sources[i]).facts.name,
    ) == Some(now.sources[i].facts.domain) by {
        assert(declared(registry.first_declared, registry.sources[i].facts.name) == Some(
            registry.sources[i].facts.domain,
        ));
    }
}

impl Registry {
    /// Where the source of a name stands.
    fn position(&self, name: &str) -> (at: Option<usize>)
        ensures
            at is Some <==> self@.holds(name@),
            at matches Some(i) ==> i < self@.sources.len() && self@.sources[i as int].facts.name
                == name@,
    {
        let mut i: usize = 0;
        while i < self.sources.len()
            invariant
                i <= self.sources@.len(),
                forall|j: int| 0 <= j < i ==> (#[trigger] self@.sources[j]).facts.name != name@,
            decreases self.sources@.len() - i,
        {
            assert(self@.sources[i as int] == self.sources@[i as int]@);
            if text::eq(self.sources[i].name(), name) {
                return Some(i);
            }
            i += 1;
        }
        None
    }

    /// Take a source out, by its name.
    pub fn remove(&mut self, name: &str)
        ensures
            final(self)@ == without_source(old(self)@, name@),
    {
        proof {
            use_type_invariant(&*self);
            lemma_without_source(self@, name@);
            reveal(Seq::filter);
        }
        let ghost was = self@;
        let ghost keep = |source: SourceModel| source.facts.name != name@;
        let mut old_sources: Vec<Source> = Vec::new();
        std::mem::swap(&mut old_sources, &mut self.sources);
        let ghost full = old_sources@;
        let mut sources: Vec<Source> = Vec::new();
        let mut gone: usize = 0;
        assert(was.sources.take(0) =~= Seq::empty());
        assert(sources@.map_values(|source: Source| source@) =~= was.sources.take(0).filter(keep));
        let n: usize = old_sources.len();
        while gone < n
            invariant
                gone <= n == full.len(),
                old_sources@ == full.skip(gone as int),
                was.sources == full.map_values(|source: Source| source@),
                keep == (|source: SourceModel| source.facts.name != name@),
                sources@.map_values(|source: Source| source@) == was.sources.take(
                    gone as int,
                ).filter(keep),
                self@.first_declared == was.first_declared,
                self@.configured == was.configured,
            decreases n - gone,
        {
            reveal(Seq::filter);
            let source = old_sources.remove(0);
            proof {
                assert(source == full[gone as int]);
                assert(full.skip(gone as int).remove(0) =~= full.skip(gone + 1));
                assert(was.sources.take(gone + 1).drop_last() =~= was.sources.take(gone as int));
                assert(was.sources.take(gone + 1).last() == source@);
            }
            if !text::eq(source.name(), name) {
                let ghost before = sources@.map_values(|source: Source| source@);
                sources.push(source);
                assert(sources@.map_values(|source: Source| source@) =~= before.push(source@));
            }
            gone += 1;
        }
        assert(was.sources.take(gone as int) =~= was.sources);
        self.sources = sources;
    }

    /// Mark a source gone, by its name.
    pub fn shut_down(&mut self, name: &str)
        ensures
            final(self)@ == with_change(old(self)@, name@, |source: SourceModel| source.gone()),
    {
        proof {
            use_type_invariant(&*self);
        }
        let ghost was = self@;
        let ghost change = |source: SourceModel| source.gone();
        let ghost now = with_change(was, name@, change);
        proof {
            lemma_with_change(was, name@, change);
        }
        let at = self.position(name);
        if let Some(i) = at {
            let mut sources: Vec<Source> = Vec::new();
            std::mem::swap(&mut sources, &mut self.sources);
            let ghost full = sources@;
            let mut source = sources.remove(i);
            source.shut_down();
            sources.insert(i, source);
            proof {
                assert(was.sources == full.map_values(|source: Source| source@));
                assert forall|j: int| 0 <= j < full.len() && j != i implies (
                #[trigger] was.sources[j]).facts.name != name@ by {
                    if j < i {
                        assert(was.sources[j].facts.name != was.sources[i as int].facts.name);
                    } else {
                        assert(was.sources[i as int].facts.name != was.sources[j].facts.name);
                    }
                }
                assert(sources@.map_values(|source: Source| source@) =~= now.sources);
            }
            self.sources = sources;
        } else {
            assert(now.sources =~= was.sources);
        }
    }

    /// Begin a conversation with a source, by its name.
    pub fn open(&mut self, name: &str) -> (conversation: Option<Conversation>)
        ensures
            final(self)@ == with_change(
                old(self)@,
                name@,
                |source: SourceModel| source.after_open(),
            ),
            conversation is Some <==> exists|i: int|
                0 <= i < old(self)@.sources.len() && (#[trigger] old(self)@.sources[i]).facts.name
                    == name@ && old(self)@.sources[i].opens() is Some,
            conversation matches Some(c) ==> !c.ended() && exists|i: int|
                0 <= i < old(self)@.sources.len() && (#[trigger] old(self)@.sources[i]).facts.name
                    == name@ && old(self)@.sources[i].opens() == Some(c.ident()),
    {
        proof {
            use_type_invariant(&*self);
        }
        let ghost was = self@;
        let ghost change = |source: SourceModel| source.after_open();
        let ghost now = with_change(was, name@, change);
        proof {
            lemma_with_change(was, name@, change);
        }
        let at = self.position(name);
        if let Some(i) = at {
            let mut sources: Vec<Source> = Vec::new();
            std::mem::swap(&mut sources, &mut self.sources);
            let ghost full = sources@;
            let mut source = sources.remove(i);
            let conversation = source.open();
            sources.insert(i, source);
            proof {
                assert(was.sources == full.map_values(|source: Source| source@));
                assert forall|j: int| 0 <= j < full.len() && j != i implies (
                #[trigger] was.sources[j]).facts.name != name@ by {
                    if j < i {
                        assert(was.sources[j].facts.name != was.sources[i as int].facts.name);
                    } else {
                        assert(was.sources[i as int].facts.name != was.sources[j].facts.name);
                    }
                }
                assert(sources@.map_values(|source: Source| source@) =~= now.sources);
                assert(was.sources[i as int].facts.name == name@);
            }
            self.sources = sources;
            conversation
        } else {
            assert(now.sources =~= was.sources);
            None
        }
    }

    /// Forget a conversation with a source, by its name.
    pub fn close_conversation(&mut self, name: &str, id: u64)
        ensures
            final(self)@ == with_change(
                old(self)@,
                name@,
                |source: SourceModel| source.after_close(id),
            ),
    {
        proof {
            use_type_invariant(&*self);
        }
        let ghost was = self@;
        let ghost change = |source: SourceModel| source.after_close(id);
        let ghost now = with_change(was, name@, change);
        proof {
            lemma_with_change(was, name@, change);
        }
        let at = self.position(name);
        if let Some(i) = at {
            let mut sources: Vec<Source> = Vec::new();
            std::mem::swap(&mut sources, &mut self.sources);
            let ghost full = sources@;
            let mut source = sources.remove(i);
            source.close_conversation(id);
            sources.insert(i, source);
            proof {
                assert(was.sources == full.map_values(|source: Source| source@));
                assert forall|j: int| 0 <= j < full.len() && j != i implies (
                #[trigger] was.sources[j]).facts.name != name@ by {
                    if j < i {
                        assert(was.sources[j].facts.name != was.sources[i as int].facts.name);
                    } else {
                        assert(was.sources[i as int].facts.name != was.sources[j].facts.name);
                    }
                }
                assert(sources@.map_values(|source: Source| source@) =~= now.sources);
            }
            self.sources = sources;
        } else {
            assert(now.sources =~= was.sources);
        }
    }

    /// Whether a source is registered under a name and its connection stands.
    fn is_here(&self, name: &str) -> (yes: bool)
        ensures
            yes <==> self@.has_live(name@),
    {
        let mut i: usize = 0;
        while i < self.sources.len()
            invariant
                i <= self.sources@.len(),
                forall|j: int|
                    0 <= j < i ==> !((#[trigger] self@.sources[j]).facts.name == name@
                        && self@.sources[j].live),
            decreases self.sources@.len() - i,
        {
            assert(self@.sources[i as int] == self.sources@[i as int]@);
            if self.sources[i].is_live() && text::eq(self.sources[i].name(), name) {
                return true;
            }
            i += 1;
        }
        false
    }

    /// Every configured source that is not currently registered.
    pub fn absent(&self) -> (names: Vec<String>)
        ensures
            names@.map_values(|name: String| name@) == self@.missing().map_values(
                |entry: ConfiguredModel| entry.name,
            ),
    {
        let ghost all = self@.configured;
        let ghost keep = |entry: ConfiguredModel| !self@.has_live(entry.name);
        let ghost named = |entry: ConfiguredModel| entry.name;
        let mut names: Vec<String> = Vec::new();
        let mut i: usize = 0;
        proof {
            reveal(Seq::filter);
            assert(all.take(0) =~= Seq::empty());
            assert(names@.map_values(|name: String| name@) =~= all.take(0).filter(keep).map_values(
                named,
            ));
        }
        while i < self.configured.len()
            invariant
                i <= self.configured@.len(),
                all == self@.configured,
                keep == (|entry: ConfiguredModel| !self@.has_live(entry.name)),
                named == (|entry: ConfiguredModel| entry.name),
                names@.map_values(|name: String| name@) == all.take(i as int).filter(
                    keep,
                ).map_values(named),
            decreases self.configured@.len() - i,
        {
            reveal(Seq::filter);
            let entry = &self.configured[i];
            let ghost before = names@.map_values(|name: String| name@);
            let ghost so_far = all.take(i as int).filter(keep);
            proof {
                assert(all[i as int] == entry@);
                assert(all.take(i + 1).drop_last() =~= all.take(i as int));
                assert(all.take(i + 1).last() == entry@);
            }
            if !self.is_here(entry.name.as_str()) {
                names.push(entry.name.clone());
                assert(names@.map_values(|name: String| name@) =~= before.push(entry.name@));
                assert(so_far.push(entry@).map_values(named) =~= so_far.map_values(named).push(
                    entry.name@,
                ));
            }
            i += 1;
        }
        assert(all.take(i as int) =~= all);
        assert(all.filter(keep) == self@.missing());
        names
    }

    /// Whether every configured source is currently registered.
    ///
    /// What makes a `NotFound` safe to give: an absence is only authoritative
    /// when everything that could have contradicted it was asked.
    pub fn complete(&self) -> (yes: bool)
        ensures
            yes <==> self@.whole(),
    {
        let mut i: usize = 0;
        while i < self.configured.len()
            invariant
                i <= self.configured@.len(),
                forall|j: int|
                    0 <= j < i ==> self@.has_live((#[trigger] self@.configured[j]).name),
            decreases self.configured@.len() - i,
        {
            assert(self@.configured[i as int] == self.configured@[i as int]@);
            if !self.is_here(self.configured[i].name.as_str()) {
                return false;
            }
            i += 1;
        }
        true
    }

    /// The configured source a number belongs to, whether or not it is here.
    ///
    /// The inverse arithmetic has to work for an absent source too, or a lookup
    /// for one of its principals would answer `NotFound`, a cacheable absence,
    /// the moment it went away.
    pub fn configured_range(&self, unix_id: u32) -> (entry: Option<&Configured>)
        ensures
            entry matches Some(found) ==> exists|i: int|
                0 <= i < self@.configured.len() && #[trigger] self@.configured[i] == found@
                    && spans(found@.unix_id_range, unix_id) && forall|j: int|
                    0 <= j < i ==> !spans((#[trigger] self@.configured[j]).unix_id_range, unix_id),
            entry is None ==> forall|i: int|
                0 <= i < self@.configured.len() ==> !spans(
                    (#[trigger] self@.configured[i]).unix_id_range,
                    unix_id,
                ),
    {
        let mut i: usize = 0;
        while i < self.configured.len()
            invariant
                i <= self.configured@.len(),
                forall|j: int|
                    0 <= j < i ==> !spans((#[trigger] self@.configured[j]).unix_id_range, unix_id),
            decreases self.configured@.len() - i,
        {
            assert(self@.configured[i as int] == self.configured@[i as int]@);
            if let Some(range) = self.configured[i].unix_id_range {
                if let Some(relative) = range.relative(unix_id) {
                    assert(unix_id::rebased(range, relative) == Some(unix_id));
                    return Some(&self.configured[i]);
                }
            }
            i += 1;
        }
        None
    }
}

/// Whether some relative id lands on a number in a range.
pub open spec fn spans(range: Option<Range>, number: u32) -> bool {
    range matches Some(range) && exists|relative: u32| #[trigger]
        unix_id::rebased(range, relative) == Some(number)
}

impl Registry {
    /// Decide what becomes of a message a source sends on a conversation, by the
    /// source's name, and take the source down with a fatal one.
    pub fn deliver(&mut self, name: &str, id: u64) -> (decided: Delivery)
        ensures
            !old(self)@.holds(name@) ==> decided == Delivery::Unknown,
            forall|i: int|
                0 <= i < old(self)@.sources.len() && (#[trigger] old(self)@.sources[i]).facts.name
                    == name@ ==> decided == crate::source::delivery(old(self)@.sources[i], id),
            decided == Delivery::Fatal ==> final(self)@ == with_change(
                old(self)@,
                name@,
                |source: SourceModel| source.gone(),
            ),
            decided != Delivery::Fatal ==> final(self)@ == old(self)@,
    {
        proof {
            use_type_invariant(&*self);
        }
        let ghost was = self@;
        let ghost change = |source: SourceModel| source.gone();
        let ghost now = with_change(was, name@, change);
        proof {
            lemma_with_change(was, name@, change);
        }
        let at = self.position(name);
        if let Some(i) = at {
            let mut sources: Vec<Source> = Vec::new();
            std::mem::swap(&mut sources, &mut self.sources);
            let ghost full = sources@;
            let mut source = sources.remove(i);
            let decided = source.deliver(id);
            sources.insert(i, source);
            proof {
                assert(was.sources == full.map_values(|source: Source| source@));
                assert forall|j: int| 0 <= j < full.len() && j != i implies (
                #[trigger] was.sources[j]).facts.name != name@ by {
                    if j < i {
                        assert(was.sources[j].facts.name != was.sources[i as int].facts.name);
                    } else {
                        assert(was.sources[i as int].facts.name != was.sources[j].facts.name);
                    }
                }
                if decided == Delivery::Fatal {
                    assert(sources@.map_values(|source: Source| source@) =~= now.sources);
                } else {
                    assert(sources@.map_values(|source: Source| source@) =~= was.sources);
                }
            }
            self.sources = sources;
            decided
        } else {
            Delivery::Unknown
        }
    }
}

impl Registry {
    /// Decide what to do about what was read from a source, by the source's
    /// name, and take the source down with what is fatal.
    pub fn pump(&mut self, name: &str, read: Read) -> (decided: Pumped)
        ensures
            !old(self)@.holds(name@) ==> decided == crate::source::taken(read, Delivery::Unknown),
            forall|i: int|
                0 <= i < old(self)@.sources.len() && (#[trigger] old(self)@.sources[i]).facts.name
                    == name@ ==> decided == crate::source::pumped(old(self)@.sources[i], read),
            final(self)@ == (if crate::source::is_fatal(read) {
                with_change(old(self)@, name@, |source: SourceModel| source.gone())
            } else {
                old(self)@
            }),
    {
        match read {
            Read::Ended => Pumped::Stop,
            Read::Failed => Pumped::Stop,
            Read::MalformedHeader => Pumped::Stop,
            Read::Changed { understood } => if understood {
                Pumped::Changed
            } else {
                Pumped::Stop
            },
            Read::Message { conversation, understood } => {
                if !understood {
                    return Pumped::Stop;
                }
                proof {
                    if !self@.holds(name@) {
                        let same = with_change(
                            self@,
                            name@,
                            |source: SourceModel| source.gone(),
                        );
                        assert(same.sources =~= self@.sources);
                    }
                }
                match self.deliver(name, conversation) {
                    Delivery::Delivered => Pumped::Deliver,
                    Delivery::Unknown => Pumped::Ignore,
                    Delivery::Fatal => Pumped::Stop,
                }
            },
        }
    }
}

/// Coming before is a strict order.
proof fn lemma_ahead(a: SlotModel, b: SlotModel, c: SlotModel)
    ensures
        !ahead(a, a),
        ahead(a, b) ==> !ahead(b, a),
        ahead(a, b) && ahead(b, c) ==> ahead(a, c),
        ahead(a, b) && !ahead(c, b) ==> !ahead(c, a),
        !ahead(a, b) && !ahead(b, a) ==> a.order() == b.order() && a.name() == b.name(),
{
    text::lemma_before_irreflexive(a.name());
    text::lemma_before_total(a.name(), b.name());
    if text::before(a.name(), b.name()) && text::before(b.name(), c.name()) {
        text::lemma_before_transitive(a.name(), b.name(), c.name());
    }
    if text::before(c.name(), a.name()) && text::before(a.name(), b.name()) {
        text::lemma_before_transitive(c.name(), a.name(), b.name());
    }
    if text::before(a.name(), b.name()) && text::before(b.name(), a.name()) {
        text::lemma_before_transitive(a.name(), b.name(), a.name());
    }
}

/// Putting something where nothing before it comes after it, and nothing after
/// it comes before it, keeps the order.
proof fn lemma_insert_in_order(slots: Seq<SlotModel>, at: int, slot: SlotModel)
    requires
        in_order(slots),
        0 <= at <= slots.len(),
        forall|j: int| 0 <= j < at ==> !ahead(slot, #[trigger] slots[j]),
        at < slots.len() ==> ahead(slot, slots[at]),
    ensures
        in_order(slots.insert(at, slot)),
        slots.insert(at, slot).to_multiset() == slots.to_multiset().insert(slot),
{
    let more = slots.insert(at, slot);
    assert forall|i: int, j: int| 0 <= i < j < more.len() implies !ahead(more[j], more[i]) by {
        if i == at {
            assert(more[j] == slots[j - 1]);
            if j - 1 > at {
                assert(!ahead(slots[j - 1], slots[at]));
            }
            lemma_ahead(slot, slots[at], slots[j - 1]);
        } else if j == at {
            assert(more[i] == slots[i]);
        } else {
            let a = if i < at {
                i
            } else {
                i - 1
            };
            let b = if j < at {
                j
            } else {
                j - 1
            };
            assert(more[i] == slots[a] && more[j] == slots[b]);
            assert(!ahead(slots[b], slots[a]));
        }
    }
    to_multiset_insert(slots, at, slot);
}

impl<'a> Slot<'a> {
    /// What it is sorted by first.
    fn order(&self) -> (order: u32)
        ensures
            order == self@.order(),
    {
        match self {
            Slot::Live(source) => source.search_order(),
            Slot::Absent(entry) => entry.search_order,
        }
    }

    /// What it is sorted by next.
    pub fn name(&self) -> (name: &'a str)
        ensures
            name@ == self@.name(),
    {
        match self {
            Slot::Live(source) => source.name(),
            Slot::Absent(entry) => entry.name.as_str(),
        }
    }

    /// Whether this place comes before another.
    fn is_ahead(&self, other: &Slot<'a>) -> (yes: bool)
        ensures
            yes <==> ahead(self@, other@),
    {
        self.order() < other.order() || (self.order() == other.order() && text::is_before(
            self.name(),
            other.name(),
        ))
    }
}

/// Puts a place where it belongs.
fn place<'a>(slots: &mut Vec<Slot<'a>>, slot: Slot<'a>)
    ensures
        slot_models(final(slots)@) == placed(slot_models(old(slots)@), slot@),
{
    let ghost all = slot_models(slots@);
    let mut at: usize = 0;
    assert(all.take(0) + placed(all.skip(0), slot@) =~= placed(all, slot@)) by {
        assert(all.skip(0) =~= all);
    }
    while at < slots.len() && !slot.is_ahead(&slots[at])
        invariant
            at <= slots@.len(),
            slots@ == old(slots)@,
            all == slot_models(slots@),
            placed(all, slot@) == all.take(at as int) + placed(all.skip(at as int), slot@),
        decreases slots@.len() - at,
    {
        proof {
            let rest = all.skip(at as int);
            assert(rest[0] == slots@[at as int]@);
            assert(rest.drop_first() =~= all.skip(at + 1));
            assert(all.take(at as int) + (seq![rest[0]] + placed(rest.drop_first(), slot@))
                =~= all.take(at + 1) + placed(all.skip(at + 1), slot@));
        }
        at += 1;
    }
    proof {
        let rest = all.skip(at as int);
        if at < slots@.len() {
            assert(rest[0] == slots@[at as int]@);
        }
        assert(placed(rest, slot@) =~= seq![slot@] + rest);
        assert(all.take(at as int) + (seq![slot@] + rest) =~= all.insert(at as int, slot@));
    }
    slots.insert(at, slot);
    assert(slot_models(slots@) =~= all.insert(at as int, slot@));
}

/// Puts a source where it belongs.
fn rank<'a>(sources: &mut Vec<&'a Source>, source: &'a Source)
    ensures
        source_models(final(sources)@) == ranked_among(source_models(old(sources)@), source@),
{
    let ghost all = source_models(sources@);
    let slot = Slot::Live(source);
    let mut at: usize = 0;
    assert(all.take(0) + ranked_among(all.skip(0), source@) =~= ranked_among(all, source@)) by {
        assert(all.skip(0) =~= all);
    }
    while at < sources.len() && !slot.is_ahead(&Slot::Live(sources[at]))
        invariant
            at <= sources@.len(),
            sources@ == old(sources)@,
            all == source_models(sources@),
            slot@ == SlotModel::Live(source@),
            ranked_among(all, source@) == all.take(at as int) + ranked_among(
                all.skip(at as int),
                source@,
            ),
        decreases sources@.len() - at,
    {
        proof {
            let rest = all.skip(at as int);
            assert(rest[0] == sources@[at as int]@);
            assert(rest.drop_first() =~= all.skip(at + 1));
            assert(all.take(at as int) + (seq![rest[0]] + ranked_among(rest.drop_first(), source@))
                =~= all.take(at + 1) + ranked_among(all.skip(at + 1), source@));
        }
        at += 1;
    }
    proof {
        let rest = all.skip(at as int);
        if at < sources@.len() {
            assert(rest[0] == sources@[at as int]@);
        }
        assert(ranked_among(rest, source@) =~= seq![source@] + rest);
        assert(all.take(at as int) + (seq![source@] + rest) =~= all.insert(at as int, source@));
    }
    sources.insert(at, source);
    assert(source_models(sources@) =~= all.insert(at as int, source@));
}

/// The first source that is authoritative for a SID.
pub open spec fn first_owning(sources: Seq<SourceModel>, sid: SidModel) -> Option<SourceModel>
    decreases sources.len(),
{
    if sources.len() == 0 {
        None
    } else if domain::within(sources[0].facts.domain, sid) {
        Some(sources[0])
    } else {
        first_owning(sources.drop_first(), sid)
    }
}

/// The first source whose range a number is in.
pub open spec fn first_spanning(sources: Seq<SourceModel>, number: u32) -> Option<SourceModel>
    decreases sources.len(),
{
    if sources.len() == 0 {
        None
    } else if spans(sources[0].facts.unix_id_range, number) {
        Some(sources[0])
    } else {
        first_spanning(sources.drop_first(), number)
    }
}

impl Registry {
    /// Every live source, in the order a bare name is resolved.
    ///
    /// Configured order first, then name. Never registration order: which source
    /// a name resolves to must not depend on which one happened to finish
    /// starting first, or a slow disk could change who `jack` is.
    pub fn ordered(&self) -> (sources: Vec<&Source>)
        ensures
            source_models(sources@) == self@.order(),
    {
        let ghost all = self@.sources;
        let mut sources: Vec<&Source> = Vec::new();
        let mut i: usize = 0;
        proof {
            assert(all.take(0) =~= Seq::empty());
            assert(source_models(sources@) =~= ranking(all.take(0)));
        }
        while i < self.sources.len()
            invariant
                i <= self.sources@.len(),
                all == self@.sources,
                source_models(sources@) == ranking(all.take(i as int)),
            decreases self.sources@.len() - i,
        {
            let source = &self.sources[i];
            proof {
                assert(all[i as int] == source@);
                assert(all.take(i + 1).drop_last() =~= all.take(i as int));
                assert(all.take(i + 1).last() == source@);
            }
            if source.is_live() {
                rank(&mut sources, source);
            }
            i += 1;
        }
        assert(all.take(i as int) =~= all);
        sources
    }

    /// The search order with its gaps in it.
    ///
    /// A configured source that is not registered appears as [`Slot::Absent`]
    /// rather than being skipped, so a resolver walking this stops where the
    /// machine would have stopped if the source were here.
    pub fn slots(&self) -> (slots: Vec<Slot<'_>>)
        ensures
            slot_models(slots@) == self@.search_order(),
    {
        let live = self.ordered();
        let mut slots: Vec<Slot<'_>> = Vec::new();
        let mut i: usize = 0;
        while i < live.len()
            invariant
                i <= live@.len(),
                slots@.len() == i,
                forall|j: int| 0 <= j < i ==> (#[trigger] slots@[j])@ == SlotModel::Live(live@[j]@),
            decreases live@.len() - i,
        {
            slots.push(Slot::Live(live[i]));
            i += 1;
        }
        let ghost wanted = self@.configured;
        let mut k: usize = 0;
        proof {
            assert(wanted.take(0) =~= Seq::empty());
            assert(slot_models(slots@) =~= as_places(self@.order()));
        }
        while k < self.configured.len()
            invariant
                k <= self.configured@.len(),
                wanted == self@.configured,
                slot_models(slots@) == with_gaps(self@, wanted.take(k as int)),
            decreases self.configured@.len() - k,
        {
            let entry = &self.configured[k];
            proof {
                assert(wanted[k as int] == entry@);
                assert(wanted.take(k + 1).drop_last() =~= wanted.take(k as int));
                assert(wanted.take(k + 1).last() == entry@);
            }
            if !self.is_here(entry.name.as_str()) {
                place(&mut slots, Slot::Absent(entry));
            }
            k += 1;
        }
        assert(wanted.take(k as int) =~= wanted);
        slots
    }

    /// The source authoritative for a SID, if any is.
    ///
    /// A SID names its own domain, so this needs no search: at most one source
    /// can have declared it, and identity confinement is what makes that true.
    pub fn owning(&self, sid: &Sid) -> (source: Option<&Source>)
        ensures
            source is Some <==> first_owning(self@.order(), sid@) is Some,
            source matches Some(found) ==> first_owning(self@.order(), sid@) == Some(found@),
    {
        let sources = self.ordered();
        let ghost order = source_models(sources@);
        let mut i: usize = 0;
        assert(order.skip(0) =~= order);
        while i < sources.len()
            invariant
                i <= sources@.len(),
                order == source_models(sources@),
                order == self@.order(),
                first_owning(order, sid@) == first_owning(order.skip(i as int), sid@),
            decreases sources@.len() - i,
        {
            assert(order.skip(i as int)[0] == sources@[i as int]@);
            if domain::contains(sources[i].domain(), sid) {
                return Some(sources[i]);
            }
            assert(order.skip(i as int).drop_first() =~= order.skip(i + 1));
            i += 1;
        }
        None
    }

    /// The source whose Unix ID range contains a number, and the relative
    /// identifier inside it.
    ///
    /// This is the arithmetic no source can do for itself, because no source
    /// learns its own base.
    pub fn rebasing(&self, unix_id: u32) -> (found: Option<(&Source, u32)>)
        ensures
            found is Some <==> first_spanning(self@.order(), unix_id) is Some,
            found matches Some(pair) ==> first_spanning(self@.order(), unix_id) == Some(pair.0@),
            found matches Some(pair) ==> pair.0@.facts.unix_id_range matches Some(range)
                && unix_id::rebased(range, pair.1) == Some(unix_id),
    {
        let sources = self.ordered();
        let ghost order = source_models(sources@);
        let mut i: usize = 0;
        assert(order.skip(0) =~= order);
        while i < sources.len()
            invariant
                i <= sources@.len(),
                order == source_models(sources@),
                order == self@.order(),
                first_spanning(order, unix_id) == first_spanning(order.skip(i as int), unix_id),
            decreases sources@.len() - i,
        {
            assert(order.skip(i as int)[0] == sources@[i as int]@);
            if let Some(range) = sources[i].unix_id_range() {
                if let Some(relative) = range.relative(unix_id) {
                    assert(unix_id::rebased(range, relative) == Some(unix_id));
                    return Some((sources[i], relative));
                }
            }
            assert(order.skip(i as int).drop_first() =~= order.skip(i + 1));
            i += 1;
        }
        None
    }
}

/// What filtering leaves is what it was asked to keep.
proof fn lemma_filter_contains<T>(of: Seq<T>, keep: spec_fn(T) -> bool, x: T)
    ensures
        of.filter(keep).contains(x) <==> (of.contains(x) && keep(x)),
    decreases of.len(),
{
    reveal(Seq::filter);
    if of.len() > 0 {
        let front = of.drop_last();
        let rest = front.filter(keep);
        let found = of.filter(keep);
        lemma_filter_contains(front, keep, x);
        if front.contains(x) {
            let j = choose|j: int| 0 <= j < front.len() && front[j] == x;
            assert(of[j] == x);
        }
        if of.contains(x) && x != of.last() {
            let j = choose|j: int| 0 <= j < of.len() && of[j] == x;
            assert(front[j] == x);
        }
        if keep(of.last()) {
            if rest.contains(x) {
                let j = choose|j: int| 0 <= j < rest.len() && rest[j] == x;
                assert(found[j] == x);
            }
            if x == of.last() {
                assert(found[rest.len() as int] == x);
            }
            if found.contains(x) && x != of.last() {
                let j = choose|j: int| 0 <= j < found.len() && found[j] == x;
                assert(rest[j] == x);
            }
        }
    }
}

/// Where a place is put: behind everything it does not come before, and before
/// the rest.
proof fn lemma_placed(slots: Seq<SlotModel>, slot: SlotModel) -> (at: int)
    ensures
        0 <= at <= slots.len(),
        placed(slots, slot) == slots.insert(at, slot),
        forall|j: int| 0 <= j < at ==> !ahead(slot, #[trigger] slots[j]),
        at < slots.len() ==> ahead(slot, slots[at]),
    decreases slots.len(),
{
    if slots.len() == 0 || ahead(slot, slots[0]) {
        assert(placed(slots, slot) =~= slots.insert(0, slot));
        0
    } else {
        let rest = slots.drop_first();
        let at = lemma_placed(rest, slot) + 1;
        assert(placed(slots, slot) =~= slots.insert(at, slot));
        assert forall|j: int| 0 <= j < at implies !ahead(slot, #[trigger] slots[j]) by {
            if j > 0 {
                assert(rest[j - 1] == slots[j]);
            }
        }
        at
    }
}

/// A source is put where its place is.
proof fn lemma_ranked_among(sources: Seq<SourceModel>, source: SourceModel)
    ensures
        as_places(ranked_among(sources, source)) == placed(
            as_places(sources),
            SlotModel::Live(source),
        ),
        ranked_among(sources, source).to_multiset() == sources.to_multiset().insert(source),
    decreases sources.len(),
{
    let slot = SlotModel::Live(source);
    let places = as_places(sources);
    if sources.len() == 0 {
        assert(as_places(ranked_among(sources, source)) =~= placed(places, slot));
        assert(ranked_among(sources, source) =~= sources.insert(0, source));
        to_multiset_insert(sources, 0, source);
    } else {
        assert(places[0] == SlotModel::Live(sources[0]));
        if ahead(slot, places[0]) {
            assert(as_places(ranked_among(sources, source)) =~= placed(places, slot));
            assert(ranked_among(sources, source) =~= sources.insert(0, source));
            to_multiset_insert(sources, 0, source);
        } else {
            let rest = sources.drop_first();
            lemma_ranked_among(rest, source);
            assert(as_places(rest) =~= places.drop_first());
            let after = ranked_among(rest, source);
            assert(as_places(seq![sources[0]] + after) =~= seq![places[0]] + as_places(after));
            to_multiset_insert(rest, 0, sources[0]);
            to_multiset_insert(after, 0, sources[0]);
            assert(rest.insert(0, sources[0]) =~= sources);
            assert(after.insert(0, sources[0]) =~= ranked_among(sources, source));
            assert(rest.to_multiset().insert(source).insert(sources[0])
                =~= rest.to_multiset().insert(sources[0]).insert(source));
        }
    }
}

/// Ranking puts the live ones in order.
proof fn lemma_ranking(sources: Seq<SourceModel>)
    ensures
        ({
            let live = sources.filter(|source: SourceModel| source.live);
            &&& in_order(as_places(ranking(sources)))
            &&& ranking(sources).to_multiset() == live.to_multiset()
            &&& as_places(ranking(sources)).to_multiset() == as_places(live).to_multiset()
        }),
    decreases sources.len(),
{
    let keep = |source: SourceModel| source.live;
    reveal(Seq::filter);
    if sources.len() > 0 {
        let (front, last) = (sources.drop_last(), sources.last());
        lemma_ranking(front);
        if last.live {
            let (rest, so_far) = (ranking(front), front.filter(keep));
            let slot = SlotModel::Live(last);
            lemma_ranked_among(rest, last);
            let at = lemma_placed(as_places(rest), slot);
            lemma_insert_in_order(as_places(rest), at, slot);
            to_multiset_build(so_far, last);
            to_multiset_build(as_places(so_far), slot);
            assert(as_places(so_far.push(last)) =~= as_places(so_far).push(slot));
        }
    } else {
        assert(ranking(sources) =~= sources.filter(keep));
    }
}

/// Putting in what is missing keeps the order.
proof fn lemma_with_gaps(registry: RegistryModel, entries: Seq<ConfiguredModel>)
    ensures
        ({
            let gaps = entries.filter(|entry: ConfiguredModel| !registry.has_live(entry.name));
            &&& in_order(with_gaps(registry, entries))
            &&& with_gaps(registry, entries).to_multiset() == (as_places(registry.live())
                + gaps.map_values(|entry: ConfiguredModel| SlotModel::Absent(entry))).to_multiset()
        }),
    decreases entries.len(),
{
    let missing = |entry: ConfiguredModel| !registry.has_live(entry.name);
    let gap = |entry: ConfiguredModel| SlotModel::Absent(entry);
    let live = as_places(registry.live());
    reveal(Seq::filter);
    lemma_ranking(registry.sources);
    if entries.len() > 0 {
        let (front, last) = (entries.drop_last(), entries.last());
        lemma_with_gaps(registry, front);
        if missing(last) {
            let (rest, so_far) = (with_gaps(registry, front), front.filter(missing));
            let slot = SlotModel::Absent(last);
            let at = lemma_placed(rest, slot);
            lemma_insert_in_order(rest, at, slot);
            to_multiset_build(live + so_far.map_values(gap), slot);
            assert(live + so_far.push(last).map_values(gap) =~= (live + so_far.map_values(
                gap,
            )).push(slot));
        }
    } else {
        assert(live + entries.filter(missing).map_values(gap) =~= live);
    }
}

/// The order is what it is called: it holds every live source and nothing else,
/// by configured order and then by name, and the search order holds the missing
/// ones besides.
pub proof fn law_the_order_is_the_configured_one(registry: RegistryModel)
    ensures
        registry.ranked(registry.order()),
        registry.arranged(registry.search_order()),
{
    lemma_ranking(registry.sources);
    lemma_with_gaps(registry, registry.configured);
    assert(registry.live() == registry.sources.filter(|source: SourceModel| source.live));
    assert(registry.missing() == registry.configured.filter(
        |entry: ConfiguredModel| !registry.has_live(entry.name),
    ));
}

/// A ranked list holds exactly the live sources.
proof fn lemma_ranked(registry: RegistryModel, order: Seq<SourceModel>, source: SourceModel)
    requires
        registry.ranked(order),
    ensures
        order.contains(source) <==> (registry.sources.contains(source) && source.live),
{
    to_multiset_contains(order, source);
    to_multiset_contains(registry.live(), source);
    lemma_filter_contains(registry.sources, |source: SourceModel| source.live, source);
}

/// Two registered sources of one name are one source.
proof fn lemma_one_per_name(registry: RegistryModel, a: SourceModel, b: SourceModel)
    requires
        registry.valid(),
        registry.sources.contains(a),
        registry.sources.contains(b),
        a.facts.name == b.facts.name,
    ensures
        a == b,
{
    let i = choose|i: int| 0 <= i < registry.sources.len() && registry.sources[i] == a;
    let j = choose|j: int| 0 <= j < registry.sources.len() && registry.sources[j] == b;
    if i < j {
        assert(registry.sources[i].facts.name != registry.sources[j].facts.name);
    } else if j < i {
        assert(registry.sources[j].facts.name != registry.sources[i].facts.name);
    }
}

/// Nobody stands in the order twice: a name identifies exactly one place in it,
/// or none.
pub proof fn law_nobody_stands_twice(registry: RegistryModel)
    requires
        registry.valid(),
    ensures
        forall|i: int, j: int|
            0 <= i < j < registry.order().len() ==> (#[trigger] registry.order()[i]).facts.name != (
            #[trigger] registry.order()[j]).facts.name,
{
    let (order, live) = (registry.order(), registry.live());
    law_the_order_is_the_configured_one(registry);
    lemma_filter_keeps_order(registry.sources, |source: SourceModel| source.live);
    assert forall|i: int, j: int| 0 <= i < j < live.len() implies live[i] != live[j] by {
        let (a, b) = choose|a: int, b: int|
            0 <= a < b < registry.sources.len() && #[trigger] registry.sources[a] == live[i]
                && #[trigger] registry.sources[b] == live[j];
        assert(registry.sources[a].facts.name != registry.sources[b].facts.name);
    }
    assert(live.no_duplicates());
    live.lemma_multiset_has_no_duplicates();
    order.lemma_multiset_has_no_duplicates_conv();
    assert forall|i: int, j: int| 0 <= i < j < order.len() implies (#[trigger] order[i]).facts.name
        != (#[trigger] order[j]).facts.name by {
        assert(order.contains(order[i]) && order.contains(order[j]));
        lemma_ranked(registry, order, order[i]);
        lemma_ranked(registry, order, order[j]);
        if order[i].facts.name == order[j].facts.name {
            lemma_one_per_name(registry, order[i], order[j]);
        }
    }
}

/// Two lists of the same sources, both in order, are the same list.
proof fn lemma_order_is_unique(x: Seq<SourceModel>, y: Seq<SourceModel>)
    requires
        in_order(as_places(x)),
        in_order(as_places(y)),
        x.to_multiset() == y.to_multiset(),
        forall|a: SourceModel, b: SourceModel|
            #![trigger x.contains(a), x.contains(b)]
            x.contains(a) && x.contains(b) && a.facts.name == b.facts.name ==> a == b,
    ensures
        x == y,
    decreases x.len(),
{
    to_multiset_len(x);
    to_multiset_len(y);
    if x.len() > 0 {
        let end = x.len() - 1;
        let (a, b) = (x[end], y[end]);
        let (px, py) = (as_places(x), as_places(y));
        assert(x.contains(a));
        assert(y.contains(b));
        to_multiset_contains(x, a);
        to_multiset_contains(y, a);
        to_multiset_contains(x, b);
        to_multiset_contains(y, b);
        let i = choose|i: int| 0 <= i < x.len() && x[i] == b;
        let j = choose|j: int| 0 <= j < y.len() && y[j] == a;
        assert(px[i] == SlotModel::Live(b) && px[end] == SlotModel::Live(a));
        assert(py[j] == SlotModel::Live(a) && py[end] == SlotModel::Live(b));
        lemma_ahead(SlotModel::Live(a), SlotModel::Live(b), SlotModel::Live(a));
        if i < end {
            assert(!ahead(px[end], px[i]));
        }
        if j < end {
            assert(!ahead(py[end], py[j]));
        }
        assert(x.contains(b));
        assert(a == b);
        let (fx, fy) = (x.drop_last(), y.drop_last());
        assert(fx =~= x.remove(end));
        assert(fy =~= y.remove(end));
        to_multiset_remove(x, end);
        to_multiset_remove(y, end);
        assert forall|i: int, j: int| 0 <= i < j < fx.len() implies !ahead(
            as_places(fx)[j],
            as_places(fx)[i],
        ) by {
            assert(!ahead(px[j], px[i]));
        }
        assert forall|i: int, j: int| 0 <= i < j < fy.len() implies !ahead(
            as_places(fy)[j],
            as_places(fy)[i],
        ) by {
            assert(!ahead(py[j], py[i]));
        }
        assert forall|a: SourceModel, b: SourceModel|
            #![trigger fx.contains(a), fx.contains(b)]
            fx.contains(a) && fx.contains(b) && a.facts.name == b.facts.name implies a == b by {
            let i = choose|i: int| 0 <= i < fx.len() && fx[i] == a;
            let j = choose|j: int| 0 <= j < fx.len() && fx[j] == b;
            assert(x[i] == a && x[j] == b);
            assert(x.contains(a) && x.contains(b));
        }
        lemma_order_is_unique(fx, fy);
        assert(x =~= fx.push(a));
        assert(y =~= fy.push(b));
    } else {
        assert(x =~= y);
    }
}

/// Whether a name is here depends on the live sources alone.
proof fn lemma_has_live(a: RegistryModel, b: RegistryModel, name: Seq<char>)
    requires
        a.live().to_multiset() == b.live().to_multiset(),
        a.has_live(name),
    ensures
        b.has_live(name),
{
    let live = |source: SourceModel| source.live;
    let i = choose|i: int|
        0 <= i < a.sources.len() && (#[trigger] a.sources[i]).facts.name == name
            && a.sources[i].live;
    let source = a.sources[i];
    lemma_filter_contains(a.sources, live, source);
    to_multiset_contains(a.live(), source);
    to_multiset_contains(b.live(), source);
    lemma_filter_contains(b.sources, live, source);
    let j = choose|j: int| 0 <= j < b.sources.len() && b.sources[j] == source;
    assert(b.sources[j].facts.name == name);
}

/// The gaps of an order depend on the live sources alone.
proof fn lemma_same_gaps(a: RegistryModel, b: RegistryModel, entries: Seq<ConfiguredModel>)
    requires
        a.live().to_multiset() == b.live().to_multiset(),
        a.order() == b.order(),
    ensures
        with_gaps(a, entries) == with_gaps(b, entries),
    decreases entries.len(),
{
    if entries.len() > 0 {
        let name = entries.last().name;
        lemma_same_gaps(a, b, entries.drop_last());
        if a.has_live(name) {
            lemma_has_live(a, b, name);
        }
        if b.has_live(name) {
            lemma_has_live(b, a, name);
        }
    }
}

/// Who answers first never depends on who registered first: two registries with
/// the same live sources resolve in the same order, whatever order those came
/// in, and with the same configuration they leave the same gaps in it.
pub proof fn law_the_order_never_depends_on_registration(a: RegistryModel, b: RegistryModel)
    requires
        a.valid(),
        a.live().to_multiset() == b.live().to_multiset(),
    ensures
        a.order() == b.order(),
        a.configured == b.configured ==> a.search_order() == b.search_order(),
{
    let (x, y) = (a.order(), b.order());
    law_the_order_is_the_configured_one(a);
    law_the_order_is_the_configured_one(b);
    assert forall|p: SourceModel, q: SourceModel|
        #![trigger x.contains(p), x.contains(q)]
        x.contains(p) && x.contains(q) && p.facts.name == q.facts.name implies p == q by {
        lemma_ranked(a, x, p);
        lemma_ranked(a, x, q);
        lemma_one_per_name(a, p, q);
    }
    lemma_order_is_unique(x, y);
    lemma_same_gaps(a, b, a.configured);
}

proof fn lemma_first_owning(order: Seq<SourceModel>, sid: SidModel)
    ensures
        first_owning(order, sid) matches Some(source) ==> order.contains(source)
            && domain::within(source.facts.domain, sid),
        first_owning(order, sid) is None ==> forall|source: SourceModel|
            order.contains(source) ==> !#[trigger] domain::within(source.facts.domain, sid),
    decreases order.len(),
{
    if order.len() > 0 {
        let rest = order.drop_first();
        lemma_first_owning(rest, sid);
        assert(order.contains(order[0]));
        if let Some(source) = first_owning(rest, sid) {
            let j = choose|j: int| 0 <= j < rest.len() && rest[j] == source;
            assert(order[j + 1] == source);
        }
        if first_owning(order, sid) is None {
            assert forall|source: SourceModel| order.contains(source) implies !#[trigger] domain::within(
                source.facts.domain,
                sid,
            ) by {
                let j = choose|j: int| 0 <= j < order.len() && order[j] == source;
                if j > 0 {
                    assert(rest[j - 1] == source);
                }
            }
        }
    }
}

/// At most one registered source is authoritative for a SID.
pub proof fn law_one_authority_each(
    registry: RegistryModel,
    sid: SidModel,
    a: SourceModel,
    b: SourceModel,
)
    requires
        registry.valid(),
        registry.sources.contains(a),
        registry.sources.contains(b),
        domain::within(a.facts.domain, sid),
        domain::within(b.facts.domain, sid),
    ensures
        a == b,
{
    domain::law_one_domain_each(a.facts.domain, b.facts.domain, sid);
    let i = choose|i: int| 0 <= i < registry.sources.len() && registry.sources[i] == a;
    let j = choose|j: int| 0 <= j < registry.sources.len() && registry.sources[j] == b;
    if i < j {
        assert(registry.sources[i].facts.domain != registry.sources[j].facts.domain);
    } else if j < i {
        assert(registry.sources[j].facts.domain != registry.sources[i].facts.domain);
    }
}

/// The source found to own a SID is the one live source whose domain it is in,
/// wherever that stands in the order.
pub proof fn law_ownership_needs_no_search(
    registry: RegistryModel,
    sid: SidModel,
    source: SourceModel,
)
    requires
        registry.valid(),
    ensures
        first_owning(registry.order(), sid) == Some(source) <==> (registry.sources.contains(source)
            && source.live && domain::within(source.facts.domain, sid)),
{
    let order = registry.order();
    law_the_order_is_the_configured_one(registry);
    lemma_first_owning(order, sid);
    lemma_ranked(registry, order, source);
    if let Some(found) = first_owning(order, sid) {
        lemma_ranked(registry, order, found);
        if registry.sources.contains(source) && domain::within(source.facts.domain, sid) {
            law_one_authority_each(registry, sid, found, source);
        }
    }
}

/// Nothing is missing exactly when every configured source is here.
pub proof fn law_complete_means_nothing_is_absent(registry: RegistryModel)
    ensures
        registry.whole() <==> registry.missing().len() == 0,
{
    let missing = |entry: ConfiguredModel| !registry.has_live(entry.name);
    if registry.whole() {
        if registry.missing().len() > 0 {
            let entry = registry.missing()[0];
            assert(registry.missing().contains(entry));
            lemma_filter_contains(registry.configured, missing, entry);
            let j = choose|j: int|
                0 <= j < registry.configured.len() && registry.configured[j] == entry;
            assert(registry.has_live(registry.configured[j].name));
        }
    }
    if registry.missing().len() == 0 {
        assert forall|i: int| 0 <= i < registry.configured.len() implies registry.has_live(
            (#[trigger] registry.configured[i]).name,
        ) by {
            let entry = registry.configured[i];
            assert(registry.configured.contains(entry));
            lemma_filter_contains(registry.configured, missing, entry);
            if !registry.has_live(entry.name) {
                let j = choose|j: int|
                    0 <= j < registry.missing().len() && registry.missing()[j] == entry;
            }
        }
    }
}

/// The domain a name first declared is its domain for good: neither admitting a
/// source, of whatever name, nor taking one out changes it.
pub proof fn law_the_first_domain_stands(
    registry: RegistryModel,
    name: Seq<char>,
    other: SourceModel,
    gone: Seq<char>,
)
    requires
        declared(registry.first_declared, name) is Some,
    ensures
        declared(with_source(registry, other).first_declared, name) == declared(
            registry.first_declared,
            name,
        ),
        declared(without_source(registry, gone).first_declared, name) == declared(
            registry.first_declared,
            name,
        ),
{
    lemma_declared_push(registry.first_declared, other.facts.name, other.facts.domain, name);
}

/// A source may not change its domain across a reconnection, and may come back
/// with the one it had.
pub proof fn law_a_source_may_not_change_domain(
    registry: RegistryModel,
    source: SourceModel,
    again: SourceModel,
)
    requires
        registry.valid(),
        admissible(registry, source),
        again.facts.name == source.facts.name,
    ensures
        ({
            let after = without_source(with_source(registry, source), source.facts.name);
            &&& again.facts.domain != source.facts.domain ==> !admissible(after, again)
            &&& again.facts.domain == source.facts.domain ==> admissible(after, again)
        }),
{
    let name = source.facts.name;
    let with = with_source(registry, source);
    let after = without_source(with, name);
    lemma_declared_push(registry.first_declared, name, source.facts.domain, name);
    assert(declared(after.first_declared, name) == Some(source.facts.domain));
    if again.facts.domain == source.facts.domain {
        lemma_with_source(registry, source);
        lemma_without_source(with, name);
        let keep = |source: SourceModel| source.facts.name != name;
        lemma_filter_keeps_order(with.sources, keep);
        assert(!after.sources.contains(source)) by {
            lemma_filter_contains(with.sources, keep, source);
        }
        assert(after.sources.len() < MAX_SOURCES) by {
            if after.sources.len() == with.sources.len() {
                lemma_filter_full(with.sources, keep);
                assert(with.sources[registry.sources.len() as int] == source);
            }
        }
        assert(!after.holds(name)) by {
            if after.holds(name) {
                let i = choose|i: int|
                    0 <= i < after.sources.len() && (#[trigger] after.sources[i]).facts.name
                        == name;
                assert(after.sources.contains(after.sources[i]));
                lemma_filter_contains(with.sources, keep, after.sources[i]);
            }
        }
        assert(!after.claims(source.facts.domain)) by {
            if after.claims(source.facts.domain) {
                let i = choose|i: int|
                    0 <= i < after.sources.len() && (#[trigger] after.sources[i]).facts.domain
                        == source.facts.domain;
                let found = after.sources[i];
                assert(after.sources.contains(found));
                lemma_filter_contains(with.sources, keep, found);
                let j = choose|j: int| 0 <= j < with.sources.len() && with.sources[j] == found;
                let last = registry.sources.len() as int;
                assert(with.sources[last] == source);
                if j < last {
                    assert(with.sources[j].facts.domain != with.sources[last].facts.domain);
                }
            }
        }
    }
}

/// A filter that drops nothing keeps everything.
proof fn lemma_filter_full<T>(of: Seq<T>, keep: spec_fn(T) -> bool)
    requires
        of.filter(keep).len() == of.len(),
    ensures
        forall|i: int| 0 <= i < of.len() ==> keep(#[trigger] of[i]),
    decreases of.len(),
{
    reveal(Seq::filter);
    if of.len() > 0 {
        let front = of.drop_last();
        lemma_filter_keeps_order(front, keep);
        lemma_filter_full(front, keep);
        assert forall|i: int| 0 <= i < of.len() implies keep(#[trigger] of[i]) by {
            if i < front.len() {
                assert(front[i] == of[i]);
            }
        }
    }
}

/// Which configured sources are not here: those no live source has the name of.
pub open spec fn is_missing(registry: RegistryModel) -> spec_fn(ConfiguredModel) -> bool {
    |entry: ConfiguredModel|
        forall|i: int|
            0 <= i < registry.sources.len() && (#[trigger] registry.sources[i]).facts.name
                == entry.name ==> !registry.sources[i].live
}

/// The name of a configured source.
pub open spec fn its_name() -> spec_fn(ConfiguredModel) -> Seq<char> {
    |entry: ConfiguredModel| entry.name
}

/// Every configured source that no live one has the name of is named as missing, in
/// the order they are configured, and no other.
pub proof fn law_every_missing_source_is_named(registry: RegistryModel)
    ensures
        crate::select::picks(
            registry.configured,
            is_missing(registry),
            its_name(),
            registry.missing().map_values(|entry: ConfiguredModel| entry.name),
        ),
{
    let gone = |entry: ConfiguredModel| !registry.has_live(entry.name);
    let wanted = is_missing(registry);
    crate::select::lemma_filtered(registry.configured, gone, its_name());
    assert forall|entry: ConfiguredModel| gone(entry) == #[trigger] wanted(entry) by {
        if registry.has_live(entry.name) {
            let i = choose|i: int|
                0 <= i < registry.sources.len() && (#[trigger] registry.sources[i]).facts.name
                    == entry.name && registry.sources[i].live;
            assert(registry.sources[i].facts.name == entry.name);
        } else {
            assert forall|i: int|
                0 <= i < registry.sources.len() && (#[trigger] registry.sources[i]).facts.name
                    == entry.name implies !registry.sources[i].live by {}
        }
    }
    assert(gone =~= wanted);
    assert(registry.missing().map_values(|entry: ConfiguredModel| entry.name)
        =~= registry.configured.filter(gone).map_values(its_name()));
}

/// A range has a number exactly where the number is above its base and fewer than
/// its count beyond it: the base itself is nobody's.
pub proof fn law_which_numbers_a_range_has(range: Option<Range>, number: u32)
    ensures
        spans(range, number) <==> (range matches Some(range) && range.base < number && number
            - range.base < range.count),
{
    if let Some(range) = range {
        if range.base < number && number - range.base < range.count {
            let relative = (number - range.base) as u32;
            assert(unix_id::rebased(range, relative) == Some(number));
        }
    }
}

/// A number belongs to the first source of an order whose range has it, and to
/// nobody where none has.
pub proof fn law_a_number_belongs_to_the_first_that_has_it(order: Seq<SourceModel>, number: u32)
    ensures
        match first_spanning(order, number) {
            Some(source) => exists|i: int|
                0 <= i < order.len() && #[trigger] order[i] == source && has_in_range(source, number)
                    && forall|j: int|
                    0 <= j < i ==> !has_in_range(#[trigger] order[j], number),
            None => forall|i: int|
                0 <= i < order.len() ==> !has_in_range(#[trigger] order[i], number),
        },
    decreases order.len(),
{
    if order.len() > 0 {
        let rest = order.drop_first();
        law_which_numbers_a_range_has(order[0].facts.unix_id_range, number);
        law_a_number_belongs_to_the_first_that_has_it(rest, number);
        if has_in_range(order[0], number) {
            assert(order[0] == first_spanning(order, number)->0);
        } else {
            match first_spanning(order, number) {
                Some(source) => {
                    let k = choose|i: int|
                        0 <= i < rest.len() && #[trigger] rest[i] == source && has_in_range(
                            source,
                            number,
                        ) && forall|j: int|
                            0 <= j < i ==> !has_in_range(#[trigger] rest[j], number);
                    assert(order[k + 1] == source);
                    assert forall|j: int| 0 <= j < k + 1 implies !has_in_range(
                        #[trigger] order[j],
                        number,
                    ) by {
                        if j > 0 {
                            assert(rest[j - 1] == order[j]);
                        }
                    }
                },
                None => {
                    assert forall|i: int| 0 <= i < order.len() implies !has_in_range(
                        #[trigger] order[i],
                        number,
                    ) by {
                        if i > 0 {
                            assert(rest[i - 1] == order[i]);
                        }
                    }
                },
            }
        }
    }
}

/// Whether a source has a number in its range.
pub open spec fn has_in_range(source: SourceModel, number: u32) -> bool {
    source.facts.unix_id_range matches Some(range) && range.base < number && number - range.base
        < range.count
}

/// Nobody stands before somebody of a lower search order, nor, within one order,
/// before somebody whose name comes first.
pub proof fn law_the_order_is_by_number_and_then_by_name(registry: RegistryModel, i: int, j: int)
    requires
        0 <= i < j < registry.order().len(),
    ensures
        ({
            let (first, then) = (registry.order()[i].facts, registry.order()[j].facts);
            &&& first.search_order <= then.search_order
            &&& first.search_order == then.search_order ==> !text::before(then.name, first.name)
        }),
{
    law_the_order_is_the_configured_one(registry);
    let places = as_places(registry.order());
    assert(!ahead(places[j], places[i]));
}

/// Whoever is in the order is registered and here, and whoever is registered and
/// here is in the order.
pub proof fn law_the_order_is_of_those_who_are_here(registry: RegistryModel, source: SourceModel)
    ensures
        registry.order().contains(source) <==> registry.sources.contains(source) && source.live,
        registry.order().to_multiset() == registry.sources.filter(
            |source: SourceModel| source.live,
        ).to_multiset(),
{
    law_the_order_is_the_configured_one(registry);
    lemma_ranked(registry, registry.order(), source);
}

/// The order or the name of a place, filled or not.
pub open spec fn stands_by(slot: SlotModel, order: u32, name: Seq<char>) -> bool {
    match slot {
        SlotModel::Live(source) => source.facts.search_order == order && source.facts.name == name,
        SlotModel::Absent(entry) => entry.search_order == order && entry.name == name,
    }
}

/// A source that is configured and not here keeps its place: the search order is by
/// number and then by name, with those who are missing as with those who are here.
pub proof fn law_a_gap_keeps_its_place(
    registry: RegistryModel,
    i: int,
    j: int,
    first: (u32, Seq<char>),
    then: (u32, Seq<char>),
)
    requires
        0 <= i < j < registry.search_order().len(),
        stands_by(registry.search_order()[i], first.0, first.1),
        stands_by(registry.search_order()[j], then.0, then.1),
    ensures
        first.0 <= then.0,
        first.0 == then.0 ==> !text::before(then.1, first.1),
{
    law_the_order_is_the_configured_one(registry);
    let slots = registry.search_order();
    assert(!ahead(slots[j], slots[i]));
}

/// Whoever is registered and here is in the search order, whoever is configured and
/// not here is a gap in it, and there is nothing else in it.
pub proof fn law_the_search_order_is_of_everybody(registry: RegistryModel, slot: SlotModel)
    ensures
        registry.search_order().contains(slot) <==> match slot {
            SlotModel::Live(source) => registry.sources.contains(source) && source.live,
            SlotModel::Absent(entry) => registry.configured.contains(entry) && forall|i: int|
                0 <= i < registry.sources.len() && (#[trigger] registry.sources[i]).facts.name
                    == entry.name ==> !registry.sources[i].live,
        },
        registry.search_order().len() == registry.live().len() + registry.missing().len(),
{
    law_the_order_is_the_configured_one(registry);
    let slots = registry.search_order();
    let live = as_places(registry.live());
    let gap = |entry: ConfiguredModel| SlotModel::Absent(entry);
    let gaps = registry.missing().map_values(gap);
    let missing = |entry: ConfiguredModel| !registry.has_live(entry.name);
    to_multiset_contains(slots, slot);
    to_multiset_contains(registry.places(), slot);
    to_multiset_len(slots);
    to_multiset_len(registry.places());
    assert(registry.places() == live + gaps);
    assert(slots.contains(slot) <==> registry.places().contains(slot));
    match slot {
        SlotModel::Live(source) => {
            lemma_filter_contains(registry.sources, |source: SourceModel| source.live, source);
            if registry.live().contains(source) {
                let k = choose|k: int| 0 <= k < registry.live().len() && registry.live()[k] == source;
                assert(registry.places()[k] == slot);
            }
            if registry.places().contains(slot) {
                let k = choose|k: int|
                    0 <= k < registry.places().len() && registry.places()[k] == slot;
                if k >= live.len() {
                    assert(registry.places()[k] == gaps[k - live.len()]);
                }
                assert(registry.live()[k] == source);
            }
        },
        SlotModel::Absent(entry) => {
            lemma_filter_contains(registry.configured, missing, entry);
            if registry.missing().contains(entry) {
                let k = choose|k: int|
                    0 <= k < registry.missing().len() && registry.missing()[k] == entry;
                assert(registry.places()[live.len() + k] == slot);
            }
            if registry.places().contains(slot) {
                let k = choose|k: int|
                    0 <= k < registry.places().len() && registry.places()[k] == slot;
                assert(k >= live.len());
                assert(registry.places()[k] == gaps[k - live.len()]);
                assert(registry.missing()[k - live.len()] == entry);
            }
            if registry.has_live(entry.name) {
                let i = choose|i: int|
                    0 <= i < registry.sources.len() && (#[trigger] registry.sources[i]).facts.name
                        == entry.name && registry.sources[i].live;
                assert(registry.sources[i].facts.name == entry.name);
            }
        },
    }
}

/// A name first declared the domain of the earliest entry that has it, and none
/// where no entry has.
pub proof fn law_the_first_declaration_counts(
    first: Seq<(Seq<char>, SidModel)>,
    name: Seq<char>,
    at: int,
)
    ensures
        0 <= at < first.len() && first[at].0 == name && (forall|j: int|
            0 <= j < at ==> (#[trigger] first[j]).0 != name) ==> declared(first, name) == Some(
            first[at].1,
        ),
        (forall|j: int| 0 <= j < first.len() ==> (#[trigger] first[j]).0 != name) ==> declared(
            first,
            name,
        ) is None,
    decreases first.len(),
{
    if first.len() > 0 {
        let rest = first.drop_first();
        law_the_first_declaration_counts(rest, name, at - 1);
        if 0 < at < first.len() && first[at].0 == name && (forall|j: int|
            0 <= j < at ==> (#[trigger] first[j]).0 != name) {
            assert(first[0].0 != name);
            assert(rest[at - 1] == first[at]);
            assert forall|j: int| 0 <= j < at - 1 implies (#[trigger] rest[j]).0 != name by {
                assert(first[j + 1] == rest[j]);
            }
        }
        if forall|j: int| 0 <= j < first.len() ==> (#[trigger] first[j]).0 != name {
            assert(first[0].0 != name);
            assert forall|j: int| 0 <= j < rest.len() implies (#[trigger] rest[j]).0 != name by {
                assert(first[j + 1] == rest[j]);
            }
        }
    }
}

/// Who is let in: a source is, exactly where fewer than eight are registered, none
/// of them of its name or its domain, and its name declared no other domain before.
pub proof fn law_who_is_let_in(registry: RegistryModel, source: SourceModel)
    ensures
        admissible(registry, source) <==> {
            &&& registry.sources.len() < 8
            &&& forall|i: int|
                0 <= i < registry.sources.len() ==> (#[trigger] registry.sources[i]).facts.name
                    != source.facts.name && registry.sources[i].facts.domain != source.facts.domain
            &&& declared(registry.first_declared, source.facts.name) is None || declared(
                registry.first_declared,
                source.facts.name,
            ) == Some(source.facts.domain)
        },
{
    if admissible(registry, source) {
        assert forall|i: int| 0 <= i < registry.sources.len() implies (
        #[trigger] registry.sources[i]).facts.name != source.facts.name
            && registry.sources[i].facts.domain != source.facts.domain by {
            assert(!registry.holds(source.facts.name));
            assert(!registry.claims(source.facts.domain));
        }
    }
}

/// What letting a source in does: it stands last among those registered, everybody
/// else as they stood, nothing configured changes, and its name has declared its
/// domain from there on if it had declared none, with what others declared as it
/// was.
pub proof fn law_what_letting_in_does(
    registry: RegistryModel,
    source: SourceModel,
    other: Seq<char>,
)
    ensures
        ({
            let now = with_source(registry, source);
            &&& now.sources == registry.sources.push(source)
            &&& now.configured == registry.configured
            &&& other != source.facts.name ==> declared(now.first_declared, other) == declared(
                registry.first_declared,
                other,
            )
            &&& declared(registry.first_declared, source.facts.name) is None ==> declared(
                now.first_declared,
                source.facts.name,
            ) == Some(source.facts.domain)
            &&& declared(registry.first_declared, source.facts.name) is Some ==> declared(
                now.first_declared,
                source.facts.name,
            ) == declared(registry.first_declared, source.facts.name)
        }),
{
    lemma_declared_push(registry.first_declared, source.facts.name, source.facts.domain, other);
    lemma_declared_push(
        registry.first_declared,
        source.facts.name,
        source.facts.domain,
        source.facts.name,
    );
}

/// Which sources are of another name.
pub open spec fn named_otherwise(name: Seq<char>) -> spec_fn(SourceModel) -> bool {
    |source: SourceModel| source.facts.name != name
}

/// A source as it is.
pub open spec fn as_it_is() -> spec_fn(SourceModel) -> SourceModel {
    |source: SourceModel| source
}

/// What taking a source out does: everybody of another name stays, as they are and
/// in their order, and nobody of its name; nothing configured changes, and no
/// declaration is forgotten.
pub proof fn law_what_taking_out_does(registry: RegistryModel, name: Seq<char>)
    ensures
        ({
            let now = without_source(registry, name);
            &&& crate::select::picks(
                registry.sources,
                named_otherwise(name),
                as_it_is(),
                now.sources,
            )
            &&& now.configured == registry.configured
            &&& now.first_declared == registry.first_declared
        }),
{
    let wanted = named_otherwise(name);
    crate::select::lemma_filtered(registry.sources, wanted, as_it_is());
    assert(registry.sources.filter(wanted).map_values(as_it_is()) =~= registry.sources.filter(
        wanted,
    ));
    assert(wanted =~= (|source: SourceModel| source.facts.name != name));
}

/// A change to a source of a name changes that source alone, where it stands.
pub proof fn law_a_change_touches_one_source(
    registry: RegistryModel,
    name: Seq<char>,
    change: spec_fn(SourceModel) -> SourceModel,
    i: int,
)
    requires
        0 <= i < registry.sources.len(),
    ensures
        ({
            let now = with_change(registry, name, change);
            &&& now.sources.len() == registry.sources.len()
            &&& registry.sources[i].facts.name == name ==> now.sources[i] == change(
                registry.sources[i],
            )
            &&& registry.sources[i].facts.name != name ==> now.sources[i] == registry.sources[i]
            &&& now.configured == registry.configured
            &&& now.first_declared == registry.first_declared
        }),
{
}

/// Every configured source is here exactly where each has a live one of its name.
pub proof fn law_what_being_whole_is(registry: RegistryModel)
    ensures
        registry.whole() <==> forall|i: int|
            0 <= i < registry.configured.len() ==> !is_missing(registry)(
                #[trigger] registry.configured[i],
            ),
{
    assert forall|i: int| 0 <= i < registry.configured.len() implies (is_missing(registry)(
        #[trigger] registry.configured[i],
    ) <==> !registry.has_live(registry.configured[i].name)) by {
        let name = registry.configured[i].name;
        if registry.has_live(name) {
            let k = choose|k: int|
                0 <= k < registry.sources.len() && (#[trigger] registry.sources[k]).facts.name
                    == name && registry.sources[k].live;
            assert(registry.sources[k].facts.name == name);
        }
    }
}

/// Why a source is turned away: there are eight already; or one of its name; or one of
/// its domain, whose name is told; or its name declared another domain, which is told.
/// The first of these that holds is the reason.
pub proof fn law_why_a_source_is_turned_away(
    registry: RegistryModel,
    source: SourceModel,
    rejected: RejectedModel,
)
    requires
        earns(registry, source, rejected),
    ensures
        ({
            let full = registry.sources.len() >= 8;
            let named = exists|i: int|
                0 <= i < registry.sources.len() && (#[trigger] registry.sources[i]).facts.name
                    == source.facts.name;
            let claimed = exists|i: int|
                0 <= i < registry.sources.len() && (#[trigger] registry.sources[i]).facts.domain
                    == source.facts.domain;
            &&& !admissible(registry, source)
            &&& rejected is TooMany <==> full
            &&& rejected is AlreadyRegistered <==> !full && named
            &&& rejected is DomainTaken <==> !full && !named && claimed
            &&& rejected is DomainChanged <==> !full && !named && !claimed
            &&& rejected matches RejectedModel::DomainTaken(other) ==> exists|i: int|
                0 <= i < registry.sources.len() && (#[trigger] registry.sources[i]).facts.domain
                    == source.facts.domain && registry.sources[i].facts.name == other
            &&& rejected matches RejectedModel::DomainChanged(before) ==> declared(
                registry.first_declared,
                source.facts.name,
            ) == Some(before) && before != source.facts.domain
        }),
{
}

/// What a source is told that is turned away, with the name or the domain that is in
/// its way.
pub proof fn law_what_a_source_turned_away_is_told(
    other: Seq<char>,
    before: SidModel,
    shown: Seq<char>,
)
    ensures
        RejectedModel::TooMany.told(shown) == "8 sources are already registered"@,
        RejectedModel::AlreadyRegistered.told(shown)
            == "a source of that name is already registered"@,
        RejectedModel::DomainTaken(other).told(shown) == other
            + " is already registered for that domain"@,
        RejectedModel::DomainChanged(before).told(shown) == "it previously declared "@ + shown
            + " and may not change domain without restarting the authority"@,
{
}

/// A configured source is its name, its order and its range, and a place in the search
/// order is who is there, or who should be; in a list, one by one and in order.
pub proof fn law_a_place_is_whose_it_is(
    entry: Configured,
    slots: Seq<Slot<'_>>,
    sources: Seq<&Source>,
    i: int,
)
    ensures
        entry@.name == entry.name@,
        entry@.search_order == entry.search_order,
        entry@.unix_id_range == entry.unix_id_range,
        slot_models(slots).len() == slots.len(),
        0 <= i < slots.len() ==> (match slots[i] {
            Slot::Live(source) => slot_models(slots)[i] == SlotModel::Live(source@),
            Slot::Absent(missing) => slot_models(slots)[i] == SlotModel::Absent(missing@),
        }),
        source_models(sources).len() == sources.len(),
        0 <= i < sources.len() ==> source_models(sources)[i] == sources[i]@,
{
}

} // verus!
