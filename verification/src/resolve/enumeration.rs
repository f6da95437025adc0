//! Walking everything the machine can name, a page at a time.

use crate::identity::{
    EntryModel, EnumerateResult, Fields, Key, Kind, Outcome, Protocol, QueryEntry, Record,
    RecordModel, SourceKey, SourceKeyModel,
};
use crate::registry::{ConfiguredModel, Registry, RegistryModel};
use crate::resolve::{
    found, gated_fields, lead, CandidateModel, Reply, ReplyModel, Start, StartModel, Walk, WalkModel,
    Walked, WalkedModel,
};
use crate::source::{Facts, FactsModel, Source, SourceModel};
use crate::text;
use vstd::prelude::*;

verus! {

// ---------------------------------------------------------------------------
// Cursors
// ---------------------------------------------------------------------------

/// A cursor, as bytes.
pub open spec fn cursor(name: Seq<char>, inner: Seq<u8>) -> Seq<u8> {
    let spelled = vstd::utf8::encode_utf8(name);
    seq![(spelled.len() % 256) as u8] + spelled + inner
}

/// A cursor is a source's *name* and that source's own bytes.
///
/// The name rather than a position in the order, because a source that
/// disconnects between pages shifts every position after it, and resuming the
/// wrong source with another source's cursor is a silently wrong walk rather
/// than a loud failure. A name identifies exactly one source or none.
///
/// The trailing bytes are the source's and are never looked at.
pub fn make_cursor(name: &str, inner: &[u8]) -> (out: Vec<u8>)
    ensures
        out@ == cursor(name@, inner@),
{
    let spelled = name.as_bytes();
    let length: usize = spelled.len();
    let mut out: Vec<u8> = Vec::new();
    out.push((length % 256) as u8);
    out.extend_from_slice(spelled);
    out.extend_from_slice(inner);
    assert(out@ =~= cursor(name@, inner@));
    out
}

/// What a cursor holds: nothing where it does not parse, no name where it is
/// empty and begins a walk.
pub open spec fn held(cursor: Seq<u8>) -> Option<(Option<Seq<char>>, Seq<u8>)> {
    if cursor.len() == 0 {
        Some((None, Seq::empty()))
    } else if cursor.len() - 1 < cursor[0] {
        None
    } else {
        let spelled = cursor.subrange(1, 1 + cursor[0]);
        if vstd::utf8::valid_utf8(spelled) {
            Some((Some(vstd::utf8::decode_utf8(spelled)), cursor.skip(1 + cursor[0])))
        } else {
            None
        }
    }
}

/// Take a cursor apart.
pub fn split_cursor(cursor: &[u8]) -> (split: Option<(Option<String>, &[u8])>)
    ensures
        split is Some <==> held(cursor@) is Some,
        split matches Some(parts) ==> held(cursor@) == Some(
            (
                match parts.0 {
                    Some(name) => Some(name@),
                    None => None,
                },
                parts.1@,
            ),
        ),
{
    if cursor.len() == 0 {
        assert(cursor@ =~= Seq::empty());
        return Some((None, cursor));
    }
    let length: usize = cursor[0] as usize;
    if cursor.len() - 1 < length {
        return None;
    }
    let spelled = vstd::slice::slice_subrange(cursor, 1, 1 + length);
    let inner = vstd::slice::slice_subrange(cursor, 1 + length, cursor.len());
    assert(inner@ =~= cursor@.skip(1 + length));
    match text::utf8(spelled) {
        Some(name) => Some((Some(name.to_owned()), inner)),
        None => None,
    }
}

/// A cursor holds what it was made of, for every name a length byte can measure.
pub proof fn law_a_cursor_holds_what_it_was_made_of(name: Seq<char>, inner: Seq<u8>)
    requires
        vstd::utf8::encode_utf8(name).len() < 256,
    ensures
        held(cursor(name, inner)) == Some((Some(name), inner)),
{
    let spelled = vstd::utf8::encode_utf8(name);
    let made = cursor(name, inner);
    vstd::utf8::encode_utf8_valid_utf8(name);
    vstd::utf8::encode_utf8_decode_utf8(name);
    assert(made[0] == spelled.len());
    assert(made.subrange(1, 1 + made[0]) =~= spelled);
    assert(made.skip(1 + made[0]) =~= inner);
}

/// A cursor is made of what it holds: putting together again what taking one
/// apart gave is the cursor there was.
pub proof fn law_a_cursor_is_made_of_what_it_holds(from: Seq<u8>)
    ensures
        held(from) matches Some((Some(name), inner)) ==> cursor(name, inner) == from,
        held(from) matches Some((None, inner)) ==> from.len() == 0 && inner.len() == 0,
{
    if let Some((Some(name), inner)) = held(from) {
        let spelled = from.subrange(1, 1 + from[0]);
        vstd::utf8::decode_utf8_encode_utf8(spelled);
        assert(spelled.len() == from[0]);
        assert(cursor(name, inner) =~= from);
    }
}

// ---------------------------------------------------------------------------
// Pages
// ---------------------------------------------------------------------------

/// One page of every principal or group the machine can name.
#[derive(Debug, PartialEq, Eq)]
pub struct Page {
    pub entries: Vec<Record>,
    /// Where the next page begins, or empty for none.
    pub next: Vec<u8>,
    /// Sources that declined or could not be reached. A short list that looks
    /// complete is what this exists to prevent.
    pub incomplete: Vec<String>,
}

/// A page, mathematically.
#[verifier::ext_equal]
pub struct PageModel {
    pub entries: Seq<RecordModel>,
    pub next: Seq<u8>,
    pub incomplete: Seq<Seq<char>>,
}

/// Names as values.
pub open spec fn spelled(names: Seq<String>) -> Seq<Seq<char>> {
    names.map_values(|name: String| name@)
}

impl View for Page {
    type V = PageModel;

    open spec fn view(&self) -> PageModel {
        PageModel {
            entries: crate::identity::record_models(self.entries@),
            next: self.next@,
            incomplete: spelled(self.incomplete@),
        }
    }
}

/// What happened when a source was to be asked for a page.
#[derive(Debug, PartialEq, Eq)]
pub enum HeardPage {
    /// It was not asked, or no conversation could be opened with it.
    NotOpened,
    /// The request could not be sent.
    NotSent,
    /// It answered.
    Page(EnumerateResult),
    /// It refused.
    Refused,
    /// It said something else, or nothing.
    Otherwise,
}

/// What a source's page makes of what it reports: its entries, confined and
/// rebased as any answer of it is, without those that are no answer.
pub open spec fn kept(
    source: FactsModel,
    entries: Seq<EntryModel>,
    kind: Kind,
    fields: Fields,
    protocol: Protocol,
) -> Seq<RecordModel>
    decreases entries.len(),
{
    if entries.len() == 0 {
        Seq::empty()
    } else {
        let before = kept(source, entries.drop_last(), kind, fields, protocol);
        match crate::resolve::answer_for(source, entries.last(), kind, fields, protocol).record {
            Some(record) => before.push(record),
            None => before,
        }
    }
}

/// Append what a source's page is kept as.
fn keep(
    source: &Facts,
    entries: &Vec<QueryEntry>,
    kind: Kind,
    fields: Fields,
    protocol: Protocol,
    onto: &mut Vec<Record>,
)
    ensures
        crate::identity::record_models(final(onto)@) == crate::identity::record_models(old(onto)@)
            + kept(source@, crate::identity::entry_models(entries@), kind, fields, protocol),
{
    let ghost before = crate::identity::record_models(onto@);
    let ghost all = crate::identity::entry_models(entries@);
    let mut i: usize = 0;
    assert(all.take(0) =~= Seq::empty());
    assert(before + kept(source@, all.take(0), kind, fields, protocol) =~= before);
    while i < entries.len()
        invariant
            i <= entries@.len(),
            all == crate::identity::entry_models(entries@),
            crate::identity::record_models(onto@) == before + kept(
                source@,
                all.take(i as int),
                kind,
                fields,
                protocol,
            ),
        decreases entries@.len() - i,
    {
        assert(all.take(i + 1).drop_last() =~= all.take(i as int));
        assert(all.take(i + 1).last() == entries@[i as int]@);
        let ghost so_far = onto@;
        let answer = found(source, &entries[i], kind, fields, protocol);
        if let Some(record) = answer.record {
            let ghost it = record@;
            onto.push(record);
            assert(crate::identity::record_models(onto@) =~= crate::identity::record_models(
                so_far,
            ).push(it));
            assert((before + kept(source@, all.take(i as int), kind, fields, protocol)).push(it)
                =~= before + kept(source@, all.take(i as int), kind, fields, protocol).push(it));
        }
        i += 1;
    }
    assert(all.take(i as int) =~= all);
}

/// Whether a source is asked for a page of everything it holds.
///
/// The time bound is on the *request*, not on each source consulted for it: a
/// source reached with nothing left gives no page, as if it had not answered. A
/// source that did not declare it enumerates is not asked to.
pub fn may_ask_page(source: &Facts, time_left: bool) -> (yes: bool)
    ensures
        yes <==> time_left && source@.capabilities.enumerates,
{
    time_left && source.capabilities.enumerates
}

/// Make a page of what was heard. Only a page that says it was found is one.
pub fn heard_page(heard: HeardPage) -> (page: Option<EnumerateResult>)
    ensures
        page is Some <==> (heard matches HeardPage::Page(result) && result.outcome is Found),
        page matches Some(found) ==> heard == HeardPage::Page(found),
{
    match heard {
        HeardPage::Page(result) => match result.outcome {
            Outcome::Found => Some(result),
            _ => None,
        },
        _ => None,
    }
}

// ---------------------------------------------------------------------------
// Enumeration
// ---------------------------------------------------------------------------

/// A walk over everything, waiting for a source's page.
pub struct Enumeration {
    sources: Vec<Facts>,
    at: usize,
    inner: Vec<u8>,
    entries: Vec<Record>,
    incomplete: Vec<String>,
    kind: Kind,
    fields: Fields,
    protocol: Protocol,
}

/// A walk over everything, mathematically.
#[verifier::ext_equal]
pub struct EnumerationModel {
    /// The sources, in the search order.
    pub sources: Seq<FactsModel>,
    /// Whose turn it is.
    pub at: int,
    /// Where that source's page begins.
    pub inner: Seq<u8>,
    pub entries: Seq<RecordModel>,
    pub incomplete: Seq<Seq<char>>,
    pub kind: Kind,
    pub fields: Fields,
    pub protocol: Protocol,
}

/// Sources as values.
pub open spec fn facts_models(of: Seq<Facts>) -> Seq<FactsModel> {
    of.map_values(|facts: Facts| facts@)
}

impl View for Enumeration {
    type V = EnumerationModel;

    closed spec fn view(&self) -> EnumerationModel {
        EnumerationModel {
            sources: facts_models(self.sources@),
            at: self.at as int,
            inner: self.inner@,
            entries: crate::identity::record_models(self.entries@),
            incomplete: spelled(self.incomplete@),
            kind: self.kind,
            fields: self.fields,
            protocol: self.protocol,
        }
    }
}

/// Where a walk over everything stands.
pub enum Enumerating {
    Ask(Enumeration),
    Done(Page),
    /// The cursor is not one this authority issued, or can no longer be
    /// honoured. Restarting silently would hand back a second copy of the
    /// beginning; an empty page would read as completion.
    Malformed,
}

/// Where a walk over everything stands, mathematically.
pub enum EnumeratingModel {
    Ask(EnumerationModel),
    Done(PageModel),
    Malformed,
}

impl View for Enumerating {
    type V = EnumeratingModel;

    open spec fn view(&self) -> EnumeratingModel {
        match *self {
            Enumerating::Ask(walk) => EnumeratingModel::Ask(walk@),
            Enumerating::Done(page) => EnumeratingModel::Done(page@),
            Enumerating::Malformed => EnumeratingModel::Malformed,
        }
    }
}

impl EnumerationModel {
    /// The walk at the beginning of the next source.
    pub open spec fn beyond(self) -> EnumerationModel {
        EnumerationModel { at: self.at + 1, inner: Seq::empty(), ..self }
    }

    /// The walk, with the source whose turn it is having contributed nothing.
    pub open spec fn without_it(self) -> EnumerationModel {
        EnumerationModel { incomplete: self.incomplete.push(self.sources[self.at].name), ..self }
    }

    /// The walk, with a page of the source whose turn it is.
    pub open spec fn with_page(self, entries: Seq<EntryModel>) -> EnumerationModel {
        EnumerationModel {
            entries: self.entries + kept(
                self.sources[self.at],
                entries,
                self.kind,
                self.fields,
                self.protocol,
            ),
            ..self
        }
    }

    /// The page the walk has come to.
    pub open spec fn page(self, next: Seq<u8>) -> PageModel {
        PageModel { entries: self.entries, next, incomplete: self.incomplete }
    }
}

/// Where a walk stands once it has passed over every source that declared it
/// does not enumerate.
pub open spec fn advanced(walk: EnumerationModel) -> EnumeratingModel
    decreases walk.sources.len() - walk.at,
{
    if walk.at >= walk.sources.len() {
        EnumeratingModel::Done(walk.page(Seq::empty()))
    } else if walk.sources[walk.at].capabilities.enumerates {
        EnumeratingModel::Ask(walk)
    } else {
        advanced(walk.without_it().beyond())
    }
}

/// Where a walk stands once the source it waits for has given a page, or has
/// not.
pub open spec fn turned(
    walk: EnumerationModel,
    page: Option<(Seq<EntryModel>, Seq<u8>)>,
) -> EnumeratingModel {
    match page {
        Some((entries, next)) => if next.len() > 0 {
            // More from this source. Resume here rather than moving on.
            EnumeratingModel::Done(
                walk.with_page(entries).page(cursor(walk.sources[walk.at].name, next)),
            )
        } else {
            advanced(walk.with_page(entries).beyond())
        },
        None => advanced(walk.without_it().beyond()),
    }
}

/// What a page says, as values.
pub open spec fn said(page: Option<EnumerateResult>) -> Option<(Seq<EntryModel>, Seq<u8>)> {
    match page {
        Some(page) => Some((crate::identity::entry_models(page.entries@), page.next@)),
        None => None,
    }
}

impl Enumeration {
    #[verifier::type_invariant]
    spec fn waiting(self) -> bool {
        self.at < self.sources@.len()
    }

    /// Pass over every source that declared it does not enumerate.
    fn advance(
        sources: Vec<Facts>,
        from: usize,
        from_inner: Vec<u8>,
        entries: Vec<Record>,
        already: Vec<String>,
        kind: Kind,
        fields: Fields,
        protocol: Protocol,
    ) -> (stands: Enumerating)
        requires
            from <= sources@.len(),
        ensures
            stands@ == advanced(
                EnumerationModel {
                    sources: facts_models(sources@),
                    at: from as int,
                    inner: from_inner@,
                    entries: crate::identity::record_models(entries@),
                    incomplete: spelled(already@),
                    kind,
                    fields,
                    protocol,
                },
            ),
    {
        let ghost start = EnumerationModel {
            sources: facts_models(sources@),
            at: from as int,
            inner: from_inner@,
            entries: crate::identity::record_models(entries@),
            incomplete: spelled(already@),
            kind,
            fields,
            protocol,
        };
        let mut at: usize = from;
        let mut inner = from_inner;
        let mut incomplete = already;
        let ghost mut walk = start;
        while at < sources.len() && !sources[at].capabilities.enumerates
            invariant
                at <= sources@.len(),
                advanced(walk) == advanced(start),
                walk == (EnumerationModel {
                    sources: facts_models(sources@),
                    at: at as int,
                    inner: inner@,
                    entries: crate::identity::record_models(entries@),
                    incomplete: spelled(incomplete@),
                    kind,
                    fields,
                    protocol,
                }),
            decreases sources@.len() - at,
        {
            let ghost before = incomplete@;
            incomplete.push(sources[at].name.clone());
            inner = Vec::new();
            proof {
                assert(walk.sources[at as int] == sources@[at as int]@);
                assert(spelled(incomplete@) =~= spelled(before).push(walk.sources[at as int].name));
                walk = walk.without_it().beyond();
            }
            at += 1;
        }
        if at >= sources.len() {
            return Enumerating::Done(Page { entries, next: Vec::new(), incomplete });
        }
        assert(walk.sources[at as int] == sources@[at as int]@);
        Enumerating::Ask(
            Enumeration { sources, at, inner, entries, incomplete, kind, fields, protocol },
        )
    }

    /// Whom to ask.
    pub fn source(&self) -> (source: &Facts)
        ensures
            0 <= self@.at < self@.sources.len(),
            source@ == self@.sources[self@.at],
    {
        proof {
            use_type_invariant(self);
        }
        &self.sources[self.at]
    }

    /// What kind of object to ask for.
    pub fn kind(&self) -> (kind: Kind)
        ensures
            kind == self@.kind,
    {
        self.kind
    }

    /// What to ask for: never a field gating a capability the source did not
    /// declare.
    pub fn fields(&self) -> (fields: Fields)
        ensures
            fields == crate::resolve::gated(self@.sources[self@.at], self@.fields),
    {
        gated_fields(self.source(), self.fields)
    }

    /// Where the source's page begins. Its own bytes, never looked at.
    pub fn cursor(&self) -> (cursor: &[u8])
        ensures
            cursor@ == self@.inner,
    {
        self.inner.as_slice()
    }

    /// Go on with the source's page, or without one.
    pub fn hear(self, heard: HeardPage) -> (stands: Enumerating)
        ensures
            stands@ == turned(
                self@,
                match heard {
                    HeardPage::Page(page) => if page.outcome is Found {
                        said(Some(page))
                    } else {
                        None
                    },
                    _ => None,
                },
            ),
    {
        proof {
            use_type_invariant(&self);
        }
        let count: usize = self.sources.len();
        assert(self.at < count);
        let ghost walk = self@;
        let mut entries = self.entries;
        let mut incomplete = self.incomplete;
        assert(walk.sources[walk.at] == self.sources@[self.at as int]@);
        match heard_page(heard) {
            Some(page) => {
                keep(
                    &self.sources[self.at],
                    &page.entries,
                    self.kind,
                    self.fields,
                    self.protocol,
                    &mut entries,
                );
                if page.next.len() > 0 {
                    let next = make_cursor(
                        self.sources[self.at].name.as_str(),
                        page.next.as_slice(),
                    );
                    return Enumerating::Done(Page { entries, next, incomplete });
                }
            },
            None => {
                let ghost before = incomplete@;
                incomplete.push(self.sources[self.at].name.clone());
                assert(spelled(incomplete@) =~= spelled(before).push(walk.sources[walk.at].name));
            },
        }
        // Finished with this source; the next one starts from its own beginning.
        Enumeration::advance(
            self.sources,
            self.at + 1,
            Vec::new(),
            entries,
            incomplete,
            self.kind,
            self.fields,
            self.protocol,
        )
    }
}

/// Where in an order a source of some name stands.
pub open spec fn place_of(sources: Seq<FactsModel>, name: Seq<char>) -> Option<int>
    decreases sources.len(),
{
    if sources.len() == 0 {
        None
    } else if sources[0].name == name {
        Some(0int)
    } else {
        match place_of(sources.drop_first(), name) {
            Some(place) => Some(place + 1),
            None => None,
        }
    }
}

/// Where a walk over everything begins.
///
/// Everything before the source a cursor names was walked on an earlier page. A
/// source that is configured and not here contributed nothing, and a listing
/// that did not say so would look complete.
pub open spec fn enumeration_begun(
    registry: RegistryModel,
    sources: Seq<FactsModel>,
    kind: Kind,
    fields: Fields,
    from: Seq<u8>,
    protocol: Protocol,
) -> EnumeratingModel {
    match held(from) {
        None => EnumeratingModel::Malformed,
        Some((resume, inner)) => {
            let place = match resume {
                None => Some(0int),
                Some(name) => place_of(sources, name),
            };
            match place {
                None => EnumeratingModel::Malformed,
                Some(at) => advanced(
                    EnumerationModel {
                        sources,
                        at,
                        inner,
                        entries: Seq::empty(),
                        incomplete: registry.missing().map_values(
                            |entry: ConfiguredModel| entry.name,
                        ),
                        kind,
                        fields,
                        protocol,
                    },
                ),
            }
        },
    }
}

/// What sources are, in their order.
pub open spec fn facts_of(order: Seq<SourceModel>) -> Seq<FactsModel> {
    order.map_values(|source: SourceModel| source.facts)
}

/// What sources are, in their order.
fn described(sources: &Vec<&Source>) -> (out: Vec<Facts>)
    ensures
        facts_models(out@) == facts_of(crate::registry::source_models(sources@)),
{
    let ghost all = facts_of(crate::registry::source_models(sources@));
    let mut out: Vec<Facts> = Vec::new();
    let mut i: usize = 0;
    while i < sources.len()
        invariant
            i <= sources@.len(),
            all == facts_of(crate::registry::source_models(sources@)),
            out@.len() == i,
            forall|j: int| 0 <= j < i ==> (#[trigger] out@[j])@ == all[j],
        decreases sources@.len() - i,
    {
        out.push(sources[i].facts().clone());
        i += 1;
    }
    assert(facts_models(out@) =~= all);
    out
}

/// Find the source of some name.
fn find(sources: &Vec<Facts>, name: &str) -> (place: Option<usize>)
    ensures
        place is Some <==> place_of(facts_models(sources@), name@) is Some,
        place matches Some(found) ==> found < sources@.len() && place_of(
            facts_models(sources@),
            name@,
        ) == Some(found as int),
{
    let ghost all = facts_models(sources@);
    let mut i: usize = 0;
    assert(all.skip(0) =~= all);
    while i < sources.len()
        invariant
            i <= sources@.len(),
            all == facts_models(sources@),
            place_of(all, name@) == (match place_of(all.skip(i as int), name@) {
                Some(place) => Some(place + i),
                None => None,
            }),
        decreases sources@.len() - i,
    {
        assert(all.skip(i as int)[0] == sources@[i as int]@);
        assert(all.skip(i as int).drop_first() =~= all.skip(i + 1));
        if text::eq(sources[i].name.as_str(), name) {
            return Some(i);
        }
        i += 1;
    }
    None
}

/// Begin one page of everything the machine can name, or report that the cursor
/// cannot be honoured.
///
/// A walk crosses sources one at a time and each source's paging stays its own.
pub fn enumerate(
    registry: &Registry,
    kind: Kind,
    fields: Fields,
    cursor: &[u8],
    protocol: Protocol,
) -> (stands: Enumerating)
    ensures
        stands@ == enumeration_begun(
            registry@,
            facts_of(registry@.order()),
            kind,
            crate::resolve::meant(fields, protocol),
            cursor@,
            protocol,
        ),
{
    let asked = fields.intersection(protocol.known);
    let order = registry.ordered();
    let sources = described(&order);
    let (resume, inner) = match split_cursor(cursor) {
        Some(split) => split,
        None => return Enumerating::Malformed,
    };
    let at: usize = match resume {
        None => 0,
        Some(name) => match find(&sources, name.as_str()) {
            Some(place) => place,
            // A cursor naming a source that is no longer in the order.
            None => return Enumerating::Malformed,
        },
    };
    let mut own: Vec<u8> = Vec::new();
    own.extend_from_slice(inner);
    assert(own@ =~= inner@);
    let incomplete = registry.absent();
    assert(crate::identity::record_models(Seq::<Record>::empty()) =~= Seq::empty());
    Enumeration::advance(
        sources,
        at,
        own,
        Vec::new(),
        incomplete,
        kind,
        asked,
        protocol,
    )
}

// ---------------------------------------------------------------------------
// The members of one group
// ---------------------------------------------------------------------------

/// A search for the source that holds a group, waiting for one to answer.
pub struct Ownership {
    walk: Walk,
    key: SourceKey,
}

impl View for Ownership {
    type V = (WalkModel, SourceKeyModel);

    closed spec fn view(&self) -> (WalkModel, SourceKeyModel) {
        (self.walk@, self.key@)
    }
}

/// Where a search for the source that holds a group stands.
pub enum Owning {
    Ask(Ownership),
    /// The source, and the key as that source is asked it.
    Owned(Facts, SourceKey),
    /// Nobody holds it, or nobody who could say is here.
    Refused(Outcome),
}

/// Where a search for the source that holds a group stands, mathematically.
pub enum OwningModel {
    Ask(WalkModel, SourceKeyModel),
    Owned(FactsModel, SourceKeyModel),
    Refused(Outcome),
}

impl View for Owning {
    type V = OwningModel;

    open spec fn view(&self) -> OwningModel {
        match *self {
            Owning::Ask(ownership) => OwningModel::Ask(ownership@.0, ownership@.1),
            Owning::Owned(source, key) => OwningModel::Owned(source@, key@),
            Owning::Refused(outcome) => OwningModel::Refused(outcome),
        }
    }
}

/// Where a search stands, given where its walk does.
pub open spec fn searched(stands: WalkedModel, key: SourceKeyModel) -> OwningModel {
    match stands {
        WalkedModel::Ask(walk) => OwningModel::Ask(walk, key),
        WalkedModel::Exhausted => OwningModel::Refused(Outcome::NotFound),
        WalkedModel::Blocked => OwningModel::Refused(Outcome::Unavailable),
    }
}

/// Where a search begins, given where its key leads.
pub open spec fn search_begun(start: StartModel) -> OwningModel {
    match start {
        StartModel::Walk(stands, key) => searched(stands, key),
        StartModel::Refuse(outcome) => OwningModel::Refused(outcome),
    }
}

/// Where a search stands once the source it waits for has replied.
pub open spec fn claimed(walk: WalkModel, key: SourceKeyModel, reply: ReplyModel) -> OwningModel {
    match reply {
        ReplyModel::Found(_) => match walk.candidates[walk.at] {
            CandidateModel::Live(source) => OwningModel::Owned(source, key),
            CandidateModel::Absent(_) => OwningModel::Refused(Outcome::Unavailable),
        },
        ReplyModel::NotFound => searched(
            crate::resolve::walked(walk.candidates, walk.at + 1),
            key,
        ),
        ReplyModel::Refused => OwningModel::Refused(Outcome::Unavailable),
        ReplyModel::Unavailable => OwningModel::Refused(Outcome::Unavailable),
    }
}

impl Ownership {
    /// Whom to ask.
    pub fn source(&self) -> (source: &Facts)
        ensures
            ({
                let walk = self@.0;
                &&& 0 <= walk.at < walk.candidates.len()
                &&& walk.candidates[walk.at] == CandidateModel::Live(source@)
            }),
    {
        self.walk.source()
    }

    /// What to ask about.
    pub fn key(&self) -> (key: &SourceKey)
        ensures
            key@ == self@.1,
    {
        &self.key
    }

    /// What kind of object to ask for.
    pub fn kind(&self) -> (kind: Kind)
        ensures
            kind is Group,
    {
        Kind::Group
    }

    /// What to ask for: nothing but whether there is such a group.
    pub fn fields(&self) -> (fields: Fields)
        ensures
            fields.bits == 0,
    {
        Fields::empty()
    }

    /// Go on with what the source replied.
    pub fn hear(self, reply: Reply) -> (stands: Owning)
        ensures
            ({
                let (walk, key) = self@;
                stands@ == claimed(walk, key, reply@)
            }),
    {
        match reply {
            Reply::Found(_) => {
                let source = self.walk.source().clone();
                Owning::Owned(source, self.key)
            },
            Reply::NotFound => match self.walk.passed() {
                Walked::Ask(walk) => Owning::Ask(Ownership { walk, key: self.key }),
                Walked::Exhausted => Owning::Refused(Outcome::NotFound),
                Walked::Blocked => Owning::Refused(Outcome::Unavailable),
            },
            Reply::Refused => Owning::Refused(Outcome::Unavailable),
            Reply::Unavailable => Owning::Refused(Outcome::Unavailable),
        }
    }
}

/// Search for the single source that holds a key **as a group**.
///
/// The same ownership rules as a lookup's, without the well-known principals:
/// nothing here answers for an object no source holds. Their membership is a
/// rule rather than a record, and no source can enumerate a rule.
///
/// The source a key leads to is asked whether the key names a group it actually
/// has. A key naming a *principal* is not found either: there is no enumerable
/// group by it.
pub fn owning_group_source(registry: &Registry, of: &Key, protocol: Protocol) -> (stands: Owning)
    ensures
        stands@ == search_begun(crate::resolve::leads(registry@, of@, protocol)),
{
    match lead(registry, of, protocol) {
        Start::Walk(stands, key) => match stands {
            Walked::Ask(walk) => Owning::Ask(Ownership { walk, key }),
            Walked::Exhausted => Owning::Refused(Outcome::NotFound),
            Walked::Blocked => Owning::Refused(Outcome::Unavailable),
        },
        Start::Refuse(outcome) => Owning::Refused(outcome),
    }
}

/// What the source that holds a group is asked for a page of its members.
#[derive(Debug, PartialEq, Eq)]
pub struct MembersRequest {
    /// What kind of member to produce.
    pub kind: Kind,
    /// What to say of each.
    pub fields: Fields,
    /// The group, by the key its source is asked it under.
    pub of: SourceKey,
    /// Where the page begins. The source's own bytes, never looked at.
    pub cursor: Vec<u8>,
}

/// What the source that holds a group is asked, mathematically.
#[verifier::ext_equal]
pub struct MembersRequestModel {
    pub kind: Kind,
    pub fields: Fields,
    pub of: SourceKeyModel,
    pub cursor: Seq<u8>,
}

impl View for MembersRequest {
    type V = MembersRequestModel;

    open spec fn view(&self) -> MembersRequestModel {
        MembersRequestModel {
            kind: self.kind,
            fields: self.fields,
            of: self.of@,
            cursor: self.cursor@,
        }
    }
}

/// What the source that holds a group is asked for a page of its members, if it
/// is asked at all.
pub open spec fn members_asked(
    source: FactsModel,
    of: SourceKeyModel,
    kind: Kind,
    fields: Fields,
    cursor: Seq<u8>,
) -> Option<MembersRequestModel> {
    if source.capabilities.enumerates {
        Some(
            MembersRequestModel { kind, fields: crate::resolve::gated(source, fields), of, cursor },
        )
    } else {
        None
    }
}

/// Make the request for a page of one group's members.
///
/// A source that declared it never enumerates is not asked to, and no source is
/// asked for a field gating a capability it did not declare. The cursor goes to
/// it as it came.
pub fn members_request(
    source: &Facts,
    of: SourceKey,
    kind: Kind,
    fields: Fields,
    cursor: &[u8],
    protocol: Protocol,
) -> (request: Option<MembersRequest>)
    ensures
        members_asked(
            source@,
            of@,
            kind,
            crate::resolve::meant(fields, protocol),
            cursor@,
        ) == (match request {
            Some(request) => Some(request@),
            None => None,
        }),
{
    if !source.capabilities.enumerates {
        return None;
    }
    let asked = gated_fields(source, fields.intersection(protocol.known));
    let mut own: Vec<u8> = Vec::new();
    own.extend_from_slice(cursor);
    assert(own@ =~= cursor@);
    Some(MembersRequest { kind, fields: asked, of, cursor: own })
}

/// A page of one group's members, or why there is none.
pub open spec fn members_page(
    source: FactsModel,
    heard: HeardPage,
    kind: Kind,
    fields: Fields,
    protocol: Protocol,
) -> Result<PageModel, Outcome> {
    if !source.capabilities.enumerates {
        Err(Outcome::Unavailable)
    } else {
        match heard {
            HeardPage::Page(page) => match page.outcome {
                Outcome::Found => Ok(
                    PageModel {
                        entries: kept(
                            source,
                            crate::identity::entry_models(page.entries@),
                            kind,
                            fields,
                            protocol,
                        ),
                        next: page.next@,
                        incomplete: Seq::empty(),
                    },
                ),
                Outcome::Refused => Err(Outcome::Malformed),
                _ => Err(Outcome::Unavailable),
            },
            _ => Err(Outcome::Unavailable),
        }
    }
}

/// Make a page of one group's members, from what its owner said.
///
/// Members of one group are a lookup that overflowed, so this goes to the
/// **owning source only**, never across the order: the group is one object, and
/// exactly one source is authoritative for it. The cursor is relayed to that
/// source verbatim and its next one comes back the same way.
///
/// A source that declared it never enumerates is the whole answer here. A source
/// that holds the group and refuses has been given a cursor it did not issue;
/// saying so lets a caller restart deliberately.
pub fn enumerate_members(
    source: &Facts,
    heard: HeardPage,
    kind: Kind,
    fields: Fields,
    protocol: Protocol,
) -> (page: Result<Page, Outcome>)
    ensures
        match page {
            Ok(page) => members_page(
                source@,
                heard,
                kind,
                crate::resolve::meant(fields, protocol),
                protocol,
            ) == Ok::<PageModel, Outcome>(page@),
            Err(outcome) => members_page(
                source@,
                heard,
                kind,
                crate::resolve::meant(fields, protocol),
                protocol,
            ) == Err::<PageModel, Outcome>(outcome),
        },
{
    let asked = fields.intersection(protocol.known);
    if !source.capabilities.enumerates {
        return Err(Outcome::Unavailable);
    }
    let result = match heard {
        HeardPage::Page(result) => result,
        _ => return Err(Outcome::Unavailable),
    };
    match result.outcome {
        Outcome::Found => {},
        Outcome::Refused => return Err(Outcome::Malformed),
        _ => return Err(Outcome::Unavailable),
    }
    let mut entries: Vec<Record> = Vec::new();
    keep(source, &result.entries, kind, asked, protocol, &mut entries);
    let incomplete: Vec<String> = Vec::new();
    let page = Page { entries, next: result.next, incomplete };
    assert(page@.entries =~= kept(
        source@,
        crate::identity::entry_models(result.entries@),
        kind,
        asked,
        protocol,
    ));
    assert(page@.incomplete =~= Seq::empty());
    Ok(page)
}

// ---------------------------------------------------------------------------
// Laws
// ---------------------------------------------------------------------------

/// Where a walk over everything ends up when each source that is asked gives
/// the page told for its place in the order.
pub open spec fn walked_through(
    stands: EnumeratingModel,
    pages: spec_fn(int) -> Option<(Seq<EntryModel>, Seq<u8>)>,
) -> EnumeratingModel
    decreases
            match stands {
                EnumeratingModel::Ask(walk) => 1 + walk.sources.len() - walk.at,
                _ => 0,
            },
{
    match stands {
        EnumeratingModel::Ask(walk) => if 0 <= walk.at < walk.sources.len() {
            let after = turned(walk, pages(walk.at));
            match after {
                EnumeratingModel::Ask(next) => if next.sources == walk.sources && walk.at < next.at
                    < walk.sources.len() {
                    walked_through(after, pages)
                } else {
                    after
                },
                _ => after,
            }
        } else {
            stands
        },
        _ => stands,
    }
}

/// Passing over sources moves forward and changes nothing else.
proof fn lemma_advanced(walk: EnumerationModel)
    requires
        0 <= walk.at <= walk.sources.len(),
    ensures
        match advanced(walk) {
            EnumeratingModel::Ask(next) => {
                &&& next.sources == walk.sources
                &&& walk.at <= next.at < walk.sources.len()
                &&& next.sources[next.at].capabilities.enumerates
                &&& next.entries == walk.entries
                &&& next.kind == walk.kind
                &&& next.fields == walk.fields
                &&& next.protocol == walk.protocol
                &&& walk.incomplete.is_prefix_of(next.incomplete)
                &&& forall|i: int|
                    walk.at <= i < next.at ==> !(
                    #[trigger] walk.sources[i]).capabilities.enumerates
                        && next.incomplete.contains(walk.sources[i].name)
            },
            EnumeratingModel::Done(page) => {
                &&& page.next.len() == 0
                &&& page.entries == walk.entries
                &&& walk.incomplete.is_prefix_of(page.incomplete)
                &&& forall|i: int|
                    walk.at <= i < walk.sources.len() ==> !(
                    #[trigger] walk.sources[i]).capabilities.enumerates
                        && page.incomplete.contains(walk.sources[i].name)
            },
            EnumeratingModel::Malformed => false,
        },
    decreases walk.sources.len() - walk.at,
{
    if walk.at < walk.sources.len() && !walk.sources[walk.at].capabilities.enumerates {
        let next = walk.without_it().beyond();
        lemma_advanced(next);
        assert(next.incomplete.last() == walk.sources[walk.at].name);
        assert(walk.incomplete.is_prefix_of(next.incomplete));
        let whole = match advanced(walk) {
            EnumeratingModel::Ask(after) => after.incomplete,
            EnumeratingModel::Done(page) => page.incomplete,
            EnumeratingModel::Malformed => Seq::empty(),
        };
        assert(whole[walk.incomplete.len() as int] == next.incomplete[walk.incomplete.len() as int]);
        assert(whole.contains(walk.sources[walk.at].name));
    }
}

/// Whether a page accounts for a source: it holds what the source reported, or
/// says that the source is missing from it.
pub open spec fn accounts_for(
    page: PageModel,
    source: FactsModel,
    told: Option<(Seq<EntryModel>, Seq<u8>)>,
    kind: Kind,
    fields: Fields,
    protocol: Protocol,
) -> bool {
    ||| page.incomplete.contains(source.name)
    ||| told matches Some((entries, _)) && source.capabilities.enumerates && forall|i: int|
        0 <= i < kept(source, entries, kind, fields, protocol).len() ==> page.entries.contains(
            #[trigger] kept(source, entries, kind, fields, protocol)[i],
        )
}

/// A page that is more than another accounts for as much.
proof fn lemma_accounts(
    less: PageModel,
    more: PageModel,
    source: FactsModel,
    told: Option<(Seq<EntryModel>, Seq<u8>)>,
    kind: Kind,
    fields: Fields,
    protocol: Protocol,
)
    requires
        less.entries.is_prefix_of(more.entries),
        less.incomplete.is_prefix_of(more.incomplete),
        accounts_for(less, source, told, kind, fields, protocol),
    ensures
        accounts_for(more, source, told, kind, fields, protocol),
{
    if less.incomplete.contains(source.name) {
        let i = choose|i: int| 0 <= i < less.incomplete.len() && less.incomplete[i] == source.name;
        assert(more.incomplete[i] == source.name);
    } else if let Some((entries, _)) = told {
        let records = kept(source, entries, kind, fields, protocol);
        assert forall|i: int| 0 <= i < records.len() implies more.entries.contains(
            #[trigger] records[i],
        ) by {
            assert(less.entries.contains(records[i]));
            let j = choose|j: int| 0 <= j < less.entries.len() && less.entries[j] == records[i];
            assert(more.entries[j] == records[i]);
        }
    }
}

/// Whether a page accounts for every source from where a walk began up to a
/// place, and stops there.
pub open spec fn covers(
    walk: EnumerationModel,
    pages: spec_fn(int) -> Option<(Seq<EntryModel>, Seq<u8>)>,
    page: PageModel,
    stop: int,
) -> bool {
    &&& walk.at <= stop <= walk.sources.len()
    &&& forall|i: int|
        walk.at <= i <= stop && i < walk.sources.len() ==> accounts_for(
            page,
            #[trigger] walk.sources[i],
            pages(i),
            walk.kind,
            walk.fields,
            walk.protocol,
        )
    &&& stops_at(walk.sources, pages, page.next, stop)
}

/// Whether a walk ended in a page that leaves nothing out in silence.
pub open spec fn ended_well(
    walk: EnumerationModel,
    pages: spec_fn(int) -> Option<(Seq<EntryModel>, Seq<u8>)>,
    ended: EnumeratingModel,
) -> bool {
    ended matches EnumeratingModel::Done(page) && walk.entries.is_prefix_of(page.entries)
        && walk.incomplete.is_prefix_of(page.incomplete) && exists|stop: int| #[trigger]
        covers(walk, pages, page, stop)
}

/// The walk once the source whose turn it is has been heard, before moving on.
spec fn heard_out(
    walk: EnumerationModel,
    told: Option<(Seq<EntryModel>, Seq<u8>)>,
) -> EnumerationModel {
    match told {
        Some((entries, _)) => walk.with_page(entries),
        None => walk.without_it(),
    }
}

/// A source is accounted for as soon as it has been heard, and nothing that was
/// there before is lost.
proof fn lemma_heard_out(
    walk: EnumerationModel,
    told: Option<(Seq<EntryModel>, Seq<u8>)>,
    next: Seq<u8>,
)
    requires
        0 <= walk.at < walk.sources.len(),
        walk.sources[walk.at].capabilities.enumerates,
    ensures
        accounts_for(
            heard_out(walk, told).page(next),
            walk.sources[walk.at],
            told,
            walk.kind,
            walk.fields,
            walk.protocol,
        ),
        walk.entries.is_prefix_of(heard_out(walk, told).entries),
        walk.incomplete.is_prefix_of(heard_out(walk, told).incomplete),
{
    let it = walk.sources[walk.at];
    let page = heard_out(walk, told).page(next);
    match told {
        Some((entries, _)) => {
            let records = kept(it, entries, walk.kind, walk.fields, walk.protocol);
            assert forall|i: int| 0 <= i < records.len() implies page.entries.contains(
                #[trigger] records[i],
            ) by {
                assert(page.entries[walk.entries.len() + i] == records[i]);
            }
        },
        None => {
            assert(page.incomplete.last() == it.name);
        },
    }
}

/// What stands at the beginning of a beginning stands at the beginning.
proof fn lemma_prefix<T>(a: Seq<T>, b: Seq<T>, c: Seq<T>)
    requires
        a.is_prefix_of(b),
        b.is_prefix_of(c),
    ensures
        a.is_prefix_of(c),
{
    assert(a =~= c.subrange(0, a.len() as int)) by {
        assert forall|i: int| 0 <= i < a.len() implies a[i] == c[i] by {
            assert(a[i] == b[i]);
            assert(b[i] == c[i]);
        }
    }
}

/// What covers the rest of a walk covers all of it, once the source whose turn
/// it was and those passed over are accounted for.
proof fn lemma_covers(
    walk: EnumerationModel,
    next: EnumerationModel,
    pages: spec_fn(int) -> Option<(Seq<EntryModel>, Seq<u8>)>,
    page: PageModel,
    stop: int,
)
    requires
        0 <= walk.at < walk.sources.len(),
        walk.sources[walk.at].capabilities.enumerates,
        advanced(heard_out(walk, pages(walk.at)).beyond()) == EnumeratingModel::Ask(next),
        next.entries.is_prefix_of(page.entries),
        next.incomplete.is_prefix_of(page.incomplete),
        covers(next, pages, page, stop),
    ensures
        covers(walk, pages, page, stop),
        walk.entries.is_prefix_of(page.entries),
        walk.incomplete.is_prefix_of(page.incomplete),
{
    let told = pages(walk.at);
    let step = heard_out(walk, told);
    let stepped = step.page(Seq::empty());
    lemma_heard_out(walk, told, Seq::empty());
    lemma_advanced(step.beyond());
    lemma_prefix(step.incomplete, next.incomplete, page.incomplete);
    lemma_prefix(walk.incomplete, step.incomplete, page.incomplete);
    lemma_prefix(walk.entries, step.entries, page.entries);
    lemma_accounts(
        stepped,
        page,
        walk.sources[walk.at],
        told,
        walk.kind,
        walk.fields,
        walk.protocol,
    );
    assert forall|i: int| walk.at <= i <= stop && i < walk.sources.len() implies accounts_for(
        page,
        #[trigger] walk.sources[i],
        pages(i),
        walk.kind,
        walk.fields,
        walk.protocol,
    ) by {
        if walk.at < i < next.at {
            assert(step.beyond().sources[i] == walk.sources[i]);
            assert(next.incomplete.contains(walk.sources[i].name));
            lemma_accounts(
                next.page(Seq::empty()),
                page,
                walk.sources[i],
                pages(i),
                walk.kind,
                walk.fields,
                walk.protocol,
            );
        } else if i >= next.at {
            assert(next.sources[i] == walk.sources[i]);
        }
    }
}

/// A listing that looks complete is complete: a walk over everything ends in a
/// page that accounts for every source from where it began to where it stopped,
/// and it stops short of the end of the order only where a source has more to
/// give, with a cursor that resumes at that source.
pub proof fn law_nothing_is_left_out_in_silence(
    walk: EnumerationModel,
    pages: spec_fn(int) -> Option<(Seq<EntryModel>, Seq<u8>)>,
)
    requires
        0 <= walk.at < walk.sources.len(),
        walk.sources[walk.at].capabilities.enumerates,
    ensures
        ended_well(walk, pages, walked_through(EnumeratingModel::Ask(walk), pages)),
    decreases walk.sources.len() - walk.at,
{
    let told = pages(walk.at);
    let it = walk.sources[walk.at];
    let step = heard_out(walk, told);
    let more = match told {
        Some((_, own)) => own.len() > 0,
        None => false,
    };
    if more {
        let (heard_entries, own) = told->0;
        let page = step.page(cursor(it.name, own));
        lemma_heard_out(walk, told, cursor(it.name, own));
        assert(turned(walk, told) == EnumeratingModel::Done(page));
        assert(covers(walk, pages, page, walk.at));
        assert(ended_well(walk, pages, EnumeratingModel::Done(page)));
    } else {
        assert(turned(walk, told) == advanced(step.beyond()));
        lemma_advanced(step.beyond());
        match advanced(step.beyond()) {
            EnumeratingModel::Ask(next) => {
                law_nothing_is_left_out_in_silence(next, pages);
                let ended = walked_through(EnumeratingModel::Ask(next), pages);
                let page = ended->Done_0;
                let stop = choose|stop: int| #[trigger] covers(next, pages, page, stop);
                lemma_covers(walk, next, pages, page, stop);
                assert(covers(walk, pages, page, stop));
                assert(ended_well(walk, pages, ended));
                assert(walked_through(EnumeratingModel::Ask(walk), pages) == ended);
            },
            EnumeratingModel::Done(page) => {
                lemma_heard_out(walk, told, Seq::empty());
                lemma_prefix(walk.incomplete, step.incomplete, page.incomplete);
                lemma_accounts(
                    step.page(Seq::empty()),
                    page,
                    it,
                    told,
                    walk.kind,
                    walk.fields,
                    walk.protocol,
                );
                assert forall|i: int| walk.at <= i < walk.sources.len() implies accounts_for(
                    page,
                    #[trigger] walk.sources[i],
                    pages(i),
                    walk.kind,
                    walk.fields,
                    walk.protocol,
                ) by {
                    assert(step.beyond().sources[i] == walk.sources[i]);
                }
                assert(covers(walk, pages, page, walk.sources.len() as int));
                assert(ended_well(walk, pages, EnumeratingModel::Done(page)));
            },
            EnumeratingModel::Malformed => {},
        }
    }
}

/// Where in an order a cursor resumes: at the beginning where it is empty, at
/// the source it names, and nowhere where it cannot be honoured.
pub open spec fn resumes_at(sources: Seq<FactsModel>, from: Seq<u8>) -> Option<int> {
    match held(from) {
        None => None,
        Some((None, _)) => Some(0int),
        Some((Some(name), _)) => place_of(sources, name),
    }
}

/// A source of some name stands where it is found.
proof fn lemma_place_of(sources: Seq<FactsModel>, name: Seq<char>)
    ensures
        place_of(sources, name) matches Some(place) ==> 0 <= place < sources.len()
            && sources[place].name == name,
    decreases sources.len(),
{
    if sources.len() > 0 && sources[0].name != name {
        lemma_place_of(sources.drop_first(), name);
    }
}

/// The name of a source in an order is found there.
proof fn lemma_found(sources: Seq<FactsModel>, at: int)
    requires
        0 <= at < sources.len(),
    ensures
        place_of(sources, sources[at].name) is Some,
    decreases sources.len(),
{
    if at > 0 {
        lemma_found(sources.drop_first(), at - 1);
    }
}

/// A walk that has yet to pass over anybody ends as well as one that waits.
proof fn lemma_advanced_ends_well(
    walk: EnumerationModel,
    pages: spec_fn(int) -> Option<(Seq<EntryModel>, Seq<u8>)>,
)
    requires
        0 <= walk.at <= walk.sources.len(),
    ensures
        ended_well(walk, pages, walked_through(advanced(walk), pages)),
{
    lemma_advanced(walk);
    match advanced(walk) {
        EnumeratingModel::Ask(next) => {
            law_nothing_is_left_out_in_silence(next, pages);
            let ended = walked_through(advanced(walk), pages);
            let page = ended->Done_0;
            let stop = choose|stop: int| #[trigger] covers(next, pages, page, stop);
            lemma_prefix(walk.incomplete, next.incomplete, page.incomplete);
            assert forall|i: int| walk.at <= i <= stop && i < walk.sources.len() implies accounts_for(
                page,
                #[trigger] walk.sources[i],
                pages(i),
                walk.kind,
                walk.fields,
                walk.protocol,
            ) by {
                if i < next.at {
                    lemma_accounts(
                        next.page(Seq::empty()),
                        page,
                        walk.sources[i],
                        pages(i),
                        walk.kind,
                        walk.fields,
                        walk.protocol,
                    );
                } else {
                    assert(next.sources[i] == walk.sources[i]);
                }
            }
            assert(covers(walk, pages, page, stop));
        },
        EnumeratingModel::Done(page) => {
            assert(covers(walk, pages, page, walk.sources.len() as int));
        },
        EnumeratingModel::Malformed => {},
    }
}

/// Whether a page accounts for a whole machine from some place in the order on:
/// it names every configured source that is not here, it accounts for every
/// source up to where it stopped, and it stopped short of the end only with a
/// cursor that resumes there.
pub open spec fn complete_from(
    page: PageModel,
    registry: RegistryModel,
    at: int,
    pages: spec_fn(int) -> Option<(Seq<EntryModel>, Seq<u8>)>,
    kind: Kind,
    fields: Fields,
    protocol: Protocol,
    stop: int,
) -> bool {
    let sources = facts_of(registry.order());
    &&& forall|i: int|
        0 <= i < registry.missing().len() ==> page.incomplete.contains(
            (#[trigger] registry.missing()[i]).name,
        )
    &&& at <= stop <= sources.len()
    &&& forall|i: int|
        at <= i <= stop && i < sources.len() ==> accounts_for(
            page,
            #[trigger] sources[i],
            pages(i),
            kind,
            fields,
            protocol,
        )
    &&& stops_at(sources, pages, page.next, stop)
    &&& page.next.len() == 0 <==> stop == sources.len()
}

/// A listing that looks complete is complete, from the request on: an
/// enumeration whose cursor can be honoured ends in a page that names every
/// configured source that is not here and accounts for every source from where
/// the cursor resumes, those passed over before the first question and those of
/// an order in which nobody enumerates among them. An empty cursor resumes at
/// the beginning, so a listing that began there and has no next page accounts
/// for everybody.
pub proof fn law_a_listing_accounts_for_everybody(
    registry: RegistryModel,
    kind: Kind,
    fields: Fields,
    from: Seq<u8>,
    protocol: Protocol,
    pages: spec_fn(int) -> Option<(Seq<EntryModel>, Seq<u8>)>,
)
    ensures
        ({
            let sources = facts_of(registry.order());
            let begun = enumeration_begun(registry, sources, kind, fields, from, protocol);
            &&& from.len() == 0 ==> resumes_at(sources, from) == Some(0int)
            &&& begun is Malformed <==> resumes_at(sources, from) is None
            &&& resumes_at(sources, from) matches Some(at) ==> walked_through(
                begun,
                pages,
            ) matches EnumeratingModel::Done(page) && exists|stop: int| #[trigger]
                complete_from(page, registry, at, pages, kind, fields, protocol, stop)
        }),
{
    let sources = facts_of(registry.order());
    let begun = enumeration_begun(registry, sources, kind, fields, from, protocol);
    if let Some(at) = resumes_at(sources, from) {
        let missing = registry.missing();
        let (resume, inner) = held(from)->0;
        if let Some(name) = resume {
            lemma_place_of(sources, name);
        }
        let walk = EnumerationModel {
            sources,
            at,
            inner,
            entries: Seq::empty(),
            incomplete: missing.map_values(|entry: ConfiguredModel| entry.name),
            kind,
            fields,
            protocol,
        };
        assert(begun == advanced(walk));
        lemma_advanced(walk);
        lemma_advanced_ends_well(walk, pages);
        let page = walked_through(begun, pages)->Done_0;
        let stop = choose|stop: int| #[trigger] covers(walk, pages, page, stop);
        assert forall|i: int| 0 <= i < missing.len() implies page.incomplete.contains(
            (#[trigger] missing[i]).name,
        ) by {
            assert(page.incomplete[i] == walk.incomplete[i]);
        }
        assert(complete_from(page, registry, at, pages, kind, fields, protocol, stop));
    }
}

/// The next page begins where the last one stopped: the cursor a page gives for
/// a source with more to give resumes at that source, with that source's own
/// bytes, for every name a length byte can measure.
pub proof fn law_the_next_page_resumes_where_the_last_stopped(
    registry: RegistryModel,
    stop: int,
    own: Seq<u8>,
)
    requires
        registry.valid(),
        0 <= stop < registry.order().len(),
        vstd::utf8::encode_utf8(registry.order()[stop].facts.name).len() < 256,
    ensures
        ({
            let sources = facts_of(registry.order());
            let next = cursor(sources[stop].name, own);
            &&& resumes_at(sources, next) == Some(stop)
            &&& held(next) matches Some((_, inner)) && inner == own
        }),
{
    let order = registry.order();
    let sources = facts_of(order);
    let name = sources[stop].name;
    law_a_cursor_holds_what_it_was_made_of(name, own);
    crate::registry::law_nobody_stands_twice(registry);
    lemma_place_of(sources, name);
    lemma_found(sources, stop);
    let place = place_of(sources, name)->0;
    assert(order[place].facts.name == order[stop].facts.name);
    if place < stop {
        assert(order[place].facts.name != order[stop].facts.name);
    } else if stop < place {
        assert(order[stop].facts.name != order[place].facts.name);
    }
}

/// Whether a page's next cursor says that its walk stopped at a place: nowhere
/// short of the end, or at a source that has more to give.
pub open spec fn stops_at(
    sources: Seq<FactsModel>,
    pages: spec_fn(int) -> Option<(Seq<EntryModel>, Seq<u8>)>,
    next: Seq<u8>,
    stop: int,
) -> bool {
    if stop >= sources.len() {
        next.len() == 0
    } else {
        pages(stop) matches Some((_, own)) && own.len() > 0 && next == cursor(
            sources[stop].name,
            own,
        )
    }
}

/// Every record on a page is an answer of the source it came from, so it names
/// an object of that source's own domain.
pub proof fn law_a_page_is_confined(
    source: FactsModel,
    entries: Seq<EntryModel>,
    kind: Kind,
    fields: Fields,
    protocol: Protocol,
    i: int,
)
    requires
        0 <= i < kept(source, entries, kind, fields, protocol).len(),
    ensures
        ({
            let record = kept(source, entries, kind, fields, protocol)[i];
            &&& crate::sid::is_sid(record.sid)
            &&& crate::domain::within(source.domain, crate::sid::decoded(record.sid))
        }),
    decreases entries.len(),
{
    let before = kept(source, entries.drop_last(), kind, fields, protocol);
    if i < before.len() {
        law_a_page_is_confined(source, entries.drop_last(), kind, fields, protocol, i);
    }
}

/// Which entries of a page are listed: those that describe an object of the
/// source's own, of the kind that was asked for.
pub open spec fn listable(source: FactsModel, kind: Kind, max: usize) -> spec_fn(EntryModel) -> bool {
    |entry: EntryModel|
        crate::resolve::describes(source, entry, max) && (kind is Any || entry.kind == kind)
}

/// Which entries of a page come to an answer with a record.
pub open spec fn answered(
    source: FactsModel,
    kind: Kind,
    fields: Fields,
    protocol: Protocol,
) -> spec_fn(EntryModel) -> bool {
    |entry: EntryModel|
        crate::resolve::answer_for(source, entry, kind, fields, protocol).outcome is Found
}

/// The record an entry comes to.
pub open spec fn as_answered(
    source: FactsModel,
    kind: Kind,
    fields: Fields,
    protocol: Protocol,
) -> spec_fn(EntryModel) -> RecordModel {
    |entry: EntryModel|
        crate::resolve::answer_for(source, entry, kind, fields, protocol).record->0
}

/// Every entry of a source's page that describes an object of the source's own, of
/// the kind that was asked for, is listed, in the source's order, and no other: as
/// many records as there are such entries, and each the answer its entry alone
/// would have come to.
pub proof fn law_every_entry_is_on_the_page(
    source: FactsModel,
    entries: Seq<EntryModel>,
    kind: Kind,
    fields: Fields,
    protocol: Protocol,
)
    ensures
        crate::select::picks(
            entries,
            listable(source, kind, protocol.max_name_bytes),
            as_answered(source, kind, fields, protocol),
            kept(source, entries, kind, fields, protocol),
        ),
        crate::select::picks(
            entries,
            answered(source, kind, fields, protocol),
            as_answered(source, kind, fields, protocol),
            kept(source, entries, kind, fields, protocol),
        ),
    decreases entries.len(),
{
    let made = as_answered(source, kind, fields, protocol);
    let plain = listable(source, kind, protocol.max_name_bytes);
    let found = answered(source, kind, fields, protocol);
    if entries.len() == 0 {
        crate::select::lemma_picks_nothing(entries, plain, made);
        crate::select::lemma_picks_nothing(entries, found, made);
    } else {
        let front = entries.drop_last();
        let (rest, out) = (
            kept(source, front, kind, fields, protocol),
            kept(source, entries, kind, fields, protocol),
        );
        law_every_entry_is_on_the_page(source, front, kind, fields, protocol);
        crate::resolve::law_what_a_description_comes_to(
            source,
            entries.last(),
            kind,
            fields,
            protocol,
        );
        crate::select::lemma_picks_last(entries, plain, made, rest, out);
        crate::select::lemma_picks_last(entries, found, made, rest, out);
    }
}

/// What a listing asks next. Sources that do not enumerate are passed over and
/// named, each once and in their order, and the first that does is asked, from its
/// own beginning unless it is the one the listing stood at. Where none is left the
/// page is what there was.
pub proof fn law_who_is_passed_over(walk: EnumerationModel)
    requires
        0 <= walk.at <= walk.sources.len(),
    ensures
        match advanced(walk) {
            EnumeratingModel::Ask(next) => {
                &&& next.sources == walk.sources
                &&& walk.at <= next.at < walk.sources.len()
                &&& walk.sources[next.at].capabilities.enumerates
                &&& forall|i: int|
                    walk.at <= i < next.at ==> !(
                    #[trigger] walk.sources[i]).capabilities.enumerates
                &&& next.inner == (if next.at == walk.at {
                    walk.inner
                } else {
                    Seq::empty()
                })
                &&& next.entries == walk.entries
                &&& next.kind == walk.kind
                &&& next.fields == walk.fields
                &&& next.protocol == walk.protocol
                &&& next.incomplete == walk.incomplete + Seq::new(
                    (next.at - walk.at) as nat,
                    |k: int| walk.sources[walk.at + k].name,
                )
            },
            EnumeratingModel::Done(page) => {
                &&& forall|i: int|
                    walk.at <= i < walk.sources.len() ==> !(
                    #[trigger] walk.sources[i]).capabilities.enumerates
                &&& page.next.len() == 0
                &&& page.entries == walk.entries
                &&& page.incomplete == walk.incomplete + Seq::new(
                    (walk.sources.len() - walk.at) as nat,
                    |k: int| walk.sources[walk.at + k].name,
                )
            },
            EnumeratingModel::Malformed => false,
        },
    decreases walk.sources.len() - walk.at,
{
    let none = Seq::new(0, |k: int| walk.sources[walk.at + k].name);
    assert(walk.incomplete + none =~= walk.incomplete);
    if walk.at < walk.sources.len() && !walk.sources[walk.at].capabilities.enumerates {
        let on = walk.without_it().beyond();
        law_who_is_passed_over(on);
        let to = match advanced(walk) {
            EnumeratingModel::Ask(next) => next.at,
            _ => walk.sources.len() as int,
        };
        assert(on.incomplete + Seq::new((to - on.at) as nat, |k: int| on.sources[on.at + k].name)
            =~= walk.incomplete + Seq::new(
            (to - walk.at) as nat,
            |k: int| walk.sources[walk.at + k].name,
        ));
    } else if walk.at >= walk.sources.len() {
        assert(Seq::new(
            (walk.sources.len() - walk.at) as nat,
            |k: int| walk.sources[walk.at + k].name,
        ) =~= none);
    }
}

/// What a source's page does to a listing. Its listable entries follow what was
/// there. A source with more to give ends the page, with a cursor made of the
/// source's name and its own bytes; one without, and one that gives no page and is
/// named for it, hands over to the next from that one's beginning.
pub proof fn law_what_a_source_adds_to_a_listing(
    walk: EnumerationModel,
    entries: Seq<EntryModel>,
    next: Seq<u8>,
)
    requires
        0 <= walk.at < walk.sources.len(),
    ensures
        ({
            let it = walk.sources[walk.at];
            let listed = walk.entries + kept(it, entries, walk.kind, walk.fields, walk.protocol);
            let spelled = vstd::utf8::encode_utf8(it.name);
            &&& next.len() > 0 ==> turned(walk, Some((entries, next))) == EnumeratingModel::Done(
                PageModel {
                    entries: listed,
                    next: seq![(spelled.len() % 256) as u8] + spelled + next,
                    incomplete: walk.incomplete,
                },
            )
            &&& next.len() == 0 ==> turned(walk, Some((entries, next))) == advanced(
                EnumerationModel {
                    sources: walk.sources,
                    at: walk.at + 1,
                    inner: Seq::empty(),
                    entries: listed,
                    incomplete: walk.incomplete,
                    kind: walk.kind,
                    fields: walk.fields,
                    protocol: walk.protocol,
                },
            )
            &&& turned(walk, None) == advanced(
                EnumerationModel {
                    sources: walk.sources,
                    at: walk.at + 1,
                    inner: Seq::empty(),
                    entries: walk.entries,
                    incomplete: walk.incomplete.push(it.name),
                    kind: walk.kind,
                    fields: walk.fields,
                    protocol: walk.protocol,
                },
            )
        }),
{
}

/// A source of some name stands at the first place whose source has it, and nowhere
/// where none has.
pub proof fn law_where_a_source_stands(sources: Seq<FactsModel>, name: Seq<char>)
    ensures
        match place_of(sources, name) {
            Some(place) => {
                &&& 0 <= place < sources.len()
                &&& sources[place].name == name
                &&& forall|j: int| 0 <= j < place ==> (#[trigger] sources[j]).name != name
            },
            None => forall|j: int| 0 <= j < sources.len() ==> (#[trigger] sources[j]).name != name,
        },
    decreases sources.len(),
{
    if sources.len() > 0 && sources[0].name != name {
        let rest = sources.drop_first();
        law_where_a_source_stands(rest, name);
        match place_of(sources, name) {
            Some(place) => {
                assert forall|j: int| 0 <= j < place implies (#[trigger] sources[j]).name != name by {
                    if j > 0 {
                        assert(rest[j - 1] == sources[j]);
                    }
                }
            },
            None => {
                assert forall|j: int| 0 <= j < sources.len() implies (
                #[trigger] sources[j]).name != name by {
                    if j > 0 {
                        assert(rest[j - 1] == sources[j]);
                    }
                }
            },
        }
    }
}

/// What a cursor is: the length of a name, the name, and a source's own bytes; an
/// empty one begins a listing; and one too short for the name it announces, or
/// whose name is no text, is none.
pub proof fn law_what_a_cursor_holds(from: Seq<u8>)
    ensures
        from.len() == 0 ==> held(from) == Some((None::<Seq<char>>, Seq::<u8>::empty())),
        from.len() > 0 && from.len() < 1 + from[0] ==> held(from) is None,
        from.len() > 0 && from.len() >= 1 + from[0] ==> {
            let spelled = from.subrange(1, 1 + from[0]);
            &&& vstd::utf8::valid_utf8(spelled) ==> held(from) == Some(
                (
                    Some(vstd::utf8::decode_utf8(spelled)),
                    from.subrange(1 + from[0], from.len() as int),
                ),
            )
            &&& !vstd::utf8::valid_utf8(spelled) ==> held(from) is None
        },
{
    if from.len() > 0 && from.len() >= 1 + from[0] {
        assert(from.skip(1 + from[0]) =~= from.subrange(1 + from[0], from.len() as int));
    }
}

/// Where a listing begins: with nothing listed yet, and with every configured
/// source that is not here named, each once for each time it is configured and in
/// that order. An empty cursor begins it at the first source; one that names a
/// source begins it there, with that source's own bytes; any other is refused.
pub proof fn law_where_a_listing_begins(
    registry: RegistryModel,
    sources: Seq<FactsModel>,
    kind: Kind,
    fields: Fields,
    from: Seq<u8>,
    protocol: Protocol,
    named: Seq<Seq<char>>,
)
    requires
        crate::select::picks(
            registry.configured,
            crate::registry::is_missing(registry),
            crate::registry::its_name(),
            named,
        ),
    ensures
        ({
            let begun = enumeration_begun(registry, sources, kind, fields, from, protocol);
            match held(from) {
                None => begun is Malformed,
                Some((None, inner)) => begun == advanced(
                    EnumerationModel {
                        sources,
                        at: 0,
                        inner,
                        entries: Seq::empty(),
                        incomplete: named,
                        kind,
                        fields,
                        protocol,
                    },
                ),
                Some((Some(name), inner)) => match place_of(sources, name) {
                    None => begun is Malformed,
                    Some(at) => begun == advanced(
                        EnumerationModel {
                            sources,
                            at,
                            inner,
                            entries: Seq::empty(),
                            incomplete: named,
                            kind,
                            fields,
                            protocol,
                        },
                    ),
                },
            }
        }),
{
    let names = registry.missing().map_values(|entry: ConfiguredModel| entry.name);
    crate::registry::law_every_missing_source_is_named(registry);
    crate::select::lemma_picks_alike(
        registry.configured,
        crate::registry::is_missing(registry),
        crate::registry::its_name(),
        names,
        named,
    );
}

/// A page of one group's members: every listable entry its source reports, where
/// the source's next page begins as the source says, and nobody missing. A source
/// that does not enumerate, or gives no page, gives none; one that refuses was
/// given a cursor that is none of its own.
pub proof fn law_what_a_page_of_members_is(
    source: FactsModel,
    heard: HeardPage,
    kind: Kind,
    fields: Fields,
    protocol: Protocol,
)
    ensures
        ({
            let page = members_page(source, heard, kind, fields, protocol);
            &&& !source.capabilities.enumerates ==> page == Err::<PageModel, Outcome>(
                Outcome::Unavailable,
            )
            &&& source.capabilities.enumerates ==> match heard {
                HeardPage::Page(told) => {
                    &&& told.outcome is Found ==> {
                        &&& page matches Ok(made)
                        &&& made.next == told.next@
                        &&& made.incomplete.len() == 0
                        &&& crate::select::picks(
                            crate::identity::entry_models(told.entries@),
                            listable(source, kind, protocol.max_name_bytes),
                            as_answered(source, kind, fields, protocol),
                            made.entries,
                        )
                    }
                    &&& told.outcome is Refused ==> page == Err::<PageModel, Outcome>(
                        Outcome::Malformed,
                    )
                    &&& !(told.outcome is Found) && !(told.outcome is Refused) ==> page
                        == Err::<PageModel, Outcome>(Outcome::Unavailable)
                },
                _ => page == Err::<PageModel, Outcome>(Outcome::Unavailable),
            }
        }),
{
    if let HeardPage::Page(told) = heard {
        law_every_entry_is_on_the_page(
            source,
            crate::identity::entry_models(told.entries@),
            kind,
            fields,
            protocol,
        );
    }
}

/// A source that enumerates is asked for members of the kind, of the group and from
/// the place that were asked for, and for every field but those it cannot answer;
/// one that does not is not asked.
pub proof fn law_what_the_source_of_a_group_is_asked(
    source: FactsModel,
    of: SourceKeyModel,
    kind: Kind,
    fields: Fields,
    from: Seq<u8>,
)
    ensures
        source.capabilities.enumerates <==> members_asked(source, of, kind, fields, from) is Some,
        members_asked(source, of, kind, fields, from) matches Some(request) ==> {
            &&& request.kind == kind
            &&& request.of == of
            &&& request.cursor == from
            &&& source.capabilities.members ==> request.fields.bits == fields.bits
            &&& !source.capabilities.members ==> request.fields.bits == fields.bits & 0xffff_fff7
        },
{
    crate::resolve::law_what_a_source_is_not_asked(source, fields);
}

/// What a search for the source of a group makes of a reply. The source that has
/// the group owns it. One that does not hands over to the next, which is asked if
/// it is here and ends the search if it is not; the group is nobody's where nobody
/// is left. One that refuses or does not answer ends the search too.
pub proof fn law_what_a_reply_says_of_a_group(
    walk: WalkModel,
    key: SourceKeyModel,
    source: FactsModel,
    reply: ReplyModel,
)
    requires
        0 <= walk.at < walk.candidates.len(),
        walk.candidates[walk.at] == CandidateModel::Live(source),
    ensures
        ({
            let after = claimed(walk, key, reply);
            match reply {
                ReplyModel::Found(_) => after == OwningModel::Owned(source, key),
                ReplyModel::NotFound => if walk.at + 1 == walk.candidates.len() {
                    after == OwningModel::Refused(Outcome::NotFound)
                } else if walk.candidates[walk.at + 1] is Live {
                    after == OwningModel::Ask(
                        WalkModel { candidates: walk.candidates, at: walk.at + 1 },
                        key,
                    )
                } else {
                    after == OwningModel::Refused(Outcome::Unavailable)
                },
                ReplyModel::Refused => after == OwningModel::Refused(Outcome::Unavailable),
                ReplyModel::Unavailable => after == OwningModel::Refused(Outcome::Unavailable),
            }
        }),
{
}

/// A search begins where its key leads: with the first candidate where it is here,
/// and otherwise with the reason there is none.
pub proof fn law_where_a_search_begins(
    candidates: Seq<CandidateModel>,
    key: SourceKeyModel,
    outcome: Outcome,
)
    ensures
        search_begun(StartModel::Refuse(outcome)) == OwningModel::Refused(outcome),
        ({
            let begun = search_begun(
                StartModel::Walk(crate::resolve::walked(candidates, 0), key),
            );
            &&& candidates.len() == 0 ==> begun == OwningModel::Refused(Outcome::NotFound)
            &&& candidates.len() > 0 && candidates[0] is Absent ==> begun == OwningModel::Refused(
                Outcome::Unavailable,
            )
            &&& candidates.len() > 0 && candidates[0] is Live ==> begun == OwningModel::Ask(
                WalkModel { candidates, at: 0 },
                key,
            )
        }),
{
}

/// A listing asks the sources of the order, each where it stands there.
pub proof fn law_a_listing_follows_the_order(order: Seq<SourceModel>, i: int)
    requires
        0 <= i < order.len(),
    ensures
        facts_of(order).len() == order.len(),
        facts_of(order)[i] == order[i].facts,
{
}

/// A page is its records, its cursor and its names, and a request for members its kind,
/// its fields, its group and its cursor; what lists there are, one by one and in order.
pub proof fn law_a_page_is_its_parts(
    page: Page,
    request: MembersRequest,
    sources: Seq<Facts>,
    told: EnumerateResult,
    i: int,
)
    ensures
        page@.entries.len() == page.entries@.len(),
        0 <= i < page.entries@.len() ==> page@.entries[i] == page.entries@[i]@,
        page@.next == page.next@,
        page@.incomplete.len() == page.incomplete@.len(),
        0 <= i < page.incomplete@.len() ==> page@.incomplete[i] == page.incomplete@[i]@,
        request@.kind == request.kind,
        request@.fields == request.fields,
        request@.of == request.of@,
        request@.cursor == request.cursor@,
        facts_models(sources).len() == sources.len(),
        0 <= i < sources.len() ==> facts_models(sources)[i] == sources[i]@,
        said(None) is None,
        said(Some(told)) matches Some((entries, next)) && next == told.next@ && entries.len()
            == told.entries@.len() && (0 <= i < told.entries@.len() ==> entries[i]
            == told.entries@[i]@),
{
}

} // verus!
