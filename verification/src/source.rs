//! Principal sources: who is registered, and the order over them.
//!
//! A principal source owns identity: its storage, its verification, its
//! prompts. The authority owns none of that; it relays. What lives here is what
//! makes relaying possible: registration, the multiplexing of many concurrent
//! logons over one persistent connection, and the table of who is currently
//! registered.
//!
//! # Why the source dials in
//!
//! The connection direction and the request direction are opposite: the source
//! connects, and the authority asks. That is deliberate. A process this
//! privileged having no reason to connect anywhere is a meaningfully smaller
//! thing than one that does.
//!
//! # Multiplexing
//!
//! One connection carries every logon that source is handling, tagged by a
//! conversation id allocated here. Serialising logons behind a single connection
//! would turn one slow source into a system-wide login stall.

use crate::domain;
use crate::policy::sources::{EntryModel, SourceEntry};
use crate::psi::Capabilities;
use crate::sid::{Sid, SidModel};
use crate::text;
use crate::unix_id::Range;
use vstd::prelude::*;

pub use crate::registry::{Configured, Registry, Rejected, Slot};

verus! {

/// How many sources may be registered at once.
pub const MAX_SOURCES: usize = 8;

/// How many logons one source may have in flight.
///
/// Bounds the demultiplexing table, so a stuck source cannot grow it without
/// bound.
pub const MAX_CONVERSATIONS_PER_SOURCE: usize = 256;

/// The conversation connection-level messages are on. No logon is ever given
/// it.
pub const CONVERSATION_CONTROL: u64 = 0;

/// How long a connecting peer has to register before it is dropped, in seconds.
pub const REGISTRATION_TIMEOUT: u64 = 10;

/// How long a write to a source may block, in seconds.
///
/// A source only has to *read*, and one that cannot keep up with that is broken.
/// What this bounds is the damage: without it a source that stopped reading
/// would block every logon queued behind it.
pub const WRITE_TIMEOUT: u64 = 10;

/// Why no message came.
#[derive(Debug, Clone, Copy, PartialEq, Eq, Structural)]
pub enum Stalled {
    /// The source did not answer in time.
    TimedOut,
    /// The source disconnected.
    SourceGone,
}

/// What a source is, for as long as it is registered.
#[derive(Debug, PartialEq, Eq)]
pub struct Facts {
    /// The source's name in configuration. Becomes the session's auth-package
    /// name, so a token's provenance records which source authenticated it.
    pub name: String,
    /// Whether this source may assert group memberships outside the domain of
    /// the principal it authenticated.
    pub may_assert_foreign_memberships: bool,
    /// The domain this source declared at registration, verified as far as it
    /// can be. Every identity it asserts is confined to this.
    pub domain: Sid,
    /// The Unix ID range this source's relative numbers are rebased into.
    /// `None` when none is configured, in which case its principals project to
    /// `nobody`. The numeric counterpart of `domain`.
    pub unix_id_range: Option<Range>,
    /// What the source declared it can do beyond authenticating.
    ///
    /// A source is sent nothing it did not declare it answers, which is what
    /// keeps a source written against an earlier protocol working untouched.
    pub capabilities: Capabilities,
    /// Where this source sits in the resolution order for a bare name. Lower
    /// first; ties broken by name, so the order never depends on which source
    /// happened to register first.
    pub search_order: u32,
}

/// What a source is, mathematically.
pub struct FactsModel {
    pub name: Seq<char>,
    pub may_assert_foreign_memberships: bool,
    pub domain: SidModel,
    pub unix_id_range: Option<Range>,
    pub capabilities: Capabilities,
    pub search_order: u32,
}

impl View for Facts {
    type V = FactsModel;

    open spec fn view(&self) -> FactsModel {
        FactsModel {
            name: self.name@,
            may_assert_foreign_memberships: self.may_assert_foreign_memberships,
            domain: self.domain@,
            unix_id_range: self.unix_id_range,
            capabilities: self.capabilities,
            search_order: self.search_order,
        }
    }
}

impl Clone for Facts {
    fn clone(&self) -> (copy: Self)
        ensures
            copy@ == self@,
    {
        Facts {
            name: self.name.clone(),
            may_assert_foreign_memberships: self.may_assert_foreign_memberships,
            domain: self.domain.clone(),
            unix_id_range: self.unix_id_range,
            capabilities: self.capabilities,
            search_order: self.search_order,
        }
    }
}

/// One registered principal source.
#[derive(Debug, PartialEq, Eq)]
pub struct Source {
    facts: Facts,
    live: bool,
    /// Conversation ids are allocated from here. Never zero, which is reserved
    /// for connection-level messages.
    next_conversation: u64,
    /// The conversations in flight.
    conversations: Vec<u64>,
}

/// A registered source, mathematically.
pub struct SourceModel {
    pub facts: FactsModel,
    pub live: bool,
    pub next: u64,
    pub open: Seq<u64>,
}

impl View for Source {
    type V = SourceModel;

    closed spec fn view(&self) -> SourceModel {
        SourceModel {
            facts: self.facts@,
            live: self.live,
            next: self.next_conversation,
            open: self.conversations@,
        }
    }
}

impl SourceModel {
    /// Every conversation in flight has an id that was allocated, and its own;
    /// a source that has gone away has none.
    pub open spec fn valid(self) -> bool {
        &&& self.next > CONVERSATION_CONTROL
        &&& self.open.len() <= MAX_CONVERSATIONS_PER_SOURCE
        &&& self.open.no_duplicates()
        &&& forall|i: int|
            0 <= i < self.open.len() ==> CONVERSATION_CONTROL < #[trigger] self.open[i] < self.next
        &&& !self.live ==> self.open.len() == 0
    }

    /// The source as it first registers.
    pub open spec fn fresh(facts: FactsModel) -> SourceModel {
        SourceModel { facts, live: true, next: 1, open: Seq::empty() }
    }

    /// The source once it has gone away.
    pub open spec fn gone(self) -> SourceModel {
        SourceModel { live: false, open: Seq::empty(), ..self }
    }

    /// The conversation that opening gives, if it gives one.
    pub open spec fn opens(self) -> Option<u64> {
        if self.live && self.open.len() < MAX_CONVERSATIONS_PER_SOURCE && self.next < u64::MAX {
            Some(self.next)
        } else {
            None
        }
    }

    /// The source once a conversation was asked for.
    pub open spec fn after_open(self) -> SourceModel {
        if !self.live || self.next == u64::MAX {
            self
        } else {
            SourceModel {
                next: (self.next + 1) as u64,
                open: if self.open.len() < MAX_CONVERSATIONS_PER_SOURCE {
                    self.open.push(self.next)
                } else {
                    self.open
                },
                ..self
            }
        }
    }

    /// The source once a conversation is over.
    pub open spec fn after_close(self, id: u64) -> SourceModel {
        SourceModel { open: without(self.open, id), ..self }
    }
}

/// Conversations without one of them.
pub open spec fn without(open: Seq<u64>, id: u64) -> Seq<u64>
    decreases open.len(),
{
    if open.len() == 0 {
        Seq::empty()
    } else if open.last() == id {
        without(open.drop_last(), id)
    } else {
        without(open.drop_last(), id).push(open.last())
    }
}

proof fn lemma_without(open: Seq<u64>, id: u64)
    ensures
        without(open, id).len() <= open.len(),
        forall|x: u64| #[trigger] without(open, id).contains(x) <==> (open.contains(x) && x != id),
        open.no_duplicates() ==> without(open, id).no_duplicates(),
    decreases open.len(),
{
    let left = without(open, id);
    if open.len() > 0 {
        let front = open.drop_last();
        let last = open.last();
        let rest = without(front, id);
        lemma_without(front, id);
        assert forall|x: u64| #[trigger] left.contains(x) <==> (open.contains(x) && x != id) by {
            assert(rest.contains(x) <==> (front.contains(x) && x != id));
            if open.contains(x) && x != last {
                let j = choose|j: int| 0 <= j < open.len() && open[j] == x;
                assert(front[j] == x);
            }
            if front.contains(x) {
                let j = choose|j: int| 0 <= j < front.len() && front[j] == x;
                assert(open[j] == x);
            }
            if x == last {
                assert(open[open.len() - 1] == x);
            }
            if last != id {
                if rest.contains(x) {
                    let j = choose|j: int| 0 <= j < rest.len() && rest[j] == x;
                    assert(left[j] == x);
                }
                if x == last {
                    assert(left[rest.len() as int] == x);
                }
                if left.contains(x) && x != last {
                    let j = choose|j: int| 0 <= j < left.len() && left[j] == x;
                    assert(rest[j] == x);
                }
            }
        }
        if open.no_duplicates() {
            assert(front.no_duplicates());
            if last != id {
                assert(!front.contains(last)) by {
                    if front.contains(last) {
                        let j = choose|j: int| 0 <= j < front.len() && front[j] == last;
                        assert(open[j] == open[open.len() - 1]);
                    }
                }
                assert(!rest.contains(last));
                assert forall|i: int, j: int|
                    0 <= i < left.len() && 0 <= j < left.len() && i != j implies left[i]
                    != left[j] by {
                    if i < rest.len() && j < rest.len() {
                        assert(rest[i] != rest[j]);
                    } else if i < rest.len() {
                        assert(rest.contains(rest[i]));
                    } else {
                        assert(rest.contains(rest[j]));
                    }
                }
            }
        }
    }
}

/// What becomes of a message a source sends on a conversation.
#[derive(Debug, Clone, Copy, PartialEq, Eq, Structural)]
pub enum Delivery {
    /// It is handed to the conversation.
    Delivered,
    /// There is no such conversation. Ordinary: the client may have hung up
    /// between the source answering and the answer arriving.
    Unknown,
    /// It is on the reserved conversation, which an ordinary message never is.
    /// The source has misunderstood the protocol, and the connection goes.
    Fatal,
}

/// What becomes of a message on a conversation.
pub open spec fn delivery(source: SourceModel, id: u64) -> Delivery {
    if id == CONVERSATION_CONTROL {
        Delivery::Fatal
    } else if source.open.contains(id) {
        Delivery::Delivered
    } else {
        Delivery::Unknown
    }
}

/// One logon in flight against one source.
#[derive(Debug, PartialEq, Eq)]
pub struct Conversation {
    id: u64,
    terminated: bool,
}

impl Conversation {
    /// The id it was given.
    pub closed spec fn ident(self) -> u64 {
        self.id
    }

    /// Whether the source itself ended it.
    pub closed spec fn ended(self) -> bool {
        self.terminated
    }

    /// The id messages of this conversation carry.
    pub fn id(&self) -> (id: u64)
        ensures
            id == self.ident(),
    {
        self.id
    }

    /// Record that the source ended this conversation, so that giving it up
    /// does not send a pointless abandon.
    pub fn finished(&mut self)
        ensures
            final(self).ident() == old(self).ident(),
            final(self).ended(),
    {
        self.terminated = true;
    }

    /// Whether giving this conversation up is something the source has to be
    /// told: unless it reached a terminal state, so that a client that hangs up
    /// mid-prompt does not leave the source holding state forever.
    pub fn abandons(&self, source_is_live: bool) -> (yes: bool)
        ensures
            yes <==> !self.ended() && source_is_live,
    {
        !self.terminated && source_is_live
    }
}

impl Source {
    #[verifier::type_invariant]
    spec fn sound(self) -> bool {
        self@.valid()
    }

    /// A source that has just registered.
    pub fn new(
        name: String,
        may_assert_foreign_memberships: bool,
        domain: Sid,
        unix_id_range: Option<Range>,
        capabilities: Capabilities,
        search_order: u32,
    ) -> (source: Source)
        ensures
            source@ == SourceModel::fresh(
                FactsModel {
                    name: name@,
                    may_assert_foreign_memberships,
                    domain: domain@,
                    unix_id_range,
                    capabilities,
                    search_order,
                },
            ),
    {
        let facts = Facts {
            name,
            may_assert_foreign_memberships,
            domain,
            unix_id_range,
            capabilities,
            search_order,
        };
        Source { facts, live: true, next_conversation: 1, conversations: Vec::new() }
    }

    /// What this source is.
    pub fn facts(&self) -> (facts: &Facts)
        ensures
            facts@ == self@.facts,
    {
        &self.facts
    }

    /// The source's name.
    pub fn name(&self) -> (name: &str)
        ensures
            name@ == self@.facts.name,
    {
        self.facts.name.as_str()
    }

    /// Whether it may assert memberships outside a principal's domain.
    pub fn may_assert_foreign_memberships(&self) -> (yes: bool)
        ensures
            yes == self@.facts.may_assert_foreign_memberships,
    {
        self.facts.may_assert_foreign_memberships
    }

    /// The domain this source is authoritative for.
    pub fn domain(&self) -> (domain: &Sid)
        ensures
            domain@ == self@.facts.domain,
    {
        &self.facts.domain
    }

    /// What this source declared it can answer.
    pub fn capabilities(&self) -> (capabilities: Capabilities)
        ensures
            capabilities == self@.facts.capabilities,
    {
        self.facts.capabilities
    }

    /// Where this source sits in the resolution order.
    pub fn search_order(&self) -> (order: u32)
        ensures
            order == self@.facts.search_order,
    {
        self.facts.search_order
    }

    /// The Unix ID range this source's numbers are rebased into.
    pub fn unix_id_range(&self) -> (range: Option<Range>)
        ensures
            range == self@.facts.unix_id_range,
    {
        self.facts.unix_id_range
    }

    /// Whether its connection still stands.
    pub fn is_live(&self) -> (yes: bool)
        ensures
            yes == self@.live,
    {
        self.live
    }

    /// How many conversations are in flight.
    pub fn in_flight(&self) -> (count: usize)
        ensures
            count == self@.open.len(),
    {
        self.conversations.len()
    }

    /// Begin a conversation with this source.
    ///
    /// `None` if the source has gone away or is already at its conversation
    /// ceiling.
    pub fn open(&mut self) -> (conversation: Option<Conversation>)
        ensures
            final(self)@ == old(self)@.after_open(),
            conversation is Some <==> old(self)@.opens() is Some,
            conversation matches Some(c) ==> Some(c.ident()) == old(self)@.opens() && !c.ended(),
    {
        proof {
            use_type_invariant(&*self);
        }
        if !self.live || self.next_conversation == u64::MAX {
            return None;
        }
        let id: u64 = self.next_conversation;
        if self.conversations.len() >= MAX_CONVERSATIONS_PER_SOURCE {
            self.next_conversation = id + 1;
            return None;
        }
        let mut conversations: Vec<u64> = Vec::new();
        std::mem::swap(&mut conversations, &mut self.conversations);
        let ghost before = conversations@;
        conversations.push(id);
        proof {
            assert forall|i: int, j: int|
                0 <= i < conversations@.len() && 0 <= j < conversations@.len() && i
                    != j implies conversations@[i] != conversations@[j] by {
                if i < before.len() {
                    assert(before[i] < id);
                }
                if j < before.len() {
                    assert(before[j] < id);
                }
            }
        }
        self.next_conversation = id + 1;
        self.conversations = conversations;
        Some(Conversation { id, terminated: false })
    }

    /// Forget a conversation.
    pub fn close_conversation(&mut self, id: u64)
        ensures
            final(self)@ == old(self)@.after_close(id),
    {
        proof {
            use_type_invariant(&*self);
        }
        let mut kept: Vec<u64> = Vec::new();
        let mut i: usize = 0;
        let ghost all = self.conversations@;
        assert(all.take(0) =~= Seq::empty());
        while i < self.conversations.len()
            invariant
                i <= self.conversations@.len(),
                all == self.conversations@,
                self@ == old(self)@,
                kept@ == without(all.take(i as int), id),
            decreases self.conversations@.len() - i,
        {
            let one: u64 = self.conversations[i];
            proof {
                assert(all.take(i + 1).drop_last() =~= all.take(i as int));
                assert(all.take(i + 1).last() == one);
            }
            if one != id {
                kept.push(one);
            }
            i += 1;
        }
        proof {
            assert(all.take(i as int) =~= all);
            lemma_without(all, id);
            assert forall|j: int| 0 <= j < kept@.len() implies CONVERSATION_CONTROL
                < #[trigger] kept@[j] < self@.next by {
                assert(without(all, id).contains(kept@[j]));
                let k = choose|k: int| 0 <= k < all.len() && all[k] == kept@[j];
                assert(all[k] < self@.next);
            }
        }
        self.conversations = kept;
    }

    /// Mark the source gone. Every conversation with it is over: one that waits
    /// is woken rather than left to time out.
    pub fn shut_down(&mut self)
        ensures
            final(self)@ == old(self)@.gone(),
    {
        proof {
            use_type_invariant(&*self);
        }
        self.conversations = Vec::new();
        self.live = false;
        assert(self@.open =~= Seq::empty());
    }

    /// Decide what becomes of a message, and take the connection down with a
    /// fatal one.
    pub fn deliver(&mut self, id: u64) -> (decided: Delivery)
        ensures
            decided == delivery(old(self)@, id),
            final(self)@ == (if decided == Delivery::Fatal {
                old(self)@.gone()
            } else {
                old(self)@
            }),
    {
        if id == CONVERSATION_CONTROL {
            self.shut_down();
            return Delivery::Fatal;
        }
        let mut i: usize = 0;
        while i < self.conversations.len()
            invariant
                i <= self.conversations@.len(),
                self@ == old(self)@,
                id != CONVERSATION_CONTROL,
                forall|j: int| 0 <= j < i ==> self@.open[j] != id,
            decreases self.conversations@.len() - i,
        {
            if self.conversations[i] == id {
                assert(self@.open[i as int] == id);
                return Delivery::Delivered;
            }
            i += 1;
        }
        Delivery::Unknown
    }
}

/// Conversation ids are never the reserved one, and a source never has two
/// conversations of one id: what opening gives is not in use.
pub proof fn law_conversation_ids_are_fresh(source: SourceModel)
    requires
        source.valid(),
        source.opens() is Some,
    ensures
        source.opens()->0 != CONVERSATION_CONTROL,
        !source.open.contains(source.opens()->0),
        source.after_open().valid(),
        source.after_open().opens() matches Some(next) ==> next != source.opens()->0,
{
    let id = source.next;
    if source.open.contains(id) {
        let j = choose|j: int| 0 <= j < source.open.len() && source.open[j] == id;
        assert(source.open[j] < id);
    }
    let after = source.after_open();
    assert forall|i: int, j: int|
        0 <= i < after.open.len() && 0 <= j < after.open.len() && i != j implies after.open[i]
        != after.open[j] by {
        if i < source.open.len() {
            assert(source.open[i] < id);
        }
        if j < source.open.len() {
            assert(source.open[j] < id);
        }
    }
}

/// A source that has gone away opens no conversation and delivers to none.
pub proof fn law_a_dead_source_answers_nothing(source: SourceModel, id: u64)
    ensures
        source.gone().opens() is None,
        source.gone().after_open() == source.gone(),
        delivery(source.gone(), id) != Delivery::Delivered,
{
}

/// Opening and then closing a conversation gives its slot back.
pub proof fn law_closing_frees_the_slot(source: SourceModel)
    requires
        source.valid(),
        source.opens() is Some,
    ensures
        source.after_open().after_close(source.opens()->0).open == source.open,
{
    let id = source.next;
    let open = source.open.push(id);
    assert(open.drop_last() =~= source.open);
    lemma_without_absent(source.open, id);
}

proof fn lemma_without_absent(open: Seq<u64>, id: u64)
    requires
        forall|i: int| 0 <= i < open.len() ==> #[trigger] open[i] < id,
    ensures
        without(open, id) == open,
    decreases open.len(),
{
    if open.len() > 0 {
        assert(open[open.len() - 1] < id);
        assert forall|i: int| 0 <= i < open.len() - 1 implies #[trigger] open.drop_last()[i]
            < id by {
            assert(open[i] < id);
        }
        lemma_without_absent(open.drop_last(), id);
        assert(open.drop_last().push(open.last()) =~= open);
    } else {
        assert(without(open, id) =~= open);
    }
}

/// What a source says as it registers.
#[derive(Debug, PartialEq, Eq)]
pub struct Register {
    /// What it calls itself.
    pub source_name: String,
    /// The domain it says it is authoritative for.
    pub domain: Vec<u8>,
    pub capabilities: Capabilities,
}

/// Whether a declared domain is one this source may have.
pub open spec fn domain_verified(declared: Seq<u8>, entry: EntryModel) -> bool {
    &&& crate::sid::is_sid(declared)
    &&& domain::claimable(crate::sid::decoded(declared))
    &&& entry.pinned_domain matches Some(pinned) ==> pinned == crate::sid::decoded(declared)
}

/// Check the domain a source declared, as far as it can be checked without the
/// other sources.
///
/// A source that declares none is refused: there would be no domain to confine
/// its assertions to. The shape is what excludes BUILTIN, the well-known NT
/// range, and every other namespace nobody may claim, by construction rather
/// than by a list. And where an administrator pinned a domain, it must be that
/// one.
///
/// That no other source has claimed the same domain, and that this source has
/// not previously claimed a different one, needs the registry.
pub fn verify_domain(declared: &[u8], entry: &SourceEntry) -> (verified: Option<Sid>)
    ensures
        verified is Some <==> domain_verified(declared@, entry@),
        verified matches Some(sid) ==> sid@ == crate::sid::decoded(declared@),
{
    let domain = match Sid::from_bytes(declared) {
        Some(domain) => domain,
        None => return None,
    };
    if !domain::is_claimable(&domain) {
        return None;
    }
    if let Some(pinned) = &entry.pinned_domain {
        if !pinned.same(&domain) {
            return None;
        }
    }
    Some(domain)
}

/// What a source that registers is, given the entry the kernel attested.
pub open spec fn registered_as(register: Register, entry: EntryModel) -> SourceModel {
    SourceModel::fresh(
        FactsModel {
            name: entry.name,
            may_assert_foreign_memberships: entry.may_assert_foreign_memberships,
            domain: crate::sid::decoded(register.domain@),
            unix_id_range: entry.unix_id_range,
            capabilities: register.capabilities,
            search_order: entry.search_order,
        },
    )
}

/// The first message of a source's connection.
#[derive(Debug, PartialEq, Eq)]
pub enum First {
    /// Nothing was read.
    Unread,
    /// Its header makes no sense.
    MalformedHeader,
    /// A message, on a conversation.
    Message {
        /// Whether it says it is a registration.
        registers: bool,
        conversation: u64,
        /// What it claims; `None` if that makes no sense.
        claim: Option<Register>,
    },
}

/// What a source's connection opens with, if it opens as one has to: with a
/// registration, on the conversation that belongs to the connection.
pub open spec fn claimed(first: First) -> Option<Register> {
    match first {
        First::Message { registers, conversation, claim } => if registers && conversation
            == CONVERSATION_CONTROL {
            claim
        } else {
            None
        },
        _ => None,
    }
}

/// Build a source from the *verified* entry.
///
/// The name in the message is a claim, cross-checked against the identity the
/// kernel attested. It contributes nothing: the entry's name is what the source
/// is called from here on. But a disagreement means a service is registering
/// under someone else's name, and that is worth refusing rather than quietly
/// correcting.
pub fn register(first: &First, entry: &SourceEntry) -> (source: Option<Source>)
    ensures
        source is Some <==> (claimed(*first) matches Some(claim) && text::same_word(
            claim.source_name@,
            entry.name@,
        ) && domain_verified(claim.domain@, entry@)),
        source matches Some(built) ==> built@ == registered_as(claimed(*first)->0, entry@),
{
    let claim = match first {
        First::Message { registers: true, conversation, claim: Some(claim) } => {
            if *conversation != CONVERSATION_CONTROL {
                return None;
            }
            claim
        },
        _ => return None,
    };
    if !text::eq_ignoring_case(claim.source_name.as_str(), entry.name.as_str()) {
        return None;
    }
    match verify_domain(claim.domain.as_slice(), entry) {
        Some(domain) => Some(
            Source::new(
                entry.name.clone(),
                entry.may_assert_foreign_memberships,
                domain,
                entry.unix_id_range,
                claim.capabilities,
                entry.search_order,
            ),
        ),
        None => None,
    }
}

/// The range a source's registration is acknowledged with. The source never
/// applies the base, but knowing it lets an administration tool show the uid a
/// principal will really project to rather than the relative number on disk.
pub fn acknowledged(range: Option<Range>) -> (told: Range)
    ensures
        told == (match range {
            Some(range) => range,
            None => Range { base: 0, count: 0 },
        }),
{
    match range {
        Some(range) => range,
        None => Range { base: 0, count: 0 },
    }
}

/// What a source says has changed.
#[derive(Debug, PartialEq, Eq)]
pub enum ChangeScope {
    All,
    Object(Vec<u8>),
}

/// What a change notification comes to.
#[derive(Debug, PartialEq, Eq)]
pub enum Invalidation {
    /// The source never said it would send any.
    Undeclared,
    /// It names bytes that are not a SID.
    NotASid,
    /// It names an object outside the source's domain.
    Foreign,
    /// Everything the source holds has changed.
    Everything,
    /// One object has.
    Object(Sid),
}

/// Act on a source's invalidation.
///
/// Nothing is held that this could discard, but it is acted on to the extent it
/// can be. Identity confinement applies to the SID of a change as much as to an
/// assertion: once a cache exists, an unchecked SID would be a source able to
/// invalidate *another* source's entries.
pub fn changed_here(facts: &Facts, changed: &ChangeScope) -> (invalidated: Invalidation)
    ensures
        !facts@.capabilities.pushes_changes <==> invalidated == Invalidation::Undeclared,
        facts@.capabilities.pushes_changes ==> match *changed {
            ChangeScope::All => invalidated == Invalidation::Everything,
            ChangeScope::Object(bytes) => if !crate::sid::is_sid(bytes@) {
                invalidated == Invalidation::NotASid
            } else if !domain::within(facts@.domain, crate::sid::decoded(bytes@)) {
                invalidated == Invalidation::Foreign
            } else {
                invalidated matches Invalidation::Object(sid) && sid@ == crate::sid::decoded(bytes@)
            },
        },
{
    if !facts.capabilities.pushes_changes {
        return Invalidation::Undeclared;
    }
    match changed {
        ChangeScope::All => Invalidation::Everything,
        ChangeScope::Object(bytes) => match Sid::from_bytes(bytes.as_slice()) {
            Some(sid) => if domain::contains(&facts.domain, &sid) {
                Invalidation::Object(sid)
            } else {
                Invalidation::Foreign
            },
            None => Invalidation::NotASid,
        },
    }
}

/// What reading from a registered source came to.
#[derive(Debug, Clone, Copy, PartialEq, Eq, Structural)]
pub enum Read {
    /// The source hung up.
    Ended,
    /// Reading failed.
    Failed,
    /// A message whose header makes no sense.
    MalformedHeader,
    /// A change notification, and whether it makes sense.
    Changed { understood: bool },
    /// Any other message, the conversation it is on, and whether it is one a
    /// source sends and makes sense.
    Message { conversation: u64, understood: bool },
}

/// What to do about what was read.
#[derive(Debug, Clone, Copy, PartialEq, Eq, Structural)]
pub enum Pumped {
    /// Drop the connection.
    Stop,
    /// See what has changed. See [`changed_here`].
    Changed,
    /// Hand the message to its conversation.
    Deliver,
    /// Nobody is waiting for it.
    Ignore,
}

/// What to do about what was read, given what becomes of a message on its
/// conversation.
///
/// A message that makes no sense is fatal to the connection: where the next one
/// starts cannot be known once one has failed to parse.
pub open spec fn taken(read: Read, decided: Delivery) -> Pumped {
    match read {
        Read::Ended => Pumped::Stop,
        Read::Failed => Pumped::Stop,
        Read::MalformedHeader => Pumped::Stop,
        Read::Changed { understood } => if understood {
            Pumped::Changed
        } else {
            Pumped::Stop
        },
        Read::Message { understood, .. } => if !understood {
            Pumped::Stop
        } else {
            match decided {
                Delivery::Delivered => Pumped::Deliver,
                Delivery::Unknown => Pumped::Ignore,
                Delivery::Fatal => Pumped::Stop,
            }
        },
    }
}

/// What to do about what was read from a source.
pub open spec fn pumped(source: SourceModel, read: Read) -> Pumped {
    taken(
        read,
        match read {
            Read::Message { conversation, .. } => delivery(source, conversation),
            _ => Delivery::Unknown,
        },
    )
}

/// Whether what was read takes the source down with it.
pub open spec fn is_fatal(read: Read) -> bool {
    read matches Read::Message { conversation, understood } && understood && conversation
        == CONVERSATION_CONTROL
}

/// When a conversation is opened: the source is here, fewer than 256 are in flight,
/// and there is an id left; and then its id is the next one, it is in flight after
/// those that were, and the one after it is next.
pub proof fn law_when_a_conversation_opens(source: SourceModel)
    ensures
        source.opens() is Some <==> source.live && source.open.len() < 256 && source.next
            < u64::MAX,
        source.opens() matches Some(id) ==> {
            let after = source.after_open();
            &&& id == source.next
            &&& after.next == source.next + 1
            &&& after.open == source.open.push(id)
            &&& after.live
            &&& after.facts == source.facts
        },
        source.opens() is None ==> source.after_open().open == source.open
            && source.after_open().live == source.live && source.after_open().facts
            == source.facts,
{
}

/// An id that was passed by because too many were in flight is not given again: the
/// next one is.
pub proof fn law_a_full_table_spends_an_id(source: SourceModel)
    ensures
        source.live && source.open.len() >= 256 && source.next < u64::MAX
            ==> source.after_open().next == source.next + 1,
        !source.live || source.next == u64::MAX ==> source.after_open() == source,
{
}

/// Every conversation but one.
pub open spec fn any_but(id: u64) -> spec_fn(u64) -> bool {
    |other: u64| other != id
}

/// A conversation as it is.
pub open spec fn itself() -> spec_fn(u64) -> u64 {
    |id: u64| id
}

/// Closing a conversation takes it out of those in flight, leaves every other one
/// there in its order, and changes nothing else of the source.
pub proof fn law_closing_ends_one_conversation(source: SourceModel, id: u64)
    ensures
        ({
            let after = source.after_close(id);
            &&& crate::select::picks(source.open, any_but(id), itself(), after.open)
            &&& after.live == source.live
            &&& after.next == source.next
            &&& after.facts == source.facts
        }),
{
    lemma_all_but(source.open, id);
}

proof fn lemma_all_but(open: Seq<u64>, id: u64)
    ensures
        crate::select::picks(open, any_but(id), itself(), without(open, id)),
    decreases open.len(),
{
    if open.len() == 0 {
        crate::select::lemma_picks_nothing(open, any_but(id), itself());
    } else {
        lemma_all_but(open.drop_last(), id);
        crate::select::lemma_picks_last(
            open,
            any_but(id),
            itself(),
            without(open.drop_last(), id),
            without(open, id),
        );
    }
}

/// What a source is when it registers, and once it has gone: it begins here with
/// nothing in flight and 1 as its first id, and once it has gone nothing is in flight
/// and it is what it was but here.
pub proof fn law_how_a_source_comes_and_goes(facts: FactsModel, source: SourceModel)
    ensures
        ({
            let (fresh, gone) = (SourceModel::fresh(facts), source.gone());
            &&& fresh.facts == facts
            &&& fresh.live
            &&& fresh.next == 1
            &&& fresh.open.len() == 0
            &&& !gone.live
            &&& gone.open.len() == 0
            &&& gone.next == source.next
            &&& gone.facts == source.facts
        }),
{
}

/// What becomes of a message: on conversation 0 it is the connection's end, on one in
/// flight it is delivered, and on any other nobody waits for it.
pub proof fn law_what_becomes_of_a_message(source: SourceModel, id: u64)
    ensures
        id == 0 <==> delivery(source, id) == Delivery::Fatal,
        delivery(source, id) == Delivery::Delivered <==> id != 0 && exists|i: int|
            0 <= i < source.open.len() && #[trigger] source.open[i] == id,
        delivery(source, id) == Delivery::Unknown <==> id != 0 && forall|i: int|
            0 <= i < source.open.len() ==> #[trigger] source.open[i] != id,
{
    if source.open.contains(id) {
        let i = choose|i: int| 0 <= i < source.open.len() && source.open[i] == id;
        assert(source.open[i] == id);
    }
}

/// What is done about what was read. A message that makes sense is handed on where it
/// is on a conversation in flight, dropped where it is on another, and the end of the
/// connection on conversation 0, where it takes the source down; a change that makes
/// sense is seen to; and the connection ends with everything else.
pub proof fn law_what_is_done_about_what_was_read(source: SourceModel, read: Read)
    ensures
        match read {
            Read::Changed { understood } => {
                &&& !is_fatal(read)
                &&& pumped(source, read) == (if understood {
                    Pumped::Changed
                } else {
                    Pumped::Stop
                })
            },
            Read::Message { conversation, understood } => {
                &&& is_fatal(read) <==> understood && conversation == 0
                &&& !understood || conversation == 0 ==> pumped(source, read) == Pumped::Stop
                &&& understood && conversation != 0 && source.open.contains(conversation)
                    ==> pumped(source, read) == Pumped::Deliver
                &&& understood && conversation != 0 && !source.open.contains(conversation)
                    ==> pumped(source, read) == Pumped::Ignore
            },
            _ => !is_fatal(read) && pumped(source, read) == Pumped::Stop,
        },
        taken(read, Delivery::Unknown) == (match read {
            Read::Changed { understood: true } => Pumped::Changed,
            Read::Message { understood: true, .. } => Pumped::Ignore,
            _ => Pumped::Stop,
        }),
{
}

/// Which domain a source may have: one spelled as a SID of four numbers after
/// authority 5, of which the first is 21, and the pinned one where one is pinned.
pub proof fn law_which_domain_a_source_may_have(declared: Seq<u8>, entry: EntryModel)
    ensures
        domain_verified(declared, entry) <==> {
            let sid = crate::sid::decoded(declared);
            &&& crate::sid::is_sid(declared)
            &&& sid.authority == 5
            &&& sid.subs.len() == 4
            &&& sid.subs[0] == 21
            &&& entry.pinned_domain is None || entry.pinned_domain == Some(sid)
        },
{
    domain::law_what_may_be_claimed(crate::sid::decoded(declared));
}

/// A source registers as its entry says, with the domain and the capabilities that it
/// declares; what it calls itself contributes nothing.
pub proof fn law_what_a_source_registers_as(register: Register, entry: EntryModel)
    ensures
        ({
            let source = registered_as(register, entry);
            &&& source.facts.name == entry.name
            &&& source.facts.may_assert_foreign_memberships == entry.may_assert_foreign_memberships
            &&& source.facts.domain == crate::sid::decoded(register.domain@)
            &&& source.facts.unix_id_range == entry.unix_id_range
            &&& source.facts.capabilities == register.capabilities
            &&& source.facts.search_order == entry.search_order
            &&& source.live
            &&& source.next == 1
            &&& source.open.len() == 0
        }),
{
}

/// A connection opens with a registration, on conversation 0, or with nothing.
pub proof fn law_how_a_connection_opens(first: First)
    ensures
        match first {
            First::Message { registers, conversation, claim } => {
                &&& registers && conversation == 0 ==> claimed(first) == claim
                &&& !registers || conversation != 0 ==> claimed(first) is None
            },
            _ => claimed(first) is None,
        },
{
}

/// What a source is, is its name, its flag, its domain, its range, its capabilities and its
/// order.
pub proof fn law_what_a_source_is_is_its_parts(facts: Facts)
    ensures
        facts@.name == facts.name@,
        facts@.may_assert_foreign_memberships == facts.may_assert_foreign_memberships,
        facts@.domain == facts.domain@,
        facts@.unix_id_range == facts.unix_id_range,
        facts@.capabilities == facts.capabilities,
        facts@.search_order == facts.search_order,
{
}

} // verus!
