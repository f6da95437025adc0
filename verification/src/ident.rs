//! Answering who a SID, a name or a number is.
//!
//! One connection carries as many independent requests as a caller cares to
//! send. There is no conversation here and no state between requests: a lookup
//! is a question and an answer, and the connection is a pipe for them.
//!
//! It is a socket of its own for **admission**: listing a large directory is
//! thousands of lookups, where logons are a handful per boot, so on a shared
//! socket an ordinary directory walk could fill the queue an administrator needs
//! in order to sign in.

use crate::identity::{Fields, Key, Kind, Outcome, Protocol, Record, RecordModel};
use crate::resolve::{self, Answer, Page};
use vstd::prelude::*;

verus! {

/// How long a connection may sit between requests before it is reclaimed, in
/// seconds.
///
/// A name resolver linked into every process on the system will open a
/// connection, ask, and often never speak again. Without this they accumulate.
pub const IDLE_TIMEOUT: u64 = 60;

/// How long a reply may block, in seconds.
pub const WRITE_TIMEOUT: u64 = 10;

/// How many requests one connection may make before it is closed.
///
/// Not a rate limit: a bound on how long one caller may hold a thread.
/// Reconnecting is cheap and a resolver does it without noticing.
pub const MAX_REQUESTS_PER_CONNECTION: usize = 100_000;

/// Whether a connection that has been served some requests may make another.
pub fn may_ask_again(served: usize) -> (yes: bool)
    ensures
        yes <==> served < MAX_REQUESTS_PER_CONNECTION,
{
    served < MAX_REQUESTS_PER_CONNECTION
}

/// A request to look one object up.
#[derive(Debug, PartialEq, Eq)]
pub struct Lookup {
    /// What the reply comes back under.
    pub tag: u32,
    pub key: Key,
    pub kind: Kind,
    pub fields: Fields,
}

/// A request for a page of objects.
#[derive(Debug, PartialEq, Eq)]
pub struct Enumerate {
    /// What the reply comes back under.
    pub tag: u32,
    pub kind: Kind,
    pub fields: Fields,
    /// The group whose members are wanted, if it is the members of one.
    pub of: Option<Key>,
    pub cursor: Vec<u8>,
}

/// What reading a request came to.
#[derive(Debug, PartialEq, Eq)]
pub enum Received {
    /// Nothing was read: the ordinary end of a connection.
    Nothing,
    /// Its header makes no sense, so where the next message begins is unknown.
    MalformedHeader,
    /// It says it is a lookup; `None` if the rest makes no sense.
    Lookup(Option<Lookup>),
    /// It says it is an enumeration; `None` if the rest makes no sense.
    Enumerate(Option<Enumerate>),
    /// It is some other message.
    Unserved,
}

/// The answer to a lookup.
#[derive(Debug, PartialEq, Eq)]
pub struct LookupReply {
    pub tag: u32,
    pub outcome: Outcome,
    pub record: Option<Record>,
}

/// The answer to an enumeration.
#[derive(Debug, PartialEq, Eq)]
pub struct EnumerateReply {
    pub tag: u32,
    pub outcome: Outcome,
    pub entries: Vec<Record>,
    pub next: Vec<u8>,
    pub incomplete: Vec<String>,
}

/// The answer to an enumeration, mathematically.
#[verifier::ext_equal]
pub struct EnumerateReplyModel {
    pub tag: u32,
    pub outcome: Outcome,
    pub entries: Seq<RecordModel>,
    pub next: Seq<u8>,
    pub incomplete: Seq<Seq<char>>,
}

impl View for EnumerateReply {
    type V = EnumerateReplyModel;

    open spec fn view(&self) -> EnumerateReplyModel {
        EnumerateReplyModel {
            tag: self.tag,
            outcome: self.outcome,
            entries: crate::identity::record_models(self.entries@),
            next: self.next@,
            incomplete: resolve::enumeration::spelled(self.incomplete@),
        }
    }
}

/// An enumeration that is refused.
pub open spec fn refused(tag: u32, outcome: Outcome) -> EnumerateReplyModel {
    EnumerateReplyModel {
        tag,
        outcome,
        entries: Seq::empty(),
        next: Seq::empty(),
        incomplete: Seq::empty(),
    }
}

/// What to do with a request.
#[derive(Debug, PartialEq, Eq)]
pub enum Serving {
    /// Close the connection.
    Close,
    /// Look the object up.
    Lookup(Lookup),
    /// Answer without looking anything up.
    ReplyLookup(LookupReply),
    /// Walk everything.
    Enumerate(Enumerate),
    /// Walk the members of one group.
    Members(Enumerate, Key),
    /// Answer without walking anything.
    ReplyEnumerate(EnumerateReply),
}

/// Refuse an enumeration.
fn refuse(tag: u32, outcome: Outcome) -> (reply: EnumerateReply)
    ensures
        reply@ == refused(tag, outcome),
{
    let reply = EnumerateReply {
        tag,
        outcome,
        entries: Vec::new(),
        next: Vec::new(),
        incomplete: Vec::new(),
    };
    assert(reply@ =~= refused(tag, outcome));
    reply
}

/// Whether this is what is to be done with a request.
pub open spec fn served_as(received: Received, serving: Serving) -> bool {
    match received {
        Received::Nothing => serving is Close,
        Received::MalformedHeader => serving is Close,
        Received::Unserved => serving is Close,
        Received::Lookup(None) => serving == Serving::ReplyLookup(
            LookupReply { tag: 0, outcome: Outcome::Malformed, record: None },
        ),
        Received::Lookup(Some(request)) => serving == Serving::Lookup(request),
        Received::Enumerate(None) => serving matches Serving::ReplyEnumerate(reply) && reply@
            == refused(0, Outcome::Malformed),
        Received::Enumerate(Some(request)) => if request.kind is Any {
            serving matches Serving::ReplyEnumerate(reply) && reply@ == refused(
                request.tag,
                Outcome::Malformed,
            )
        } else {
            match request.of {
                Some(group) => serving matches Serving::Members(rest, key) && key == group
                    && rest.tag == request.tag && rest.kind == request.kind && rest.fields
                    == request.fields && rest.cursor == request.cursor && rest.of is None,
                None => serving == Serving::Enumerate(request),
            }
        },
    }
}

/// Decide what to do with a request.
///
/// A request that makes no sense has no tag to answer under, so it is answered
/// under none. A message of another protocol closes the connection: a peer
/// connected to the wrong socket learns so from that instead of misreading a
/// structure several fields in. A caller filling a table of principals or of
/// groups wants one or the other, so enumerating anything at all is refused.
pub fn serve(received: Received) -> (serving: Serving)
    ensures
        served_as(received, serving),
{
    match received {
        Received::Nothing => Serving::Close,
        Received::MalformedHeader => Serving::Close,
        Received::Unserved => Serving::Close,
        Received::Lookup(None) => Serving::ReplyLookup(
            LookupReply { tag: 0, outcome: Outcome::Malformed, record: None },
        ),
        Received::Lookup(Some(request)) => Serving::Lookup(request),
        Received::Enumerate(None) => Serving::ReplyEnumerate(refuse(0, Outcome::Malformed)),
        Received::Enumerate(Some(request)) => {
            if let Kind::Any = request.kind {
                return Serving::ReplyEnumerate(refuse(request.tag, Outcome::Malformed));
            }
            match request.of {
                Some(group) => Serving::Members(
                    Enumerate {
                        tag: request.tag,
                        kind: request.kind,
                        fields: request.fields,
                        of: None,
                        cursor: request.cursor,
                    },
                    group,
                ),
                None => Serving::Enumerate(
                    Enumerate {
                        tag: request.tag,
                        kind: request.kind,
                        fields: request.fields,
                        of: None,
                        cursor: request.cursor,
                    },
                ),
            }
        },
    }
}

/// Reply to a lookup.
pub fn lookup(tag: u32, answer: Answer) -> (reply: LookupReply)
    ensures
        reply == (LookupReply { tag, outcome: answer.outcome, record: answer.record }),
{
    LookupReply { tag, outcome: answer.outcome, record: answer.record }
}

/// The reply to an enumeration.
///
/// The well-known principals belong to no source, so they appear in no source's
/// enumeration and are added to a walk of everything, on the first page only: a
/// caller walking a cursor would otherwise see them again with every page.
pub open spec fn replied(
    request: Enumerate,
    members: bool,
    page: Result<Page, Outcome>,
    protocol: Protocol,
) -> EnumerateReplyModel {
    match page {
        Err(outcome) => refused(request.tag, outcome),
        Ok(page) => EnumerateReplyModel {
            tag: request.tag,
            outcome: Outcome::Found,
            entries: if !members && request.cursor@.len() == 0 {
                resolve::listed(
                    request.kind,
                    resolve::meant(request.fields, protocol),
                    protocol.known,
                ) + page@.entries
            } else {
                page@.entries
            },
            next: page@.next,
            incomplete: page@.incomplete,
        },
    }
}

/// Reply to an enumeration, given the page it came to and whether it is of one
/// group's members.
pub fn enumerate(
    request: &Enumerate,
    members: bool,
    page: Result<Page, Outcome>,
    protocol: Protocol,
) -> (reply: EnumerateReply)
    ensures
        reply@ == replied(*request, members, page, protocol),
{
    let page = match page {
        Ok(page) => page,
        Err(outcome) => return refuse(request.tag, outcome),
    };
    let ghost rest = page@.entries;
    let mut entries = page.entries;
    if !members && request.cursor.len() == 0 {
        let mut first = resolve::well_known_page(request.kind, request.fields, protocol);
        let ghost start = crate::identity::record_models(first@);
        first.append(&mut entries);
        assert(crate::identity::record_models(first@) =~= start + rest);
        entries = first;
    }
    EnumerateReply {
        tag: request.tag,
        outcome: Outcome::Found,
        entries,
        next: page.next,
        incomplete: page.incomplete,
    }
}

/// What is done with a request. A lookup and an enumeration are what was asked for,
/// the members of a group where a group is named; one that makes no sense is answered
/// as malformed, under tag 0 where its own cannot be read; and whatever else arrives
/// closes the connection.
pub proof fn law_what_is_done_with_a_request(received: Received, serving: Serving)
    requires
        served_as(received, serving),
    ensures
        match received {
            Received::Lookup(Some(request)) => serving == Serving::Lookup(request),
            Received::Lookup(None) => serving matches Serving::ReplyLookup(reply) && reply.tag == 0
                && reply.outcome is Malformed && reply.record is None,
            Received::Enumerate(None) => serving matches Serving::ReplyEnumerate(reply) && reply.tag
                == 0 && reply.outcome is Malformed && reply.entries@.len() == 0
                && reply.next@.len() == 0 && reply.incomplete@.len() == 0,
            Received::Enumerate(Some(request)) => {
                &&& request.kind is Any ==> (serving matches Serving::ReplyEnumerate(reply)
                    && reply.tag == request.tag && reply.outcome is Malformed && reply.entries@.len()
                    == 0 && reply.next@.len() == 0 && reply.incomplete@.len() == 0)
                &&& !(request.kind is Any) && request.of is None ==> serving == Serving::Enumerate(
                    request,
                )
                &&& !(request.kind is Any) && request.of is Some ==> (
                serving matches Serving::Members(rest, group) && Some(group) == request.of
                    && rest.tag == request.tag && rest.kind == request.kind && rest.fields
                    == request.fields && rest.cursor@ == request.cursor@)
            },
            _ => serving is Close,
        },
{
    if let Serving::ReplyEnumerate(reply) = serving {
        assert(reply@.entries.len() == reply.entries@.len());
        assert(reply@.incomplete.len() == reply.incomplete@.len());
    }
}

/// What a page is replied with: its own tag, that it was found, the page's records,
/// where the next one begins, and who is missing, as the page has them. The well-known
/// groups come first on the first page of everything, and on no other; and where there
/// is no page the reply says why and nothing else.
pub proof fn law_what_a_page_is_replied_with(
    request: Enumerate,
    members: bool,
    page: Result<Page, Outcome>,
    protocol: Protocol,
    i: int,
)
    ensures
        ({
            let reply = replied(request, members, page, protocol);
            let first = resolve::listed(
                request.kind,
                Fields { bits: request.fields.bits & protocol.known.bits },
                protocol.known,
            );
            &&& reply.tag == request.tag
            &&& match page {
                Err(outcome) => {
                    &&& reply.outcome == outcome
                    &&& reply.entries.len() == 0
                    &&& reply.next.len() == 0
                    &&& reply.incomplete.len() == 0
                },
                Ok(page) => {
                    &&& reply.outcome is Found
                    &&& reply.next == page.next@
                    &&& reply.incomplete.len() == page.incomplete@.len()
                    &&& 0 <= i < page.incomplete@.len() ==> reply.incomplete[i]
                        == page.incomplete@[i]@
                    &&& members || request.cursor@.len() > 0 ==> {
                        &&& reply.entries.len() == page.entries@.len()
                        &&& 0 <= i < page.entries@.len() ==> reply.entries[i] == page.entries@[i]@
                    }
                    &&& !members && request.cursor@.len() == 0 ==> {
                        &&& reply.entries.len() == first.len() + page.entries@.len()
                        &&& 0 <= i < first.len() ==> reply.entries[i] == first[i]
                        &&& 0 <= i < page.entries@.len() ==> reply.entries[first.len() + i]
                            == page.entries@[i]@
                    }
                },
            }
        }),
{
}

} // verus!
