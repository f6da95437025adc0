//! The resolver: one place that turns a name, a SID or a POSIX identifier into
//! a principal.
//!
//! Every path that needs to know who somebody is comes through here. That is the
//! point of it existing rather than each caller doing its own.
//!
//! # Why the authority, and only the authority
//!
//! A source counts POSIX identifiers relative to a range whose base it must not
//! apply. The authority adds the base. So the arithmetic that made a number
//! absolute exists in exactly one place, and only that place can invert it.
//!
//! # Why one resolver rather than one per caller
//!
//! A bare name may exist in more than one source, and which wins is a property
//! of the machine rather than of any source in it. If two components resolved
//! separately they could disagree, and a program acting on one principal's
//! behalf while checking another's access is a confused deputy, not a cosmetic
//! inconsistency.
//!
//! # Asking
//!
//! A lookup is a walk over sources that have to be *asked*, and asking is not
//! done here. A walk says whom to ask what; it is told what came back, and says
//! what that comes to: another question, or the answer. Nothing is cached.

use crate::domain;
use crate::identity::{
    EntryModel, Fields, Key, KeyModel, Kind, Outcome, Protocol, QueryEntry, Record, RecordModel,
    Reference, ReferenceModel, SourceKey, SourceKeyModel, Value, ValueModel, Withheld,
    WithheldReason, MEMBERS, UNIX_ID,
};
use crate::registry::{Registry, RegistryModel, Slot, SlotModel};
use crate::sid::{Sid, SidModel};
use crate::source::{Facts, FactsModel, Source, SourceModel, Stalled};
use crate::text;
use crate::unix_id;
use crate::well_known::{self, WellKnown};
use vstd::prelude::*;

pub mod enumeration;
pub mod route;

pub use enumeration::{
    enumerate, enumerate_members, make_cursor, may_ask_page, members_request, owning_group_source,
    split_cursor, Enumerating, Enumeration, HeardPage, MembersRequest, Owning, Ownership, Page,
};
pub use route::{route, Route, Routing, RoutingStep};

verus! {

/// How long a source has to answer a lookup, in seconds.
///
/// Shorter than a logon's budget, and deliberately: nothing is waiting on a
/// human here, and a name resolver is called synchronously from every process on
/// the system. One budget for the whole request, however many sources answer it.
pub const QUERY_TIMEOUT: u64 = 5;

/// What a lookup produced.
#[derive(Debug, PartialEq, Eq)]
pub struct Answer {
    pub outcome: Outcome,
    pub record: Option<Record>,
}

/// What a lookup produced, mathematically.
pub struct AnswerModel {
    pub outcome: Outcome,
    pub record: Option<RecordModel>,
}

impl View for Answer {
    type V = AnswerModel;

    open spec fn view(&self) -> AnswerModel {
        AnswerModel {
            outcome: self.outcome,
            record: match self.record {
                Some(record) => Some(record@),
                None => None,
            },
        }
    }
}

/// An answer that is an outcome alone.
pub open spec fn just(outcome: Outcome) -> AnswerModel {
    AnswerModel { outcome, record: None }
}

impl Answer {
    /// An answer that is an outcome alone.
    fn of(outcome: Outcome) -> (answer: Answer)
        ensures
            answer@ == just(outcome),
    {
        Answer { outcome, record: None }
    }
}

/// The characters no name may hold: `@`, `\`, `/`, `:` and `,`.
pub open spec fn reserved_in_name(c: char) -> bool {
    c == '@' || c == '\\' || c == '/' || c == ':' || c == ','
}

/// Whether a name could name anything: short enough, printable ASCII
/// throughout, no reserved character, and no space at either end.
pub open spec fn usable_name(name: Seq<char>, max: usize) -> bool {
    &&& 0 < name.len() <= max
    &&& forall|i: int|
        0 <= i < name.len() ==> ' ' <= #[trigger] name[i] <= '~' && !reserved_in_name(name[i])
    &&& name[0] != ' '
    &&& name[name.len() - 1] != ' '
}

/// Whether a name could name anything.
///
/// Refusing here rather than passing it on means a source is never asked about a
/// name no source is permitted to hold, and it makes `jack@local` a clean
/// refusal rather than a mysterious absence once realms exist.
pub fn name_is_usable(name: &str, protocol: Protocol) -> (yes: bool)
    ensures
        yes <==> usable_name(name@, protocol.max_name_bytes),
{
    let chars = text::chars_of(name);
    if chars.len() == 0 || chars.len() > protocol.max_name_bytes {
        return false;
    }
    let mut i: usize = 0;
    while i < chars.len()
        invariant
            i <= chars@.len(),
            chars@ == name@,
            forall|j: int|
                0 <= j < i ==> ' ' <= #[trigger] name@[j] <= '~' && !reserved_in_name(name@[j]),
        decreases chars@.len() - i,
    {
        let c = chars[i];
        if c < ' ' || c > '~' || c == '@' || c == '\\' || c == '/' || c == ':' || c == ',' {
            assert(!(' ' <= name@[i as int] <= '~' && !reserved_in_name(name@[i as int])));
            return false;
        }
        i += 1;
    }
    chars[0] != ' ' && chars[chars.len() - 1] != ' '
}

// ---------------------------------------------------------------------------
// Turning a source's answer into the authority's
// ---------------------------------------------------------------------------

/// Whether a source may name this object alongside another.
pub open spec fn permitted(
    source: FactsModel,
    subject: SidModel,
    reference: ReferenceModel,
    max: usize,
) -> bool {
    &&& crate::sid::is_sid(reference.sid)
    &&& reference.name.len() == 0 || usable_name(reference.name, max)
    &&& source.may_assert_foreign_memberships || domain::related(
        subject,
        crate::sid::decoded(reference.sid),
    )
}

/// A number, or the zero that says there is none.
pub open spec fn or_zero(number: Option<u32>) -> u32 {
    match number {
        Some(number) => number,
        None => 0,
    }
}

/// A permitted reference as the authority gives it out.
pub open spec fn rebased(source: FactsModel, reference: ReferenceModel) -> ReferenceModel {
    let sid = crate::sid::decoded(reference.sid);
    ReferenceModel {
        sid: reference.sid,
        name: if reference.name.len() == 0 {
            match well_known::identified(sid) {
                Some(entry) => entry.called(),
                None => Seq::empty(),
            }
        } else {
            reference.name
        },
        unix_id: or_zero(unix_id::numbering(source.unix_id_range, sid, reference.unix_id)),
    }
}

/// The permitted references among some, as the authority gives them out.
pub open spec fn permitted_among(
    source: FactsModel,
    subject: SidModel,
    refs: Seq<ReferenceModel>,
    max: usize,
) -> Seq<ReferenceModel>
    decreases refs.len(),
{
    if refs.len() == 0 {
        Seq::empty()
    } else {
        let rest = permitted_among(source, subject, refs.drop_last(), max);
        if permitted(source, subject, refs.last(), max) {
            rest.push(rebased(source, refs.last()))
        } else {
            rest
        }
    }
}

/// The number a source gave a principal, as the authority gives it out.
pub open spec fn principal_number(source: FactsModel, relative: u32) -> u32 {
    match source.unix_id_range {
        Some(range) => or_zero(unix_id::rebased(range, relative)),
        None => 0,
    }
}

/// An answered field as the authority gives it out, if it gives it out.
pub open spec fn given(
    source: FactsModel,
    subject: SidModel,
    value: ValueModel,
    max: usize,
) -> Option<ValueModel> {
    match value {
        ValueModel::UnixId(relative) => Some(
            ValueModel::UnixId(principal_number(source, relative)),
        ),
        ValueModel::PrimaryGroup(reference) => if permitted(source, subject, reference, max) {
            Some(ValueModel::PrimaryGroup(rebased(source, reference)))
        } else {
            None
        },
        ValueModel::Groups(refs) => Some(
            ValueModel::Groups(permitted_among(source, subject, refs, max)),
        ),
        ValueModel::Members(refs) => Some(
            ValueModel::Members(permitted_among(source, subject, refs, max)),
        ),
        other => Some(other),
    }
}

/// The answered fields the authority gives out.
pub open spec fn all_given(
    source: FactsModel,
    subject: SidModel,
    values: Seq<ValueModel>,
    max: usize,
) -> Seq<ValueModel>
    decreases values.len(),
{
    if values.len() == 0 {
        Seq::empty()
    } else {
        let rest = all_given(source, subject, values.drop_last(), max);
        match given(source, subject, values.last(), max) {
            Some(value) => rest.push(value),
            None => rest,
        }
    }
}

/// The fields withheld that were asked for.
pub open spec fn asked_for(withheld: Seq<Withheld>, fields: Fields) -> Seq<Withheld>
    decreases withheld.len(),
{
    if withheld.len() == 0 {
        Seq::empty()
    } else {
        let rest = asked_for(withheld.drop_last(), fields);
        if fields.covers(withheld.last().field) {
            rest.push(withheld.last())
        } else {
            rest
        }
    }
}

/// What a source's answer comes to.
pub open spec fn answer_for(
    source: FactsModel,
    entry: EntryModel,
    wanted: Kind,
    fields: Fields,
    protocol: Protocol,
) -> AnswerModel {
    let sid = crate::sid::decoded(entry.sid);
    if !crate::sid::is_sid(entry.sid) {
        just(Outcome::Unavailable)
    } else if !usable_name(entry.canonical_name, protocol.max_name_bytes) {
        just(Outcome::Unavailable)
    } else if entry.kind == Kind::Any {
        just(Outcome::Unavailable)
    } else if !entry.kind.answers(wanted) {
        just(Outcome::NotFound)
    } else if !domain::within(source.domain, sid) {
        just(Outcome::Unavailable)
    } else {
        AnswerModel {
            outcome: Outcome::Found,
            record: Some(
                RecordModel {
                    sid: entry.sid,
                    qualified_name: entry.canonical_name,
                    kind_found: entry.kind,
                    values: all_given(source, sid, entry.values, protocol.max_name_bytes),
                    withheld: asked_for(entry.withheld, fields),
                },
            ),
        }
    }
}

/// Rebase a reference, or give it the authority's own number where the authority
/// owns it.
///
/// A source sends zero for a group it does not number, a well-known one it is
/// merely naming a membership in. The authority's own table decides those, and
/// applying the source's base to `BUILTIN\Administrators` would land it inside
/// the source's range where it does not belong.
///
/// Zero is the protocol's only encoding of "no number for this SID": handing out
/// `nobody`'s number instead would be read as a real identifier.
fn rebase_ref(source: &Facts, reference: &Reference, sid: &Sid) -> (out: Reference)
    requires
        crate::sid::is_sid(reference@.sid),
        sid@ == crate::sid::decoded(reference@.sid),
    ensures
        out@ == rebased(source@, reference@),
{
    let number: u32 = match unix_id::number(source.unix_id_range.as_ref(), sid, reference.unix_id) {
        Some(number) => number,
        None => 0,
    };
    let name = if reference.name.as_str().unicode_len() == 0 {
        match well_known::name_of(sid) {
            Some(name) => name.to_owned(),
            None => {
                let nothing = String::new();
                assert(nothing@ =~= Seq::empty());
                nothing
            },
        }
    } else {
        reference.name.clone()
    };
    let bytes = reference.sid.clone();
    assert(bytes@ =~= reference.sid@);
    Reference { sid: bytes, name, unix_id: number }
}

/// A reference as the authority gives it out, unless the source is not permitted
/// to report it.
///
/// - Every SID in a result is validated structurally, whatever domains the
///   source may name.
/// - A name carried alongside a SID is held to the same rule as any other. An
///   empty name is not a claim.
/// - Membership scope applies to a lookup exactly as to an assertion. A
///   POSIX-shaped tool reads group membership from the name-resolution path and
///   treats it as an access-control input.
///
/// A reference that fails is dropped rather than failing the whole lookup: a
/// name lookup is not a logon, and the caller is better served by a short list.
fn permitted_ref(source: &Facts, subject: &Sid, reference: &Reference, protocol: Protocol) -> (out:
    Option<Reference>)
    ensures
        out is Some <==> permitted(source@, subject@, reference@, protocol.max_name_bytes),
        out matches Some(found) ==> found@ == rebased(source@, reference@),
{
    let sid = match Sid::from_bytes(reference.sid.as_slice()) {
        Some(sid) => sid,
        None => return None,
    };
    if reference.name.as_str().unicode_len() > 0 && !name_is_usable(
        reference.name.as_str(),
        protocol,
    ) {
        return None;
    }
    if !source.may_assert_foreign_memberships && !domain::siblings(subject, &sid) {
        return None;
    }
    Some(rebase_ref(source, reference, &sid))
}

/// The references a source is permitted to report, as the authority gives them
/// out.
pub fn permitted_refs(
    source: &Facts,
    subject: &Sid,
    refs: &[Reference],
    protocol: Protocol,
) -> (out: Vec<Reference>)
    ensures
        crate::identity::references(out@) == permitted_among(
            source@,
            subject@,
            crate::identity::references(refs@),
            protocol.max_name_bytes,
        ),
{
    let ghost all = crate::identity::references(refs@);
    let mut out: Vec<Reference> = Vec::new();
    let mut i: usize = 0;
    proof {
        assert(all.take(0) =~= Seq::empty());
        assert(crate::identity::references(out@) =~= permitted_among(
            source@,
            subject@,
            all.take(0),
            protocol.max_name_bytes,
        ));
    }
    while i < refs.len()
        invariant
            i <= refs@.len(),
            all == crate::identity::references(refs@),
            crate::identity::references(out@) == permitted_among(
                source@,
                subject@,
                all.take(i as int),
                protocol.max_name_bytes,
            ),
        decreases refs@.len() - i,
    {
        let ghost before = crate::identity::references(out@);
        proof {
            assert(all.take(i + 1).drop_last() =~= all.take(i as int));
            assert(all.take(i + 1).last() == refs@[i as int]@);
        }
        if let Some(reference) = permitted_ref(source, subject, &refs[i], protocol) {
            out.push(reference);
            assert(crate::identity::references(out@) =~= before.push(reference@));
        }
        i += 1;
    }
    assert(all.take(i as int) =~= all);
    out
}

/// One answered field as the authority gives it out.
fn give(source: &Facts, subject: &Sid, value: &Value, protocol: Protocol) -> (out: Option<Value>)
    ensures
        out is Some <==> given(source@, subject@, value@, protocol.max_name_bytes) is Some,
        out matches Some(found) ==> Some(found@) == given(
            source@,
            subject@,
            value@,
            protocol.max_name_bytes,
        ),
{
    match value {
        // Out of range, or the source has no range at all: zero says so.
        Value::UnixId(relative) => {
            let number: u32 = match source.unix_id_range {
                Some(range) => match range.rebase(*relative) {
                    Some(number) => number,
                    None => 0,
                },
                None => 0,
            };
            Some(Value::UnixId(number))
        },
        Value::PrimaryGroup(reference) => match permitted_ref(
            source,
            subject,
            reference,
            protocol,
        ) {
            Some(reference) => Some(Value::PrimaryGroup(reference)),
            None => None,
        },
        Value::Groups(refs) => Some(
            Value::Groups(permitted_refs(source, subject, refs.as_slice(), protocol)),
        ),
        Value::Members(refs) => Some(
            Value::Members(permitted_refs(source, subject, refs.as_slice(), protocol)),
        ),
        Value::Home(path) => Some(Value::Home(path.clone())),
        Value::Shell(path) => Some(Value::Shell(path.clone())),
        Value::LogonTypes(types) => Some(Value::LogonTypes(*types)),
        Value::Other(at) => Some(Value::Other(*at)),
    }
}

/// Every answered field as the authority gives it out.
fn give_all(source: &Facts, subject: &Sid, values: &Vec<Value>, protocol: Protocol) -> (out: Vec<
    Value,
>)
    ensures
        crate::identity::value_models(out@) == all_given(
            source@,
            subject@,
            crate::identity::value_models(values@),
            protocol.max_name_bytes,
        ),
{
    let ghost all = crate::identity::value_models(values@);
    let mut out: Vec<Value> = Vec::new();
    let mut i: usize = 0;
    proof {
        assert(all.take(0) =~= Seq::empty());
        assert(crate::identity::value_models(out@) =~= all_given(
            source@,
            subject@,
            all.take(0),
            protocol.max_name_bytes,
        ));
    }
    while i < values.len()
        invariant
            i <= values@.len(),
            all == crate::identity::value_models(values@),
            crate::identity::value_models(out@) == all_given(
                source@,
                subject@,
                all.take(i as int),
                protocol.max_name_bytes,
            ),
        decreases values@.len() - i,
    {
        let ghost before = crate::identity::value_models(out@);
        proof {
            assert(all.take(i + 1).drop_last() =~= all.take(i as int));
            assert(all.take(i + 1).last() == values@[i as int]@);
        }
        if let Some(value) = give(source, subject, &values[i], protocol) {
            out.push(value);
            assert(crate::identity::value_models(out@) =~= before.push(value@));
        }
        i += 1;
    }
    assert(all.take(i as int) =~= all);
    out
}

/// The fields withheld that were asked for.
fn withheld_of(withheld: &Vec<Withheld>, fields: Fields) -> (out: Vec<Withheld>)
    ensures
        out@ == asked_for(withheld@, fields),
{
    let mut out: Vec<Withheld> = Vec::new();
    let mut i: usize = 0;
    assert(withheld@.take(0) =~= Seq::empty());
    while i < withheld.len()
        invariant
            i <= withheld@.len(),
            out@ == asked_for(withheld@.take(i as int), fields),
        decreases withheld@.len() - i,
    {
        proof {
            assert(withheld@.take(i + 1).drop_last() =~= withheld@.take(i as int));
            assert(withheld@.take(i + 1).last() == withheld@[i as int]);
        }
        if fields.contains(withheld[i].field) {
            out.push(withheld[i]);
        }
        i += 1;
    }
    assert(withheld@.take(i as int) =~= withheld@);
    out
}

/// The name the authority hands out, whatever the caller asked with.
///
/// Bare: no realm syntax exists, so there is nothing to qualify a name with.
/// What the caller can always rely on is the **SID** alongside it, which is
/// unambiguous by construction.
fn qualify(canonical: &str) -> (qualified: String)
    ensures
        qualified@ == canonical@,
{
    canonical.to_owned()
}

/// Rebase, qualify and confine what a source said.
///
/// Three things happen here that a source cannot do for itself, and one that it
/// must not be trusted to have done:
///
/// - **Rebasing.** Every number a source states is relative; the base is added.
/// - **Qualification.** A source states its own spelling of a name and cannot
///   know what it is called in this machine's order.
/// - **Kind.** A request for a principal is never answered with a group, nor the
///   other way about. Users and groups have separate namespaces.
/// - **Confinement.** A SID outside the source's domain is refused, exactly as
///   in an assertion. A query is not a weaker channel than a logon.
///
/// A name that could not name anything is refused too: one carrying a newline
/// can forge a whole line in a passwd file, an audit record or a log, and that
/// cannot be prevented at the point the name is displayed.
pub fn found(
    source: &Facts,
    entry: &QueryEntry,
    wanted: Kind,
    fields: Fields,
    protocol: Protocol,
) -> (answer: Answer)
    ensures
        answer@ == answer_for(source@, entry@, wanted, fields, protocol),
{
    let sid = match Sid::from_bytes(entry.sid.as_slice()) {
        Some(sid) => sid,
        None => return Answer::of(Outcome::Unavailable),
    };
    if !name_is_usable(entry.canonical_name.as_str(), protocol) {
        return Answer::of(Outcome::Unavailable);
    }
    if entry.kind == Kind::Any {
        return Answer::of(Outcome::Unavailable);
    }
    if !entry.kind.satisfies(wanted) {
        return Answer::of(Outcome::NotFound);
    }
    if !domain::contains(&source.domain, &sid) {
        return Answer::of(Outcome::Unavailable);
    }
    let bytes = entry.sid.clone();
    assert(bytes@ =~= entry.sid@);
    Answer {
        outcome: Outcome::Found,
        record: Some(
            Record {
                sid: bytes,
                qualified_name: qualify(entry.canonical_name.as_str()),
                kind_found: entry.kind,
                values: give_all(source, &sid, &entry.values, protocol),
                withheld: withheld_of(&entry.withheld, fields),
            },
        ),
    }
}

// ---------------------------------------------------------------------------
// Well-known principals
//
// Numbered below every source's base, in the band the authority reserves for its
// own. No source is authoritative for them, so they are answered here and never
// asked about, which is also what stops two sources both claiming `Everyone`.
// ---------------------------------------------------------------------------

/// Fields nothing can be said about.
pub open spec fn all_absent(fields: Seq<u32>) -> Seq<Withheld> {
    fields.map_values(
        |bits: u32| Withheld { field: Fields { bits }, reason: WithheldReason::Absent },
    )
}

/// Whether the number is asked for.
pub open spec fn wants_number(fields: Fields) -> bool {
    fields.covers(Fields { bits: UNIX_ID })
}

/// A well-known principal as the authority describes it.
pub open spec fn well_known_record(entry: WellKnown, fields: Fields, known: Fields) -> RecordModel {
    let numbered = wants_number(fields);
    RecordModel {
        sid: entry.model().bytes(),
        qualified_name: entry.called(),
        kind_found: Kind::Group,
        values: match entry.projected() {
            Some(id) if numbered => seq![ValueModel::UnixId(id)],
            _ => Seq::empty(),
        },
        withheld: (if numbered && entry.projected() is None {
            seq![
                Withheld { field: Fields { bits: UNIX_ID }, reason: WithheldReason::Absent },
            ]
        } else {
            Seq::empty()
        }) + all_absent(
            crate::identity::singles_from((known.bits & !UNIX_ID) & fields.bits, 0),
        ),
    }
}

/// What is answered about a well-known principal.
pub open spec fn answer_about(entry: WellKnown, kind: Kind, fields: Fields, known: Fields) -> AnswerModel {
    if !Kind::Group.answers(kind) {
        just(Outcome::NotFound)
    } else {
        AnswerModel {
            outcome: Outcome::Found,
            record: Some(well_known_record(entry, fields, known)),
        }
    }
}

/// What is answered about a SID, if it is a well-known one.
///
/// Every one of these is a group. `SYSTEM` is the awkward case, being a
/// principal that services run as, but nothing looks it up as one.
///
/// A logon SID (`Interactive`, `Network` and the rest) carries no number:
/// membership is a property of a session rather than of an account. And nothing
/// records who is in these; they are stapled onto a token at derivation. Absent
/// rather than declined: declining would suggest an answer exists somewhere and
/// is being kept back.
fn well_known_answer(sid: &Sid, kind: Kind, fields: Fields, protocol: Protocol) -> (answer: Option<
    Answer,
>)
    ensures
        answer is Some <==> well_known::identified(sid@) is Some,
        answer matches Some(found) ==> found@ == answer_about(
            well_known::identified(sid@)->0,
            kind,
            fields,
            protocol.known,
        ),
{
    let name = match well_known::name_of(sid) {
        Some(name) => name,
        None => return None,
    };
    let ghost entry = well_known::identified(sid@)->0;
    assert(entry.model() == sid@) by {
        assert(exists|w: WellKnown| #[trigger] w.model() == sid@);
    }
    if !Kind::Group.satisfies(kind) {
        return Some(Answer::of(Outcome::NotFound));
    }
    let mut values: Vec<Value> = Vec::new();
    let mut withheld: Vec<Withheld> = Vec::new();
    if fields.contains(Fields { bits: UNIX_ID }) {
        match well_known::unix_id(sid) {
            Some(id) => {
                values.push(Value::UnixId(id));
            },
            None => {
                withheld.push(
                    Withheld { field: Fields { bits: UNIX_ID }, reason: WithheldReason::Absent },
                );
            },
        }
    }
    let ghost first = withheld@;
    let rest = protocol.known.difference(Fields { bits: UNIX_ID }).intersection(fields).singles();
    let ghost bits = crate::identity::singles_from(
        (protocol.known.bits & !UNIX_ID) & fields.bits,
        0,
    );
    let mut i: usize = 0;
    assert(first + all_absent(bits).take(0) =~= first);
    while i < rest.len()
        invariant
            i <= rest@.len(),
            rest@.map_values(|field: Fields| field.bits) == bits,
            withheld@ == first + all_absent(bits).take(i as int),
        decreases rest@.len() - i,
    {
        let field = rest[i];
        proof {
            assert(bits[i as int] == rest@.map_values(|field: Fields| field.bits)[i as int]);
            assert(bits[i as int] == field.bits);
            assert(all_absent(bits).take(i + 1) =~= all_absent(bits).take(i as int).push(
                Withheld { field, reason: WithheldReason::Absent },
            ));
        }
        withheld.push(Withheld { field, reason: WithheldReason::Absent });
        i += 1;
        assert(withheld@ =~= first + all_absent(bits).take(i as int));
    }
    proof {
        assert(rest@.map_values(|field: Fields| field.bits).len() == rest@.len());
        assert(all_absent(bits).take(i as int) =~= all_absent(bits));
    }
    let record = Record {
        sid: sid.to_bytes(),
        qualified_name: name.to_owned(),
        kind_found: Kind::Group,
        values,
        withheld,
    };
    proof {
        let told = well_known_record(entry, fields, protocol.known);
        assert(record@.values =~= told.values);
        assert(record@.withheld =~= told.withheld);
    }
    Some(Answer { outcome: Outcome::Found, record: Some(record) })
}

/// The well-known groups a listing holds, as the authority describes them.
pub open spec fn listed(kind: Kind, fields: Fields, known: Fields) -> Seq<RecordModel> {
    if kind == Kind::Group {
        Seq::new(
            well_known::NUMBERED as nat,
            |i: int| well_known_record(well_known::entry(i), fields, known),
        )
    } else {
        Seq::empty()
    }
}

/// The well-known principals, which belong to no source and so appear in no
/// source's enumeration.
///
/// Listed only where a caller asked for groups: every one of them that carries a
/// number is a group.
pub fn well_known_page(kind: Kind, fields: Fields, protocol: Protocol) -> (records: Vec<Record>)
    ensures
        crate::identity::record_models(records@) == listed(
            kind,
            Fields { bits: fields.bits & protocol.known.bits },
            protocol.known,
        ),
{
    let mut records: Vec<Record> = Vec::new();
    if kind != Kind::Group {
        assert(crate::identity::record_models(records@) =~= Seq::empty());
        return records;
    }
    let fields = fields.intersection(protocol.known);
    let sids = well_known::numbered();
    let mut i: usize = 0;
    while i < sids.len()
        invariant
            i <= sids@.len() == well_known::NUMBERED,
            kind == Kind::Group,
            forall|j: int|
                0 <= j < sids@.len() ==> (#[trigger] sids@[j])@ == well_known::entry(j).model(),
            records@.len() == i,
            forall|j: int|
                0 <= j < i ==> (#[trigger] records@[j])@ == well_known_record(
                    well_known::entry(j),
                    fields,
                    protocol.known,
                ),
        decreases sids@.len() - i,
    {
        proof {
            assert(sids@[i as int]@ == well_known::entry(i as int).model());
            well_known::law_every_name_round_trips(well_known::entry(i as int));
        }
        if let Some(answer) = well_known_answer(&sids[i], kind, fields, protocol) {
            if let Some(record) = answer.record {
                records.push(record);
            }
        }
        i += 1;
    }
    assert(crate::identity::record_models(records@) =~= listed(kind, fields, protocol.known));
    records
}

// ---------------------------------------------------------------------------
// Asking a source
// ---------------------------------------------------------------------------

/// What asking a source came to.
#[derive(Debug, PartialEq, Eq)]
pub enum Reply {
    Found(QueryEntry),
    NotFound,
    Refused,
    /// The source did not answer. Never a reason to try the next source in the
    /// order.
    Unavailable,
}

/// What asking a source came to, mathematically.
pub enum ReplyModel {
    Found(EntryModel),
    NotFound,
    Refused,
    Unavailable,
}

impl View for Reply {
    type V = ReplyModel;

    open spec fn view(&self) -> ReplyModel {
        match *self {
            Reply::Found(entry) => ReplyModel::Found(entry@),
            Reply::NotFound => ReplyModel::NotFound,
            Reply::Refused => ReplyModel::Refused,
            Reply::Unavailable => ReplyModel::Unavailable,
        }
    }
}

/// What happened when a source was to be asked.
#[derive(Debug, PartialEq, Eq)]
pub enum Heard {
    /// No conversation could be opened with it.
    NotOpened,
    /// The question could not be sent.
    NotSent,
    /// It answered, one result per key.
    Results(Vec<QueryEntry>),
    /// It refused.
    Refused,
    /// It said something that answers no question.
    Otherwise,
    /// It said nothing.
    Stalled(Stalled),
}

/// Whether a source may be asked a question at all.
pub open spec fn askable(source: FactsModel, time_left: bool) -> bool {
    time_left && source.capabilities.queries
}

/// Whether a source may be asked a question at all, given whether any of the
/// request's time is left.
///
/// The time bound is on the *request*, not on each source consulted for it: a
/// source reached with nothing left is unavailable without being asked, the same
/// answer its timeout would have produced.
///
/// A source that did not declare it answers queries is not asked one. It must
/// not be recorded as having answered, though: a source that was never consulted
/// is not evidence that an object does not exist.
pub fn may_ask(source: &Facts, time_left: bool) -> (yes: bool)
    ensures
        yes <==> askable(source@, time_left),
{
    time_left && source.capabilities.queries
}

/// The fields a source is asked for.
pub open spec fn gated(source: FactsModel, fields: Fields) -> Fields {
    if source.capabilities.members {
        fields
    } else {
        Fields { bits: fields.bits & !MEMBERS }
    }
}

/// The fields a source has declared it can answer.
pub fn gated_fields(source: &Facts, fields: Fields) -> (asked: Fields)
    ensures
        asked == gated(source@, fields),
{
    if source.capabilities.members {
        fields
    } else {
        fields.difference(Fields { bits: MEMBERS })
    }
}

/// What was heard, as a reply.
pub open spec fn reply_to(heard: Heard) -> ReplyModel {
    match heard {
        Heard::Results(results) => if results@.len() == 0 {
            ReplyModel::Unavailable
        } else {
            match results@[0]@.outcome {
                Outcome::Found => ReplyModel::Found(results@[0]@),
                Outcome::NotFound => ReplyModel::NotFound,
                Outcome::Refused => ReplyModel::Refused,
                _ => ReplyModel::Unavailable,
            }
        },
        Heard::Refused => ReplyModel::Refused,
        _ => ReplyModel::Unavailable,
    }
}

/// Make a reply of what was heard.
///
/// A source that answers a key with no result, or a lookup with something else,
/// has not answered.
pub fn ask(heard: Heard) -> (reply: Reply)
    ensures
        reply@ == reply_to(heard),
{
    match heard {
        Heard::Results(results) => {
            let mut results = results;
            if results.len() == 0 {
                return Reply::Unavailable;
            }
            let entry = results.remove(0);
            match entry.outcome {
                Outcome::Found => Reply::Found(entry),
                Outcome::NotFound => Reply::NotFound,
                Outcome::Refused => Reply::Refused,
                Outcome::Unavailable => Reply::Unavailable,
                Outcome::Malformed => Reply::Unavailable,
            }
        },
        Heard::Refused => Reply::Refused,
        Heard::NotOpened => Reply::Unavailable,
        Heard::NotSent => Reply::Unavailable,
        Heard::Otherwise => Reply::Unavailable,
        Heard::Stalled(_) => Reply::Unavailable,
    }
}

// ---------------------------------------------------------------------------
// Walking the order
// ---------------------------------------------------------------------------

/// Somebody to ask, or somebody who should be here to be asked.
#[derive(Debug, PartialEq, Eq)]
pub enum Candidate {
    Live(Facts),
    Absent(String),
}

/// Somebody to ask, or somebody who should be here, mathematically.
pub enum CandidateModel {
    Live(FactsModel),
    Absent(Seq<char>),
}

impl View for Candidate {
    type V = CandidateModel;

    open spec fn view(&self) -> CandidateModel {
        match *self {
            Candidate::Live(facts) => CandidateModel::Live(facts@),
            Candidate::Absent(name) => CandidateModel::Absent(name@),
        }
    }
}

impl Candidate {
    /// What a source that is here is.
    fn facts(&self) -> (facts: Option<&Facts>)
        ensures
            facts is Some <==> self is Live,
            facts matches Some(found) ==> self@ == CandidateModel::Live(found@),
    {
        match self {
            Candidate::Live(facts) => Some(facts),
            Candidate::Absent(_) => None,
        }
    }
}

/// Candidates as values.
pub open spec fn candidate_models(of: Seq<Candidate>) -> Seq<CandidateModel> {
    of.map_values(|candidate: Candidate| candidate@)
}

/// The candidates a search order gives.
pub open spec fn candidates_of(slots: Seq<SlotModel>) -> Seq<CandidateModel> {
    slots.map_values(
        |slot: SlotModel|
            match slot {
                SlotModel::Live(source) => CandidateModel::Live(source.facts),
                SlotModel::Absent(entry) => CandidateModel::Absent(entry.name),
            },
    )
}

/// The candidates a search order gives.
fn candidates(slots: &Vec<Slot<'_>>) -> (out: Vec<Candidate>)
    ensures
        candidate_models(out@) == candidates_of(crate::registry::slot_models(slots@)),
{
    let mut out: Vec<Candidate> = Vec::new();
    let ghost all = candidates_of(crate::registry::slot_models(slots@));
    let mut i: usize = 0;
    while i < slots.len()
        invariant
            i <= slots@.len(),
            all == candidates_of(crate::registry::slot_models(slots@)),
            out@.len() == i,
            forall|j: int| 0 <= j < i ==> (#[trigger] out@[j])@ == all[j],
        decreases slots@.len() - i,
    {
        match slots[i] {
            Slot::Live(source) => {
                out.push(Candidate::Live(source.facts().clone()));
            },
            Slot::Absent(entry) => {
                out.push(Candidate::Absent(entry.name.clone()));
            },
        }
        i += 1;
    }
    assert(candidate_models(out@) =~= all);
    out
}

/// A walk over candidates that is waiting for one of them to answer.
pub struct Walk {
    candidates: Vec<Candidate>,
    at: usize,
}

/// A walk, mathematically.
pub struct WalkModel {
    pub candidates: Seq<CandidateModel>,
    pub at: int,
}

impl View for Walk {
    type V = WalkModel;

    closed spec fn view(&self) -> WalkModel {
        WalkModel { candidates: candidate_models(self.candidates@), at: self.at as int }
    }
}

/// Where a walk stands.
pub enum Walked {
    /// Somebody is to be asked.
    Ask(Walk),
    /// Everybody was asked.
    Exhausted,
    /// Somebody who would have to be asked is not here. Everything behind them
    /// is unreachable: a name a later source holds is a *different* principal,
    /// so answering from there would resolve it to a SID this machine does not
    /// give when it is healthy.
    Blocked,
}

/// Where a walk stands, mathematically.
pub enum WalkedModel {
    Ask(WalkModel),
    Exhausted,
    Blocked,
}

impl View for Walked {
    type V = WalkedModel;

    open spec fn view(&self) -> WalkedModel {
        match *self {
            Walked::Ask(walk) => WalkedModel::Ask(walk@),
            Walked::Exhausted => WalkedModel::Exhausted,
            Walked::Blocked => WalkedModel::Blocked,
        }
    }
}

/// Where a walk stands once everybody before a place has passed.
pub open spec fn walked(candidates: Seq<CandidateModel>, at: int) -> WalkedModel {
    if at >= candidates.len() {
        WalkedModel::Exhausted
    } else {
        match candidates[at] {
            CandidateModel::Live(_) => WalkedModel::Ask(WalkModel { candidates, at }),
            CandidateModel::Absent(_) => WalkedModel::Blocked,
        }
    }
}

impl Walk {
    #[verifier::type_invariant]
    spec fn waiting(self) -> bool {
        self.at < self.candidates@.len() && self.candidates@[self.at as int] is Live
    }

    /// Walk on from a place.
    fn from(candidates: Vec<Candidate>, at: usize) -> (stands: Walked)
        requires
            at <= candidates@.len(),
        ensures
            stands@ == walked(candidate_models(candidates@), at as int),
    {
        if at >= candidates.len() {
            return Walked::Exhausted;
        }
        assert(candidate_models(candidates@)[at as int] == candidates@[at as int]@);
        match &candidates[at] {
            Candidate::Live(_) => {},
            Candidate::Absent(_) => {
                return Walked::Blocked;
            },
        }
        Walked::Ask(Walk { candidates, at })
    }

    /// Whom to ask.
    pub fn source(&self) -> (source: &Facts)
        ensures
            0 <= self@.at < self@.candidates.len(),
            self@.candidates[self@.at] == CandidateModel::Live(source@),
    {
        proof {
            use_type_invariant(self);
            assert(self@.candidates[self@.at] == self.candidates@[self.at as int]@);
        }
        self.candidates[self.at].facts().unwrap()
    }

    /// Walk on: the source that was asked holds no such object.
    fn passed(self) -> (stands: Walked)
        ensures
            stands@ == walked(self@.candidates, self@.at + 1),
    {
        proof {
            use_type_invariant(&self);
        }
        let count: usize = self.candidates.len();
        assert(self.at < count);
        Walk::from(self.candidates, self.at + 1)
    }
}

// ---------------------------------------------------------------------------
// Lookup
// ---------------------------------------------------------------------------

/// A lookup that is waiting for a source to answer.
pub struct Lookup {
    walk: Walk,
    key: SourceKey,
    kind: Kind,
    fields: Fields,
    protocol: Protocol,
}

/// What is asked of whoever a walk comes to.
pub struct Question {
    pub key: SourceKeyModel,
    pub kind: Kind,
    pub fields: Fields,
    pub protocol: Protocol,
}

/// Where a lookup stands.
pub enum Step {
    Ask(Lookup),
    Done(Answer),
}

/// Where a lookup stands, mathematically.
pub enum StepModel {
    Ask(WalkModel, Question),
    Done(AnswerModel),
}

impl View for Lookup {
    type V = (WalkModel, Question);

    closed spec fn view(&self) -> (WalkModel, Question) {
        (
            self.walk@,
            Question {
                key: self.key@,
                kind: self.kind,
                fields: self.fields,
                protocol: self.protocol,
            },
        )
    }
}

impl View for Step {
    type V = StepModel;

    open spec fn view(&self) -> StepModel {
        match *self {
            Step::Ask(lookup) => StepModel::Ask(lookup@.0, lookup@.1),
            Step::Done(answer) => StepModel::Done(answer@),
        }
    }
}

/// Where a lookup stands, given where its walk does. Nobody left to ask is an
/// absence; somebody who could not be asked is not.
pub open spec fn settled(stands: WalkedModel, question: Question) -> StepModel {
    match stands {
        WalkedModel::Ask(walk) => StepModel::Ask(walk, question),
        WalkedModel::Exhausted => StepModel::Done(just(Outcome::NotFound)),
        WalkedModel::Blocked => StepModel::Done(just(Outcome::Unavailable)),
    }
}

/// Where a lookup stands once the source it waits for has replied.
///
/// Two rules do the work, and both are about *not* falling through:
///
/// - A source that refuses ends the search. It may hold the object and declined
///   to describe it; consulting the next source would hand back a *different*
///   principal that happens to share the name.
/// - A source that could not be reached makes the whole answer `Unavailable`,
///   even if a later source holds a matching name.
pub open spec fn replied(walk: WalkModel, question: Question, reply: ReplyModel) -> StepModel {
    match reply {
        ReplyModel::Found(entry) => match walk.candidates[walk.at] {
            CandidateModel::Live(source) => StepModel::Done(
                answer_for(source, entry, question.kind, question.fields, question.protocol),
            ),
            CandidateModel::Absent(_) => StepModel::Done(just(Outcome::Unavailable)),
        },
        ReplyModel::NotFound => settled(walked(walk.candidates, walk.at + 1), question),
        ReplyModel::Refused => StepModel::Done(just(Outcome::Unavailable)),
        ReplyModel::Unavailable => StepModel::Done(just(Outcome::Unavailable)),
    }
}

impl Lookup {
    /// Whom to ask.
    pub fn source(&self) -> (source: &Facts)
        ensures
            0 <= self@.0.at < self@.0.candidates.len(),
            self@.0.candidates[self@.0.at] == CandidateModel::Live(source@),
    {
        self.walk.source()
    }

    /// What to ask about.
    pub fn key(&self) -> (key: &SourceKey)
        ensures
            key@ == self@.1.key,
    {
        &self.key
    }

    /// What kind of object to ask for.
    pub fn kind(&self) -> (kind: Kind)
        ensures
            kind == self@.1.kind,
    {
        self.kind
    }

    /// What to ask for: never a field gating a capability the source did not
    /// declare.
    pub fn fields(&self) -> (fields: Fields)
        ensures
            self@.0.candidates[self@.0.at] matches CandidateModel::Live(source) && fields == gated(
                source,
                self@.1.fields,
            ),
    {
        gated_fields(self.walk.source(), self.fields)
    }

    /// Where a walk leaves the lookup.
    fn stand(
        stands: Walked,
        key: SourceKey,
        kind: Kind,
        fields: Fields,
        protocol: Protocol,
    ) -> (step: Step)
        ensures
            step@ == settled(stands@, Question { key: key@, kind, fields, protocol }),
    {
        match stands {
            Walked::Ask(walk) => Step::Ask(Lookup { walk, key, kind, fields, protocol }),
            Walked::Exhausted => Step::Done(Answer::of(Outcome::NotFound)),
            Walked::Blocked => Step::Done(Answer::of(Outcome::Unavailable)),
        }
    }

    /// Go on with what the source replied.
    pub fn hear(self, reply: Reply) -> (step: Step)
        ensures
            step@ == replied(self@.0, self@.1, reply@),
    {
        match reply {
            Reply::Found(entry) => Step::Done(
                found(self.walk.source(), &entry, self.kind, self.fields, self.protocol),
            ),
            Reply::NotFound => {
                let stands = self.walk.passed();
                Lookup::stand(stands, self.key, self.kind, self.fields, self.protocol)
            },
            // A fact about the source, identical for every caller: somebody who
            // could have answered did not.
            Reply::Refused => Step::Done(Answer::of(Outcome::Unavailable)),
            Reply::Unavailable => Step::Done(Answer::of(Outcome::Unavailable)),
        }
    }
}

// ---------------------------------------------------------------------------
// Where a key leads
// ---------------------------------------------------------------------------

/// Where a key leads: to a walk over the sources that might hold it, or to an
/// outcome without asking anybody.
pub enum Start {
    Walk(Walked, SourceKey),
    Refuse(Outcome),
}

/// Where a key leads, mathematically.
pub enum StartModel {
    Walk(WalkedModel, SourceKeyModel),
    Refuse(Outcome),
}

impl View for Start {
    type V = StartModel;

    open spec fn view(&self) -> StartModel {
        match *self {
            Start::Walk(stands, key) => StartModel::Walk(stands@, key@),
            Start::Refuse(outcome) => StartModel::Refuse(outcome),
        }
    }
}

/// The one candidate a key leads straight to, or nobody.
pub open spec fn one(source: SourceModel) -> Seq<CandidateModel> {
    seq![CandidateModel::Live(source.facts)]
}

/// Where a name leads, given the search order.
pub open spec fn name_leads(slots: Seq<SlotModel>, name: Seq<char>, protocol: Protocol) -> StartModel {
    if usable_name(name, protocol.max_name_bytes) {
        StartModel::Walk(walked(candidates_of(slots), 0), SourceKeyModel::Name(name))
    } else {
        StartModel::Refuse(Outcome::Malformed)
    }
}

/// Where a SID leads, given who owns it.
///
/// With no owner registered, an absence can be told apart from an outage only
/// while every configured source is here: an unpinned source declares its domain
/// when it registers, so an absent one's is unknowable.
pub open spec fn sid_leads(
    registry: RegistryModel,
    owner: Option<SourceModel>,
    bytes: Seq<u8>,
) -> StartModel {
    if !crate::sid::is_sid(bytes) {
        StartModel::Refuse(Outcome::Malformed)
    } else {
        match owner {
            Some(source) => StartModel::Walk(walked(one(source), 0), SourceKeyModel::Sid(bytes)),
            None => if registry.whole() {
                StartModel::Refuse(Outcome::NotFound)
            } else {
                StartModel::Refuse(Outcome::Unavailable)
            },
        }
    }
}

/// Whether a number belongs to some configured source.
pub open spec fn belongs(registry: RegistryModel, number: u32) -> bool {
    exists|i: int|
        0 <= i < registry.configured.len() && crate::registry::spans(
            (#[trigger] registry.configured[i]).unix_id_range,
            number,
        )
}

/// What a source calls a number of its range.
pub open spec fn counted(source: FactsModel, id: u32) -> u32 {
    match source.unix_id_range {
        Some(range) => (id - range.base) as u32,
        None => 0,
    }
}

/// Where a number leads, given whose it is.
///
/// A range is configured rather than declared, so an absent source's is known
/// exactly, which makes this the precise answer rather than the conservative one
/// a SID has to get.
pub open spec fn number_leads(
    registry: RegistryModel,
    owner: Option<SourceModel>,
    id: u32,
) -> StartModel {
    match owner {
        Some(source) => StartModel::Walk(
            walked(one(source), 0),
            SourceKeyModel::RelativeId(counted(source.facts, id)),
        ),
        None => if belongs(registry, id) {
            StartModel::Refuse(Outcome::Unavailable)
        } else {
            StartModel::Refuse(Outcome::NotFound)
        },
    }
}

/// Where a key leads.
pub open spec fn leads(registry: RegistryModel, key: KeyModel, protocol: Protocol) -> StartModel {
    match key {
        KeyModel::Name(name) => name_leads(registry.search_order(), name, protocol),
        KeyModel::Sid(bytes) => sid_leads(
            registry,
            crate::registry::first_owning(registry.order(), crate::sid::decoded(bytes)),
            bytes,
        ),
        KeyModel::UnixId(id) => number_leads(
            registry,
            crate::registry::first_spanning(registry.order(), id),
            id,
        ),
    }
}

/// A walk of one source.
fn straight(source: &Source) -> (stands: Walked)
    ensures
        stands@ == walked(one(source@), 0),
{
    let mut only: Vec<Candidate> = Vec::new();
    only.push(Candidate::Live(source.facts().clone()));
    assert(candidate_models(only@) =~= one(source@));
    Walk::from(only, 0)
}

/// Find where a key leads.
///
/// A name is walked for in the configured order. A SID needs no search: it names
/// its own domain, and identity confinement makes at most one source
/// authoritative for it. A number is inverted, which no source can do for
/// itself.
fn lead(registry: &Registry, key: &Key, protocol: Protocol) -> (start: Start)
    ensures
        start@ == leads(registry@, key@, protocol),
{
    match key {
        Key::Name(name) => {
            let slots = registry.slots();
            if !name_is_usable(name, protocol) {
                return Start::Refuse(Outcome::Malformed);
            }
            Start::Walk(Walk::from(candidates(&slots), 0), SourceKey::Name(name.clone()))
        },
        Key::Sid(bytes) => {
            let sid = match Sid::from_bytes(bytes.as_slice()) {
                Some(sid) => sid,
                None => return Start::Refuse(Outcome::Malformed),
            };
            match registry.owning(&sid) {
                Some(source) => {
                    let own = bytes.clone();
                    assert(own@ =~= bytes@);
                    Start::Walk(straight(source), SourceKey::Sid(own))
                },
                None => if registry.complete() {
                    Start::Refuse(Outcome::NotFound)
                } else {
                    Start::Refuse(Outcome::Unavailable)
                },
            }
        },
        Key::UnixId(id) => {
            match registry.rebasing(*id) {
                Some((source, own)) => Start::Walk(straight(source), SourceKey::RelativeId(own)),
                None => match registry.configured_range(*id) {
                    Some(_) => Start::Refuse(Outcome::Unavailable),
                    None => Start::Refuse(Outcome::NotFound),
                },
            }
        },
    }
}

/// The well-known principal a key names.
///
/// No source is authoritative for one, so it is answered here and never asked
/// about, which is also what stops two sources both claiming `Everyone`.
/// Usability comes first: the names are matched trimmed, and a name with a space
/// at either end is to be refused.
pub open spec fn well_known_at(key: KeyModel, protocol: Protocol) -> Option<WellKnown> {
    match key {
        KeyModel::Name(name) => if usable_name(name, protocol.max_name_bytes) {
            well_known::named(name)
        } else {
            None
        },
        KeyModel::Sid(bytes) => if crate::sid::is_sid(bytes) {
            well_known::identified(crate::sid::decoded(bytes))
        } else {
            None
        },
        KeyModel::UnixId(id) => well_known::numbering(id),
    }
}

/// Answer about a well-known principal, if a key names one.
fn answered_here(key: &Key, kind: Kind, fields: Fields, protocol: Protocol) -> (answer: Option<
    Answer,
>)
    ensures
        answer is Some <==> well_known_at(key@, protocol) is Some,
        answer matches Some(found) ==> found@ == answer_about(
            well_known_at(key@, protocol)->0,
            kind,
            fields,
            protocol.known,
        ),
{
    let sid = match key {
        Key::Name(name) => if name_is_usable(name, protocol) {
            well_known::by_name(name)
        } else {
            None
        },
        Key::Sid(bytes) => Sid::from_bytes(bytes.as_slice()),
        Key::UnixId(id) => well_known::by_unix_id(*id),
    };
    proof {
        if well_known_at(key@, protocol) is Some {
            well_known::law_every_name_round_trips(well_known_at(key@, protocol)->0);
        }
    }
    match sid {
        Some(sid) => well_known_answer(&sid, kind, fields, protocol),
        None => None,
    }
}

/// Where a lookup begins, given where its key leads.
pub open spec fn begun(start: StartModel, kind: Kind, fields: Fields, protocol: Protocol) -> StepModel {
    match start {
        StartModel::Walk(stands, key) => settled(stands, Question { key, kind, fields, protocol }),
        StartModel::Refuse(outcome) => StepModel::Done(just(outcome)),
    }
}

/// Where a lookup begins.
pub open spec fn begins(
    registry: RegistryModel,
    key: KeyModel,
    kind: Kind,
    fields: Fields,
    protocol: Protocol,
) -> StepModel {
    match well_known_at(key, protocol) {
        Some(entry) => StepModel::Done(answer_about(entry, kind, fields, protocol.known)),
        None => begun(leads(registry, key, protocol), kind, fields, protocol),
    }
}

/// The fields of a set that the protocol has a meaning for.
pub open spec fn meant(fields: Fields, protocol: Protocol) -> Fields {
    Fields { bits: fields.bits & protocol.known.bits }
}

/// Resolve one key.
///
/// A bit the protocol gives no meaning to never reaches a source, which would
/// have to reject it.
pub fn lookup(registry: &Registry, key: &Key, kind: Kind, fields: Fields, protocol: Protocol) -> (step:
    Step)
    ensures
        step@ == begins(registry@, key@, kind, meant(fields, protocol), protocol),
{
    let asked = fields.intersection(protocol.known);
    if let Some(answer) = answered_here(key, kind, asked, protocol) {
        return Step::Done(answer);
    }
    match lead(registry, key, protocol) {
        Start::Walk(stands, own) => Lookup::stand(stands, own, kind, asked, protocol),
        Start::Refuse(outcome) => Step::Done(Answer::of(outcome)),
    }
}

// ---------------------------------------------------------------------------
// Laws
// ---------------------------------------------------------------------------

/// What a lookup comes to when each source that is asked gives the reply told
/// for its place.
pub open spec fn resolved(step: StepModel, replies: spec_fn(int) -> ReplyModel) -> StepModel
    decreases
            match step {
                StepModel::Ask(walk, _) => 1 + walk.candidates.len() - walk.at,
                StepModel::Done(_) => 0,
            },
{
    match step {
        StepModel::Ask(walk, question) => if 0 <= walk.at < walk.candidates.len() {
            let after = replied(walk, question, replies(walk.at));
            match after {
                StepModel::Ask(next, _) => if next.candidates == walk.candidates && walk.at
                    < next.at < walk.candidates.len() {
                    resolved(after, replies)
                } else {
                    after
                },
                StepModel::Done(_) => after,
            }
        } else {
            step
        },
        StepModel::Done(_) => step,
    }
}

/// Whether a candidate was asked and holds no such object.
pub open spec fn passes(candidate: CandidateModel, reply: ReplyModel) -> bool {
    candidate is Live && reply is NotFound
}

/// What the first candidate that does not pass decides.
pub open spec fn verdict(
    candidate: CandidateModel,
    reply: ReplyModel,
    question: Question,
) -> AnswerModel {
    match candidate {
        CandidateModel::Absent(_) => just(Outcome::Unavailable),
        CandidateModel::Live(source) => match reply {
            ReplyModel::Found(entry) => answer_for(
                source,
                entry,
                question.kind,
                question.fields,
                question.protocol,
            ),
            _ => just(Outcome::Unavailable),
        },
    }
}

/// No lookup falls through: the first candidate that does not say "no such
/// object here" decides the answer, whoever stands behind it and whatever they
/// would have said. One that refused, or could not be asked, or is not here,
/// makes the answer an outage.
pub proof fn law_no_lookup_falls_through(
    candidates: Seq<CandidateModel>,
    from: int,
    question: Question,
    replies: spec_fn(int) -> ReplyModel,
    decides: int,
)
    requires
        0 <= from <= decides < candidates.len(),
        forall|i: int| from <= i < decides ==> passes(#[trigger] candidates[i], replies(i)),
        !passes(candidates[decides], replies(decides)),
    ensures
        resolved(settled(walked(candidates, from), question), replies) == StepModel::Done(
            verdict(candidates[decides], replies(decides), question),
        ),
    decreases decides - from,
{
    if from < decides {
        assert(passes(candidates[from], replies(from)));
        law_no_lookup_falls_through(candidates, from + 1, question, replies, decides);
        if let StepModel::Done(_) = settled(walked(candidates, from + 1), question) {
            assert(candidates[from + 1] is Absent);
        }
    }
}

/// An absence is everybody's: a lookup that walks the order finds nothing only
/// where every candidate is here and says so.
pub proof fn law_an_absence_is_unanimous(
    candidates: Seq<CandidateModel>,
    from: int,
    question: Question,
    replies: spec_fn(int) -> ReplyModel,
)
    requires
        0 <= from <= candidates.len(),
        forall|i: int|
            from <= i < candidates.len() ==> passes(#[trigger] candidates[i], replies(i)),
    ensures
        resolved(settled(walked(candidates, from), question), replies) == StepModel::Done(
            just(Outcome::NotFound),
        ),
    decreases candidates.len() - from,
{
    if from < candidates.len() {
        assert(passes(candidates[from], replies(from)));
        law_an_absence_is_unanimous(candidates, from + 1, question, replies);
        if from + 1 < candidates.len() {
            assert(passes(candidates[from + 1], replies(from + 1)));
        }
    }
}

/// A well-known principal is the authority's own: looking one up is answered on
/// the spot, whatever sources there are, and no source is ever asked about it.
pub proof fn law_a_well_known_principal_is_never_asked_about(
    registry: RegistryModel,
    key: KeyModel,
    kind: Kind,
    fields: Fields,
    protocol: Protocol,
)
    requires
        well_known_at(key, protocol) is Some,
    ensures
        begins(registry, key, kind, fields, protocol) == StepModel::Done(
            answer_about(well_known_at(key, protocol)->0, kind, fields, protocol.known),
        ),
{
}

/// A source's refusal is never passed on as one: that would tell the caller that
/// *they* may not ask, and it is a fact about the source.
pub proof fn law_a_refusal_is_never_reported(
    walk: WalkModel,
    question: Question,
    reply: ReplyModel,
)
    ensures
        replied(walk, question, reply) matches StepModel::Done(answer)
            ==> answer.outcome != Outcome::Refused,
{
}

/// A reference the authority gives out: a SID, under no name or a usable one,
/// of the subject's own domain unless the source may name foreign memberships.
pub open spec fn presentable(
    source: FactsModel,
    subject: SidModel,
    reference: ReferenceModel,
    protocol: Protocol,
) -> bool {
    let sid = crate::sid::decoded(reference.sid);
    &&& crate::sid::is_sid(reference.sid)
    &&& reference.name.len() == 0 || usable_name(reference.name, protocol.max_name_bytes)
        || exists|entry: WellKnown| reference.name == (#[trigger] entry.called())
    &&& source.may_assert_foreign_memberships || domain::related(subject, sid)
    &&& in_scope(source, reference.unix_id) || well_known::number_of(sid) == Some(reference.unix_id)
}

/// Whether a number is a source's to give: in its range, or the zero that says
/// there is none.
pub open spec fn in_scope(source: FactsModel, number: u32) -> bool {
    number == 0 || crate::registry::spans(source.unix_id_range, number)
}

/// Whether an answered field is one a source may have given out.
pub open spec fn confined(
    source: FactsModel,
    subject: SidModel,
    value: ValueModel,
    protocol: Protocol,
) -> bool {
    match value {
        ValueModel::UnixId(number) => in_scope(source, number),
        ValueModel::PrimaryGroup(reference) => presentable(source, subject, reference, protocol),
        ValueModel::Groups(refs) => forall|i: int|
            0 <= i < refs.len() ==> presentable(source, subject, #[trigger] refs[i], protocol),
        ValueModel::Members(refs) => forall|i: int|
            0 <= i < refs.len() ==> presentable(source, subject, #[trigger] refs[i], protocol),
        _ => true,
    }
}

/// A reference that is permitted is presentable once rebased.
proof fn lemma_rebased(
    source: FactsModel,
    subject: SidModel,
    reference: ReferenceModel,
    protocol: Protocol,
)
    requires
        permitted(source, subject, reference, protocol.max_name_bytes),
    ensures
        presentable(source, subject, rebased(source, reference), protocol),
{
    let sid = crate::sid::decoded(reference.sid);
    if let Some(entry) = well_known::identified(sid) {
        assert(entry.called() == entry.called());
    }
    if let Some(range) = source.unix_id_range {
        if let Some(number) = unix_id::rebased(range, reference.unix_id) {
            assert(unix_id::rebased(range, reference.unix_id) == Some(number));
        }
    }
}

/// Every reference among the permitted ones is presentable.
proof fn lemma_permitted_among(
    source: FactsModel,
    subject: SidModel,
    refs: Seq<ReferenceModel>,
    protocol: Protocol,
)
    ensures
        ({
            let out = permitted_among(source, subject, refs, protocol.max_name_bytes);
            forall|i: int|
                0 <= i < out.len() ==> presentable(source, subject, #[trigger] out[i], protocol)
        }),
    decreases refs.len(),
{
    if refs.len() > 0 {
        let rest = permitted_among(source, subject, refs.drop_last(), protocol.max_name_bytes);
        let out = permitted_among(source, subject, refs, protocol.max_name_bytes);
        lemma_permitted_among(source, subject, refs.drop_last(), protocol);
        assert forall|i: int| 0 <= i < rest.len() implies presentable(
            source,
            subject,
            #[trigger] out[i],
            protocol,
        ) by {
            assert(out[i] == rest[i]);
        }
        if permitted(source, subject, refs.last(), protocol.max_name_bytes) {
            lemma_rebased(source, subject, refs.last(), protocol);
        }
    }
}

/// Every field given out is confined.
proof fn lemma_all_given(
    source: FactsModel,
    subject: SidModel,
    values: Seq<ValueModel>,
    protocol: Protocol,
)
    ensures
        ({
            let out = all_given(source, subject, values, protocol.max_name_bytes);
            forall|i: int| 0 <= i < out.len() ==> confined(source, subject, #[trigger] out[i], protocol)
        }),
    decreases values.len(),
{
    if values.len() > 0 {
        let rest = all_given(source, subject, values.drop_last(), protocol.max_name_bytes);
        let out = all_given(source, subject, values, protocol.max_name_bytes);
        lemma_all_given(source, subject, values.drop_last(), protocol);
        assert forall|i: int| 0 <= i < rest.len() implies confined(
            source,
            subject,
            #[trigger] out[i],
            protocol,
        ) by {
            assert(out[i] == rest[i]);
        }
        match values.last() {
            ValueModel::UnixId(relative) => {
                if let Some(range) = source.unix_id_range {
                    if let Some(number) = unix_id::rebased(range, relative) {
                        assert(unix_id::rebased(range, relative) == Some(number));
                    }
                }
            },
            ValueModel::PrimaryGroup(reference) => {
                if permitted(source, subject, reference, protocol.max_name_bytes) {
                    lemma_rebased(source, subject, reference, protocol);
                }
            },
            ValueModel::Groups(refs) => lemma_permitted_among(source, subject, refs, protocol),
            ValueModel::Members(refs) => lemma_permitted_among(source, subject, refs, protocol),
            _ => {},
        }
    }
}

/// A query is not a weaker channel than a logon: whatever a source answers, a
/// record made of it describes an object of the source's own domain and of the
/// kind that was asked for, under a usable name, with numbers of the source's own
/// range, and names nothing alongside it that the source may not name.
pub proof fn law_an_answer_is_confined(
    source: FactsModel,
    entry: EntryModel,
    wanted: Kind,
    fields: Fields,
    protocol: Protocol,
)
    ensures
        ({
            let answer = answer_for(source, entry, wanted, fields, protocol);
            &&& answer.record is Some <==> answer.outcome is Found
            &&& answer.record matches Some(record) ==> {
                let subject = crate::sid::decoded(record.sid);
                &&& crate::sid::is_sid(record.sid)
                &&& domain::within(source.domain, subject)
                &&& usable_name(record.qualified_name, protocol.max_name_bytes)
                &&& record.kind_found != Kind::Any
                &&& record.kind_found.answers(wanted)
                &&& forall|i: int|
                    0 <= i < record.values.len() ==> confined(
                        source,
                        subject,
                        #[trigger] record.values[i],
                        protocol,
                    )
            }
        }),
{
    lemma_all_given(source, crate::sid::decoded(entry.sid), entry.values, protocol);
}

/// A number given out leads back to what its source counted: looking the number
/// up asks the source that owns it about the relative id it stated.
pub proof fn law_a_number_leads_back(source: FactsModel, range: unix_id::Range, relative: u32)
    requires
        source.unix_id_range == Some(range),
        unix_id::rebased(range, relative) is Some,
    ensures
        counted(source, principal_number(source, relative)) == relative,
{
}

/// A character by its code.
proof fn lemma_code(c: char)
    ensures
        ' ' <= c <= '~' && !reserved_in_name(c) <==> {
            let code = c as u32;
            32 <= code <= 126 && code != 64 && code != 92 && code != 47 && code != 58 && code != 44
        },
        c == ' ' <==> c as u32 == 32,
{
}

/// What can be a name: from one character to as many as the protocol has room
/// for, each of them from 32 to 126 and none of 64, 92, 47, 58 and 44, the first
/// and the last not 32; and anything that is so can be one.
pub proof fn law_what_can_be_a_name(name: Seq<char>, max: usize)
    ensures
        usable_name(name, max) <==> {
            &&& 1 <= name.len() <= max
            &&& name[0] as u32 != 32
            &&& name[name.len() - 1] as u32 != 32
            &&& forall|i: int|
                0 <= i < name.len() ==> {
                    let c = #[trigger] name[i] as u32;
                    32 <= c <= 126 && c != 64 && c != 92 && c != 47 && c != 58 && c != 44
                }
        },
{
    if 1 <= name.len() <= max {
        lemma_code(name[0]);
        lemma_code(name[name.len() - 1]);
        assert forall|i: int| 0 <= i < name.len() implies (' ' <= #[trigger] name[i] <= '~'
            && !reserved_in_name(name[i]) <==> {
            let c = name[i] as u32;
            32 <= c <= 126 && c != 64 && c != 92 && c != 47 && c != 58 && c != 44
        }) by {
            lemma_code(name[i]);
        }
    }
}

/// A source may name an object alongside another exactly where it is a SID, under
/// no name or one that can be a name, and either the source may name foreign ones
/// or the two differ at most in their last number.
pub proof fn law_whom_a_source_may_name(
    source: FactsModel,
    subject: SidModel,
    reference: ReferenceModel,
    max: usize,
)
    ensures
        permitted(source, subject, reference, max) <==> {
            let sid = crate::sid::decoded(reference.sid);
            &&& crate::sid::is_sid(reference.sid)
            &&& reference.name.len() > 0 ==> usable_name(reference.name, max)
            &&& source.may_assert_foreign_memberships || {
                &&& subject.authority == sid.authority
                &&& subject.subs.len() == sid.subs.len()
                &&& subject.subs.len() > 0
                &&& forall|i: int|
                    0 <= i < subject.subs.len() - 1 ==> #[trigger] subject.subs[i] == sid.subs[i]
            }
        },
{
    domain::law_what_siblings_are(subject, crate::sid::decoded(reference.sid));
}

/// A reference keeps its SID, and its name where it has one. One without a name
/// has the authority's own for a well-known SID. Its number is the authority's own
/// for a SID the authority numbers; otherwise the base and what the source counts
/// it as; and zero where the source's range does not express that.
pub proof fn law_what_a_reference_becomes(source: FactsModel, reference: ReferenceModel)
    ensures
        ({
            let sid = crate::sid::decoded(reference.sid);
            let out = rebased(source, reference);
            &&& out.sid == reference.sid
            &&& reference.name.len() > 0 ==> out.name == reference.name
            &&& reference.name.len() == 0 && (forall|w: WellKnown| #[trigger] w.model() != sid)
                ==> out.name.len() == 0
            &&& forall|w: WellKnown|
                reference.name.len() == 0 && #[trigger] w.model() == sid ==> out.name == w.called()
            &&& forall|w: WellKnown|
                #[trigger] w.model() == sid && w.projected() is Some ==> Some(out.unix_id)
                    == w.projected()
            &&& (forall|w: WellKnown| #[trigger] w.model() == sid ==> w.projected() is None)
                ==> out.unix_id == (match source.unix_id_range {
                Some(range) => if 0 < reference.unix_id && reference.unix_id < range.count
                    && range.base + reference.unix_id <= u32::MAX {
                    range.base + reference.unix_id
                } else {
                    0
                },
                None => 0,
            })
        }),
{
    let sid = crate::sid::decoded(reference.sid);
    assert forall|w: WellKnown| #[trigger] w.model() == sid implies well_known::identified(sid)
        == Some(w) by {
        well_known::law_every_name_round_trips(w);
    }
    if let Some(entry) = well_known::identified(sid) {
        assert(entry.model() == sid) by {
            assert(exists|w: WellKnown| #[trigger] w.model() == sid);
        }
    }
}

/// Which references a source may name alongside an object.
pub open spec fn may_name(source: FactsModel, subject: SidModel, max: usize) -> spec_fn(
    ReferenceModel,
) -> bool {
    |reference: ReferenceModel| permitted(source, subject, reference, max)
}

/// A reference as the authority gives it out.
pub open spec fn as_rebased(source: FactsModel) -> spec_fn(ReferenceModel) -> ReferenceModel {
    |reference: ReferenceModel| rebased(source, reference)
}

/// Of a list of references every one that the source may name is given out, in the
/// source's order, and no other.
pub proof fn law_every_permitted_reference_is_given_out(
    source: FactsModel,
    subject: SidModel,
    refs: Seq<ReferenceModel>,
    max: usize,
)
    ensures
        crate::select::picks(
            refs,
            may_name(source, subject, max),
            as_rebased(source),
            permitted_among(source, subject, refs, max),
        ),
    decreases refs.len(),
{
    let (wanted, made) = (may_name(source, subject, max), as_rebased(source));
    if refs.len() == 0 {
        crate::select::lemma_picks_nothing(refs, wanted, made);
    } else {
        let rest = permitted_among(source, subject, refs.drop_last(), max);
        law_every_permitted_reference_is_given_out(source, subject, refs.drop_last(), max);
        crate::select::lemma_picks_last(
            refs,
            wanted,
            made,
            rest,
            permitted_among(source, subject, refs, max),
        );
    }
}

/// What an answered field is given out as. A home directory, a shell, the kinds of
/// logon and a field of no known meaning are as the source sent them. A number is
/// the base and what the source counted, or zero where its range does not express
/// that. A primary group is given out exactly where the source may name it, and a
/// list of references as the ones the source may name.
pub proof fn law_what_an_answer_is_given_out_as(
    source: FactsModel,
    subject: SidModel,
    value: ValueModel,
    max: usize,
)
    ensures
        match value {
            ValueModel::Home(path) => given(source, subject, value, max) == Some(
                ValueModel::Home(path),
            ),
            ValueModel::Shell(path) => given(source, subject, value, max) == Some(
                ValueModel::Shell(path),
            ),
            ValueModel::LogonTypes(types) => given(source, subject, value, max) == Some(
                ValueModel::LogonTypes(types),
            ),
            ValueModel::Other(at) => given(source, subject, value, max) == Some(
                ValueModel::Other(at),
            ),
            ValueModel::UnixId(relative) => given(source, subject, value, max) == Some(
                ValueModel::UnixId(
                    match source.unix_id_range {
                        Some(range) => if 0 < relative && relative < range.count && range.base
                            + relative <= u32::MAX {
                            (range.base + relative) as u32
                        } else {
                            0
                        },
                        None => 0,
                    },
                ),
            ),
            ValueModel::PrimaryGroup(reference) => given(source, subject, value, max) == (
            if permitted(source, subject, reference, max) {
                Some(ValueModel::PrimaryGroup(rebased(source, reference)))
            } else {
                None
            }),
            ValueModel::Groups(refs) => given(source, subject, value, max) matches Some(
                ValueModel::Groups(out),
            ) && crate::select::picks(
                refs,
                may_name(source, subject, max),
                as_rebased(source),
                out,
            ),
            ValueModel::Members(refs) => given(source, subject, value, max) matches Some(
                ValueModel::Members(out),
            ) && crate::select::picks(
                refs,
                may_name(source, subject, max),
                as_rebased(source),
                out,
            ),
        },
{
    match value {
        ValueModel::Groups(refs) => law_every_permitted_reference_is_given_out(
            source,
            subject,
            refs,
            max,
        ),
        ValueModel::Members(refs) => law_every_permitted_reference_is_given_out(
            source,
            subject,
            refs,
            max,
        ),
        _ => {},
    }
}

/// Every answered field but a primary group that the source may not name.
pub open spec fn answerable(source: FactsModel, subject: SidModel, max: usize) -> spec_fn(
    ValueModel,
) -> bool {
    |value: ValueModel|
        match value {
            ValueModel::PrimaryGroup(reference) => permitted(source, subject, reference, max),
            _ => true,
        }
}

/// An answered field as the authority gives it out.
pub open spec fn as_given(source: FactsModel, subject: SidModel, max: usize) -> spec_fn(
    ValueModel,
) -> ValueModel {
    |value: ValueModel| given(source, subject, value, max)->0
}

/// Every answered field is given out, in the source's order, but for a primary
/// group the source may not name; and nothing else is.
pub proof fn law_every_answer_is_given_out(
    source: FactsModel,
    subject: SidModel,
    values: Seq<ValueModel>,
    max: usize,
)
    ensures
        crate::select::picks(
            values,
            answerable(source, subject, max),
            as_given(source, subject, max),
            all_given(source, subject, values, max),
        ),
        forall|value: ValueModel|
            answerable(source, subject, max)(value) <==> (#[trigger] given(
                source,
                subject,
                value,
                max,
            )) is Some,
    decreases values.len(),
{
    let (wanted, made) = (answerable(source, subject, max), as_given(source, subject, max));
    if values.len() == 0 {
        crate::select::lemma_picks_nothing(values, wanted, made);
    } else {
        let rest = all_given(source, subject, values.drop_last(), max);
        law_every_answer_is_given_out(source, subject, values.drop_last(), max);
        crate::select::lemma_picks_last(
            values,
            wanted,
            made,
            rest,
            all_given(source, subject, values, max),
        );
    }
}

/// A home directory, a shell, the kinds of logon and a field of no known meaning
/// that a source answers are on the record as they were sent: where the number of
/// fields given out before each says.
pub proof fn law_what_a_source_says_of_its_own_stands(
    source: FactsModel,
    entry: EntryModel,
    wanted: Kind,
    fields: Fields,
    protocol: Protocol,
    i: int,
)
    requires
        answer_for(source, entry, wanted, fields, protocol).outcome is Found,
        0 <= i < entry.values.len(),
        entry.values[i] is Home || entry.values[i] is Shell || entry.values[i] is LogonTypes
            || entry.values[i] is Other,
    ensures
        ({
            let answer = answer_for(source, entry, wanted, fields, protocol);
            let subject = crate::sid::decoded(entry.sid);
            let at = crate::select::tally(
                entry.values,
                answerable(source, subject, protocol.max_name_bytes),
                i,
            );
            &&& answer.record matches Some(record)
            &&& 0 <= at < record.values.len()
            &&& record.values[at] == entry.values[i]
        }),
{
    let subject = crate::sid::decoded(entry.sid);
    law_every_answer_is_given_out(source, subject, entry.values, protocol.max_name_bytes);
    assert(answerable(source, subject, protocol.max_name_bytes)(entry.values[i]));
}

/// Which withheld fields were asked for.
pub open spec fn was_asked_for(fields: Fields) -> spec_fn(Withheld) -> bool {
    |withheld: Withheld| fields.bits & withheld.field.bits == withheld.field.bits
}

/// A withheld field as it came.
pub open spec fn as_it_came() -> spec_fn(Withheld) -> Withheld {
    |withheld: Withheld| withheld
}

/// Every withheld field that was asked for is passed on as it came, in the
/// source's order, and no other.
pub proof fn law_every_withheld_field_is_passed_on(withheld: Seq<Withheld>, fields: Fields)
    ensures
        crate::select::picks(
            withheld,
            was_asked_for(fields),
            as_it_came(),
            asked_for(withheld, fields),
        ),
    decreases withheld.len(),
{
    let (wanted, made) = (was_asked_for(fields), as_it_came());
    if withheld.len() == 0 {
        crate::select::lemma_picks_nothing(withheld, wanted, made);
    } else {
        law_every_withheld_field_is_passed_on(withheld.drop_last(), fields);
        crate::select::lemma_picks_last(
            withheld,
            wanted,
            made,
            asked_for(withheld.drop_last(), fields),
            asked_for(withheld, fields),
        );
    }
}

/// Whether a source's description of an object can be given out at all: a SID of
/// the source's own domain, under a name that can be one, of a kind that is one.
pub open spec fn describes(source: FactsModel, entry: EntryModel, max: usize) -> bool {
    &&& crate::sid::is_sid(entry.sid)
    &&& usable_name(entry.canonical_name, max)
    &&& entry.kind is Principal || entry.kind is Group
    &&& domain::within(source.domain, crate::sid::decoded(entry.sid))
}

/// What a source's description comes to. It is found exactly where it describes an
/// object of the source's own that is of the kind that was asked for, and then the
/// record has the SID, the name and the kind as they were sent, every answered
/// field that may be given out, and every withheld one that was asked for. An
/// object of another kind is none, and anything else is no answer.
pub proof fn law_what_a_description_comes_to(
    source: FactsModel,
    entry: EntryModel,
    wanted: Kind,
    fields: Fields,
    protocol: Protocol,
)
    ensures
        ({
            let answer = answer_for(source, entry, wanted, fields, protocol);
            let subject = crate::sid::decoded(entry.sid);
            let max = protocol.max_name_bytes;
            let named = crate::sid::is_sid(entry.sid) && usable_name(entry.canonical_name, max) && (
            entry.kind is Principal || entry.kind is Group);
            &&& answer.outcome is Found <==> describes(source, entry, max) && (wanted is Any
                || entry.kind == wanted)
            &&& answer.outcome is NotFound <==> named && !(wanted is Any) && entry.kind != wanted
            &&& answer.outcome is Unavailable <==> !(answer.outcome is Found)
                && !(answer.outcome is NotFound)
            &&& answer.outcome is Found <==> answer.record is Some
            &&& answer.record matches Some(record) ==> {
                &&& record.sid == entry.sid
                &&& record.qualified_name == entry.canonical_name
                &&& record.kind_found == entry.kind
                &&& crate::select::picks(
                    entry.values,
                    answerable(source, subject, max),
                    as_given(source, subject, max),
                    record.values,
                )
                &&& crate::select::picks(
                    entry.withheld,
                    was_asked_for(fields),
                    as_it_came(),
                    record.withheld,
                )
            }
        }),
{
    let subject = crate::sid::decoded(entry.sid);
    law_every_answer_is_given_out(source, subject, entry.values, protocol.max_name_bytes);
    law_every_withheld_field_is_passed_on(entry.withheld, fields);
}

/// A source is asked for every field but the members of a group, and for those only
/// where it said that it answers them.
pub proof fn law_what_a_source_is_not_asked(source: FactsModel, fields: Fields)
    ensures
        source.capabilities.members ==> gated(source, fields) == fields,
        !source.capabilities.members ==> gated(source, fields).bits == fields.bits & 0xffff_fff7,
{
    let bits = fields.bits;
    assert(bits & !8u32 == bits & 0xffff_fff7u32) by (bit_vector);
}

/// A source is asked a question exactly where time is left and it said that it
/// answers questions.
pub proof fn law_who_is_asked_a_question(source: FactsModel, time_left: bool)
    ensures
        askable(source, time_left) <==> time_left && source.capabilities.queries,
{
}

/// What was heard is an answer exactly where the source gave a result, and then the
/// first one says what the answer is; a refusal is one too, and anything else is
/// none.
pub proof fn law_what_was_heard_is_what_is_replied(heard: Heard)
    ensures
        match heard {
            Heard::Results(results) => {
                &&& results@.len() == 0 ==> reply_to(heard) is Unavailable
                &&& results@.len() > 0 ==> {
                    &&& results@[0].outcome is Found ==> reply_to(heard) == ReplyModel::Found(
                        results@[0]@,
                    )
                    &&& results@[0].outcome is NotFound ==> reply_to(heard) is NotFound
                    &&& results@[0].outcome is Refused ==> reply_to(heard) is Refused
                    &&& results@[0].outcome is Unavailable ==> reply_to(heard) is Unavailable
                    &&& results@[0].outcome is Malformed ==> reply_to(heard) is Unavailable
                }
            },
            Heard::Refused => reply_to(heard) is Refused,
            _ => reply_to(heard) is Unavailable,
        },
{
}

/// A search order's candidates are its places, one by one: a source that is here as
/// what it is, and one that is not by its name.
pub proof fn law_the_candidates_are_the_places(slots: Seq<SlotModel>, i: int)
    requires
        0 <= i < slots.len(),
    ensures
        candidates_of(slots).len() == slots.len(),
        match slots[i] {
            SlotModel::Live(source) => candidates_of(slots)[i] == CandidateModel::Live(
                source.facts,
            ),
            SlotModel::Absent(entry) => candidates_of(slots)[i] == CandidateModel::Absent(
                entry.name,
            ),
        },
{
}

/// What a lookup makes of a reply. What the source found is the answer, as the
/// source's. Where it found nothing the next candidate is asked the same if it is
/// here; if it is not the answer is an outage, and where there is none it is an
/// absence. A refusal and a silence are outages.
pub proof fn law_what_a_reply_comes_to(
    walk: WalkModel,
    question: Question,
    source: FactsModel,
    reply: ReplyModel,
)
    requires
        0 <= walk.at < walk.candidates.len(),
        walk.candidates[walk.at] == CandidateModel::Live(source),
    ensures
        ({
            let after = replied(walk, question, reply);
            let outage = AnswerModel { outcome: Outcome::Unavailable, record: None };
            let absence = AnswerModel { outcome: Outcome::NotFound, record: None };
            match reply {
                ReplyModel::Found(entry) => after == StepModel::Done(
                    answer_for(source, entry, question.kind, question.fields, question.protocol),
                ),
                ReplyModel::NotFound => if walk.at + 1 == walk.candidates.len() {
                    after == StepModel::Done(absence)
                } else if walk.candidates[walk.at + 1] is Live {
                    after == StepModel::Ask(
                        WalkModel { candidates: walk.candidates, at: walk.at + 1 },
                        question,
                    )
                } else {
                    after == StepModel::Done(outage)
                },
                ReplyModel::Refused => after == StepModel::Done(outage),
                ReplyModel::Unavailable => after == StepModel::Done(outage),
            }
        }),
{
}

/// How a lookup begins, given where its key leads: with the first candidate if it is
/// here, with an outage if it is not, and with an absence if there is none; or with
/// the outcome there is without asking.
pub proof fn law_how_a_lookup_begins(
    candidates: Seq<CandidateModel>,
    key: SourceKeyModel,
    kind: Kind,
    fields: Fields,
    protocol: Protocol,
    outcome: Outcome,
)
    ensures
        begun(StartModel::Refuse(outcome), kind, fields, protocol) == StepModel::Done(
            AnswerModel { outcome, record: None },
        ),
        ({
            let first = begun(
                StartModel::Walk(walked(candidates, 0), key),
                kind,
                fields,
                protocol,
            );
            &&& candidates.len() == 0 ==> first == StepModel::Done(
                AnswerModel { outcome: Outcome::NotFound, record: None },
            )
            &&& candidates.len() > 0 && candidates[0] is Absent ==> first == StepModel::Done(
                AnswerModel { outcome: Outcome::Unavailable, record: None },
            )
            &&& candidates.len() > 0 && candidates[0] is Live ==> first == StepModel::Ask(
                WalkModel { candidates, at: 0 },
                Question { key, kind, fields, protocol },
            )
        }),
{
}

/// A name that can be one is asked of everybody in the search order, from the first
/// on and under the same name; one that cannot is refused without asking.
pub proof fn law_where_a_name_leads(registry: RegistryModel, name: Seq<char>, protocol: Protocol)
    ensures
        usable_name(name, protocol.max_name_bytes) ==> leads(
            registry,
            KeyModel::Name(name),
            protocol,
        ) == StartModel::Walk(
            walked(candidates_of(registry.search_order()), 0),
            SourceKeyModel::Name(name),
        ),
        !usable_name(name, protocol.max_name_bytes) ==> leads(
            registry,
            KeyModel::Name(name),
            protocol,
        ) == StartModel::Refuse(Outcome::Malformed),
{
}

/// A SID is asked of the one source that is here and whose domain it is in, and of
/// nobody else. Where there is none it is an absence if every configured source is
/// here, and an outage if not. Bytes that are no SID are refused.
pub proof fn law_where_a_sid_leads(
    registry: RegistryModel,
    bytes: Seq<u8>,
    protocol: Protocol,
    source: SourceModel,
)
    requires
        registry.valid(),
    ensures
        ({
            let start = leads(registry, KeyModel::Sid(bytes), protocol);
            let sid = crate::sid::decoded(bytes);
            &&& !crate::sid::is_sid(bytes) ==> start == StartModel::Refuse(Outcome::Malformed)
            &&& crate::sid::is_sid(bytes) && registry.sources.contains(source) && source.live
                && domain::within(source.facts.domain, sid) ==> start == StartModel::Walk(
                WalkedModel::Ask(
                    WalkModel { candidates: seq![CandidateModel::Live(source.facts)], at: 0 },
                ),
                SourceKeyModel::Sid(bytes),
            )
            &&& crate::sid::is_sid(bytes) && (forall|other: SourceModel| #[trigger]
                registry.sources.contains(other) && other.live ==> !domain::within(
                    other.facts.domain,
                    sid,
                )) ==> start == StartModel::Refuse(
                if registry.whole() {
                    Outcome::NotFound
                } else {
                    Outcome::Unavailable
                },
            )
        }),
{
    let sid = crate::sid::decoded(bytes);
    crate::registry::law_ownership_needs_no_search(registry, sid, source);
    if let Some(found) = crate::registry::first_owning(registry.order(), sid) {
        crate::registry::law_ownership_needs_no_search(registry, sid, found);
        assert(registry.sources.contains(found));
    }
}

/// A number is asked of the first source of the order whose range has it, as what is
/// left of it without the base. Where no source that is here has it, it is an outage
/// if a configured one has, and an absence if none.
pub proof fn law_where_a_number_leads(registry: RegistryModel, id: u32, protocol: Protocol, i: int)
    ensures
        ({
            let start = leads(registry, KeyModel::UnixId(id), protocol);
            let order = registry.order();
            &&& 0 <= i < order.len() && crate::registry::has_in_range(order[i], id) && (forall|
                j: int,
            |
                0 <= j < i ==> !crate::registry::has_in_range(#[trigger] order[j], id)) ==> start
                == StartModel::Walk(
                WalkedModel::Ask(
                    WalkModel { candidates: seq![CandidateModel::Live(order[i].facts)], at: 0 },
                ),
                SourceKeyModel::RelativeId((id - order[i].facts.unix_id_range->0.base) as u32),
            )
            &&& (forall|j: int|
                0 <= j < order.len() ==> !crate::registry::has_in_range(#[trigger] order[j], id))
                ==> start == StartModel::Refuse(
                if exists|k: int|
                    0 <= k < registry.configured.len() && (
                    (#[trigger] registry.configured[k]).unix_id_range matches Some(range)
                        && range.base < id && id - range.base < range.count) {
                    Outcome::Unavailable
                } else {
                    Outcome::NotFound
                },
            )
        }),
{
    let order = registry.order();
    crate::registry::law_a_number_belongs_to_the_first_that_has_it(order, id);
    if let Some(source) = crate::registry::first_spanning(order, id) {
        let k = choose|k: int|
            0 <= k < order.len() && #[trigger] order[k] == source && crate::registry::has_in_range(
                source,
                id,
            ) && forall|j: int|
                0 <= j < k ==> !crate::registry::has_in_range(#[trigger] order[j], id);
        assert(crate::registry::has_in_range(order[k], id));
        if 0 <= i < order.len() && crate::registry::has_in_range(order[i], id) && i < k {
            assert(!crate::registry::has_in_range(order[i], id));
        }
    } else {
        assert forall|k: int| 0 <= k < registry.configured.len() implies (crate::registry::spans(
            (#[trigger] registry.configured[k]).unix_id_range,
            id,
        ) <==> (registry.configured[k].unix_id_range matches Some(range) && range.base < id && id
            - range.base < range.count)) by {
            crate::registry::law_which_numbers_a_range_has(
                registry.configured[k].unix_id_range,
                id,
            );
        }
    }
}

/// What is answered of a well-known principal: its SID, its name, that it is a
/// group, and its number where that is asked for and it has one. Everything else
/// that is asked for and has a meaning is absent, each field by itself, in ascending
/// order; and nothing else is.
pub proof fn law_what_is_told_of_a_well_known_principal(
    entry: WellKnown,
    fields: Fields,
    known: Fields,
)
    ensures
        ({
            let record = well_known_record(entry, fields, known);
            let told = record.withheld;
            &&& record.sid == entry.model().bytes()
            &&& record.qualified_name == entry.called()
            &&& record.kind_found is Group
            &&& fields.bits & 1 == 1 && entry.projected() is Some ==> record.values == seq![
                ValueModel::UnixId(entry.projected()->0),
            ]
            &&& fields.bits & 1 == 0 || entry.projected() is None ==> record.values.len() == 0
            &&& forall|i: int| 0 <= i < told.len() ==> (#[trigger] told[i]).reason is Absent
            &&& forall|i: int, j: int|
                0 <= i < j < told.len() ==> (#[trigger] told[i]).field.bits < (
                #[trigger] told[j]).field.bits
            &&& forall|i: int|
                0 <= i < told.len() ==> crate::identity::a_bit_of(
                    fields.bits,
                    0,
                    (#[trigger] told[i]).field.bits,
                )
            &&& tells_of(told, 1) <==> fields.bits & 1 == 1 && entry.projected() is None
            &&& forall|b: u32|
                1 <= b < 32 ==> (tells_of(told, #[trigger] (1u32 << b)) <==> fields.bits & (1u32
                    << b) != 0 && known.bits & (1u32 << b) != 0)
        }),
{
    let record = well_known_record(entry, fields, known);
    let told = record.withheld;
    let (asked, meaning) = (fields.bits, known.bits);
    let rest_bits = (known.bits & !UNIX_ID) & fields.bits;
    let singles = crate::identity::singles_from(rest_bits, 0);
    let absent = all_absent(singles);
    crate::identity::law_every_field_of_a_set_is_one_of_its_bits(rest_bits, 0);
    assert(asked & 1 == 1 || asked & 1 == 0) by (bit_vector);
    assert(UNIX_ID == 1);
    assert(1u32 == 1u32 << 0u32) by (bit_vector);
    assert forall|b: u32| b < 32 implies (#[trigger] (1u32 << b) == 1u32 <==> b == 0) && (1u32 << b)
        >= 1 && (rest_bits & (1u32 << b) != 0 <==> b != 0 && asked & (1u32 << b) != 0 && meaning & (
    1u32 << b) != 0) by {
        assert(((1u32 << b) == 1u32 <==> b == 0) && (1u32 << b) >= 1u32) by (bit_vector)
            requires
                b < 32,
        ;
        assert(((meaning & !1u32) & asked) & (1u32 << b) != 0 <==> b != 0 && asked & (1u32 << b)
            != 0 && meaning & (1u32 << b) != 0) by (bit_vector)
            requires
                b < 32,
        ;
    }
    let lead = told.len() - absent.len();
    assert(lead == 0 || lead == 1);
    assert forall|i: int| 0 <= i < absent.len() implies told[lead + i] == #[trigger] absent[i] by {}
    assert forall|i: int| 0 <= i < singles.len() implies crate::identity::a_bit_of(
        asked,
        0,
        #[trigger] singles[i],
    ) && singles[i] > 1 by {
        assert(crate::identity::a_bit_of(rest_bits, 0, singles[i]));
        let b = choose|b: u32|
            0 <= b < 32 && rest_bits & (1u32 << b) != 0 && singles[i] == #[trigger] (1u32 << b);
        assert(asked & (1u32 << b) != 0);
    }
    if lead == 1 {
        assert(told[0].field.bits == 1);
        assert(asked & (1u32 << 0u32) != 0);
        assert(crate::identity::a_bit_of(asked, 0, 1));
    }
    assert forall|i: int| 0 <= i < told.len() implies (#[trigger] told[i]).reason is Absent
        && crate::identity::a_bit_of(asked, 0, told[i].field.bits) && (i >= lead
        ==> told[i].field.bits == singles[i - lead]) by {
        if i >= lead {
            assert(told[i] == absent[i - lead]);
        }
    }
    assert forall|i: int, j: int| 0 <= i < j < told.len() implies (#[trigger] told[i]).field.bits < (
    #[trigger] told[j]).field.bits by {
        assert(told[j] == absent[j - lead]);
        if i >= lead {
            assert(told[i] == absent[i - lead]);
            assert(singles[i - lead] < singles[j - lead]);
        } else {
            assert(singles[j - lead] > 1);
        }
    }
    if tells_of(told, 1) {
        let i = choose|i: int| 0 <= i < told.len() && (#[trigger] told[i]).field.bits == 1;
        if i >= lead {
            assert(singles[i - lead] > 1);
        }
    }
    assert forall|b: u32| 1 <= b < 32 implies (tells_of(told, #[trigger] (1u32 << b)) <==> asked & (
    1u32 << b) != 0 && meaning & (1u32 << b) != 0) by {
        if rest_bits & (1u32 << b) != 0 {
            assert(singles.contains(1u32 << b));
            let k = choose|k: int| 0 <= k < singles.len() && singles[k] == 1u32 << b;
            assert(told[lead + k] == absent[k]);
            assert(told[lead + k].field.bits == 1u32 << b);
        }
        if tells_of(told, 1u32 << b) {
            let i = choose|i: int|
                0 <= i < told.len() && (#[trigger] told[i]).field.bits == 1u32 << b;
            assert(i >= lead);
            assert(told[i] == absent[i - lead]);
            assert(crate::identity::a_bit_of(rest_bits, 0, singles[i - lead]));
            let c = choose|c: u32|
                0 <= c < 32 && rest_bits & (1u32 << c) != 0 && singles[i - lead] == #[trigger] (1u32
                    << c);
            assert(rest_bits & (1u32 << b) != 0);
        }
    }
}

/// Whether a field is among those withheld.
pub open spec fn tells_of(told: Seq<Withheld>, bits: u32) -> bool {
    exists|i: int| 0 <= i < told.len() && (#[trigger] told[i]).field.bits == bits
}

/// A well-known principal is found by whoever asks for a group or for either, and is
/// no user.
pub proof fn law_a_well_known_principal_is_a_group(
    entry: WellKnown,
    kind: Kind,
    fields: Fields,
    known: Fields,
)
    ensures
        kind is Principal ==> answer_about(entry, kind, fields, known) == (AnswerModel {
            outcome: Outcome::NotFound,
            record: None,
        }),
        kind is Group || kind is Any ==> answer_about(entry, kind, fields, known) == (AnswerModel {
            outcome: Outcome::Found,
            record: Some(well_known_record(entry, fields, known)),
        }),
{
}

/// The nine that have a number are listed among groups, in the order of the table,
/// and nowhere else.
pub proof fn law_which_well_known_principals_are_listed(
    kind: Kind,
    fields: Fields,
    known: Fields,
    w: WellKnown,
)
    ensures
        !(kind is Group) ==> listed(kind, fields, known).len() == 0,
        kind is Group ==> listed(kind, fields, known).len() == 9,
        kind is Group && w.projected() is Some ==> 0 <= w.position() < 9 && listed(
            kind,
            fields,
            known,
        )[w.position()] == well_known_record(w, fields, known),
{
    well_known::law_the_table_counts_from_a_hundred(w);
}

/// A name that can be one has nothing around it to trim.
proof fn lemma_usable_is_trimmed(name: Seq<char>, max: usize)
    requires
        usable_name(name, max),
    ensures
        text::trimmed(name) == name,
{
    lemma_code(name[0]);
    lemma_code(name[name.len() - 1]);
    assert(name.last() == name[name.len() - 1]);
    assert(!reserved_in_name(name[0]));
    assert(!reserved_in_name(name[name.len() - 1]));
    assert(!text::blank(name[0]));
    assert(!text::blank(name.last()));
    assert(text::trimmed_start(name) == name);
    assert(text::trimmed_end(name) == name);
}

/// Which keys mean a well-known principal: its name, however it is capitalised, its
/// SID, and its number; and no other key does.
pub proof fn law_which_keys_mean_a_well_known_principal(
    key: KeyModel,
    protocol: Protocol,
    w: WellKnown,
)
    ensures
        well_known_at(key, protocol) == Some(w) <==> match key {
            KeyModel::Name(name) => usable_name(name, protocol.max_name_bytes) && text::same_word(
                w.called(),
                name,
            ),
            KeyModel::Sid(bytes) => crate::sid::is_sid(bytes) && crate::sid::decoded(bytes)
                == w.model(),
            KeyModel::UnixId(id) => w.projected() == Some(id),
        },
{
    match key {
        KeyModel::Name(name) => {
            well_known::law_what_is_looked_up_is_found(w, w.model(), name, 0);
            if usable_name(name, protocol.max_name_bytes) {
                lemma_usable_is_trimmed(name, protocol.max_name_bytes);
            }
        },
        KeyModel::Sid(bytes) => well_known::law_what_is_looked_up_is_found(
            w,
            crate::sid::decoded(bytes),
            w.called(),
            0,
        ),
        KeyModel::UnixId(id) => well_known::law_what_is_looked_up_is_found(
            w,
            w.model(),
            w.called(),
            id,
        ),
    }
}

/// A key that means no well-known principal is looked up where it leads, and one
/// that means one is answered on the spot. Only fields with a meaning are asked for.
pub proof fn law_a_lookup_is_answered_or_led(
    registry: RegistryModel,
    key: KeyModel,
    kind: Kind,
    fields: Fields,
    protocol: Protocol,
    w: WellKnown,
)
    ensures
        meant(fields, protocol).bits == fields.bits & protocol.known.bits,
        well_known_at(key, protocol) is None ==> begins(registry, key, kind, fields, protocol)
            == begun(leads(registry, key, protocol), kind, fields, protocol),
        well_known_at(key, protocol) == Some(w) ==> begins(registry, key, kind, fields, protocol)
            == StepModel::Done(answer_about(w, kind, fields, protocol.known)),
{
}

/// An answer is its outcome and its record, if it has one; a reply is what was replied,
/// with what was found; and a candidate is who is here, or the name of who is not.
pub proof fn law_an_answer_is_its_parts(
    answer: Answer,
    reply: Reply,
    candidates: Seq<Candidate>,
    i: int,
)
    ensures
        answer@.outcome == answer.outcome,
        answer.record matches Some(record) ==> answer@.record == Some(record@),
        answer.record is None ==> answer@.record is None,
        match reply {
            Reply::Found(entry) => reply@ == ReplyModel::Found(entry@),
            Reply::NotFound => reply@ is NotFound,
            Reply::Refused => reply@ is Refused,
            Reply::Unavailable => reply@ is Unavailable,
        },
        candidate_models(candidates).len() == candidates.len(),
        0 <= i < candidates.len() ==> (match candidates[i] {
            Candidate::Live(facts) => candidate_models(candidates)[i] == CandidateModel::Live(
                facts@,
            ),
            Candidate::Absent(name) => candidate_models(candidates)[i] == CandidateModel::Absent(
                name@,
            ),
        }),
{
}

} // verus!
