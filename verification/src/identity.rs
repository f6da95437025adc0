//! What the identity surface speaks of: who a SID, a name or a number is.
//!
//! The messages themselves belong to the protocol library. These are the parts
//! of them that decisions are made from, as plain values.

use crate::logon::LogonTypes;
use vstd::prelude::*;

verus! {

/// What kind of object is asked for, or was found.
#[derive(Debug, Clone, Copy, PartialEq, Eq, Structural)]
pub enum Kind {
    Principal,
    Group,
    /// Either. A valid question and not a valid answer.
    Any,
}

impl Kind {
    /// Whether an object of this kind answers a question about another.
    pub open spec fn answers(self, wanted: Kind) -> bool {
        wanted == Kind::Any || self == wanted
    }

    /// Whether an object of this kind answers a question about another.
    pub fn satisfies(self, wanted: Kind) -> (yes: bool)
        ensures
            yes <==> self.answers(wanted),
    {
        wanted == Kind::Any || self == wanted
    }
}

/// How a question was answered.
#[derive(Debug, Clone, Copy, PartialEq, Eq, Structural)]
pub enum Outcome {
    Found,
    /// An absence a caller may rely on.
    NotFound,
    /// The caller may not make this request. Never sent: there is no per-field
    /// restriction for it to report.
    Refused,
    /// Somebody who could have answered did not.
    Unavailable,
    /// The question makes no sense.
    Malformed,
}

/// A set of fields, one bit each.
#[derive(Debug, Clone, Copy, PartialEq, Eq, Structural)]
pub struct Fields {
    pub bits: u32,
}

/// The number of a SID.
pub const UNIX_ID: u32 = 1;

/// A principal's primary group.
pub const PRIMARY_GROUP: u32 = 2;

/// The groups a principal is in.
pub const GROUPS: u32 = 4;

/// The members of a group.
pub const MEMBERS: u32 = 8;

/// A principal's home directory.
pub const HOME: u32 = 16;

/// A principal's shell.
pub const SHELL: u32 = 32;

/// The logon types a principal may be used for.
pub const LOGON_TYPES: u32 = 64;

/// The single-field sets of a set, from a bit upwards.
pub open spec fn singles_from(bits: u32, from: u32) -> Seq<u32>
    decreases 32 - from,
{
    if from >= 32 {
        Seq::empty()
    } else if bits & (1u32 << from) != 0 {
        seq![1u32 << from] + singles_from(bits, (from + 1) as u32)
    } else {
        singles_from(bits, (from + 1) as u32)
    }
}

impl Fields {
    /// No fields.
    pub fn empty() -> (set: Fields)
        ensures
            set.bits == 0,
    {
        Fields { bits: 0 }
    }

    /// Whether every field of another set is in this one.
    pub open spec fn covers(self, other: Fields) -> bool {
        self.bits & other.bits == other.bits
    }

    /// Whether every field of another set is in this one.
    pub fn contains(self, other: Fields) -> (yes: bool)
        ensures
            yes <==> self.covers(other),
    {
        self.bits & other.bits == other.bits
    }

    /// The fields in both sets.
    pub fn intersection(self, other: Fields) -> (set: Fields)
        ensures
            set.bits == self.bits & other.bits,
    {
        Fields { bits: self.bits & other.bits }
    }

    /// The fields in this set and not in the other.
    pub fn difference(self, other: Fields) -> (set: Fields)
        ensures
            set.bits == self.bits & !other.bits,
    {
        Fields { bits: self.bits & !other.bits }
    }

    /// The fields of the set one by one, lowest first.
    pub fn singles(self) -> (fields: Vec<Fields>)
        ensures
            fields@.map_values(|field: Fields| field.bits) == singles_from(self.bits, 0),
    {
        let mut fields: Vec<Fields> = Vec::new();
        let mut i: u32 = 0;
        let ghost bits_of = |field: Fields| field.bits;
        assert(fields@.map_values(bits_of) + singles_from(self.bits, 0) =~= singles_from(
            self.bits,
            0,
        ));
        while i < 32
            invariant
                i <= 32,
                bits_of == (|field: Fields| field.bits),
                singles_from(self.bits, 0) == fields@.map_values(bits_of) + singles_from(
                    self.bits,
                    i,
                ),
            decreases 32 - i,
        {
            let ghost before = fields@.map_values(bits_of);
            let ghost rest = singles_from(self.bits, (i + 1) as u32);
            if self.bits & (1u32 << i) != 0 {
                fields.push(Fields { bits: 1u32 << i });
                assert(fields@.map_values(bits_of) =~= before.push(1u32 << i));
                assert(before + (seq![1u32 << i] + rest) =~= before.push(1u32 << i) + rest);
            }
            i += 1;
        }
        assert(fields@.map_values(bits_of) + singles_from(self.bits, 32) =~= fields@.map_values(
            bits_of,
        ));
        fields
    }
}

/// Why a field that was asked for is not answered.
#[derive(Debug, Clone, Copy, PartialEq, Eq, Structural)]
pub enum WithheldReason {
    /// There is nothing to answer with.
    Absent,
    /// There is too much to answer with.
    TooLarge,
    /// A reason this build gives no meaning to, carried from a source.
    Other(u32),
}

/// A field that was asked for and is not answered.
#[derive(Debug, Clone, Copy, PartialEq, Eq, Structural)]
pub struct Withheld {
    pub field: Fields,
    pub reason: WithheldReason,
}

/// Another object, named alongside one that was asked about.
#[derive(Debug, PartialEq, Eq)]
pub struct Reference {
    pub sid: Vec<u8>,
    /// Empty where no name is claimed.
    pub name: String,
    /// Zero where it has no number.
    pub unix_id: u32,
}

/// A reference, mathematically.
pub struct ReferenceModel {
    pub sid: Seq<u8>,
    pub name: Seq<char>,
    pub unix_id: u32,
}

impl View for Reference {
    type V = ReferenceModel;

    open spec fn view(&self) -> ReferenceModel {
        ReferenceModel { sid: self.sid@, name: self.name@, unix_id: self.unix_id }
    }
}

/// References as values.
pub open spec fn references(of: Seq<Reference>) -> Seq<ReferenceModel> {
    of.map_values(|reference: Reference| reference@)
}

/// One answered field.
#[derive(Debug, PartialEq, Eq)]
pub enum Value {
    UnixId(u32),
    PrimaryGroup(Reference),
    Groups(Vec<Reference>),
    Members(Vec<Reference>),
    Home(String),
    Shell(String),
    LogonTypes(LogonTypes),
    /// A field this build gives no meaning to, by where it stands in the
    /// source's own answer.
    Other(u32),
}

/// An answered field, mathematically.
pub enum ValueModel {
    UnixId(u32),
    PrimaryGroup(ReferenceModel),
    Groups(Seq<ReferenceModel>),
    Members(Seq<ReferenceModel>),
    Home(Seq<char>),
    Shell(Seq<char>),
    LogonTypes(LogonTypes),
    Other(u32),
}

impl View for Value {
    type V = ValueModel;

    open spec fn view(&self) -> ValueModel {
        match *self {
            Value::UnixId(id) => ValueModel::UnixId(id),
            Value::PrimaryGroup(reference) => ValueModel::PrimaryGroup(reference@),
            Value::Groups(refs) => ValueModel::Groups(references(refs@)),
            Value::Members(refs) => ValueModel::Members(references(refs@)),
            Value::Home(path) => ValueModel::Home(path@),
            Value::Shell(path) => ValueModel::Shell(path@),
            Value::LogonTypes(types) => ValueModel::LogonTypes(types),
            Value::Other(at) => ValueModel::Other(at),
        }
    }
}

/// Values as values.
pub open spec fn value_models(of: Seq<Value>) -> Seq<ValueModel> {
    of.map_values(|value: Value| value@)
}

/// An object as a source describes it.
#[derive(Debug, PartialEq, Eq)]
pub struct QueryEntry {
    pub outcome: Outcome,
    pub sid: Vec<u8>,
    pub canonical_name: String,
    pub kind: Kind,
    pub values: Vec<Value>,
    pub withheld: Vec<Withheld>,
}

/// An object as a source describes it, mathematically.
pub struct EntryModel {
    pub outcome: Outcome,
    pub sid: Seq<u8>,
    pub canonical_name: Seq<char>,
    pub kind: Kind,
    pub values: Seq<ValueModel>,
    pub withheld: Seq<Withheld>,
}

impl View for QueryEntry {
    type V = EntryModel;

    open spec fn view(&self) -> EntryModel {
        EntryModel {
            outcome: self.outcome,
            sid: self.sid@,
            canonical_name: self.canonical_name@,
            kind: self.kind,
            values: value_models(self.values@),
            withheld: self.withheld@,
        }
    }
}

/// Entries as values.
pub open spec fn entry_models(of: Seq<QueryEntry>) -> Seq<EntryModel> {
    of.map_values(|entry: QueryEntry| entry@)
}

/// An object as the authority describes it.
#[derive(Debug, PartialEq, Eq)]
pub struct Record {
    pub sid: Vec<u8>,
    pub qualified_name: String,
    pub kind_found: Kind,
    pub values: Vec<Value>,
    pub withheld: Vec<Withheld>,
}

/// An object as the authority describes it, mathematically.
pub struct RecordModel {
    pub sid: Seq<u8>,
    pub qualified_name: Seq<char>,
    pub kind_found: Kind,
    pub values: Seq<ValueModel>,
    pub withheld: Seq<Withheld>,
}

impl View for Record {
    type V = RecordModel;

    open spec fn view(&self) -> RecordModel {
        RecordModel {
            sid: self.sid@,
            qualified_name: self.qualified_name@,
            kind_found: self.kind_found,
            values: value_models(self.values@),
            withheld: self.withheld@,
        }
    }
}

/// Records as values.
pub open spec fn record_models(of: Seq<Record>) -> Seq<RecordModel> {
    of.map_values(|record: Record| record@)
}

/// What a caller names an object by.
#[derive(Debug, PartialEq, Eq)]
pub enum Key {
    Name(String),
    Sid(Vec<u8>),
    UnixId(u32),
}

/// What a caller names an object by, mathematically.
pub enum KeyModel {
    Name(Seq<char>),
    Sid(Seq<u8>),
    UnixId(u32),
}

impl View for Key {
    type V = KeyModel;

    open spec fn view(&self) -> KeyModel {
        match *self {
            Key::Name(name) => KeyModel::Name(name@),
            Key::Sid(bytes) => KeyModel::Sid(bytes@),
            Key::UnixId(id) => KeyModel::UnixId(id),
        }
    }
}

/// What a source is asked about an object by. A source counts in its own
/// numbers.
#[derive(Debug, PartialEq, Eq)]
pub enum SourceKey {
    Name(String),
    Sid(Vec<u8>),
    RelativeId(u32),
}

/// What a source is asked about an object by, mathematically.
pub enum SourceKeyModel {
    Name(Seq<char>),
    Sid(Seq<u8>),
    RelativeId(u32),
}

impl View for SourceKey {
    type V = SourceKeyModel;

    open spec fn view(&self) -> SourceKeyModel {
        match *self {
            SourceKey::Name(name) => SourceKeyModel::Name(name@),
            SourceKey::Sid(bytes) => SourceKeyModel::Sid(bytes@),
            SourceKey::RelativeId(id) => SourceKeyModel::RelativeId(id),
        }
    }
}

/// One page of a source's enumeration.
#[derive(Debug, PartialEq, Eq)]
pub struct EnumerateResult {
    pub outcome: Outcome,
    pub entries: Vec<QueryEntry>,
    /// Where the source's next page begins, or empty for none.
    pub next: Vec<u8>,
}

/// What this build's protocol library fixes.
#[derive(Debug, Clone, Copy, PartialEq, Eq, Structural)]
pub struct Protocol {
    /// The longest name there is, in bytes.
    pub max_name_bytes: usize,
    /// Every field it has a meaning for.
    pub known: Fields,
}

/// A bit that comes before another is the smaller number, and none is zero.
proof fn lemma_bits(a: u32, b: u32)
    requires
        a < b < 32,
    ensures
        (1u32 << a) < (1u32 << b),
{
    assert((1u32 << a) < (1u32 << b)) by (bit_vector)
        requires
            a < b < 32,
    ;
}

/// Whether a number is one bit of another, at a place or after it.
pub open spec fn a_bit_of(bits: u32, from: u32, single: u32) -> bool {
    exists|b: u32|
        from <= b < 32 && bits & (1u32 << b) != 0 && single == #[trigger] (1u32 << b)
}

/// The fields of a set one by one are each a single bit of it from a place on, and
/// every such bit, in ascending order.
pub proof fn law_every_field_of_a_set_is_one_of_its_bits(bits: u32, from: u32)
    requires
        from <= 32,
    ensures
        forall|b: u32|
            from <= b < 32 && bits & (1u32 << b) != 0 ==> singles_from(bits, from).contains(
                #[trigger] (1u32 << b),
            ),
        forall|i: int|
            0 <= i < singles_from(bits, from).len() ==> a_bit_of(
                bits,
                from,
                #[trigger] singles_from(bits, from)[i],
            ),
        forall|i: int, j: int|
            0 <= i < j < singles_from(bits, from).len() ==> singles_from(bits, from)[i]
                < singles_from(bits, from)[j],
    decreases 32 - from,
{
    if from < 32 {
        let all = singles_from(bits, from);
        let rest = singles_from(bits, (from + 1) as u32);
        law_every_field_of_a_set_is_one_of_its_bits(bits, (from + 1) as u32);
        assert forall|i: int| 0 <= i < rest.len() implies a_bit_of(
            bits,
            from,
            #[trigger] rest[i],
        ) by {
            assert(a_bit_of(bits, (from + 1) as u32, rest[i]));
        }
        if bits & (1u32 << from) != 0 {
            assert(all[0] == 1u32 << from);
            assert forall|i: int| 0 <= i < rest.len() implies all[i + 1] == #[trigger] rest[i] by {}
            assert forall|b: u32| from <= b < 32 && bits & (1u32 << b) != 0 implies all.contains(
                #[trigger] (1u32 << b),
            ) by {
                if b > from {
                    assert(rest.contains(1u32 << b));
                    let k = choose|k: int| 0 <= k < rest.len() && rest[k] == 1u32 << b;
                    assert(all[k + 1] == 1u32 << b);
                }
            }
            assert forall|i: int| 0 <= i < all.len() implies a_bit_of(
                bits,
                from,
                #[trigger] all[i],
            ) by {
                if i > 0 {
                    assert(all[i] == rest[i - 1]);
                    assert(a_bit_of(bits, (from + 1) as u32, rest[i - 1]));
                }
            }
            assert forall|i: int, j: int| 0 <= i < j < all.len() implies all[i] < all[j] by {
                assert(all[j] == rest[j - 1]);
                if i > 0 {
                    assert(all[i] == rest[i - 1]);
                } else {
                    assert(a_bit_of(bits, (from + 1) as u32, rest[j - 1]));
                    let b = choose|b: u32|
                        from + 1 <= b < 32 && bits & (1u32 << b) != 0 && rest[j - 1]
                            == #[trigger] (1u32 << b);
                    lemma_bits(from, b);
                }
            }
        }
    }
}

/// An object answers a question about its own kind, or about either.
pub proof fn law_what_answers_what(kind: Kind, wanted: Kind)
    ensures
        wanted is Any ==> kind.answers(wanted),
        !(wanted is Any) ==> (kind.answers(wanted) <==> kind == wanted),
{
}

/// A set covers another exactly where it has every bit of it.
pub proof fn law_covering_is_bit_by_bit(set: Fields, other: Fields)
    ensures
        set.covers(other) <==> forall|b: u32|
            b < 32 && #[trigger] (other.bits & (1u32 << b)) != 0 ==> set.bits & (1u32 << b) != 0,
{
    let (a, o) = (set.bits, other.bits);
    if set.covers(other) {
        assert forall|b: u32| b < 32 && #[trigger] (o & (1u32 << b)) != 0 implies a & (1u32 << b)
            != 0 by {
            assert(a & (1u32 << b) != 0) by (bit_vector)
                requires
                    a & o == o,
                    o & (1u32 << b) != 0,
            ;
        }
    } else {
        lemma_missing_bit(a, o, 32);
    }
}

/// A set that does not cover another lacks some bit of it, which is looked for
/// from the top down.
proof fn lemma_missing_bit(a: u32, o: u32, below: u32)
    requires
        below <= 32,
        below < 32 ==> ((o & !a) >> below) == 0,
        a & o != o,
    ensures
        exists|b: u32| b < 32 && #[trigger] (o & (1u32 << b)) != 0 && a & (1u32 << b) == 0,
    decreases below,
{
    if below == 0 {
        assert(a & o == o) by (bit_vector)
            requires
                ((o & !a) >> 0u32) == 0,
        ;
    } else {
        let b = (below - 1) as u32;
        if o & (1u32 << b) != 0 && a & (1u32 << b) == 0 {
            assert((o & (1u32 << b)) != 0 && a & (1u32 << b) == 0);
        } else {
            if below == 32 {
                assert(((o & !a) >> 31u32) == 0) by (bit_vector)
                    requires
                        !(o & (1u32 << 31u32) != 0 && a & (1u32 << 31u32) == 0),
                ;
            } else {
                assert(((o & !a) >> b) == 0) by (bit_vector)
                    requires
                        0 < below < 32,
                        b == (below - 1) as u32,
                        ((o & !a) >> below) == 0,
                        !(o & (1u32 << b) != 0 && a & (1u32 << b) == 0),
                ;
            }
            lemma_missing_bit(a, o, b);
        }
    }
}

/// An answered field is what it holds: its number, its reference, its references one by
/// one and in order, its path, its set.
pub proof fn law_a_value_is_what_it_holds(value: Value, i: int)
    ensures
        match value {
            Value::UnixId(id) => value@ == ValueModel::UnixId(id),
            Value::PrimaryGroup(reference) => value@ matches ValueModel::PrimaryGroup(model)
                && model.sid == reference.sid@ && model.name == reference.name@ && model.unix_id
                == reference.unix_id,
            Value::Groups(refs) => value@ matches ValueModel::Groups(models) && models.len()
                == refs@.len() && (0 <= i < refs@.len() ==> models[i].sid == refs@[i].sid@
                && models[i].name == refs@[i].name@ && models[i].unix_id == refs@[i].unix_id),
            Value::Members(refs) => value@ matches ValueModel::Members(models) && models.len()
                == refs@.len() && (0 <= i < refs@.len() ==> models[i].sid == refs@[i].sid@
                && models[i].name == refs@[i].name@ && models[i].unix_id == refs@[i].unix_id),
            Value::Home(path) => value@ == ValueModel::Home(path@),
            Value::Shell(path) => value@ == ValueModel::Shell(path@),
            Value::LogonTypes(types) => value@ == ValueModel::LogonTypes(types),
            Value::Other(at) => value@ == ValueModel::Other(at),
        },
{
}

/// What a source describes, and what the authority does, is each part of it: the SID,
/// the name, the kind, the fields one by one and in order, and those withheld.
pub proof fn law_a_description_is_its_parts(entry: QueryEntry, record: Record, i: int)
    ensures
        entry@.outcome == entry.outcome,
        entry@.sid == entry.sid@,
        entry@.canonical_name == entry.canonical_name@,
        entry@.kind == entry.kind,
        entry@.values.len() == entry.values@.len(),
        0 <= i < entry.values@.len() ==> entry@.values[i] == entry.values@[i]@,
        entry@.withheld == entry.withheld@,
        record@.sid == record.sid@,
        record@.qualified_name == record.qualified_name@,
        record@.kind_found == record.kind_found,
        record@.values.len() == record.values@.len(),
        0 <= i < record.values@.len() ==> record@.values[i] == record.values@[i]@,
        record@.withheld == record.withheld@,
{
}

/// A key is the name, the SID or the number it is; and a list is its objects, one by one
/// and in order.
pub proof fn law_a_key_is_what_it_names(
    key: Key,
    own: SourceKey,
    entries: Seq<QueryEntry>,
    records: Seq<Record>,
    i: int,
)
    ensures
        match key {
            Key::Name(name) => key@ == KeyModel::Name(name@),
            Key::Sid(bytes) => key@ == KeyModel::Sid(bytes@),
            Key::UnixId(id) => key@ == KeyModel::UnixId(id),
        },
        match own {
            SourceKey::Name(name) => own@ == SourceKeyModel::Name(name@),
            SourceKey::Sid(bytes) => own@ == SourceKeyModel::Sid(bytes@),
            SourceKey::RelativeId(id) => own@ == SourceKeyModel::RelativeId(id),
        },
        entry_models(entries).len() == entries.len(),
        0 <= i < entries.len() ==> entry_models(entries)[i] == entries[i]@,
        record_models(records).len() == records.len(),
        0 <= i < records.len() ==> record_models(records)[i] == records[i]@,
{
}

} // verus!
