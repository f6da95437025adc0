//! Policy, read from the registry.
//!
//! Two different questions live here, in two different registry subtrees,
//! and keeping them apart is the point of the split:
//!
//! - [`principal`]: **what this machine grants a principal.** Under
//!   `Machine\Generic\Authn\Policy`, because it is policy about what a logon
//!   *means*; a different authority answering the same socket should read the
//!   same key.
//! - [`sources`]: **which principal sources may register.** Under
//!   `Machine\Software\Authd`, because principal sources are this authority's
//!   own concept.
//!
//! # Read per logon, not at startup
//!
//! Policy that only takes effect after restarting the authority is a footgun: a
//! change appears to do nothing, and the fix is to restart the one daemon on
//! the system that is most disruptive to restart.
//!
//! # Never written
//!
//! Nothing here asks for a registry key to be written or created, so policy
//! behaves identically on a machine that has never been configured and one
//! where an administrator deleted the key.

use crate::text;
use vstd::prelude::*;

pub mod principal;
pub mod sources;

pub use principal::{logon_socket_descriptor, originator_logon_types, Outcome};
pub use sources::{sources, SourceEntry, SOURCES_KEY};

verus! {

/// What a registry value says it is.
#[derive(Debug, Clone, Copy, PartialEq, Eq, Structural)]
pub enum ValueType {
    Dword,
    Sz,
    MultiSz,
    /// Any other type, by its number.
    Other(u32),
}

/// A registry value: a type tag and some bytes, neither of them validated.
#[derive(Debug, PartialEq, Eq)]
pub struct Value {
    pub ty: ValueType,
    pub data: Vec<u8>,
}

/// Four bytes, least significant first.
pub open spec fn little_endian(data: Seq<u8>) -> u32 {
    (data[0] + data[1] * 0x100 + data[2] * 0x1_0000 + data[3] * 0x100_0000) as u32
}

/// The number a value is, if it is one.
pub open spec fn dword_of(ty: ValueType, data: Seq<u8>) -> Option<u32> {
    if ty == ValueType::Dword && data.len() == 4 {
        Some(little_endian(data))
    } else {
        None
    }
}

/// The bytes before the first NUL.
pub open spec fn until_nul(data: Seq<u8>) -> Seq<u8>
    decreases data.len(),
{
    if data.len() == 0 || data[0] == 0 {
        Seq::empty()
    } else {
        seq![data[0]] + until_nul(data.drop_first())
    }
}

/// Some bytes as trimmed text, if they are text.
pub open spec fn text_of(bytes: Seq<u8>) -> Option<Seq<char>> {
    if vstd::utf8::valid_utf8(bytes) {
        Some(text::trimmed(vstd::utf8::decode_utf8(bytes)))
    } else {
        None
    }
}

/// The text a value is, if it is one.
pub open spec fn sz_of(ty: ValueType, data: Seq<u8>) -> Option<Seq<char>> {
    if ty == ValueType::Sz {
        text_of(until_nul(data))
    } else {
        None
    }
}

/// The non-empty texts among NUL-separated pieces.
pub open spec fn strings(data: Seq<u8>) -> Seq<Seq<char>>
    decreases data.len(),
{
    let head = until_nul(data);
    let first = match text_of(head) {
        Some(text) => if text.len() > 0 {
            seq![text]
        } else {
            Seq::empty()
        },
        None => Seq::empty(),
    };
    if head.len() < data.len() {
        first + strings(data.skip(head.len() as int + 1))
    } else {
        first
    }
}

/// The list of texts a value is, if it is one.
pub open spec fn multi_sz_of(ty: ValueType, data: Seq<u8>) -> Option<Seq<Seq<char>>> {
    if ty == ValueType::MultiSz {
        Some(strings(data))
    } else {
        None
    }
}

/// Borrowed texts as values.
pub open spec fn texts(of: Seq<&str>) -> Seq<Seq<char>> {
    of.map_values(|text: &str| text@)
}

/// Read a `REG_DWORD`'s value, if that is what this is.
///
/// The type tag *and* the length are both checked. The registry validates
/// neither, so a value claiming to be a DWORD while carrying three bytes is
/// representable, and must not be read as though the missing byte were zero.
pub fn dword(ty: &ValueType, data: &[u8]) -> (number: Option<u32>)
    ensures
        number == dword_of(*ty, data@),
{
    if *ty != ValueType::Dword || data.len() != 4 {
        return None;
    }
    Some(
        data[0] as u32 + data[1] as u32 * 0x100 + data[2] as u32 * 0x1_0000 + data[3] as u32
            * 0x100_0000,
    )
}

/// Where the first NUL at or after `from` is, or the end.
fn nul_after(data: &[u8], from: usize) -> (at: usize)
    requires
        from <= data@.len(),
    ensures
        from <= at <= data@.len(),
        until_nul(data@.skip(from as int)) == data@.subrange(from as int, at as int),
        at < data@.len() ==> data@[at as int] == 0,
{
    let mut at: usize = from;
    let ghost whole = data@.skip(from as int);
    assert(data@.subrange(from as int, at as int) + until_nul(whole) =~= until_nul(whole));
    while at < data.len() && data[at] != 0
        invariant
            from <= at <= data@.len(),
            whole == data@.skip(from as int),
            until_nul(whole) == data@.subrange(from as int, at as int) + until_nul(
                data@.skip(at as int),
            ),
        decreases data@.len() - at,
    {
        proof {
            let rest = data@.skip(at as int);
            assert(rest[0] == data@[at as int]);
            assert(rest.drop_first() =~= data@.skip(at + 1));
            assert(data@.subrange(from as int, at as int) + (seq![rest[0]] + until_nul(
                rest.drop_first(),
            )) =~= data@.subrange(from as int, at + 1) + until_nul(data@.skip(at + 1)));
        }
        at += 1;
    }
    assert(until_nul(data@.skip(at as int)) =~= Seq::empty());
    assert(data@.subrange(from as int, at as int) + Seq::<u8>::empty() =~= data@.subrange(
        from as int,
        at as int,
    ));
    at
}

/// Some bytes as trimmed text, if they are text.
fn trimmed_text(bytes: &[u8]) -> (text: Option<&str>)
    ensures
        text is Some <==> text_of(bytes@) is Some,
        text matches Some(found) ==> found@ == text_of(bytes@)->0,
{
    match text::utf8(bytes) {
        Some(found) => Some(text::trim(found)),
        None => None,
    }
}

/// Read a `REG_SZ`'s text, if that is what this is.
///
/// Stops at the first NUL rather than trusting the stored length: the registry
/// keeps a byte count, and a writer that included the terminator and one that
/// did not would otherwise produce values that compare unequal.
pub fn sz<'a>(ty: &ValueType, data: &'a [u8]) -> (text: Option<&'a str>)
    ensures
        text is Some <==> sz_of(*ty, data@) is Some,
        text matches Some(found) ==> found@ == sz_of(*ty, data@)->0,
{
    if *ty != ValueType::Sz {
        return None;
    }
    let end: usize = nul_after(data, 0);
    assert(data@.skip(0) =~= data@);
    trimmed_text(vstd::slice::slice_subrange(data, 0, end))
}

/// Read a `REG_MULTI_SZ` as a list of strings.
///
/// A `REG_MULTI_SZ` is NUL-separated and double-NUL terminated, so splitting on
/// NUL yields one or two trailing empties. Empty entries are dropped rather than
/// preserved: nothing this reads has a meaningful empty element, and a writer
/// that omitted the final terminator would otherwise produce a different list
/// from one that included it.
///
/// **A value carrying no strings is a successful read of an empty list**, not a
/// failure. That is how "this principal gets nothing" is written, and it has to
/// be distinguishable from the value being absent.
pub fn multi_sz<'a>(ty: &ValueType, data: &'a [u8]) -> (list: Option<Vec<&'a str>>)
    ensures
        list is Some <==> multi_sz_of(*ty, data@) is Some,
        list matches Some(found) ==> texts(found@) == multi_sz_of(*ty, data@)->0,
{
    if *ty != ValueType::MultiSz {
        return None;
    }
    let mut found: Vec<&'a str> = Vec::new();
    let mut from: usize = 0;
    let mut more = true;
    proof {
        assert(data@.skip(0) =~= data@);
        assert(texts(found@) + strings(data@) =~= strings(data@));
    }
    while more
        invariant
            from <= data@.len(),
            more ==> strings(data@) == texts(found@) + strings(data@.skip(from as int)),
            !more ==> strings(data@) == texts(found@),
        decreases data@.len() - from + (if more { 1int } else { 0int }),
    {
        let end: usize = nul_after(data, from);
        let piece = vstd::slice::slice_subrange(data, from, end);
        let ghost before = texts(found@);
        let ghost rest = data@.skip(from as int);
        let ghost mut first: Seq<Seq<char>> = Seq::empty();
        if let Some(text) = trimmed_text(piece) {
            if text.unicode_len() > 0 {
                proof {
                    first = seq![text@];
                }
                found.push(text);
            }
        }
        proof {
            assert(texts(found@) =~= before + first);
            assert(piece@ == until_nul(rest));
            if end < data@.len() {
                assert(rest.skip(piece@.len() as int + 1) =~= data@.skip(end + 1));
                assert(strings(rest) == first + strings(data@.skip(end + 1)));
                assert(before + (first + strings(data@.skip(end + 1))) =~= (before + first)
                    + strings(data@.skip(end + 1)));
            } else {
                assert(strings(rest) == first);
            }
        }
        if end < data.len() {
            from = end + 1;
        } else {
            more = false;
        }
    }
    Some(found)
}

/// An empty `REG_MULTI_SZ`, however it is terminated, reads as an empty list
/// and never as a failure.
pub proof fn law_an_empty_list_is_a_list(data: Seq<u8>)
    requires
        forall|i: int| 0 <= i < data.len() ==> data[i] == 0,
    ensures
        multi_sz_of(ValueType::MultiSz, data) == Some(Seq::<Seq<char>>::empty()),
    decreases data.len(),
{
    let empty = Seq::<u8>::empty();
    assert(until_nul(data) =~= empty);
    assert(text_of(empty) matches Some(text) ==> text.len() == 0) by {
        assert(vstd::utf8::decode_utf8(empty) =~= Seq::<char>::empty());
    }
    if data.len() > 0 {
        law_an_empty_list_is_a_list(data.skip(1));
    }
    assert(strings(data) =~= Seq::<Seq<char>>::empty());
}

/// A trailing terminator does not change what a `REG_SZ` reads as, nor does
/// anything after it.
pub proof fn law_the_terminator_is_optional(data: Seq<u8>, after: Seq<u8>)
    ensures
        sz_of(ValueType::Sz, data + seq![0u8] + after) == sz_of(ValueType::Sz, data),
    decreases data.len(),
{
    lemma_until_nul(data, after);
}

proof fn lemma_until_nul(data: Seq<u8>, after: Seq<u8>)
    ensures
        until_nul(data + seq![0u8] + after) == until_nul(data),
    decreases data.len(),
{
    let whole = data + seq![0u8] + after;
    if data.len() > 0 {
        assert(whole[0] == data[0]);
        assert(whole.drop_first() =~= data.drop_first() + seq![0u8] + after);
        lemma_until_nul(data.drop_first(), after);
    } else {
        assert(whole[0] == 0);
    }
}

/// A number is four bytes, the least significant first, of a value that says it is
/// one; a value of another type or of another length is no number.
pub proof fn law_what_a_number_is(ty: ValueType, data: Seq<u8>)
    ensures
        ty is Dword && data.len() == 4 ==> (dword_of(ty, data) matches Some(number) && number
            == data[0] + 256 * (data[1] + 256 * (data[2] + 256 * data[3]))),
        !(ty is Dword) || data.len() != 4 ==> dword_of(ty, data) is None,
{
}

/// What comes before the first zero is everything where there is none, and otherwise
/// everything up to it.
pub proof fn law_a_text_ends_at_the_first_zero(data: Seq<u8>)
    ensures
        ({
            let head = until_nul(data);
            &&& head.len() <= data.len()
            &&& head == data.subrange(0, head.len() as int)
            &&& forall|i: int| 0 <= i < head.len() ==> #[trigger] data[i] != 0
            &&& head.len() < data.len() ==> data[head.len() as int] == 0
        }),
    decreases data.len(),
{
    if data.len() > 0 && data[0] != 0 {
        let rest = data.drop_first();
        law_a_text_ends_at_the_first_zero(rest);
        let head = until_nul(data);
        let tail = until_nul(rest);
        assert(head =~= data.subrange(0, head.len() as int)) by {
            assert forall|i: int| 0 <= i < head.len() implies head[i] == data[i] by {
                if i > 0 {
                    assert(head[i] == tail[i - 1]);
                    assert(tail[i - 1] == rest[i - 1]);
                }
            }
        }
        assert forall|i: int| 0 <= i < head.len() implies #[trigger] data[i] != 0 by {
            if i > 0 {
                assert(rest[i - 1] == data[i]);
            }
        }
        assert(head.len() < data.len() ==> data[head.len() as int] == rest[tail.len() as int]);
    } else {
        assert(until_nul(data) =~= data.subrange(0, 0));
    }
}

/// A text is what its bytes spell before the first zero, trimmed, of a value that
/// says it is one and spells anything; any other value is no text.
pub proof fn law_what_a_text_is(ty: ValueType, data: Seq<u8>)
    ensures
        ({
            let head = until_nul(data);
            &&& ty is Sz && vstd::utf8::valid_utf8(head) ==> sz_of(ty, data) == Some(
                text::trimmed(vstd::utf8::decode_utf8(head)),
            )
            &&& !(ty is Sz) || !vstd::utf8::valid_utf8(head) ==> sz_of(ty, data) is None
        }),
{
}

/// A list of texts is read piece by piece: what two pieces with a zero between them
/// list is what the first lists and then what the second does. A piece without a zero
/// lists its text, trimmed, if it spells one that is not empty, and nothing otherwise.
pub proof fn law_a_list_is_read_piece_by_piece(first: Seq<u8>, second: Seq<u8>)
    ensures
        strings(first + seq![0u8] + second) == strings(first) + strings(second),
        (forall|i: int| 0 <= i < first.len() ==> #[trigger] first[i] != 0) ==> ({
            let spelled = text::trimmed(vstd::utf8::decode_utf8(first));
            strings(first) == (if vstd::utf8::valid_utf8(first) && spelled.len() > 0 {
                seq![spelled]
            } else {
                Seq::empty()
            })
        }),
    decreases first.len(),
{
    let whole = first + seq![0u8] + second;
    let head = until_nul(first);
    lemma_until_nul(first, second);
    law_a_text_ends_at_the_first_zero(first);
    let listed = match text_of(head) {
        Some(text) => if text.len() > 0 {
            seq![text]
        } else {
            Seq::empty()
        },
        None => Seq::empty(),
    };
    if head.len() < first.len() {
        let rest = first.skip(head.len() as int + 1);
        assert(whole.skip(head.len() as int + 1) =~= rest + seq![0u8] + second);
        law_a_list_is_read_piece_by_piece(rest, second);
        assert(listed + (strings(rest) + strings(second)) =~= (listed + strings(rest)) + strings(
            second,
        ));
    } else {
        assert(head =~= first);
        assert(whole.skip(head.len() as int + 1) =~= second);
    }
    if forall|i: int| 0 <= i < first.len() ==> #[trigger] first[i] != 0 {
        if head.len() < first.len() {
            assert(first[head.len() as int] == 0);
        }
        assert(head =~= first);
    }
}

/// A value that says it is a list is one, whatever is in it, and no other is.
pub proof fn law_what_a_list_is(ty: ValueType, data: Seq<u8>)
    ensures
        ty is MultiSz ==> multi_sz_of(ty, data) == Some(strings(data)),
        !(ty is MultiSz) ==> multi_sz_of(ty, data) is None,
{
}

/// A list of texts is its texts, one by one and in order.
pub proof fn law_a_list_is_its_texts(of: Seq<&str>, i: int)
    ensures
        texts(of).len() == of.len(),
        0 <= i < of.len() ==> texts(of)[i] == of[i]@,
{
}

} // verus!
