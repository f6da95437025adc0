//! Small questions about text that several rules ask the same way.

use vstd::prelude::*;

verus! {

/// A character with an ASCII capital made small, and every other one as it is.
pub open spec fn lowered(c: char) -> char {
    if 'A' <= c <= 'Z' {
        (c as u32 + 32) as char
    } else {
        c
    }
}

/// A character with an ASCII small letter made capital, and every other one as
/// it is.
pub open spec fn raised(c: char) -> char {
    if 'a' <= c <= 'z' {
        (c as u32 - 32) as char
    } else {
        c
    }
}

/// The two texts differ at most in the case of their ASCII letters.
pub open spec fn same_word(a: Seq<char>, b: Seq<char>) -> bool {
    &&& a.len() == b.len()
    &&& forall|i: int| 0 <= i < a.len() ==> lowered(#[trigger] a[i]) == lowered(b[i])
}

/// `a` comes before `b`, character by character.
pub open spec fn before(a: Seq<char>, b: Seq<char>) -> bool
    decreases a.len(),
{
    if b.len() == 0 {
        false
    } else if a.len() == 0 {
        true
    } else if a[0] != b[0] {
        a[0] < b[0]
    } else {
        before(a.drop_first(), b.drop_first())
    }
}

/// Unicode white space.
pub open spec fn blank(c: char) -> bool {
    let c = c as u32;
    ||| 0x9 <= c <= 0xd
    ||| c == 0x20
    ||| c == 0x85
    ||| c == 0xa0
    ||| c == 0x1680
    ||| 0x2000 <= c <= 0x200a
    ||| c == 0x2028
    ||| c == 0x2029
    ||| c == 0x202f
    ||| c == 0x205f
    ||| c == 0x3000
}

/// The text without the white space at its start.
pub open spec fn trimmed_start(s: Seq<char>) -> Seq<char>
    decreases s.len(),
{
    if s.len() > 0 && blank(s[0]) {
        trimmed_start(s.drop_first())
    } else {
        s
    }
}

/// The text without the white space at its end.
pub open spec fn trimmed_end(s: Seq<char>) -> Seq<char>
    decreases s.len(),
{
    if s.len() > 0 && blank(s.last()) {
        trimmed_end(s.drop_last())
    } else {
        s
    }
}

/// The text without the white space around it.
pub open spec fn trimmed(s: Seq<char>) -> Seq<char> {
    trimmed_end(trimmed_start(s))
}

/// The characters of a text, one by one.
pub fn chars_of(text: &str) -> (chars: Vec<char>)
    ensures
        chars@ == text@,
{
    let mut chars: Vec<char> = Vec::new();
    for c in it: text.chars()
        invariant
            chars@ == text@.take(it.index() as int),
            it.seq() == text@,
    {
        chars.push(c);
        assert(text@.take(it.index() as int + 1) =~= text@.take(it.index() as int).push(c));
    }
    assert(text@.take(text@.len() as int) =~= text@);
    chars
}

/// One character with an ASCII capital made small.
fn lower(c: char) -> (small: char)
    ensures
        small == lowered(c),
{
    if 'A' <= c && c <= 'Z' {
        let code: u8 = c as u8 + 32;
        code as char
    } else {
        c
    }
}

/// One character with an ASCII small letter made capital.
pub fn raise(c: char) -> (capital: char)
    ensures
        capital == raised(c),
{
    if 'a' <= c && c <= 'z' {
        let code: u8 = c as u8 - 32;
        code as char
    } else {
        c
    }
}

/// Whether two texts are the same word, ignoring the case of ASCII letters.
pub fn eq_ignoring_case(a: &str, b: &str) -> (same: bool)
    ensures
        same <==> same_word(a@, b@),
{
    let (left, right) = (chars_of(a), chars_of(b));
    if left.len() != right.len() {
        return false;
    }
    let mut i: usize = 0;
    while i < left.len()
        invariant
            i <= left@.len() == right@.len(),
            left@ == a@,
            right@ == b@,
            forall|j: int| 0 <= j < i ==> lowered(#[trigger] a@[j]) == lowered(b@[j]),
        decreases left@.len() - i,
    {
        if lower(left[i]) != lower(right[i]) {
            assert(lowered(a@[i as int]) != lowered(b@[i as int]));
            return false;
        }
        i += 1;
    }
    true
}

/// Whether two texts are the same text.
pub fn eq(a: &str, b: &str) -> (same: bool)
    ensures
        same <==> a@ == b@,
{
    let (left, right) = (chars_of(a), chars_of(b));
    if left.len() != right.len() {
        return false;
    }
    let mut i: usize = 0;
    while i < left.len()
        invariant
            i <= left@.len() == right@.len(),
            left@ == a@,
            right@ == b@,
            forall|j: int| 0 <= j < i ==> a@[j] == b@[j],
        decreases left@.len() - i,
    {
        if left[i] != right[i] {
            return false;
        }
        i += 1;
    }
    assert(a@ =~= b@);
    true
}

/// Whether one text comes before another.
pub fn is_before(a: &str, b: &str) -> (less: bool)
    ensures
        less <==> before(a@, b@),
{
    let (left, right) = (chars_of(a), chars_of(b));
    let mut i: usize = 0;
    assert(a@.skip(0) =~= a@);
    assert(b@.skip(0) =~= b@);
    while i < left.len() && i < right.len()
        invariant
            i <= left@.len(),
            i <= right@.len(),
            left@ == a@,
            right@ == b@,
            before(a@, b@) == before(a@.skip(i as int), b@.skip(i as int)),
        decreases left@.len() - i,
    {
        if left[i] != right[i] {
            return left[i] < right[i];
        }
        proof {
            assert(a@.skip(i as int).drop_first() =~= a@.skip(i + 1));
            assert(b@.skip(i as int).drop_first() =~= b@.skip(i + 1));
        }
        i += 1;
    }
    i < right.len()
}

/// Whether a character is white space.
fn is_blank(c: char) -> (yes: bool)
    ensures
        yes <==> blank(c),
{
    let code: u32 = c as u32;
    (0x9 <= code && code <= 0xd) || code == 0x20 || code == 0x85 || code == 0xa0 || code == 0x1680
        || (0x2000 <= code && code <= 0x200a) || code == 0x2028 || code == 0x2029 || code == 0x202f
        || code == 0x205f || code == 0x3000
}

/// The text without the white space around it.
pub fn trim(text: &str) -> (inner: &str)
    ensures
        inner@ == trimmed(text@),
{
    let chars = chars_of(text);
    let mut from: usize = 0;
    assert(text@.skip(0) =~= text@);
    while from < chars.len() && is_blank(chars[from])
        invariant
            from <= chars@.len(),
            chars@ == text@,
            trimmed_start(text@) == trimmed_start(text@.skip(from as int)),
        decreases chars@.len() - from,
    {
        assert(text@.skip(from as int).drop_first() =~= text@.skip(from + 1));
        from += 1;
    }
    let ghost start = trimmed_start(text@);
    assert(start == text@.skip(from as int));
    let mut to: usize = chars.len();
    assert(text@.subrange(from as int, to as int) =~= start);
    while to > from && is_blank(chars[to - 1])
        invariant
            from <= to <= chars@.len(),
            chars@ == text@,
            trimmed_end(start) == trimmed_end(text@.subrange(from as int, to as int)),
        decreases to,
    {
        let ghost rest = text@.subrange(from as int, to as int);
        assert(rest.last() == text@[to - 1]);
        assert(rest.drop_last() =~= text@.subrange(from as int, to - 1));
        to -= 1;
    }
    assert(to > from ==> text@.subrange(from as int, to as int).last() == text@[to - 1]);
    text.substring_char(from, to)
}

/// [`core::str::from_utf8`]: the text the bytes are the UTF-8 of, exactly when
/// they are valid UTF-8.
#[verifier::external_body]
pub(crate) fn utf8(bytes: &[u8]) -> (text: Option<&str>)
    ensures
        text is Some <==> vstd::utf8::valid_utf8(bytes@),
        text matches Some(text) ==> text@ == vstd::utf8::decode_utf8(bytes@),
{
    core::str::from_utf8(bytes).ok()
}

/// No text comes before itself.
pub proof fn lemma_before_irreflexive(a: Seq<char>)
    ensures
        !before(a, a),
    decreases a.len(),
{
    if a.len() > 0 {
        lemma_before_irreflexive(a.drop_first());
    }
}

/// Of two different texts, exactly one comes first.
pub proof fn lemma_before_total(a: Seq<char>, b: Seq<char>)
    ensures
        a != b ==> before(a, b) != before(b, a),
    decreases a.len(),
{
    if a.len() > 0 && b.len() > 0 && a[0] == b[0] {
        lemma_before_total(a.drop_first(), b.drop_first());
        if a.drop_first() == b.drop_first() {
            assert(a =~= seq![a[0]] + a.drop_first());
            assert(b =~= seq![b[0]] + b.drop_first());
        }
    } else if a.len() == 0 && b.len() == 0 {
        assert(a =~= b);
    }
}

/// Coming first is transitive.
pub proof fn lemma_before_transitive(a: Seq<char>, b: Seq<char>, c: Seq<char>)
    requires
        before(a, b),
        before(b, c),
    ensures
        before(a, c),
    decreases a.len(),
{
    if a.len() > 0 && b.len() > 0 && c.len() > 0 && a[0] == b[0] && b[0] == c[0] {
        lemma_before_transitive(a.drop_first(), b.drop_first(), c.drop_first());
    }
}

/// Texts that are the same word in capitals are the same word.
pub proof fn lemma_same_word_raised(a: Seq<char>, b: Seq<char>)
    ensures
        same_word(a, b) <==> a.len() == b.len() && forall|i: int|
            0 <= i < a.len() ==> raised(#[trigger] a[i]) == raised(b[i]),
{
    assert forall|x: char, y: char| lowered(x) == lowered(y) implies raised(x) == raised(y) by {}
    assert forall|x: char, y: char| raised(x) == raised(y) implies lowered(x) == lowered(y) by {}
}

/// What the case of a letter is: from 65 to 90 it is a capital, and 32 more make it
/// small; from 97 to 122 it is small, and 32 less make it a capital; and nothing else
/// changes.
pub proof fn law_only_ascii_letters_have_a_case(c: char)
    ensures
        65 <= c as u32 <= 90 ==> lowered(c) as u32 == c as u32 + 32,
        !(65 <= c as u32 <= 90) ==> lowered(c) == c,
        97 <= c as u32 <= 122 ==> raised(c) as u32 == c as u32 - 32,
        !(97 <= c as u32 <= 122) ==> raised(c) == c,
{
}

/// Two texts are the same word exactly where they are as long as each other and at
/// each place have the same character, or a letter and its other case.
pub proof fn law_what_the_same_word_is(a: Seq<char>, b: Seq<char>)
    ensures
        same_word(a, b) <==> a.len() == b.len() && forall|i: int|
            0 <= i < a.len() ==> same_letter(#[trigger] a[i], b[i]),
{
    assert forall|i: int| 0 <= i < a.len() && a.len() == b.len() implies (same_letter(
        #[trigger] a[i],
        b[i],
    ) <==> lowered(a[i]) == lowered(b[i])) by {
        lemma_letters(a[i], b[i]);
    }
}

/// Whether two characters are one, or one letter in its two cases.
pub open spec fn same_letter(x: char, y: char) -> bool {
    ||| x == y
    ||| 65 <= x as u32 <= 90 && y as u32 == x as u32 + 32
    ||| 65 <= y as u32 <= 90 && x as u32 == y as u32 + 32
}

proof fn lemma_letters(x: char, y: char)
    ensures
        same_letter(x, y) <==> lowered(x) == lowered(y),
{
}

/// One text comes before another exactly where, after what they begin with in common,
/// it has ended and the other has not, or it has the character with the lower code.
pub proof fn law_the_first_difference_decides(a: Seq<char>, b: Seq<char>)
    ensures
        before(a, b) <==> exists|k: int| #[trigger] differ_at(a, b, k),
    decreases a.len(),
{
    if b.len() > 0 && a.len() > 0 && a[0] == b[0] {
        let (x, y) = (a.drop_first(), b.drop_first());
        law_the_first_difference_decides(x, y);
        if before(x, y) {
            let k = choose|k: int| #[trigger] differ_at(x, y, k);
            assert forall|j: int| 0 <= j < k + 1 implies #[trigger] a[j] == b[j] by {
                if j > 0 {
                    assert(x[j - 1] == y[j - 1]);
                }
            }
            assert(k < x.len() ==> x[k] == a[k + 1]);
            assert(differ_at(a, b, k + 1));
        }
        if exists|k: int| #[trigger] differ_at(a, b, k) {
            let k = choose|k: int| #[trigger] differ_at(a, b, k);
            assert forall|j: int| 0 <= j < k - 1 implies #[trigger] x[j] == y[j] by {
                assert(a[j + 1] == b[j + 1]);
            }
            assert(differ_at(x, y, k - 1));
        }
    } else if b.len() > 0 && a.len() > 0 {
        if a[0] < b[0] {
            assert(differ_at(a, b, 0));
        }
        if exists|k: int| #[trigger] differ_at(a, b, k) {
            let k = choose|k: int| #[trigger] differ_at(a, b, k);
            if k > 0 {
                assert(a[0] == b[0]);
            }
        }
    } else if b.len() > 0 {
        assert(differ_at(a, b, 0));
    }
}

/// Whether two texts first differ at a place, and there the first is ahead: it has
/// ended, or its character is the lower.
pub open spec fn differ_at(a: Seq<char>, b: Seq<char>, k: int) -> bool {
    &&& 0 <= k <= a.len()
    &&& k < b.len()
    &&& forall|j: int| 0 <= j < k ==> #[trigger] a[j] == b[j]
    &&& k < a.len() ==> a[k] < b[k]
}

/// What trimming leaves: all of a text between the white space around it, which is
/// white space to the last character, and no more of that.
pub proof fn law_trimming_takes_what_surrounds(s: Seq<char>) -> (bounds: (int, int))
    ensures
        0 <= bounds.0 <= bounds.1 <= s.len(),
        trimmed(s) == s.subrange(bounds.0, bounds.1),
        forall|i: int| 0 <= i < bounds.0 ==> blank(#[trigger] s[i]),
        forall|i: int| bounds.1 <= i < s.len() ==> blank(#[trigger] s[i]),
        bounds.0 < bounds.1 ==> !blank(s[bounds.0]) && !blank(s[bounds.1 - 1]),
{
    let from = lemma_trimmed_start(s);
    let start = trimmed_start(s);
    let left = lemma_trimmed_end(start);
    let to = from + left;
    assert(start.subrange(0, left) =~= s.subrange(from, to));
    assert forall|i: int| to <= i < s.len() implies blank(#[trigger] s[i]) by {
        assert(start[i - from] == s[i]);
    }
    if from < to {
        assert(start[0] == s[from]);
        assert(start[left - 1] == s[to - 1]);
    }
    (from, to)
}

proof fn lemma_trimmed_start(s: Seq<char>) -> (from: int)
    ensures
        0 <= from <= s.len(),
        trimmed_start(s) == s.skip(from),
        forall|i: int| 0 <= i < from ==> blank(#[trigger] s[i]),
        from < s.len() ==> !blank(s[from]),
    decreases s.len(),
{
    if s.len() > 0 && blank(s[0]) {
        let rest = s.drop_first();
        let from = lemma_trimmed_start(rest);
        assert(rest.skip(from) =~= s.skip(from + 1));
        assert forall|i: int| 0 <= i < from + 1 implies blank(#[trigger] s[i]) by {
            if i > 0 {
                assert(rest[i - 1] == s[i]);
            }
        }
        from + 1
    } else {
        assert(s.skip(0) =~= s);
        0
    }
}

proof fn lemma_trimmed_end(s: Seq<char>) -> (to: int)
    ensures
        0 <= to <= s.len(),
        trimmed_end(s) == s.subrange(0, to),
        forall|i: int| to <= i < s.len() ==> blank(#[trigger] s[i]),
        to > 0 ==> !blank(s[to - 1]),
    decreases s.len(),
{
    if s.len() > 0 && blank(s.last()) {
        let rest = s.drop_last();
        let to = lemma_trimmed_end(rest);
        assert(rest.subrange(0, to) =~= s.subrange(0, to));
        assert forall|i: int| to <= i < s.len() implies blank(#[trigger] s[i]) by {
            if i < rest.len() {
                assert(rest[i] == s[i]);
            }
        }
        to
    } else {
        assert(s.subrange(0, s.len() as int) =~= s);
        s.len() as int
    }
}

/// Which characters are white space, by their codes.
pub proof fn law_which_characters_are_blank(c: char)
    ensures
        blank(c) <==> {
            let code = c as u32;
            ||| 9 <= code <= 13
            ||| code == 32
            ||| code == 133
            ||| code == 160
            ||| code == 5760
            ||| 8192 <= code <= 8202
            ||| code == 8232
            ||| code == 8233
            ||| code == 8239
            ||| code == 8287
            ||| code == 12288
        },
{
}

} // verus!
