//! Byte-level text handling.
//!
//! Names, paths and URLs are compared and cut as UTF-8 byte strings: every
//! delimiter the gateway knows (`/`, `:`) is a single ASCII byte, and an ASCII
//! byte never occurs inside a multi-byte character.  The specifications here
//! are stated over `Seq<u8>`, the byte string of a `str`.

use vstd::prelude::*;
use vstd::string::*;
use vstd::utf8::*;

verus! {

/// The byte `/`, which separates the segments of a path.
pub const SLASH: u8 = 0x2f;

/// The byte `:`, which separates host and port.
pub const COLON: u8 = 0x3a;

/// The byte `+`, which may stand before a number.
pub const PLUS: u8 = 0x2b;

/// The UTF-8 bytes of a character sequence: the library's model of a text value.
pub open spec fn utf8(chars: Seq<char>) -> Seq<u8> {
    encode_utf8(chars)
}

/// Index of the first occurrence of `b` in `s`, or `s.len()` when there is none.
pub open spec fn index_of(s: Seq<u8>, b: u8) -> int
    decreases s.len(),
{
    if s.len() == 0 {
        0
    } else if s[0] == b {
        0
    } else {
        1 + index_of(s.drop_first(), b)
    }
}

/// `s` without its leading run of `b`.
pub open spec fn trim_start(s: Seq<u8>, b: u8) -> Seq<u8>
    decreases s.len(),
{
    if s.len() > 0 && s[0] == b {
        trim_start(s.drop_first(), b)
    } else {
        s
    }
}

/// `s` without its trailing run of `b`.
pub open spec fn trim_end(s: Seq<u8>, b: u8) -> Seq<u8>
    decreases s.len(),
{
    if s.len() > 0 && s.last() == b {
        trim_end(s.drop_last(), b)
    } else {
        s
    }
}

/// The pieces of `s` between occurrences of `sep`.  There is always at least
/// one piece; an empty text has one empty piece, and a trailing separator is
/// followed by an empty piece.
pub open spec fn split(s: Seq<u8>, sep: u8) -> Seq<Seq<u8>>
    decreases s.len(),
{
    let i = index_of(s, sep);
    if 0 <= i < s.len() {
        seq![s.take(i)] + split(s.skip(i + 1), sep)
    } else {
        seq![s]
    }
}

/// Whether `pat` occurs in `s` at offset `at`.
pub open spec fn occurs_at(s: Seq<u8>, pat: Seq<u8>, at: int) -> bool {
    0 <= at && at + pat.len() <= s.len() && s.subrange(at, at + pat.len()) == pat
}

/// Offset of the first occurrence of `pat` in `s` at or after `from`, or
/// `s.len()` when there is none.
pub open spec fn find_from(s: Seq<u8>, pat: Seq<u8>, from: int) -> int
    decreases s.len() - from,
{
    if 0 <= from && from < s.len() && from + pat.len() <= s.len() {
        if occurs_at(s, pat, from) {
            from
        } else {
            find_from(s, pat, from + 1)
        }
    } else {
        s.len() as int
    }
}

pub proof fn lemma_index_of_bounds(s: Seq<u8>, b: u8)
    ensures
        0 <= index_of(s, b) <= s.len(),
        index_of(s, b) < s.len() ==> s[index_of(s, b)] == b,
        forall|k: int| 0 <= k < index_of(s, b) ==> s[k] != b,
    decreases s.len(),
{
    if s.len() > 0 && s[0] != b {
        let t = s.drop_first();
        lemma_index_of_bounds(t, b);
        assert forall|k: int| 0 <= k < index_of(s, b) implies s[k] != b by {
            if k > 0 {
                assert(s[k] == t[k - 1]);
            }
        }
    }
}

/// `index_of` is the one position that holds `b` with no `b` before it.
pub proof fn lemma_index_of_unique(s: Seq<u8>, b: u8, i: int)
    requires
        0 <= i <= s.len(),
        i < s.len() ==> s[i] == b,
        forall|k: int| 0 <= k < i ==> s[k] != b,
    ensures
        index_of(s, b) == i,
    decreases s.len(),
{
    if s.len() > 0 && s[0] != b {
        let t = s.drop_first();
        assert forall|k: int| 0 <= k < i - 1 implies t[k] != b by {
            assert(t[k] == s[k + 1]);
        }
        lemma_index_of_unique(t, b, i - 1);
    }
}

pub proof fn lemma_find_from_bounds(s: Seq<u8>, pat: Seq<u8>, from: int)
    requires
        0 <= from,
    ensures
        from <= find_from(s, pat, from) || find_from(s, pat, from) == s.len(),
        find_from(s, pat, from) <= s.len(),
        find_from(s, pat, from) < s.len() ==> occurs_at(s, pat, find_from(s, pat, from)),
        forall|k: int| from <= k < find_from(s, pat, from) ==> !occurs_at(s, pat, k),
        pat.len() > 0 && find_from(s, pat, from) == s.len() ==> forall|k: int|
            from <= k ==> !occurs_at(s, pat, k),
    decreases s.len() - from,
{
    if from >= s.len() || from + pat.len() > s.len() {
    } else if occurs_at(s, pat, from) {
    } else {
        lemma_find_from_bounds(s, pat, from + 1);
    }
}

/// `find_from` is the one offset at which `pat` occurs with no occurrence
/// between `from` and it.
pub proof fn lemma_find_from_is(s: Seq<u8>, pat: Seq<u8>, from: int, at: int)
    requires
        0 <= from <= at < s.len(),
        occurs_at(s, pat, at),
        forall|k: int| from <= k < at ==> !occurs_at(s, pat, k),
    ensures
        find_from(s, pat, from) == at,
    decreases at - from,
{
    if from < at {
        lemma_find_from_is(s, pat, from + 1, at);
    }
}

/// An ASCII byte of a well-formed text is a whole character: the text can be
/// cut before it and after it.
pub proof fn lemma_ascii_byte_is_boundary(bytes: Seq<u8>, i: int)
    requires
        valid_utf8(bytes),
        0 <= i < bytes.len(),
        bytes[i] < 0x80,
    ensures
        is_char_boundary(bytes, i),
        is_char_boundary(bytes, i + 1),
{
    let b = bytes[i];
    assert(!is_continuation_byte(b)) by (bit_vector)
        requires
            b < 0x80,
    ;
    is_char_boundary_iff_not_is_continuation_byte(bytes, i);
    valid_utf8_split(bytes, i);
    let tail = bytes.subrange(i, bytes.len() as int);
    assert(tail[0] == b);
    assert(is_leading_byte_width_1(b)) by (bit_vector)
        requires
            b < 0x80,
    ;
    assert(valid_first_scalar(tail));
    assert(length_of_first_scalar(tail) == 1);
    let rest = pop_first_scalar(tail);
    assert(valid_utf8(rest));
    assert(rest =~= bytes.subrange(i + 1, bytes.len() as int));
    if i + 1 == bytes.len() {
        is_char_boundary_start_end_of_seq(bytes);
    } else {
        assert(valid_first_scalar(rest));
        let c = rest[0];
        assert(c == bytes[i + 1]);
        assert(is_leading_byte_width_1(c) || is_leading_byte_width_2(c) || is_leading_byte_width_3(
            c,
        ) || is_leading_byte_width_4(c));
        is_char_boundary_iff_is_leading_byte(bytes, i + 1);
    }
}

/// A cut that is a boundary of the whole text is a boundary of each prefix
/// that reaches it.
pub proof fn lemma_boundary_in_prefix(bytes: Seq<u8>, from: int, to: int)
    requires
        valid_utf8(bytes),
        0 <= from <= to <= bytes.len(),
        is_char_boundary(bytes, from),
        is_char_boundary(bytes, to),
    ensures
        valid_utf8(bytes.subrange(0, to)),
        is_char_boundary(bytes.subrange(0, to), from),
{
    valid_utf8_split(bytes, to);
    let prefix = bytes.subrange(0, to);
    if from == to {
        is_char_boundary_start_end_of_seq(prefix);
    } else {
        is_char_boundary_iff_not_is_continuation_byte(bytes, from);
        assert(prefix[from] == bytes[from]);
        is_char_boundary_iff_not_is_continuation_byte(prefix, from);
    }
}

/// Two texts with the same bytes are the same text.
pub proof fn lemma_utf8_injective(a: Seq<char>, b: Seq<char>)
    requires
        utf8(a) == utf8(b),
    ensures
        a == b,
{
    encode_utf8_decode_utf8(a);
    encode_utf8_decode_utf8(b);
}

/// The bytes of a text that is written in two parts are the bytes of the
/// parts, one after the other.
pub proof fn lemma_utf8_concat(a: Seq<char>, b: Seq<char>)
    ensures
        utf8(a + b) == utf8(a) + utf8(b),
    decreases a.len(),
{
    if a.len() == 0 {
        assert(a + b =~= b);
        assert(utf8(a) + utf8(b) =~= utf8(b));
    } else {
        assert((a + b).drop_first() =~= a.drop_first() + b);
        assert((a + b)[0] == a[0]);
        lemma_utf8_concat(a.drop_first(), b);
        assert(utf8(a + b) =~= utf8(a) + utf8(b));
    }
}

/// The part of `s` between the byte offsets `from` and `to`.
pub fn slice_str<'a>(s: &'a str, from: usize, to: usize) -> (r: &'a str)
    requires
        from <= to <= s.spec_bytes().len(),
        is_char_boundary(s.spec_bytes(), from as int),
        is_char_boundary(s.spec_bytes(), to as int),
    ensures
        r.spec_bytes() == s.spec_bytes().subrange(from as int, to as int),
{
    proof {
        encode_utf8_valid_utf8(s@);
        lemma_boundary_in_prefix(s.spec_bytes(), from as int, to as int);
    }
    let (head, _) = s.split_at(to);
    let (_, r) = head.split_at(from);
    assert(r.spec_bytes() =~= s.spec_bytes().subrange(from as int, to as int));
    r
}

/// Whether two byte strings are equal.
pub fn bytes_equal(a: &[u8], b: &[u8]) -> (r: bool)
    ensures
        r == (a@ == b@),
{
    if a.len() != b.len() {
        return false;
    }
    let mut i: usize = 0;
    while i < a.len()
        invariant
            i <= a.len(),
            a.len() == b.len(),
            forall|k: int| 0 <= k < i ==> a@[k] == b@[k],
        decreases a.len() - i,
    {
        if a[i] != b[i] {
            return false;
        }
        i += 1;
    }
    assert(a@ =~= b@);
    true
}

/// Whether two texts are equal.
pub fn str_equal(a: &str, b: &str) -> (r: bool)
    ensures
        r == (a.spec_bytes() == b.spec_bytes()),
        r == (a@ == b@),
{
    proof {
        if a.spec_bytes() == b.spec_bytes() {
            lemma_utf8_injective(a@, b@);
        }
    }
    bytes_equal(a.as_bytes(), b.as_bytes())
}

/// The byte strings of a list of texts.
pub open spec fn texts_bytes(parts: Seq<&str>) -> Seq<Seq<u8>> {
    Seq::new(parts.len(), |i: int| parts[i].spec_bytes())
}

pub proof fn lemma_trim_start_skip(s: Seq<u8>, b: u8, n: int)
    requires
        0 <= n <= s.len(),
        forall|k: int| 0 <= k < n ==> s[k] == b,
    ensures
        trim_start(s, b) == trim_start(s.skip(n), b),
    decreases n,
{
    if n == 0 {
        assert(s.skip(0) =~= s);
    } else {
        let t = s.drop_first();
        assert forall|k: int| 0 <= k < n - 1 implies t[k] == b by {
            assert(t[k] == s[k + 1]);
        }
        lemma_trim_start_skip(t, b, n - 1);
        assert(t.skip(n - 1) =~= s.skip(n));
    }
}

pub proof fn lemma_trim_end_take(s: Seq<u8>, b: u8, n: int)
    requires
        0 <= n <= s.len(),
        forall|k: int| n <= k < s.len() ==> s[k] == b,
    ensures
        trim_end(s, b) == trim_end(s.take(n), b),
    decreases s.len() - n,
{
    if n == s.len() {
        assert(s.take(n) =~= s);
    } else {
        let t = s.drop_last();
        lemma_trim_end_take(t, b, n);
        assert(t.take(n) =~= s.take(n));
    }
}

/// Offset of the first `sep` at or after `from`, or the length when there is none.
pub fn find_byte_from(b: &[u8], from: usize, sep: u8) -> (i: usize)
    requires
        from <= b@.len(),
    ensures
        from <= i <= b@.len(),
        i - from == index_of(b@.skip(from as int), sep),
{
    let mut i: usize = from;
    while i < b.len() && b[i] != sep
        invariant
            from <= i <= b@.len(),
            forall|k: int| from <= k < i ==> b@[k] != sep,
        decreases b@.len() - i,
    {
        i += 1;
    }
    proof {
        let rest = b@.skip(from as int);
        assert forall|k: int| 0 <= k < i - from implies rest[k] != sep by {
            assert(rest[k] == b@[k + from]);
        }
        lemma_index_of_unique(rest, sep, i - from);
    }
    i
}

/// `s` without its leading run of the ASCII byte `b`.
pub fn str_trim_start<'a>(s: &'a str, b: u8) -> (r: &'a str)
    requires
        b < 0x80,
    ensures
        r.spec_bytes() == trim_start(s.spec_bytes(), b),
{
    let bytes = s.as_bytes();
    let mut i: usize = 0;
    while i < bytes.len() && bytes[i] == b
        invariant
            i <= bytes@.len(),
            forall|k: int| 0 <= k < i ==> bytes@[k] == b,
        decreases bytes@.len() - i,
    {
        i += 1;
    }
    proof {
        encode_utf8_valid_utf8(s@);
        is_char_boundary_start_end_of_seq(bytes@);
        if i > 0 {
            lemma_ascii_byte_is_boundary(bytes@, i - 1);
        }
        lemma_trim_start_skip(bytes@, b, i as int);
        assert(bytes@.skip(i as int) =~= bytes@.subrange(i as int, bytes@.len() as int));
    }
    slice_str(s, i, bytes.len())
}

/// `s` without its trailing run of the ASCII byte `b`.
pub fn str_trim_end<'a>(s: &'a str, b: u8) -> (r: &'a str)
    requires
        b < 0x80,
    ensures
        r.spec_bytes() == trim_end(s.spec_bytes(), b),
{
    let bytes = s.as_bytes();
    let mut n: usize = bytes.len();
    while n > 0 && bytes[n - 1] == b
        invariant
            n <= bytes@.len(),
            forall|k: int| n <= k < bytes@.len() ==> bytes@[k] == b,
        decreases n,
    {
        n -= 1;
    }
    proof {
        encode_utf8_valid_utf8(s@);
        is_char_boundary_start_end_of_seq(bytes@);
        if n < bytes@.len() {
            lemma_ascii_byte_is_boundary(bytes@, n as int);
        }
        lemma_trim_end_take(bytes@, b, n as int);
        assert(bytes@.take(n as int) =~= bytes@.subrange(0, n as int));
    }
    slice_str(s, 0, n)
}

/// The pieces of `s` between occurrences of the ASCII byte `sep`.
pub fn str_split<'a>(s: &'a str, sep: u8) -> (parts: Vec<&'a str>)
    requires
        sep < 0x80,
    ensures
        texts_bytes(parts@) == split(s.spec_bytes(), sep),
        parts@.len() >= 1,
{
    let bytes = s.as_bytes();
    let mut parts: Vec<&'a str> = Vec::new();
    let mut start: usize = 0;
    proof {
        encode_utf8_valid_utf8(s@);
        is_char_boundary_start_end_of_seq(bytes@);
        assert(bytes@.skip(0) =~= bytes@);
        assert(texts_bytes(parts@) + split(bytes@.skip(0), sep) =~= split(bytes@, sep));
    }
    loop
        invariant_except_break
            texts_bytes(parts@) + split(bytes@.skip(start as int), sep) == split(bytes@, sep),
        invariant
            sep < 0x80,
            bytes@ == s.spec_bytes(),
            valid_utf8(bytes@),
            start <= bytes@.len(),
            is_char_boundary(bytes@, start as int),
            is_char_boundary(bytes@, bytes@.len() as int),
        ensures
            texts_bytes(parts@) == split(bytes@, sep),
            parts@.len() >= 1,
        decreases bytes@.len() - start,
    {
        let end: usize = find_byte_from(bytes, start, sep);
        let ghost rest = bytes@.skip(start as int);
        let ghost before = parts@;
        proof {
            lemma_index_of_bounds(rest, sep);
            if end < bytes@.len() {
                assert(rest[end - start] == bytes@[end as int]);
                lemma_ascii_byte_is_boundary(bytes@, end as int);
            }
        }
        let piece = slice_str(s, start, end);
        parts.push(piece);
        proof {
            assert(piece.spec_bytes() =~= rest.take(end - start));
            assert(texts_bytes(parts@) =~= texts_bytes(before) + seq![rest.take(end - start)]);
        }
        if end == bytes.len() {
            proof {
                assert(rest.take(end - start) =~= rest);
            }
            break;
        }
        proof {
            assert(rest.skip(end - start + 1) =~= bytes@.skip(end + 1));
        }
        start = end + 1;
    }
    parts
}

/// Offset of the first occurrence of the three bytes `x y z` at or
/// after `from`, or the length when there is none.
pub fn find_triple_from(b: &[u8], from: usize, x: u8, y: u8, z: u8) -> (i: usize)
    requires
        from <= b@.len(),
    ensures
        i == find_from(b@, seq![x, y, z], from as int),
        from <= i <= b@.len(),
        i < b@.len() ==> i + 3 <= b@.len(),
{
    let ghost pat = seq![x, y, z];
    let n: usize = b.len();
    let mut i: usize = from;
    while i < n && n - i >= 3
        invariant
            n == b@.len(),
            from <= i <= n,
            pat == seq![x, y, z],
            find_from(b@, pat, from as int) == find_from(b@, pat, i as int),
        decreases n - i,
    {
        if b[i] == x && b[i + 1] == y && b[i + 2] == z {
            proof {
                assert(b@.subrange(i as int, i + 3) =~= pat);
            }
            return i;
        }
        proof {
            if occurs_at(b@, pat, i as int) {
                let w = b@.subrange(i as int, i + 3);
                assert(w[0] == x && w[1] == y && w[2] == z);
            }
        }
        i += 1;
    }
    n
}

/// Whether `s` begins with `prefix`.
pub open spec fn starts_with(s: Seq<u8>, prefix: Seq<u8>) -> bool {
    prefix.len() <= s.len() && s.take(prefix.len() as int) == prefix
}

/// A well-formed text that begins with a well-formed text can be cut where
/// that text ends.
pub proof fn lemma_prefix_ends_on_boundary(bytes: Seq<u8>, prefix: Seq<u8>)
    requires
        valid_utf8(bytes),
        valid_utf8(prefix),
        starts_with(bytes, prefix),
    ensures
        is_char_boundary(bytes, prefix.len() as int),
    decreases prefix.len(),
{
    if prefix.len() > 0 {
        assert(valid_first_scalar(prefix));
        let n = length_of_first_scalar(prefix);
        assert(1 <= n <= prefix.len());
        assert forall|k: int| 0 <= k < prefix.len() implies bytes[k] == prefix[k] by {
            assert(bytes.take(prefix.len() as int)[k] == bytes[k]);
        }
        assert(bytes[0] == prefix[0]);
        assert(length_of_first_scalar(bytes) == n);
        assert(valid_first_scalar(bytes));
        let rest = pop_first_scalar(bytes);
        let tail = pop_first_scalar(prefix);
        assert(valid_utf8(rest));
        assert(valid_utf8(tail));
        assert(rest.take(tail.len() as int) =~= tail) by {
            assert forall|k: int| 0 <= k < tail.len() implies rest[k] == tail[k] by {
                assert(rest[k] == bytes[k + n]);
                assert(tail[k] == prefix[k + n]);
            }
        }
        lemma_prefix_ends_on_boundary(rest, tail);
        assert(tail.len() == prefix.len() - n);
        reveal_with_fuel(is_char_boundary, 2);
    }
}

/// `s` without the text `prefix` at its start, or nothing when `s` does not
/// begin with it.
pub fn str_strip_prefix<'a>(s: &'a str, prefix: &str) -> (rest: Option<&'a str>)
    ensures
        match rest {
            Some(rest) => starts_with(s.spec_bytes(), prefix.spec_bytes()) && rest.spec_bytes()
                == s.spec_bytes().skip(prefix.spec_bytes().len() as int),
            None => !starts_with(s.spec_bytes(), prefix.spec_bytes()),
        },
{
    let bytes = s.as_bytes();
    let pat = prefix.as_bytes();
    if pat.len() > bytes.len() {
        return None;
    }
    let mut i: usize = 0;
    while i < pat.len()
        invariant
            bytes@ == s.spec_bytes(),
            pat@ == prefix.spec_bytes(),
            i <= pat@.len() <= bytes@.len(),
            forall|k: int| 0 <= k < i ==> bytes@[k] == pat@[k],
        decreases pat@.len() - i,
    {
        if bytes[i] != pat[i] {
            proof {
                if starts_with(bytes@, pat@) {
                    assert(bytes@.take(pat@.len() as int)[i as int] == bytes@[i as int]);
                }
            }
            return None;
        }
        i += 1;
    }
    proof {
        assert(bytes@.take(pat@.len() as int) =~= pat@);
        encode_utf8_valid_utf8(s@);
        encode_utf8_valid_utf8(prefix@);
        is_char_boundary_start_end_of_seq(bytes@);
        lemma_prefix_ends_on_boundary(bytes@, pat@);
        assert(bytes@.skip(pat@.len() as int) =~= bytes@.subrange(
            pat@.len() as int,
            bytes@.len() as int,
        ));
    }
    Some(slice_str(s, pat.len(), bytes.len()))
}

/// Whether every byte of `s` is an ASCII decimal digit.
pub open spec fn all_digits(s: Seq<u8>) -> bool {
    forall|i: int| 0 <= i < s.len() ==> 0x30 <= #[trigger] s[i] <= 0x39
}

/// The number that the decimal digits `s` write.
pub open spec fn digits_value(s: Seq<u8>) -> nat
    decreases s.len(),
{
    if s.len() == 0 {
        0
    } else {
        (digits_value(s.drop_last()) * 10 + (s.last() - 0x30)) as nat
    }
}

/// The 16-bit number that `s` writes in decimal: an optional `+`, then one
/// digit or more, the value no greater than 65535.  Anything else writes no
/// number.
pub open spec fn decimal_u16(s: Seq<u8>) -> Option<u16> {
    let digits = if s.len() > 0 && s[0] == PLUS {
        s.skip(1)
    } else {
        s
    };
    if digits.len() > 0 && all_digits(digits) && digits_value(digits) <= 0xffff {
        Some(digits_value(digits) as u16)
    } else {
        None
    }
}

proof fn lemma_digits_value_grows(s: Seq<u8>, n: int)
    requires
        all_digits(s),
        0 <= n <= s.len(),
    ensures
        digits_value(s.take(n)) <= digits_value(s),
    decreases s.len() - n,
{
    if n == s.len() {
        assert(s.take(n) =~= s);
    } else {
        let t = s.drop_last();
        assert(all_digits(t)) by {
            assert forall|i: int| 0 <= i < t.len() implies 0x30 <= #[trigger] t[i] <= 0x39 by {
                assert(t[i] == s[i]);
            }
        }
        lemma_digits_value_grows(t, n);
        assert(t.take(n) =~= s.take(n));
        assert(0x30 <= s[s.len() - 1]);
    }
}

/// Reads a 16-bit number from decimal text.
pub fn parse_u16(text: &[u8]) -> (r: Option<u16>)
    ensures
        r == decimal_u16(text@),
{
    let start: usize = if text.len() > 0 && text[0] == PLUS {
        1
    } else {
        0
    };
    let ghost digits = text@.skip(start as int);
    if start == text.len() {
        return None;
    }
    let mut value: u32 = 0;
    let mut i: usize = start;
    while i < text.len()
        invariant
            start <= i <= text@.len(),
            start < text@.len(),
            start == (if text@.len() > 0 && text@[0] == PLUS {
                1int
            } else {
                0int
            }),
            digits == text@.skip(start as int),
            all_digits(digits.take(i - start)),
            value == digits_value(digits.take(i - start)),
            value <= 0xffff,
        decreases text@.len() - i,
    {
        let b: u8 = text[i];
        let ghost before = digits.take(i - start);
        let ghost after = digits.take(i - start + 1);
        proof {
            assert(after.drop_last() =~= before);
            assert(after.last() == b);
        }
        if b < 0x30 || b > 0x39 {
            proof {
                assert(text@.skip(0) =~= text@);
                if all_digits(digits) {
                    assert(digits[i - start] == b);
                }
            }
            return None;
        }
        proof {
            assert forall|k: int| 0 <= k < after.len() implies 0x30 <= #[trigger] after[k] <= 0x39 by {
                if k < before.len() {
                    assert(after[k] == before[k]);
                }
            }
        }
        value = value * 10 + (b - 0x30) as u32;
        assert(value == digits_value(after));
        if value > 0xffff {
            proof {
                assert(text@.skip(0) =~= text@);
                if all_digits(digits) {
                    lemma_digits_value_grows(digits, i - start + 1);
                }
            }
            return None;
        }
        i += 1;
    }
    proof {
        assert(digits.take(i - start) =~= digits);
        assert(text@.skip(0) =~= text@);
    }
    Some(value as u16)
}

/// The decimal digit of a value below ten.
pub open spec fn digit_char(d: nat) -> char {
    if d == 0 {
        '0'
    } else if d == 1 {
        '1'
    } else if d == 2 {
        '2'
    } else if d == 3 {
        '3'
    } else if d == 4 {
        '4'
    } else if d == 5 {
        '5'
    } else if d == 6 {
        '6'
    } else if d == 7 {
        '7'
    } else if d == 8 {
        '8'
    } else {
        '9'
    }
}

/// A number in decimal, without leading zeros.
pub open spec fn decimal(n: nat) -> Seq<char>
    decreases n,
{
    if n < 10 {
        seq![digit_char(n)]
    } else {
        decimal(n / 10).push(digit_char(n % 10))
    }
}

fn digit_text(d: u16) -> (text: &'static str)
    requires
        d < 10,
    ensures
        text@ == seq![digit_char(d as nat)],
{
    proof {
        reveal_strlit("0");
        reveal_strlit("1");
        reveal_strlit("2");
        reveal_strlit("3");
        reveal_strlit("4");
        reveal_strlit("5");
        reveal_strlit("6");
        reveal_strlit("7");
        reveal_strlit("8");
        reveal_strlit("9");
    }
    let text: &'static str = if d == 0 {
        "0"
    } else if d == 1 {
        "1"
    } else if d == 2 {
        "2"
    } else if d == 3 {
        "3"
    } else if d == 4 {
        "4"
    } else if d == 5 {
        "5"
    } else if d == 6 {
        "6"
    } else if d == 7 {
        "7"
    } else if d == 8 {
        "8"
    } else {
        "9"
    };
    assert(text@ =~= seq![digit_char(d as nat)]);
    text
}

/// Appends `n` in decimal to `out`.
pub fn append_decimal(out: &mut String, n: u16)
    ensures
        final(out)@ == old(out)@ + decimal(n as nat),
    decreases n,
{
    if n >= 10 {
        append_decimal(out, n / 10);
    }
    let ghost before = out@;
    out.append(digit_text(n % 10));
    proof {
        if n >= 10 {
            assert(out@ =~= old(out)@ + decimal((n / 10) as nat).push(digit_char((n % 10) as nat)));
        }
    }
}

} // verus!
