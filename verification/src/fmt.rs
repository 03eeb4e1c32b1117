//! Decimal and hexadecimal text of machine integers, built character by
//! character so the emitted chain listing has an exact byte-level
//! specification.

use vstd::prelude::*;
use vstd::string::StrSliceExecFns;
use crate::pattern::{spec_hex_char, hex_char_str};
use crate::values::{ValueType, spec_le_signed, decode_le_signed, is_scan_width,
    lemma_le_signed_bounds};

verus! {

/// The upper-case hexadecimal text of `v`, without prefix.
pub open spec fn spec_hex_u64(v: u64) -> Seq<char>
    decreases v,
{
    if v < 16 {
        seq![spec_hex_char(v as u8)]
    } else {
        spec_hex_u64(v / 16).push(spec_hex_char((v % 16) as u8))
    }
}

/// The decimal text of `v`.
pub open spec fn spec_dec_u64(v: u64) -> Seq<char>
    decreases v,
{
    if v < 10 {
        seq![spec_hex_char(v as u8)]
    } else {
        spec_dec_u64(v / 10).push(spec_hex_char((v % 10) as u8))
    }
}

/// Appends the hexadecimal text of `v`.
pub fn push_hex_u64(s: &mut String, v: u64)
    ensures
        final(s)@ =~= old(s)@ + spec_hex_u64(v),
    decreases v,
{
    if v >= 16 {
        push_hex_u64(s, v / 16);
    }
    let d: &str = hex_char_str((v % 16) as u8);
    s.append(d);
}

/// Appends the decimal text of `v`.
pub fn push_dec_u64(s: &mut String, v: u64)
    ensures
        final(s)@ =~= old(s)@ + spec_dec_u64(v),
    decreases v,
{
    if v >= 10 {
        push_dec_u64(s, v / 10);
    }
    let d: &str = hex_char_str((v % 10) as u8);
    s.append(d);
}

/// Whether `needle` occurs in `hay` starting at position `i`.
pub open spec fn spec_match_at(hay: Seq<char>, needle: Seq<char>, i: int) -> bool {
    &&& 0 <= i
    &&& i + needle.len() <= hay.len()
    &&& hay.subrange(i, i + needle.len()) == needle
}

/// Whether `needle` occurs anywhere in `hay`.
pub open spec fn spec_str_contains(hay: Seq<char>, needle: Seq<char>) -> bool {
    exists|i: int| spec_match_at(hay, needle, i)
}

/// Whether the characters of `hay` starting at `i` spell `needle`.
fn match_chars_at(hay: &str, hay_len: usize, needle: &str, needle_len: usize, i: usize) -> (r:
    bool)
    requires
        hay_len == hay@.len(),
        needle_len == needle@.len(),
        i + needle_len <= hay_len,
    ensures
        r == spec_match_at(hay@, needle@, i as int),
{
    let mut j: usize = 0;
    while j < needle_len
        invariant
            j <= needle_len,
            hay_len == hay@.len(),
            needle_len == needle@.len(),
            i + needle_len <= hay_len,
            forall|k: int| 0 <= k < j ==> hay@[i + k] == needle@[k],
        decreases needle_len - j,
    {
        if hay.get_char(i + j) != needle.get_char(j) {
            proof {
                assert(hay@.subrange(i as int, i + needle@.len())[j as int] != needle@[j as int]);
            }
            return false;
        }
        j += 1;
    }
    proof {
        assert(hay@.subrange(i as int, i + needle@.len()) =~= needle@);
    }
    true
}

/// Whether `needle` occurs anywhere in `hay`.
pub fn str_contains(hay: &str, needle: &str) -> (r: bool)
    ensures
        r == spec_str_contains(hay@, needle@),
{
    let n: usize = hay.unicode_len();
    let m: usize = needle.unicode_len();
    if m > n {
        proof {
            assert forall|i: int| !spec_match_at(hay@, needle@, i) by {}
        }
        return false;
    }
    if m == 0 {
        proof {
            assert(hay@.subrange(0, 0) =~= needle@);
            assert(spec_match_at(hay@, needle@, 0));
        }
        return true;
    }
    let mut i: usize = 0;
    while i <= n - m
        invariant
            1 <= m <= n,
            i <= n - m + 1,
            n == hay@.len(),
            m == needle@.len(),
            forall|k: int| 0 <= k < i ==> !spec_match_at(hay@, needle@, k),
        decreases n - m + 1 - i,
    {
        if match_chars_at(hay, n, needle, m, i) {
            return true;
        }
        i += 1;
    }
    proof {
        assert forall|k: int| !spec_match_at(hay@, needle@, k) by {
            if 0 <= k <= n - m {
                assert(!spec_match_at(hay@, needle@, k));
            }
        }
    }
    false
}

/// Whether `hay` begins with `prefix`.
pub fn str_starts_with(hay: &str, prefix: &str) -> (r: bool)
    ensures
        r == spec_match_at(hay@, prefix@, 0),
{
    let n: usize = hay.unicode_len();
    let m: usize = prefix.unicode_len();
    if m > n {
        return false;
    }
    match_chars_at(hay, n, prefix, m, 0)
}

/// Whether two strings spell the same characters.
pub fn str_eq(a: &str, b: &str) -> (r: bool)
    ensures
        r == (a@ == b@),
{
    let n: usize = a.unicode_len();
    let m: usize = b.unicode_len();
    if n != m {
        return false;
    }
    let r: bool = match_chars_at(a, n, b, m, 0);
    proof {
        if spec_match_at(a@, b@, 0) {
            assert(a@.subrange(0, a@.len() as int) =~= a@);
        } else {
            if a@ == b@ {
                assert(a@.subrange(0, b@.len() as int) =~= b@);
            }
        }
    }
    r
}

/// Whether `c` occurs in `hay`.
pub fn str_contains_char(hay: &str, c: char) -> (r: bool)
    ensures
        r == hay@.contains(c),
{
    let n: usize = hay.unicode_len();
    let mut i: usize = 0;
    while i < n
        invariant
            i <= n,
            n == hay@.len(),
            forall|k: int| 0 <= k < i ==> hay@[k] != c,
        decreases n - i,
    {
        if hay.get_char(i) == c {
            proof {
                assert(hay@[i as int] == c);
            }
            return true;
        }
        i += 1;
    }
    false
}

/// The decimal text of a signed value: a minus sign before the magnitude
/// when negative.
pub open spec fn spec_dec_signed(v: int) -> Seq<char>
    recommends
        -0x8000_0000_0000_0000 <= v < 0x8000_0000_0000_0000,
{
    if v >= 0 {
        spec_dec_u64(v as u64)
    } else {
        seq!['-'] + spec_dec_u64((-v) as u64)
    }
}

/// Appends the decimal text of a signed value.
pub fn push_dec_i64(s: &mut String, v: i64)
    ensures
        final(s)@ =~= old(s)@ + spec_dec_signed(v as int),
{
    if v >= 0 {
        push_dec_u64(s, v as u64);
    } else {
        proof {
            reveal_strlit("-");
            assert("-"@ =~= seq!['-']);
        }
        s.append("-");
        let m: u64 = (-(v as i128)) as u64;
        push_dec_u64(s, m);
    }
}

/// The hex text of one byte, two digits.
pub open spec fn spec_hex_byte(b: u8) -> Seq<char> {
    seq![spec_hex_char((b / 16) as u8), spec_hex_char((b % 16) as u8)]
}

/// Hex pairs of a byte run, joined by single spaces.
pub open spec fn spec_hex_bytes_text(bytes: Seq<u8>) -> Seq<char>
    decreases bytes.len(),
{
    if bytes.len() == 0 {
        Seq::empty()
    } else if bytes.len() == 1 {
        spec_hex_byte(bytes[0])
    } else {
        spec_hex_bytes_text(bytes.drop_last()) + seq![' '] + spec_hex_byte(bytes.last())
    }
}

/// The displayed text of a result value: integer types render the decimal
/// of their little-endian signed reading, or `N/A` when the read is
/// shorter than the type; a needle value renders as hex pairs, at most
/// sixteen of them with a trailing ellipsis.  Floating-point values are
/// rendered by the surrounding application.
pub open spec fn spec_value_text(bytes: Seq<u8>, typ: ValueType) -> Seq<char> {
    if typ == ValueType::Pattern {
        if bytes.len() > 16 {
            spec_hex_bytes_text(bytes.take(16)) + seq!['.', '.', '.']
        } else {
            spec_hex_bytes_text(bytes)
        }
    } else if bytes.len() < typ.spec_size() {
        seq!['N', '/', 'A']
    } else {
        spec_dec_signed(spec_le_signed(bytes.take(typ.spec_size() as int)))
    }
}

/// Renders freshly read bytes for display at the given element type.
pub fn format_value(bytes: &[u8], typ: ValueType) -> (r: String)
    requires
        !typ.spec_is_float_type(),
    ensures
        r@ =~= spec_value_text(bytes@, typ),
{
    let mut out: String = String::new();
    match typ {
        ValueType::Pattern => {
            let display_len: usize = if bytes.len() > 16 {
                16
            } else {
                bytes.len()
            };
            let mut i: usize = 0;
            proof {
                assert(bytes@.take(0) =~= Seq::<u8>::empty());
            }
            while i < display_len
                invariant
                    i <= display_len,
                    display_len <= bytes@.len(),
                    display_len <= 16,
                    display_len == if bytes@.len() > 16 {
                        16int
                    } else {
                        bytes@.len() as int
                    },
                    out@ =~= spec_hex_bytes_text(bytes@.take(i as int)),
                decreases display_len - i,
            {
                proof {
                    assert(bytes@.take(i + 1).drop_last() =~= bytes@.take(i as int));
                    assert(bytes@.take(i + 1).last() == bytes@[i as int]);
                    assert(bytes@.take(i + 1).len() == i + 1);
                }
                if i > 0 {
                    proof {
                        reveal_strlit(" ");
                        assert(" "@ =~= seq![' ']);
                    }
                    out.append(" ");
                }
                let b: u8 = *vstd::slice::slice_index_get(bytes, i);
                out.append(hex_char_str(b / 16));
                out.append(hex_char_str(b % 16));
                i += 1;
            }
            if bytes.len() > 16 {
                proof {
                    reveal_strlit("...");
                    assert("..."@ =~= seq!['.', '.', '.']);
                }
                out.append("...");
            }
            proof {
                if bytes@.len() <= 16 {
                    assert(bytes@.take(display_len as int) =~= bytes@);
                }
            }
            out
        },
        _ => {
            let size: usize = typ.size();
            if bytes.len() < size {
                proof {
                    reveal_strlit("N/A");
                    assert("N/A"@ =~= seq!['N', '/', 'A']);
                }
                out.append("N/A");
                out
            } else {
                let sub: &[u8] = vstd::slice::slice_subrange(bytes, 0, size);
                proof {
                    assert(sub@ =~= bytes@.take(size as int));
                }
                let v: i128 = decode_le_signed(sub);
                proof {
                    lemma_le_signed_bounds(sub@);
                    vstd::arithmetic::power2::lemma2_to64();
                    vstd::arithmetic::power2::lemma2_to64_rest();
                }
                push_dec_i64(&mut out, v as i64);
                out
            }
        },
    }
}

/// Relies on `String::from_utf8`: ASCII bytes decode to the same
/// characters; bytes that are not valid UTF-8 yield the empty string.
#[verifier::external_body]
pub(crate) fn string_from_bytes(bytes: Vec<u8>) -> (r: String)
    ensures
        (forall|i: int| 0 <= i < bytes@.len() ==> bytes@[i] < 128) ==> r@.len() == bytes@.len()
            && forall|i: int| 0 <= i < bytes@.len() ==> r@[i] == bytes@[i] as char,
{
    String::from_utf8(bytes).unwrap_or_default()
}

/// Length of the text up to its first NUL byte, or all of it.
pub open spec fn spec_cstring_len(bytes: Seq<u8>) -> int {
    if exists|i: int| 0 <= i < bytes.len() && bytes[i] == 0u8 {
        choose|i: int|
            0 <= i < bytes.len() && bytes[i] == 0u8 && forall|j: int|
                0 <= j < i ==> bytes[j] != 0u8
    } else {
        bytes.len() as int
    }
}

/// Decodes a NUL-terminated byte field back to text.
pub fn extract_cstring(bytes: &[u8]) -> (r: String)
    ensures
        (forall|i: int| 0 <= i < spec_cstring_len(bytes@) ==> bytes@[i] < 128) ==> r@.len()
            == spec_cstring_len(bytes@) && forall|i: int|
            0 <= i < r@.len() ==> r@[i] == bytes@[i] as char,
{
    let n: usize = bytes.len();
    let mut end: usize = n;
    let mut i: usize = 0;
    while i < n
        invariant
            i <= n,
            end <= n,
            n == bytes@.len(),
            end == n ==> forall|j: int| 0 <= j < i ==> bytes@[j] != 0u8,
            end < n ==> end < i && bytes@[end as int] == 0u8 && forall|j: int|
                0 <= j < end ==> bytes@[j] != 0u8,
        decreases n - i,
    {
        if end == n && *vstd::slice::slice_index_get(bytes, i) == 0 {
            end = i;
        }
        i += 1;
    }
    let mut prefix: Vec<u8> = Vec::new();
    let mut k: usize = 0;
    while k < end
        invariant
            k <= end,
            end <= n,
            n == bytes@.len(),
            prefix@.len() == k,
            forall|j: int| 0 <= j < k ==> prefix@[j] == bytes@[j],
        decreases end - k,
    {
        prefix.push(*vstd::slice::slice_index_get(bytes, k));
        k += 1;
    }
    proof {
        assert(end == spec_cstring_len(bytes@));
    }
    string_from_bytes(prefix)
}

} // verus!
