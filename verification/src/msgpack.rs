//! Primitives of the compact, self-describing binary wire format.
//!
//! Values are framed with single-byte markers in the MessagePack style:
//! small unsigned integers ride in the marker byte itself, larger ones in
//! big-endian follow bytes; strings, byte strings and arrays carry their
//! length in the marker or in big-endian follow bytes.  Every primitive
//! has a specification-level encoder, a specification-level decoder, an
//! executable counterpart proved against it, and a lemma showing that
//! decoding an encoding embedded in a larger buffer yields the value back.

use vstd::arithmetic::div_mod::{
    lemma_div_denominator, lemma_div_is_ordered, lemma_fundamental_div_mod,
};
use vstd::prelude::*;
use vstd::slice::{slice_index_get, slice_subrange, slice_to_vec};
use vstd::utf8::{decode_utf8, encode_utf8, encode_utf8_decode_utf8, encode_utf8_valid_utf8, valid_utf8};

verus! {

/// Marker for an unsigned integer in one follow byte.
pub const M_U8: u8 = 0xcc;

/// Marker for an unsigned integer in two follow bytes.
pub const M_U16: u8 = 0xcd;

/// Marker for an unsigned integer in four follow bytes.
pub const M_U32: u8 = 0xce;

/// Marker for an unsigned integer in eight follow bytes.
pub const M_U64: u8 = 0xcf;

/// Marker for a string with a one-byte length.
pub const M_STR8: u8 = 0xd9;

/// Marker for a string with a two-byte length.
pub const M_STR16: u8 = 0xda;

/// Marker for a string with a four-byte length.
pub const M_STR32: u8 = 0xdb;

/// Marker for a byte string with a one-byte length.
pub const M_BIN8: u8 = 0xc4;

/// Marker for a byte string with a two-byte length.
pub const M_BIN16: u8 = 0xc5;

/// Marker for a byte string with a four-byte length.
pub const M_BIN32: u8 = 0xc6;

/// Marker for an array with a two-byte length.
pub const M_ARR16: u8 = 0xdc;

/// Marker for an array with a four-byte length.
pub const M_ARR32: u8 = 0xdd;

/// The largest length a string, byte string or array may carry.
pub const MAX_LEN32: u64 = 0xffff_ffff;

// ---------------------------------------------------------------------------
// Big-endian digit groups
// ---------------------------------------------------------------------------

/// The two big-endian base-256 digits of `v`; meaningful for `0 <= v <= 0xffff`.
pub open spec fn be2(v: int) -> Seq<u8> {
    seq![(v / 0x100) as u8, (v % 0x100) as u8]
}

/// The four big-endian base-256 digits of `v`; meaningful for `0 <= v <= 0xffff_ffff`.
pub open spec fn be4(v: int) -> Seq<u8> {
    seq![
        (v / 0x100_0000) as u8,
        (v / 0x1_0000 % 0x100) as u8,
        (v / 0x100 % 0x100) as u8,
        (v % 0x100) as u8,
    ]
}

/// The eight big-endian base-256 digits of `v`; meaningful for `0 <= v < 2^64`.
pub open spec fn be8(v: int) -> Seq<u8> {
    seq![
        (v / 0x100_0000_0000_0000) as u8,
        (v / 0x1_0000_0000_0000 % 0x100) as u8,
        (v / 0x100_0000_0000 % 0x100) as u8,
        (v / 0x1_0000_0000 % 0x100) as u8,
        (v / 0x100_0000 % 0x100) as u8,
        (v / 0x1_0000 % 0x100) as u8,
        (v / 0x100 % 0x100) as u8,
        (v % 0x100) as u8,
    ]
}

/// The value of the two big-endian digits of `b` starting at `i`.
pub open spec fn rd2(b: Seq<u8>, i: int) -> int {
    b[i] * 0x100 + b[i + 1]
}

/// The value of the four big-endian digits of `b` starting at `i`.
pub open spec fn rd4(b: Seq<u8>, i: int) -> int {
    b[i] * 0x100_0000 + b[i + 1] * 0x1_0000 + b[i + 2] * 0x100 + b[i + 3]
}

/// The value of the eight big-endian digits of `b` starting at `i`.
pub open spec fn rd8(b: Seq<u8>, i: int) -> int {
    b[i] * 0x100_0000_0000_0000 + b[i + 1] * 0x1_0000_0000_0000 + b[i + 2] * 0x100_0000_0000 + b[i
        + 3] * 0x1_0000_0000 + b[i + 4] * 0x100_0000 + b[i + 5] * 0x1_0000 + b[i + 6] * 0x100 + b[i
        + 7]
}

// ---------------------------------------------------------------------------
// Specification-level encoders
// ---------------------------------------------------------------------------

/// The encoding of an unsigned integer: the shortest of the five forms.
pub open spec fn enc_uint(v: u64) -> Seq<u8> {
    if v <= 0x7f {
        seq![v as u8]
    } else if v <= 0xff {
        seq![M_U8, v as u8]
    } else if v <= 0xffff {
        seq![M_U16] + be2(v as int)
    } else if v <= 0xffff_ffff {
        seq![M_U32] + be4(v as int)
    } else {
        seq![M_U64] + be8(v as int)
    }
}

/// The header introducing a string of `n` bytes; meaningful for `0 <= n <= MAX_LEN32`.
pub open spec fn enc_strhead(n: int) -> Seq<u8> {
    if n < 0x20 {
        seq![(0xa0 + n) as u8]
    } else if n <= 0xff {
        seq![M_STR8, n as u8]
    } else if n <= 0xffff {
        seq![M_STR16] + be2(n)
    } else {
        seq![M_STR32] + be4(n)
    }
}

/// The encoding of a string: a length header followed by its UTF-8 bytes.
pub open spec fn enc_str(s: Seq<char>) -> Seq<u8> {
    enc_strhead(encode_utf8(s).len() as int) + encode_utf8(s)
}

/// The header introducing a byte string of `n` bytes; meaningful for `0 <= n <= MAX_LEN32`.
pub open spec fn enc_binhead(n: int) -> Seq<u8> {
    if n <= 0xff {
        seq![M_BIN8, n as u8]
    } else if n <= 0xffff {
        seq![M_BIN16] + be2(n)
    } else {
        seq![M_BIN32] + be4(n)
    }
}

/// The encoding of a byte string: a length header followed by the bytes.
pub open spec fn enc_bin(b: Seq<u8>) -> Seq<u8> {
    enc_binhead(b.len() as int) + b
}

/// The header introducing an array of `n` elements; meaningful for `0 <= n <= MAX_LEN32`.
pub open spec fn enc_arrhead(n: int) -> Seq<u8> {
    if n < 0x10 {
        seq![(0x90 + n) as u8]
    } else if n <= 0xffff {
        seq![M_ARR16] + be2(n)
    } else {
        seq![M_ARR32] + be4(n)
    }
}

/// Whether a string is short enough for a four-byte length header.
pub open spec fn str_fits(s: Seq<char>) -> bool {
    encode_utf8(s).len() <= MAX_LEN32
}

/// Whether a byte string is short enough for a four-byte length header.
pub open spec fn bin_fits(b: Seq<u8>) -> bool {
    b.len() <= MAX_LEN32
}

// ---------------------------------------------------------------------------
// Specification-level decoders
// ---------------------------------------------------------------------------
// Each decoder takes the whole buffer and a position, and yields the decoded
// value together with the position just past it, or nothing on malformed
// input.  Decoders accept any of the width forms, not only the shortest.

/// Decode an unsigned integer at `i`.
pub open spec fn dec_uint(b: Seq<u8>, i: int) -> Option<(u64, int)> {
    if !(0 <= i < b.len()) {
        None
    } else {
        let m = b[i];
        if m <= 0x7f {
            Some((m as u64, i + 1))
        } else if m == M_U8 {
            if i + 2 <= b.len() {
                Some((b[i + 1] as u64, i + 2))
            } else {
                None
            }
        } else if m == M_U16 {
            if i + 3 <= b.len() {
                Some((rd2(b, i + 1) as u64, i + 3))
            } else {
                None
            }
        } else if m == M_U32 {
            if i + 5 <= b.len() {
                Some((rd4(b, i + 1) as u64, i + 5))
            } else {
                None
            }
        } else if m == M_U64 {
            if i + 9 <= b.len() {
                Some((rd8(b, i + 1) as u64, i + 9))
            } else {
                None
            }
        } else {
            None
        }
    }
}

/// Decode a string length header at `i`.
pub open spec fn dec_strhead(b: Seq<u8>, i: int) -> Option<(int, int)> {
    if !(0 <= i < b.len()) {
        None
    } else {
        let m = b[i];
        if 0xa0 <= m <= 0xbf {
            Some(((m - 0xa0) as int, i + 1))
        } else if m == M_STR8 {
            if i + 2 <= b.len() {
                Some((b[i + 1] as int, i + 2))
            } else {
                None
            }
        } else if m == M_STR16 {
            if i + 3 <= b.len() {
                Some((rd2(b, i + 1), i + 3))
            } else {
                None
            }
        } else if m == M_STR32 {
            if i + 5 <= b.len() {
                Some((rd4(b, i + 1), i + 5))
            } else {
                None
            }
        } else {
            None
        }
    }
}

/// Decode a string at `i`: a length header, then that many valid UTF-8 bytes.
pub open spec fn dec_str(b: Seq<u8>, i: int) -> Option<(Seq<char>, int)> {
    match dec_strhead(b, i) {
        None => None,
        Some((n, j)) => if j + n <= b.len() && valid_utf8(b.subrange(j, j + n)) {
            Some((decode_utf8(b.subrange(j, j + n)), j + n))
        } else {
            None
        },
    }
}

/// Decode a byte-string length header at `i`.
pub open spec fn dec_binhead(b: Seq<u8>, i: int) -> Option<(int, int)> {
    if !(0 <= i < b.len()) {
        None
    } else {
        let m = b[i];
        if m == M_BIN8 {
            if i + 2 <= b.len() {
                Some((b[i + 1] as int, i + 2))
            } else {
                None
            }
        } else if m == M_BIN16 {
            if i + 3 <= b.len() {
                Some((rd2(b, i + 1), i + 3))
            } else {
                None
            }
        } else if m == M_BIN32 {
            if i + 5 <= b.len() {
                Some((rd4(b, i + 1), i + 5))
            } else {
                None
            }
        } else {
            None
        }
    }
}

/// Decode a byte string at `i`: a length header, then that many raw bytes.
pub open spec fn dec_bin(b: Seq<u8>, i: int) -> Option<(Seq<u8>, int)> {
    match dec_binhead(b, i) {
        None => None,
        Some((n, j)) => if j + n <= b.len() {
            Some((b.subrange(j, j + n), j + n))
        } else {
            None
        },
    }
}

/// Decode an array length header at `i`.
pub open spec fn dec_arrhead(b: Seq<u8>, i: int) -> Option<(int, int)> {
    if !(0 <= i < b.len()) {
        None
    } else {
        let m = b[i];
        if 0x90 <= m <= 0x9f {
            Some(((m - 0x90) as int, i + 1))
        } else if m == M_ARR16 {
            if i + 3 <= b.len() {
                Some((rd2(b, i + 1), i + 3))
            } else {
                None
            }
        } else if m == M_ARR32 {
            if i + 5 <= b.len() {
                Some((rd4(b, i + 1), i + 5))
            } else {
                None
            }
        } else {
            None
        }
    }
}

// ---------------------------------------------------------------------------
// Executable encoders
// ---------------------------------------------------------------------------

/// Append the two big-endian digits of `v` to `out`.
fn put_be2(out: &mut Vec<u8>, v: u64)
    requires
        v <= 0xffff,
    ensures
        final(out)@ == old(out)@ + be2(v as int),
{
    out.push((v / 0x100) as u8);
    out.push((v % 0x100) as u8);
    assert(out@ =~= old(out)@ + be2(v as int));
}

/// Append the four big-endian digits of `v` to `out`.
fn put_be4(out: &mut Vec<u8>, v: u64)
    requires
        v <= 0xffff_ffff,
    ensures
        final(out)@ == old(out)@ + be4(v as int),
{
    out.push((v / 0x100_0000) as u8);
    out.push((v / 0x1_0000 % 0x100) as u8);
    out.push((v / 0x100 % 0x100) as u8);
    out.push((v % 0x100) as u8);
    assert(out@ =~= old(out)@ + be4(v as int));
}

/// Append the eight big-endian digits of `v` to `out`.
fn put_be8(out: &mut Vec<u8>, v: u64)
    ensures
        final(out)@ == old(out)@ + be8(v as int),
{
    out.push((v / 0x100_0000_0000_0000) as u8);
    out.push((v / 0x1_0000_0000_0000 % 0x100) as u8);
    out.push((v / 0x100_0000_0000 % 0x100) as u8);
    out.push((v / 0x1_0000_0000 % 0x100) as u8);
    out.push((v / 0x100_0000 % 0x100) as u8);
    out.push((v / 0x1_0000 % 0x100) as u8);
    out.push((v / 0x100 % 0x100) as u8);
    out.push((v % 0x100) as u8);
    assert(out@ =~= old(out)@ + be8(v as int));
}

/// Append the encoding of an unsigned integer to `out`.
pub fn put_uint(out: &mut Vec<u8>, v: u64)
    ensures
        final(out)@ == old(out)@ + enc_uint(v),
{
    if v <= 0x7f {
        out.push(v as u8);
        assert(out@ =~= old(out)@ + enc_uint(v));
    } else if v <= 0xff {
        out.push(M_U8);
        out.push(v as u8);
        assert(out@ =~= old(out)@ + enc_uint(v));
    } else if v <= 0xffff {
        out.push(M_U16);
        put_be2(out, v);
        assert(out@ =~= old(out)@ + enc_uint(v));
    } else if v <= 0xffff_ffff {
        out.push(M_U32);
        put_be4(out, v);
        assert(out@ =~= old(out)@ + enc_uint(v));
    } else {
        out.push(M_U64);
        put_be8(out, v);
        assert(out@ =~= old(out)@ + enc_uint(v));
    }
}

/// Append a string length header for `n` bytes to `out`.
fn put_strhead(out: &mut Vec<u8>, n: u64)
    requires
        n <= MAX_LEN32,
    ensures
        final(out)@ == old(out)@ + enc_strhead(n as int),
{
    if n < 0x20 {
        out.push(0xa0 + n as u8);
        assert(out@ =~= old(out)@ + enc_strhead(n as int));
    } else if n <= 0xff {
        out.push(M_STR8);
        out.push(n as u8);
        assert(out@ =~= old(out)@ + enc_strhead(n as int));
    } else if n <= 0xffff {
        out.push(M_STR16);
        put_be2(out, n);
        assert(out@ =~= old(out)@ + enc_strhead(n as int));
    } else {
        out.push(M_STR32);
        put_be4(out, n);
        assert(out@ =~= old(out)@ + enc_strhead(n as int));
    }
}

/// Whether two byte strings hold the same bytes.
#[verifier::loop_isolation(false)]
pub(crate) fn bytes_eq(a: &Vec<u8>, b: &Vec<u8>) -> (r: bool)
    ensures
        r == (a@ == b@),
{
    if a.len() != b.len() {
        return false;
    }
    let mut i: usize = 0;
    while i < a.len()
        invariant
            i <= a.len(),
            a@.len() == b@.len(),
            forall|k: int| 0 <= k < i ==> a@[k] == b@[k],
        decreases a.len() - i,
    {
        if a[i] != b[i] {
            return false;
        }
        i += 1;
    }
    proof {
        assert(a@ =~= b@);
    }
    true
}

/// Relies on `str::len`: it returns the string's length in bytes, and a
/// string's bytes always fit in memory, hence in `usize`.
#[verifier::external_body]
pub(crate) fn str_byte_len(s: &str) -> (n: usize)
    ensures
        n as nat == encode_utf8(s@).len(),
{
    s.len()
}

/// Append the encoding of a string to `out`; fails, leaving `out` as it
/// was, exactly when the string is too long for a length header.
pub fn put_str(out: &mut Vec<u8>, s: &str) -> (ok: bool)
    ensures
        ok == str_fits(s@),
        ok ==> final(out)@ == old(out)@ + enc_str(s@),
        !ok ==> final(out)@ == old(out)@,
{
    let n = str_byte_len(s);
    if (n as u64) > MAX_LEN32 {
        return false;
    }
    put_strhead(out, n as u64);
    let mut bytes = s.as_bytes_vec();
    out.append(&mut bytes);
    assert(out@ =~= old(out)@ + enc_str(s@));
    true
}

/// Append a byte-string length header for `n` bytes to `out`.
fn put_binhead(out: &mut Vec<u8>, n: u64)
    requires
        n <= MAX_LEN32,
    ensures
        final(out)@ == old(out)@ + enc_binhead(n as int),
{
    if n <= 0xff {
        out.push(M_BIN8);
        out.push(n as u8);
        assert(out@ =~= old(out)@ + enc_binhead(n as int));
    } else if n <= 0xffff {
        out.push(M_BIN16);
        put_be2(out, n);
        assert(out@ =~= old(out)@ + enc_binhead(n as int));
    } else {
        out.push(M_BIN32);
        put_be4(out, n);
        assert(out@ =~= old(out)@ + enc_binhead(n as int));
    }
}

/// Append the encoding of a byte string to `out`; fails, leaving `out` as
/// it was, exactly when the byte string is too long for a length header.
pub fn put_bin(out: &mut Vec<u8>, b: &Vec<u8>) -> (ok: bool)
    ensures
        ok == bin_fits(b@),
        ok ==> final(out)@ == old(out)@ + enc_bin(b@),
        !ok ==> final(out)@ == old(out)@,
{
    let n = b.len();
    if (n as u64) > MAX_LEN32 {
        return false;
    }
    put_binhead(out, n as u64);
    let mut bytes = b.clone();
    out.append(&mut bytes);
    assert(out@ =~= old(out)@ + enc_bin(b@));
    true
}

/// Append an array length header for `n` elements to `out`.
pub fn put_arrhead(out: &mut Vec<u8>, n: u64)
    requires
        n <= MAX_LEN32,
    ensures
        final(out)@ == old(out)@ + enc_arrhead(n as int),
{
    if n < 0x10 {
        out.push(0x90 + n as u8);
        assert(out@ =~= old(out)@ + enc_arrhead(n as int));
    } else if n <= 0xffff {
        out.push(M_ARR16);
        put_be2(out, n);
        assert(out@ =~= old(out)@ + enc_arrhead(n as int));
    } else {
        out.push(M_ARR32);
        put_be4(out, n);
        assert(out@ =~= old(out)@ + enc_arrhead(n as int));
    }
}

// ---------------------------------------------------------------------------
// Executable decoders
// ---------------------------------------------------------------------------

/// Relies on `String::from_utf8`: it succeeds exactly on valid UTF-8 input
/// and returns the string those bytes encode.
#[verifier::external_body]
fn vec_to_string(v: Vec<u8>) -> (r: Option<String>)
    ensures
        r is Some <==> valid_utf8(v@),
        r matches Some(s) ==> s@ == decode_utf8(v@),
{
    String::from_utf8(v).ok()
}

/// Read the two big-endian digits of `b` starting at `i`.
fn get_be2(b: &[u8], i: usize) -> (v: u64)
    requires
        i + 2 <= b@.len() <= usize::MAX,
    ensures
        v == rd2(b@, i as int),
{
    let d0 = *slice_index_get(b, i);
    let d1 = *slice_index_get(b, i + 1);
    (d0 as u64) * 0x100 + (d1 as u64)
}

/// Read the four big-endian digits of `b` starting at `i`.
fn get_be4(b: &[u8], i: usize) -> (v: u64)
    requires
        i + 4 <= b@.len() <= usize::MAX,
    ensures
        v == rd4(b@, i as int),
{
    let d0 = *slice_index_get(b, i);
    let d1 = *slice_index_get(b, i + 1);
    let d2 = *slice_index_get(b, i + 2);
    let d3 = *slice_index_get(b, i + 3);
    (d0 as u64) * 0x100_0000 + (d1 as u64) * 0x1_0000 + (d2 as u64) * 0x100 + (d3 as u64)
}

/// Read the eight big-endian digits of `b` starting at `i`.
fn get_be8(b: &[u8], i: usize) -> (v: u64)
    requires
        i + 8 <= b@.len() <= usize::MAX,
    ensures
        v == rd8(b@, i as int),
{
    let hi = get_be4(b, i);
    let lo = get_be4(b, i + 4);
    hi * 0x1_0000_0000 + lo
}

/// Decode an unsigned integer at `i`.
pub fn get_uint(b: &[u8], i: usize) -> (r: Option<(u64, usize)>)
    ensures
        r matches Some(p) ==> dec_uint(b@, i as int) == Some((p.0, p.1 as int)) && i < p.1
            <= b@.len(),
        r is None ==> dec_uint(b@, i as int) is None,
{
    if i >= b.len() {
        return None;
    }
    let m = *slice_index_get(b, i);
    if m <= 0x7f {
        Some((m as u64, i + 1))
    } else if m == M_U8 {
        if b.len() - i >= 2 {
            Some((*slice_index_get(b, i + 1) as u64, i + 2))
        } else {
            None
        }
    } else if m == M_U16 {
        if b.len() - i >= 3 {
            Some((get_be2(b, i + 1), i + 3))
        } else {
            None
        }
    } else if m == M_U32 {
        if b.len() - i >= 5 {
            Some((get_be4(b, i + 1), i + 5))
        } else {
            None
        }
    } else if m == M_U64 {
        if b.len() - i >= 9 {
            Some((get_be8(b, i + 1), i + 9))
        } else {
            None
        }
    } else {
        None
    }
}

/// Decode a string length header at `i`.
fn get_strhead(b: &[u8], i: usize) -> (r: Option<(u64, usize)>)
    ensures
        r matches Some(p) ==> dec_strhead(b@, i as int) == Some((p.0 as int, p.1 as int)) && i
            < p.1 <= b@.len() && p.0 <= MAX_LEN32,
        r is None ==> dec_strhead(b@, i as int) is None,
{
    if i >= b.len() {
        return None;
    }
    let m = *slice_index_get(b, i);
    if 0xa0 <= m && m <= 0xbf {
        Some(((m - 0xa0) as u64, i + 1))
    } else if m == M_STR8 {
        if b.len() - i >= 2 {
            Some((*slice_index_get(b, i + 1) as u64, i + 2))
        } else {
            None
        }
    } else if m == M_STR16 {
        if b.len() - i >= 3 {
            Some((get_be2(b, i + 1), i + 3))
        } else {
            None
        }
    } else if m == M_STR32 {
        if b.len() - i >= 5 {
            Some((get_be4(b, i + 1), i + 5))
        } else {
            None
        }
    } else {
        None
    }
}

/// Decode a string at `i`.
pub fn get_str(b: &[u8], i: usize) -> (r: Option<(String, usize)>)
    ensures
        r matches Some(p) ==> dec_str(b@, i as int) matches Some(q) && p.0@ == q.0 && p.1 as int
            == q.1 && i < p.1 <= b@.len(),
        r is None ==> dec_str(b@, i as int) is None,
{
    match get_strhead(b, i) {
        None => None,
        Some((n, j)) => {
            if n > (b.len() - j) as u64 {
                return None;
            }
            let n_us = n as usize;
            let sub = slice_subrange(b, j, j + n_us);
            let bytes = slice_to_vec(sub);
            match vec_to_string(bytes) {
                None => None,
                Some(s) => Some((s, j + n_us)),
            }
        },
    }
}

/// Decode a byte-string length header at `i`.
fn get_binhead(b: &[u8], i: usize) -> (r: Option<(u64, usize)>)
    ensures
        r matches Some(p) ==> dec_binhead(b@, i as int) == Some((p.0 as int, p.1 as int)) && i
            < p.1 <= b@.len() && p.0 <= MAX_LEN32,
        r is None ==> dec_binhead(b@, i as int) is None,
{
    if i >= b.len() {
        return None;
    }
    let m = *slice_index_get(b, i);
    if m == M_BIN8 {
        if b.len() - i >= 2 {
            Some((*slice_index_get(b, i + 1) as u64, i + 2))
        } else {
            None
        }
    } else if m == M_BIN16 {
        if b.len() - i >= 3 {
            Some((get_be2(b, i + 1), i + 3))
        } else {
            None
        }
    } else if m == M_BIN32 {
        if b.len() - i >= 5 {
            Some((get_be4(b, i + 1), i + 5))
        } else {
            None
        }
    } else {
        None
    }
}

/// Decode a byte string at `i`.
pub fn get_bin(b: &[u8], i: usize) -> (r: Option<(Vec<u8>, usize)>)
    ensures
        r matches Some(p) ==> dec_bin(b@, i as int) == Some((p.0@, p.1 as int)) && i < p.1
            <= b@.len(),
        r is None ==> dec_bin(b@, i as int) is None,
{
    match get_binhead(b, i) {
        None => None,
        Some((n, j)) => {
            if n > (b.len() - j) as u64 {
                return None;
            }
            let n_us = n as usize;
            let sub = slice_subrange(b, j, j + n_us);
            let bytes = slice_to_vec(sub);
            Some((bytes, j + n_us))
        },
    }
}

/// Decode an array length header at `i`.
pub fn get_arrhead(b: &[u8], i: usize) -> (r: Option<(u64, usize)>)
    ensures
        r matches Some(p) ==> dec_arrhead(b@, i as int) == Some((p.0 as int, p.1 as int)) && i
            < p.1 <= b@.len() && p.0 <= MAX_LEN32,
        r is None ==> dec_arrhead(b@, i as int) is None,
{
    if i >= b.len() {
        return None;
    }
    let m = *slice_index_get(b, i);
    if 0x90 <= m && m <= 0x9f {
        Some(((m - 0x90) as u64, i + 1))
    } else if m == M_ARR16 {
        if b.len() - i >= 3 {
            Some((get_be2(b, i + 1), i + 3))
        } else {
            None
        }
    } else if m == M_ARR32 {
        if b.len() - i >= 5 {
            Some((get_be4(b, i + 1), i + 5))
        } else {
            None
        }
    } else {
        None
    }
}

// ---------------------------------------------------------------------------
// Decoding an encoding yields the value back
// ---------------------------------------------------------------------------

/// Each byte of an encoding embedded in a larger buffer can be read off
/// from the buffer.
proof fn lemma_embed(b: Seq<u8>, i: int, e: Seq<u8>)
    requires
        0 <= i,
        i + e.len() <= b.len(),
        b.subrange(i, i + e.len()) == e,
    ensures
        forall|k: int| 0 <= k < e.len() ==> b[i + k] == #[trigger] e[k],
{
    assert forall|k: int| 0 <= k < e.len() implies b[i + k] == #[trigger] e[k] by {
        assert(b.subrange(i, i + e.len() as int)[k] == b[i + k]);
    }
}

/// A subrange of an embedded sequence can be read off from the buffer it
/// is embedded in.
pub proof fn lemma_subrange_of_embed(b: Seq<u8>, i: int, e: Seq<u8>, lo: int, hi: int)
    requires
        0 <= i,
        i + e.len() <= b.len(),
        b.subrange(i, i + e.len()) == e,
        0 <= lo <= hi <= e.len(),
    ensures
        b.subrange(i + lo, i + hi) == e.subrange(lo, hi),
{
    assert(b.subrange(i + lo, i + hi) =~= e.subrange(lo, hi)) by {
        assert forall|k: int| 0 <= k < hi - lo implies b.subrange(i + lo, i + hi)[k] == e.subrange(
            lo,
            hi,
        )[k] by {
            assert(b.subrange(i, i + e.len())[lo + k] == b[i + lo + k]);
        }
    }
}

/// The two base-256 digits of a value below 2^16 reassemble to it.
proof fn lemma_digits2(v: int)
    requires
        0 <= v <= 0xffff,
    ensures
        v == (v / 0x100) * 0x100 + v % 0x100,
        v / 0x100 <= 0xff,
{
    lemma_fundamental_div_mod(v, 0x100);
    lemma_div_is_ordered(v, 0xffff, 0x100);
}

/// The four base-256 digits of a value below 2^32 reassemble to it.
proof fn lemma_digits4(v: int)
    requires
        0 <= v <= 0xffff_ffff,
    ensures
        v == (v / 0x100_0000) * 0x100_0000 + (v / 0x1_0000 % 0x100) * 0x1_0000 + (v / 0x100
            % 0x100) * 0x100 + v % 0x100,
        v / 0x100_0000 <= 0xff,
{
    lemma_fundamental_div_mod(v, 0x100);
    lemma_div_denominator(v, 0x100, 0x100);
    assert(v / 0x100 / 0x100 == v / 0x1_0000);
    lemma_fundamental_div_mod(v / 0x100, 0x100);
    lemma_div_denominator(v, 0x1_0000, 0x100);
    assert(v / 0x1_0000 / 0x100 == v / 0x100_0000);
    lemma_fundamental_div_mod(v / 0x1_0000, 0x100);
    lemma_div_is_ordered(v, 0xffff_ffff, 0x100_0000);
}

/// The eight base-256 digits of a value below 2^64 reassemble to it.
proof fn lemma_digits8(v: int)
    requires
        0 <= v <= 0xffff_ffff_ffff_ffff,
    ensures
        v == (v / 0x100_0000_0000_0000) * 0x100_0000_0000_0000 + (v / 0x1_0000_0000_0000 % 0x100)
            * 0x1_0000_0000_0000 + (v / 0x100_0000_0000 % 0x100) * 0x100_0000_0000 + (v
            / 0x1_0000_0000 % 0x100) * 0x1_0000_0000 + (v / 0x100_0000 % 0x100) * 0x100_0000 + (v
            / 0x1_0000 % 0x100) * 0x1_0000 + (v / 0x100 % 0x100) * 0x100 + v % 0x100,
        v / 0x100_0000_0000_0000 <= 0xff,
{
    lemma_fundamental_div_mod(v, 0x100);
    lemma_div_denominator(v, 0x100, 0x100);
    assert(v / 0x100 / 0x100 == v / 0x1_0000);
    lemma_fundamental_div_mod(v / 0x100, 0x100);
    lemma_div_denominator(v, 0x1_0000, 0x100);
    assert(v / 0x1_0000 / 0x100 == v / 0x100_0000);
    lemma_fundamental_div_mod(v / 0x1_0000, 0x100);
    lemma_div_denominator(v, 0x100_0000, 0x100);
    assert(v / 0x100_0000 / 0x100 == v / 0x1_0000_0000);
    lemma_fundamental_div_mod(v / 0x100_0000, 0x100);
    lemma_div_denominator(v, 0x1_0000_0000, 0x100);
    assert(v / 0x1_0000_0000 / 0x100 == v / 0x100_0000_0000);
    lemma_fundamental_div_mod(v / 0x1_0000_0000, 0x100);
    lemma_div_denominator(v, 0x100_0000_0000, 0x100);
    assert(v / 0x100_0000_0000 / 0x100 == v / 0x1_0000_0000_0000);
    lemma_fundamental_div_mod(v / 0x100_0000_0000, 0x100);
    lemma_div_denominator(v, 0x1_0000_0000_0000, 0x100);
    assert(v / 0x1_0000_0000_0000 / 0x100 == v / 0x100_0000_0000_0000);
    lemma_fundamental_div_mod(v / 0x1_0000_0000_0000, 0x100);
    lemma_div_is_ordered(v, 0xffff_ffff_ffff_ffff, 0x100_0000_0000_0000);
}

/// Decoding at the position of an embedded integer encoding yields the
/// integer and the position just past it.
pub proof fn lemma_dec_uint_enc(b: Seq<u8>, i: int, v: u64)
    requires
        0 <= i,
        i + enc_uint(v).len() <= b.len(),
        b.subrange(i, i + enc_uint(v).len()) == enc_uint(v),
    ensures
        dec_uint(b, i) == Some((v, i + enc_uint(v).len())),
{
    let e = enc_uint(v);
    lemma_embed(b, i, e);
    if v <= 0x7f {
        assert(b[i] == e[0]);
    } else if v <= 0xff {
        assert(b[i] == e[0]);
        assert(b[i + 1] == e[1]);
    } else if v <= 0xffff {
        assert(b[i] == e[0]);
        assert(b[i + 1] == e[1]);
        assert(b[i + 2] == e[2]);
        lemma_digits2(v as int);
        assert(rd2(b, i + 1) == v as int);
    } else if v <= 0xffff_ffff {
        assert(b[i] == e[0]);
        assert(b[i + 1] == e[1]);
        assert(b[i + 2] == e[2]);
        assert(b[i + 3] == e[3]);
        assert(b[i + 4] == e[4]);
        lemma_digits4(v as int);
        assert(rd4(b, i + 1) == v as int);
    } else {
        assert(b[i] == e[0]);
        assert(b[i + 1] == e[1]);
        assert(b[i + 2] == e[2]);
        assert(b[i + 3] == e[3]);
        assert(b[i + 4] == e[4]);
        assert(b[i + 5] == e[5]);
        assert(b[i + 6] == e[6]);
        assert(b[i + 7] == e[7]);
        assert(b[i + 8] == e[8]);
        lemma_digits8(v as int);
        assert(rd8(b, i + 1) == v as int);
    }
}

/// Decoding at the position of an embedded string length header yields the
/// length and the position just past the header.
proof fn lemma_dec_strhead_enc(b: Seq<u8>, i: int, n: int)
    requires
        0 <= n <= 0xffff_ffff,
        0 <= i,
        i + enc_strhead(n).len() <= b.len(),
        b.subrange(i, i + enc_strhead(n).len()) == enc_strhead(n),
    ensures
        dec_strhead(b, i) == Some((n, i + enc_strhead(n).len())),
{
    let e = enc_strhead(n);
    lemma_embed(b, i, e);
    if n < 0x20 {
        assert(b[i] == e[0]);
    } else if n <= 0xff {
        assert(b[i] == e[0]);
        assert(b[i + 1] == e[1]);
    } else if n <= 0xffff {
        assert(b[i] == e[0]);
        assert(b[i + 1] == e[1]);
        assert(b[i + 2] == e[2]);
        lemma_digits2(n);
        assert(rd2(b, i + 1) == n);
    } else {
        assert(b[i] == e[0]);
        assert(b[i + 1] == e[1]);
        assert(b[i + 2] == e[2]);
        assert(b[i + 3] == e[3]);
        assert(b[i + 4] == e[4]);
        lemma_digits4(n);
        assert(rd4(b, i + 1) == n);
    }
}

/// Decoding at the position of an embedded string encoding yields the
/// string and the position just past it.
pub proof fn lemma_dec_str_enc(b: Seq<u8>, i: int, s: Seq<char>)
    requires
        str_fits(s),
        0 <= i,
        i + enc_str(s).len() <= b.len(),
        b.subrange(i, i + enc_str(s).len()) == enc_str(s),
    ensures
        dec_str(b, i) == Some((s, i + enc_str(s).len())),
{
    let u = encode_utf8(s);
    let h = enc_strhead(u.len() as int);
    let e = enc_str(s);
    lemma_embed(b, i, e);
    assert(b.subrange(i, i + h.len()) =~= h) by {
        assert forall|k: int| 0 <= k < h.len() implies b.subrange(i, i + h.len())[k] == h[k] by {
            assert(b[i + k] == e[k]);
            assert(e[k] == h[k]);
        }
    }
    lemma_dec_strhead_enc(b, i, u.len() as int);
    let j = i + h.len();
    assert(b.subrange(j, j + u.len()) =~= u) by {
        assert forall|k: int| 0 <= k < u.len() implies b.subrange(j, j + u.len())[k] == u[k] by {
            assert(b[i + (h.len() + k)] == e[h.len() + k]);
            assert(e[h.len() + k] == u[k]);
        }
    }
    encode_utf8_valid_utf8(s);
    encode_utf8_decode_utf8(s);
}

/// Decoding at the position of an embedded byte-string length header
/// yields the length and the position just past the header.
proof fn lemma_dec_binhead_enc(b: Seq<u8>, i: int, n: int)
    requires
        0 <= n <= 0xffff_ffff,
        0 <= i,
        i + enc_binhead(n).len() <= b.len(),
        b.subrange(i, i + enc_binhead(n).len()) == enc_binhead(n),
    ensures
        dec_binhead(b, i) == Some((n, i + enc_binhead(n).len())),
{
    let e = enc_binhead(n);
    lemma_embed(b, i, e);
    if n <= 0xff {
        assert(b[i] == e[0]);
        assert(b[i + 1] == e[1]);
    } else if n <= 0xffff {
        assert(b[i] == e[0]);
        assert(b[i + 1] == e[1]);
        assert(b[i + 2] == e[2]);
        lemma_digits2(n);
        assert(rd2(b, i + 1) == n);
    } else {
        assert(b[i] == e[0]);
        assert(b[i + 1] == e[1]);
        assert(b[i + 2] == e[2]);
        assert(b[i + 3] == e[3]);
        assert(b[i + 4] == e[4]);
        lemma_digits4(n);
        assert(rd4(b, i + 1) == n);
    }
}

/// Decoding at the position of an embedded byte-string encoding yields the
/// bytes and the position just past them.
pub proof fn lemma_dec_bin_enc(b: Seq<u8>, i: int, v: Seq<u8>)
    requires
        bin_fits(v),
        0 <= i,
        i + enc_bin(v).len() <= b.len(),
        b.subrange(i, i + enc_bin(v).len()) == enc_bin(v),
    ensures
        dec_bin(b, i) == Some((v, i + enc_bin(v).len())),
{
    let h = enc_binhead(v.len() as int);
    let e = enc_bin(v);
    lemma_embed(b, i, e);
    assert(b.subrange(i, i + h.len()) =~= h) by {
        assert forall|k: int| 0 <= k < h.len() implies b.subrange(i, i + h.len())[k] == h[k] by {
            assert(b[i + k] == e[k]);
            assert(e[k] == h[k]);
        }
    }
    lemma_dec_binhead_enc(b, i, v.len() as int);
    let j = i + h.len();
    assert(b.subrange(j, j + v.len()) =~= v) by {
        assert forall|k: int| 0 <= k < v.len() implies b.subrange(j, j + v.len())[k] == v[k] by {
            assert(b[i + (h.len() + k)] == e[h.len() + k]);
            assert(e[h.len() + k] == v[k]);
        }
    }
}

/// Decoding at the position of an embedded array length header yields the
/// element count and the position just past the header.
pub proof fn lemma_dec_arrhead_enc(b: Seq<u8>, i: int, n: int)
    requires
        0 <= n <= 0xffff_ffff,
        0 <= i,
        i + enc_arrhead(n).len() <= b.len(),
        b.subrange(i, i + enc_arrhead(n).len()) == enc_arrhead(n),
    ensures
        dec_arrhead(b, i) == Some((n, i + enc_arrhead(n).len())),
{
    let e = enc_arrhead(n);
    lemma_embed(b, i, e);
    if n < 0x10 {
        assert(b[i] == e[0]);
    } else if n <= 0xffff {
        assert(b[i] == e[0]);
        assert(b[i + 1] == e[1]);
        assert(b[i + 2] == e[2]);
        lemma_digits2(n);
        assert(rd2(b, i + 1) == n);
    } else {
        assert(b[i] == e[0]);
        assert(b[i + 1] == e[1]);
        assert(b[i + 2] == e[2]);
        assert(b[i + 3] == e[3]);
        assert(b[i + 4] == e[4]);
        lemma_digits4(n);
        assert(rd4(b, i + 1) == n);
    }
}

} // verus!
