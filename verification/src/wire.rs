//! Primitive layer of the codec: big-endian fixed-width integers,
//! length-prefixed byte buffers and length-prefixed UTF-8 strings.
//!
//! Each shape has a spec-level encoding (a function to `Seq<u8>`), a
//! spec-level decoder (a partial function from a byte sequence and a
//! position), executable writers and readers proved against them, and
//! round-trip lemmas showing that decoding an encoding yields the value
//! back, whatever bytes surround it.

use vstd::prelude::*;
use vstd::slice::{slice_subrange, slice_to_vec};
use vstd::utf8::{decode_utf8, encode_utf8, encode_utf8_decode_utf8, encode_utf8_valid_utf8,
    valid_utf8};

verus! {

/// Why a decode failed. `Truncated` is a framing error: the input ended
/// before the bytes a length prefix or a fixed-width field declared.
/// `InvalidUtf8` is a string whose buffer is not valid UTF-8.
/// `UnknownCode` is a protocol-shape error: a completion or event code
/// outside the fixed enumeration. `CountMismatch` is a transaction reply
/// whose outcome count differs from the operation count that was sent.
#[derive(Clone, Copy, Debug, PartialEq, Eq, Structural)]
pub enum DecodeError {
    Truncated,
    InvalidUtf8,
    UnknownCode,
    CountMismatch,
}

/// Largest value a signed 32-bit length prefix can carry.
pub const MAX_LEN: usize = 0x7fff_ffff;

// ---------------------------------------------------------------------------
// Spec encodings
// ---------------------------------------------------------------------------

/// A single byte.
pub closed spec fn u8_bytes(x: u8) -> Seq<u8> {
    seq![x]
}

/// A boolean as one byte: 1 for true, 0 for false.
pub closed spec fn bool_bytes(b: bool) -> Seq<u8> {
    seq![if b { 1u8 } else { 0u8 }]
}

/// Four bytes, most significant first.
pub closed spec fn u32_bytes(x: u32) -> Seq<u8> {
    seq![
        ((x >> 24) & 0xff) as u8,
        ((x >> 16) & 0xff) as u8,
        ((x >> 8) & 0xff) as u8,
        (x & 0xff) as u8,
    ]
}

/// A signed 32-bit integer: its two's-complement bits, big-endian.
pub closed spec fn i32_bytes(x: i32) -> Seq<u8> {
    u32_bytes(x as u32)
}

/// Eight bytes, most significant first.
pub closed spec fn u64_bytes(x: u64) -> Seq<u8> {
    u32_bytes((x >> 32) as u32) + u32_bytes(x as u32)
}

/// A signed 64-bit integer: its two's-complement bits, big-endian.
pub closed spec fn i64_bytes(x: i64) -> Seq<u8> {
    u64_bytes(x as u64)
}

/// A length-prefixed buffer: the byte count as an i32, then the bytes.
pub closed spec fn buf_bytes(b: Seq<u8>) -> Seq<u8>
    recommends
        b.len() <= MAX_LEN,
{
    i32_bytes(b.len() as i32) + b
}

/// A length-prefixed UTF-8 string: the UTF-8 encoding of the characters,
/// framed as a buffer.
pub closed spec fn str_bytes(s: Seq<char>) -> Seq<u8>
    recommends
        encode_utf8(s).len() <= MAX_LEN,
{
    buf_bytes(encode_utf8(s))
}

/// Whether a character sequence can be framed: its UTF-8 encoding fits a
/// signed 32-bit length prefix.
pub open spec fn str_encodable(s: Seq<char>) -> bool {
    encode_utf8(s).len() <= MAX_LEN
}

/// Whether a string's UTF-8 encoding fits a signed 32-bit length
/// prefix, decided at run time; holding a path to this check lets a
/// caller meet the writers' length preconditions.
pub fn str_fits(s: &str) -> (b: bool)
    ensures
        b == str_encodable(s@),
{
    s.as_bytes().len() <= MAX_LEN
}

// ---------------------------------------------------------------------------
// Spec decoders
// ---------------------------------------------------------------------------

/// The unsigned 32-bit value of four big-endian bytes.
pub closed spec fn be_u32(s: Seq<u8>) -> u32
    recommends
        s.len() == 4,
{
    ((s[0] as u32) << 24) | ((s[1] as u32) << 16) | ((s[2] as u32) << 8) | (s[3] as u32)
}

pub closed spec fn dec_u8(s: Seq<u8>, i: int) -> Result<(u8, int), DecodeError> {
    if 0 <= i && i + 1 <= s.len() {
        Ok((s[i], i + 1))
    } else {
        Err(DecodeError::Truncated)
    }
}

pub closed spec fn dec_bool(s: Seq<u8>, i: int) -> Result<(bool, int), DecodeError> {
    match dec_u8(s, i) {
        Ok((x, j)) => Ok((x != 0, j)),
        Err(e) => Err(e),
    }
}

pub closed spec fn dec_u32(s: Seq<u8>, i: int) -> Result<(u32, int), DecodeError> {
    if 0 <= i && i + 4 <= s.len() {
        Ok((be_u32(s.subrange(i, i + 4)), i + 4))
    } else {
        Err(DecodeError::Truncated)
    }
}

pub closed spec fn dec_i32(s: Seq<u8>, i: int) -> Result<(i32, int), DecodeError> {
    match dec_u32(s, i) {
        Ok((x, j)) => Ok((x as i32, j)),
        Err(e) => Err(e),
    }
}

pub closed spec fn dec_u64(s: Seq<u8>, i: int) -> Result<(u64, int), DecodeError> {
    if 0 <= i && i + 8 <= s.len() {
        let hi = be_u32(s.subrange(i, i + 4));
        let lo = be_u32(s.subrange(i + 4, i + 8));
        Ok((((hi as u64) << 32) | (lo as u64), i + 8))
    } else {
        Err(DecodeError::Truncated)
    }
}

pub closed spec fn dec_i64(s: Seq<u8>, i: int) -> Result<(i64, int), DecodeError> {
    match dec_u64(s, i) {
        Ok((x, j)) => Ok((x as i64, j)),
        Err(e) => Err(e),
    }
}

/// A length-prefixed buffer. A negative declared length yields the empty
/// buffer; a declared length past the end of the input is a framing error.
pub closed spec fn dec_buf(s: Seq<u8>, i: int) -> Result<(Seq<u8>, int), DecodeError> {
    match dec_i32(s, i) {
        Ok((len, j)) => {
            let n: int = if len < 0 { 0 } else { len as int };
            if j + n <= s.len() {
                Ok((s.subrange(j, j + n), j + n))
            } else {
                Err(DecodeError::Truncated)
            }
        },
        Err(e) => Err(e),
    }
}

/// A length-prefixed UTF-8 string: a buffer whose bytes must be valid UTF-8.
pub closed spec fn dec_str(s: Seq<u8>, i: int) -> Result<(Seq<char>, int), DecodeError> {
    match dec_buf(s, i) {
        Ok((b, j)) => {
            if valid_utf8(b) {
                Ok((decode_utf8(b), j))
            } else {
                Err(DecodeError::InvalidUtf8)
            }
        },
        Err(e) => Err(e),
    }
}

// ---------------------------------------------------------------------------
// Round-trip lemmas
// ---------------------------------------------------------------------------

/// The byte counts of the primitive encodings.
pub proof fn lemma_enc_lens()
    ensures
        forall|x: u8| (#[trigger] u8_bytes(x)).len() == 1,
        forall|b: bool| (#[trigger] bool_bytes(b)).len() == 1,
        forall|x: u32| (#[trigger] u32_bytes(x)).len() == 4,
        forall|x: i32| (#[trigger] i32_bytes(x)).len() == 4,
        forall|x: u64| (#[trigger] u64_bytes(x)).len() == 8,
        forall|x: i64| (#[trigger] i64_bytes(x)).len() == 8,
        forall|b: Seq<u8>| (#[trigger] buf_bytes(b)).len() == 4 + b.len(),
        forall|s: Seq<char>| (#[trigger] str_bytes(s)).len() == 4 + encode_utf8(s).len(),
{
    assert forall|x: u32| (#[trigger] u32_bytes(x)).len() == 4 by {}
    assert forall|x: u64| (#[trigger] u64_bytes(x)).len() == 8 by {
        assert(u64_bytes(x).len() == u32_bytes((x >> 32) as u32).len() + u32_bytes(
            x as u32,
        ).len());
    }
    assert forall|x: i64| (#[trigger] i64_bytes(x)).len() == 8 by {
        assert(i64_bytes(x) == u64_bytes(x as u64));
    }
    assert forall|b: Seq<u8>| (#[trigger] buf_bytes(b)).len() == 4 + b.len() by {
        assert(buf_bytes(b).len() == i32_bytes(b.len() as i32).len() + b.len());
    }
    assert forall|s: Seq<char>| (#[trigger] str_bytes(s)).len() == 4 + encode_utf8(s).len() by {
        assert(str_bytes(s) == buf_bytes(encode_utf8(s)));
    }
}

/// Reassembling the four big-endian bytes of a 32-bit value gives the value.
pub proof fn lemma_be_u32_of_bytes(x: u32)
    ensures
        u32_bytes(x).len() == 4,
        be_u32(u32_bytes(x)) == x,
{
    let s = u32_bytes(x);
    assert(s[0] == ((x >> 24) & 0xff) as u8);
    assert(s[1] == ((x >> 16) & 0xff) as u8);
    assert(s[2] == ((x >> 8) & 0xff) as u8);
    assert(s[3] == (x & 0xff) as u8);
    assert(((((x >> 24) & 0xff) as u8 as u32) << 24) | ((((x >> 16) & 0xff) as u8 as u32) << 16)
        | ((((x >> 8) & 0xff) as u8 as u32) << 8) | ((x & 0xff) as u8 as u32) == x)
        by (bit_vector);
}

/// Decoding an unsigned 32-bit field that sits between arbitrary bytes.
pub proof fn lemma_dec_u32_mid(pre: Seq<u8>, x: u32, tail: Seq<u8>)
    ensures
        dec_u32(pre + u32_bytes(x) + tail, pre.len() as int) == Ok::<(u32, int), DecodeError>(
            (x, pre.len() as int + 4),
        ),
{
    let s = pre + u32_bytes(x) + tail;
    let i = pre.len() as int;
    lemma_be_u32_of_bytes(x);
    assert(s.subrange(i, i + 4) =~= u32_bytes(x));
}

/// Decoding a signed 32-bit field that sits between arbitrary bytes.
pub proof fn lemma_dec_i32_mid(pre: Seq<u8>, x: i32, tail: Seq<u8>)
    ensures
        dec_i32(pre + i32_bytes(x) + tail, pre.len() as int) == Ok::<(i32, int), DecodeError>(
            (x, pre.len() as int + 4),
        ),
{
    lemma_dec_u32_mid(pre, x as u32, tail);
    assert(x as u32 as i32 == x) by (bit_vector);
}

/// Decoding an unsigned 64-bit field that sits between arbitrary bytes.
pub proof fn lemma_dec_u64_mid(pre: Seq<u8>, x: u64, tail: Seq<u8>)
    ensures
        dec_u64(pre + u64_bytes(x) + tail, pre.len() as int) == Ok::<(u64, int), DecodeError>(
            (x, pre.len() as int + 8),
        ),
{
    let hi = (x >> 32) as u32;
    let lo = x as u32;
    let s = pre + u64_bytes(x) + tail;
    let i = pre.len() as int;
    lemma_be_u32_of_bytes(hi);
    lemma_be_u32_of_bytes(lo);
    assert(s.subrange(i, i + 4) =~= u32_bytes(hi));
    assert(s.subrange(i + 4, i + 8) =~= u32_bytes(lo));
    assert((((((x >> 32) as u32) as u64) << 32) | ((x as u32) as u64)) == x) by (bit_vector);
}

/// Decoding a signed 64-bit field that sits between arbitrary bytes.
pub proof fn lemma_dec_i64_mid(pre: Seq<u8>, x: i64, tail: Seq<u8>)
    ensures
        dec_i64(pre + i64_bytes(x) + tail, pre.len() as int) == Ok::<(i64, int), DecodeError>(
            (x, pre.len() as int + 8),
        ),
{
    lemma_dec_u64_mid(pre, x as u64, tail);
    assert(x as u64 as i64 == x) by (bit_vector);
}

/// Decoding a single byte that sits between arbitrary bytes.
pub proof fn lemma_dec_u8_mid(pre: Seq<u8>, x: u8, tail: Seq<u8>)
    ensures
        dec_u8(pre + u8_bytes(x) + tail, pre.len() as int) == Ok::<(u8, int), DecodeError>(
            (x, pre.len() as int + 1),
        ),
{
    let s = pre + u8_bytes(x) + tail;
    assert(s[pre.len() as int] == x);
}

/// Decoding a boolean byte that sits between arbitrary bytes.
pub proof fn lemma_dec_bool_mid(pre: Seq<u8>, b: bool, tail: Seq<u8>)
    ensures
        dec_bool(pre + bool_bytes(b) + tail, pre.len() as int) == Ok::<(bool, int), DecodeError>(
            (b, pre.len() as int + 1),
        ),
{
    let s = pre + bool_bytes(b) + tail;
    assert(s[pre.len() as int] == if b { 1u8 } else { 0u8 });
}

/// Decoding a length-prefixed buffer that sits between arbitrary bytes.
pub proof fn lemma_dec_buf_mid(pre: Seq<u8>, b: Seq<u8>, tail: Seq<u8>)
    requires
        b.len() <= MAX_LEN,
    ensures
        dec_buf(pre + buf_bytes(b) + tail, pre.len() as int) == Ok::<(Seq<u8>, int), DecodeError>(
            (b, pre.len() as int + 4 + b.len() as int),
        ),
{
    let s = pre + buf_bytes(b) + tail;
    let i = pre.len() as int;
    let len = b.len() as i32;
    assert(s =~= pre + i32_bytes(len) + (b + tail));
    lemma_dec_i32_mid(pre, len, b + tail);
    assert(len >= 0);
    assert(s.subrange(i + 4, i + 4 + b.len() as int) =~= b);
}

/// Decoding a length-prefixed UTF-8 string that sits between arbitrary bytes.
pub proof fn lemma_dec_str_mid(pre: Seq<u8>, cs: Seq<char>, tail: Seq<u8>)
    requires
        str_encodable(cs),
    ensures
        dec_str(pre + str_bytes(cs) + tail, pre.len() as int) == Ok::<
            (Seq<char>, int),
            DecodeError,
        >((cs, pre.len() as int + 4 + encode_utf8(cs).len() as int)),
{
    let b = encode_utf8(cs);
    lemma_dec_buf_mid(pre, b, tail);
    encode_utf8_valid_utf8(cs);
    encode_utf8_decode_utf8(cs);
}

/// A boolean field is one byte read as "nonzero means true": decoding
/// the boolean agrees with decoding the raw byte, whatever the byte is.
pub proof fn lemma_dec_bool_of_u8(s: Seq<u8>, i: int, x: u8, j: int)
    requires
        dec_u8(s, i) == Ok::<(u8, int), DecodeError>((x, j)),
    ensures
        dec_bool(s, i) == Ok::<(bool, int), DecodeError>((x != 0, j)),
{
}

/// Strict UTF-8: a string field is its buffer's bytes decoded as
/// UTF-8 when they are valid, and the UTF-8 decode error when they are
/// not — never a silently accepted byte blob.
pub proof fn lemma_dec_str_of_buf(s: Seq<u8>, i: int, b: Seq<u8>, j: int)
    requires
        dec_buf(s, i) == Ok::<(Seq<u8>, int), DecodeError>((b, j)),
    ensures
        valid_utf8(b) ==> dec_str(s, i) == Ok::<(Seq<char>, int), DecodeError>(
            (decode_utf8(b), j),
        ),
        !valid_utf8(b) ==> dec_str(s, i) == Err::<(Seq<char>, int), DecodeError>(
            DecodeError::InvalidUtf8,
        ),
{
}

/// A negative declared length decodes to the empty buffer, at the
/// position right after the length prefix: it is not an error.
pub proof fn lemma_negative_length_buf_is_empty(s: Seq<u8>, i: int, len: i32, j: int)
    requires
        dec_i32(s, i) == Ok::<(i32, int), DecodeError>((len, j)),
        len < 0,
    ensures
        dec_buf(s, i) == Ok::<(Seq<u8>, int), DecodeError>((Seq::empty(), j)),
{
    assert(s.subrange(j, j) =~= Seq::<u8>::empty());
}

/// Truncated input: a buffer whose declared length exceeds the bytes
/// that remain always fails with the framing error, never a partial
/// value.
pub proof fn lemma_truncated_buf_fails(s: Seq<u8>, i: int, len: i32, j: int)
    requires
        dec_i32(s, i) == Ok::<(i32, int), DecodeError>((len, j)),
        len >= 0,
        j + len > s.len(),
    ensures
        dec_buf(s, i) == Err::<(Seq<u8>, int), DecodeError>(DecodeError::Truncated),
        dec_str(s, i) == Err::<(Seq<char>, int), DecodeError>(DecodeError::Truncated),
{
}

/// Truncated input at a fixed-width field: fewer bytes than the field
/// needs always fail with the framing error.
pub proof fn lemma_truncated_fixed_fails(s: Seq<u8>, i: int)
    requires
        0 <= i,
    ensures
        i + 4 > s.len() ==> dec_u32(s, i) == Err::<(u32, int), DecodeError>(DecodeError::Truncated)
            && dec_i32(s, i) == Err::<(i32, int), DecodeError>(DecodeError::Truncated),
        i + 8 > s.len() ==> dec_u64(s, i) == Err::<(u64, int), DecodeError>(DecodeError::Truncated)
            && dec_i64(s, i) == Err::<(i64, int), DecodeError>(DecodeError::Truncated),
        i + 1 > s.len() ==> dec_u8(s, i) == Err::<(u8, int), DecodeError>(DecodeError::Truncated),
{
}

// ---------------------------------------------------------------------------
// Executable writers
// ---------------------------------------------------------------------------

pub fn write_u8(out: &mut Vec<u8>, x: u8)
    ensures
        final(out)@ == old(out)@ + u8_bytes(x),
{
    out.push(x);
    assert(out@ =~= old(out)@ + u8_bytes(x));
}

pub fn write_bool(out: &mut Vec<u8>, b: bool)
    ensures
        final(out)@ == old(out)@ + bool_bytes(b),
{
    out.push(if b { 1u8 } else { 0u8 });
    assert(out@ =~= old(out)@ + bool_bytes(b));
}

pub fn write_u32_be(out: &mut Vec<u8>, x: u32)
    ensures
        final(out)@ == old(out)@ + u32_bytes(x),
{
    assert((x >> 24) & 0xff < 256 && (x >> 16) & 0xff < 256 && (x >> 8) & 0xff < 256 && x & 0xff
        < 256) by (bit_vector);
    out.push(((x >> 24) & 0xff) as u8);
    out.push(((x >> 16) & 0xff) as u8);
    out.push(((x >> 8) & 0xff) as u8);
    out.push((x & 0xff) as u8);
    assert(out@ =~= old(out)@ + u32_bytes(x));
}

pub fn write_i32_be(out: &mut Vec<u8>, x: i32)
    ensures
        final(out)@ == old(out)@ + i32_bytes(x),
{
    write_u32_be(out, x as u32);
}

pub fn write_u64_be(out: &mut Vec<u8>, x: u64)
    ensures
        final(out)@ == old(out)@ + u64_bytes(x),
{
    write_u32_be(out, (x >> 32) as u32);
    write_u32_be(out, x as u32);
    assert(out@ =~= old(out)@ + u64_bytes(x));
}

pub fn write_i64_be(out: &mut Vec<u8>, x: i64)
    ensures
        final(out)@ == old(out)@ + i64_bytes(x),
{
    write_u64_be(out, x as u64);
}

/// Appends raw bytes with no framing.
pub fn write_bytes(out: &mut Vec<u8>, b: &[u8])
    ensures
        final(out)@ == old(out)@ + b@,
{
    let mut rest = slice_to_vec(b);
    out.append(&mut rest);
}

/// Appends a length-prefixed buffer.
pub fn write_buf(out: &mut Vec<u8>, b: &[u8])
    requires
        b@.len() <= MAX_LEN,
    ensures
        final(out)@ == old(out)@ + buf_bytes(b@),
{
    write_i32_be(out, b.len() as i32);
    write_bytes(out, b);
    assert(out@ =~= old(out)@ + buf_bytes(b@));
}

/// Appends a length-prefixed UTF-8 string.
pub fn write_str(out: &mut Vec<u8>, s: &str)
    requires
        str_encodable(s@),
    ensures
        final(out)@ == old(out)@ + str_bytes(s@),
{
    let b = s.as_bytes();
    write_buf(out, b);
}

// ---------------------------------------------------------------------------
// Executable readers
// ---------------------------------------------------------------------------

pub fn read_u8(buf: &[u8], pos: usize) -> (r: Result<(u8, usize), DecodeError>)
    ensures
        match r {
            Ok((x, p)) => dec_u8(buf@, pos as int) == Ok::<(u8, int), DecodeError>((x, p as int))
                && p <= buf@.len() && p as int == pos as int + 1,
            Err(e) => dec_u8(buf@, pos as int) == Err::<(u8, int), DecodeError>(e),
        },
{
    if pos < buf.len() {
        Ok((buf[pos], pos + 1))
    } else {
        Err(DecodeError::Truncated)
    }
}

pub fn read_bool(buf: &[u8], pos: usize) -> (r: Result<(bool, usize), DecodeError>)
    ensures
        match r {
            Ok((b, p)) => dec_bool(buf@, pos as int) == Ok::<(bool, int), DecodeError>(
                (b, p as int),
            ) && p <= buf@.len() && p as int == pos as int + 1,
            Err(e) => dec_bool(buf@, pos as int) == Err::<(bool, int), DecodeError>(e),
        },
{
    match read_u8(buf, pos) {
        Ok((x, p)) => Ok((x != 0, p)),
        Err(e) => Err(e),
    }
}

pub fn read_u32_be(buf: &[u8], pos: usize) -> (r: Result<(u32, usize), DecodeError>)
    ensures
        match r {
            Ok((x, p)) => dec_u32(buf@, pos as int) == Ok::<(u32, int), DecodeError>((x, p as int))
                && p <= buf@.len() && p as int == pos as int + 4,
            Err(e) => dec_u32(buf@, pos as int) == Err::<(u32, int), DecodeError>(e),
        },
{
    if buf.len() >= 4 && pos <= buf.len() - 4 {
        let b0 = buf[pos];
        let b1 = buf[pos + 1];
        let b2 = buf[pos + 2];
        let b3 = buf[pos + 3];
        let x = ((b0 as u32) << 24) | ((b1 as u32) << 16) | ((b2 as u32) << 8) | (b3 as u32);
        proof {
            let s = buf@.subrange(pos as int, pos as int + 4);
            assert(s[0] == b0 && s[1] == b1 && s[2] == b2 && s[3] == b3);
        }
        Ok((x, pos + 4))
    } else {
        Err(DecodeError::Truncated)
    }
}

pub fn read_i32_be(buf: &[u8], pos: usize) -> (r: Result<(i32, usize), DecodeError>)
    ensures
        match r {
            Ok((x, p)) => dec_i32(buf@, pos as int) == Ok::<(i32, int), DecodeError>((x, p as int))
                && p <= buf@.len() && p as int == pos as int + 4,
            Err(e) => dec_i32(buf@, pos as int) == Err::<(i32, int), DecodeError>(e),
        },
{
    match read_u32_be(buf, pos) {
        Ok((x, p)) => Ok((x as i32, p)),
        Err(e) => Err(e),
    }
}

pub fn read_u64_be(buf: &[u8], pos: usize) -> (r: Result<(u64, usize), DecodeError>)
    ensures
        match r {
            Ok((x, p)) => dec_u64(buf@, pos as int) == Ok::<(u64, int), DecodeError>((x, p as int))
                && p <= buf@.len() && p as int == pos as int + 8,
            Err(e) => dec_u64(buf@, pos as int) == Err::<(u64, int), DecodeError>(e),
        },
{
    if buf.len() >= 8 && pos <= buf.len() - 8 {
        let hi = match read_u32_be(buf, pos) {
            Ok((x, _)) => x,
            Err(e) => { return Err(e); },
        };
        let lo = match read_u32_be(buf, pos + 4) {
            Ok((x, _)) => x,
            Err(e) => { return Err(e); },
        };
        Ok((((hi as u64) << 32) | (lo as u64), pos + 8))
    } else {
        Err(DecodeError::Truncated)
    }
}

pub fn read_i64_be(buf: &[u8], pos: usize) -> (r: Result<(i64, usize), DecodeError>)
    ensures
        match r {
            Ok((x, p)) => dec_i64(buf@, pos as int) == Ok::<(i64, int), DecodeError>((x, p as int))
                && p <= buf@.len() && p as int == pos as int + 8,
            Err(e) => dec_i64(buf@, pos as int) == Err::<(i64, int), DecodeError>(e),
        },
{
    match read_u64_be(buf, pos) {
        Ok((x, p)) => Ok((x as i64, p)),
        Err(e) => Err(e),
    }
}

/// Reads a length-prefixed buffer. A negative declared length yields the
/// empty buffer; a declared length past the end of the input is a framing
/// error, never a partial buffer.
pub fn read_buf(buf: &[u8], pos: usize) -> (r: Result<(Vec<u8>, usize), DecodeError>)
    ensures
        match r {
            Ok((v, p)) => dec_buf(buf@, pos as int) == Ok::<(Seq<u8>, int), DecodeError>(
                (v@, p as int),
            ) && p <= buf@.len() && p as int >= pos as int + 4,
            Err(e) => dec_buf(buf@, pos as int) == Err::<(Seq<u8>, int), DecodeError>(e),
        },
{
    match read_i32_be(buf, pos) {
        Ok((len, p2)) => {
            let n: usize = if len < 0 {
                0
            } else {
                len as usize
            };
            if n <= buf.len() - p2 {
                let sub = slice_subrange(buf, p2, p2 + n);
                let v = slice_to_vec(sub);
                Ok((v, p2 + n))
            } else {
                Err(DecodeError::Truncated)
            }
        },
        Err(e) => Err(e),
    }
}

/// Relies on String::from_utf8: it returns a string exactly when the bytes
/// are valid UTF-8, and the returned string's UTF-8 encoding is the input.
#[verifier::external_body]
fn vec_to_string(v: Vec<u8>) -> (r: Option<String>)
    ensures
        r is Some <==> valid_utf8(v@),
        r matches Some(s) ==> encode_utf8(s@) == v@,
{
    String::from_utf8(v).ok()
}

/// Reads a length-prefixed UTF-8 string; bytes that are not valid UTF-8
/// are a decode error, not silently accepted.
pub fn read_string(buf: &[u8], pos: usize) -> (r: Result<(String, usize), DecodeError>)
    ensures
        match r {
            Ok((s, p)) => dec_str(buf@, pos as int) == Ok::<(Seq<char>, int), DecodeError>(
                (s@, p as int),
            ) && p <= buf@.len() && p as int >= pos as int + 4,
            Err(e) => dec_str(buf@, pos as int) == Err::<(Seq<char>, int), DecodeError>(e),
        },
{
    match read_buf(buf, pos) {
        Ok((v, p)) => {
            let ghost vb = v@;
            match vec_to_string(v) {
                Some(s) => {
                    proof {
                        encode_utf8_decode_utf8(s@);
                    }
                    Ok((s, p))
                },
                None => Err(DecodeError::InvalidUtf8),
            }
        },
        Err(e) => Err(e),
    }
}

} // verus!
