//! Record and per-operation codecs: the exact field order of every
//! request and response, the encode/decode capability traits, and frame
//! assembly.
//!
//! Every wire type has a spec-level byte image (`..._bytes`); reply
//! shapes also have a spec-level decoder (`dec_...`). The executable
//! writers and readers are proved against those, and a `lemma_dec_..._mid`
//! round-trip lemma per shape shows that decoding an encoding embedded in
//! any surrounding bytes yields the encoded value back.

use vstd::prelude::*;
use vstd::seq_lib::lemma_concat_associative;
use vstd::slice::slice_to_vec;
use crate::data::{Acl, AclV, KeeperState, OpCode, Permission, Stat, WatchedEvent,
    WatchedEventType, event_type_code, event_type_from, keeper_state_code, keeper_state_from,
    opcode_code, opcode_from};
use crate::wire::{DecodeError, MAX_LEN, bool_bytes, buf_bytes, dec_bool, dec_buf, dec_i32,
    dec_i64, dec_str, dec_u32, dec_u8, i32_bytes, i64_bytes, lemma_dec_bool_mid, lemma_enc_lens,
    lemma_dec_buf_mid, lemma_dec_i32_mid, lemma_dec_i64_mid, lemma_dec_str_mid,
    lemma_dec_u32_mid, lemma_dec_u8_mid, read_bool, read_buf, read_i32_be, read_i64_be,
    read_string, read_u32_be, read_u8, str_bytes, str_encodable, u32_bytes, u8_bytes,
    write_bool, write_buf, write_bytes, write_i32_be, write_i64_be, write_str, write_u32_be,
    write_u8};

verus! {

// ---------------------------------------------------------------------------
// Capability traits
// ---------------------------------------------------------------------------

/// A value that can serialize itself into a byte sink in the protocol's
/// fixed layout.
pub trait WriteTo: Sized {
    /// Whether every length inside the value fits its signed 32-bit
    /// prefix, so the byte image is faithful.
    spec fn encodable(&self) -> bool;

    /// The exact bytes this value puts on the wire.
    spec fn enc(&self) -> Seq<u8>;

    /// Appends the value's byte image to `out`.
    fn write_to(&self, out: &mut Vec<u8>)
        requires
            self.encodable(),
        ensures
            final(out)@ == old(out)@ + self.enc(),
    ;

    /// The value framed on its own: a signed 32-bit byte count, then the
    /// byte image. The length prefix is written once the body length is
    /// known.
    fn to_len_prefixed_buf(&self) -> (r: Vec<u8>)
        requires
            self.encodable(),
            self.enc().len() <= MAX_LEN,
        ensures
            r@ == buf_bytes(self.enc()),
    {
        let mut body: Vec<u8> = Vec::new();
        self.write_to(&mut body);
        let mut out: Vec<u8> = Vec::new();
        write_buf(&mut out, body.as_slice());
        out
    }
}

/// A value that can deserialize itself from a byte source, fallibly.
pub trait ReadFrom: Sized {
    /// The mathematical value decoding produces.
    type Model;

    /// The spec-level decoder for this wire shape: the decoded model and
    /// the position after it, or the error.
    spec fn dec(s: Seq<u8>, i: int) -> Result<(Self::Model, int), DecodeError>;

    /// Whether this value realises a decoded model.
    spec fn models(&self, m: Self::Model) -> bool;

    /// Decodes one value of this shape from `buf` at `pos`.
    fn read_from(buf: &[u8], pos: usize) -> (r: Result<(Self, usize), DecodeError>)
        ensures
            match r {
                Ok((v, p)) => Self::dec(buf@, pos as int) matches Ok((m, q)) && v.models(m) && p
                    as int == q && p <= buf@.len() && q >= pos as int,
                Err(e) => Self::dec(buf@, pos as int) == Err::<(Self::Model, int), DecodeError>(e),
            },
    ;
}

/// A byte source that can hand out one length-prefixed buffer.
pub trait BufferReader: View<V = Seq<u8>> {
    /// Reads a length-prefixed buffer at `pos`: a negative declared
    /// length yields the empty buffer, a declared length past the end of
    /// the source is a framing error.
    fn read_buffer(&self, pos: usize) -> (r: Result<(Vec<u8>, usize), DecodeError>)
        ensures
            match r {
                Ok((v, p)) => dec_buf(self@, pos as int) == Ok::<(Seq<u8>, int), DecodeError>(
                    (v@, p as int),
                ) && p <= self@.len(),
                Err(e) => dec_buf(self@, pos as int) == Err::<(Seq<u8>, int), DecodeError>(e),
            },
    ;
}

impl BufferReader for [u8] {
    fn read_buffer(&self, pos: usize) -> (r: Result<(Vec<u8>, usize), DecodeError>) {
        read_buf(self, pos)
    }
}

// ---------------------------------------------------------------------------
// Primitive trait impls
// ---------------------------------------------------------------------------

impl WriteTo for u8 {
    open spec fn encodable(&self) -> bool {
        true
    }

    open spec fn enc(&self) -> Seq<u8> {
        u8_bytes(*self)
    }

    fn write_to(&self, out: &mut Vec<u8>) {
        write_u8(out, *self);
    }
}

impl WriteTo for String {
    open spec fn encodable(&self) -> bool {
        str_encodable(self@)
    }

    open spec fn enc(&self) -> Seq<u8> {
        str_bytes(self@)
    }

    fn write_to(&self, out: &mut Vec<u8>) {
        write_str(out, self.as_str());
    }
}

/// The byte image of a homogeneous sequence body: each element's image,
/// in order, with no count (the count is the enclosing `Vec` image's
/// prefix).
pub open spec fn items_enc<T: WriteTo>(items: Seq<T>) -> Seq<u8>
    decreases items.len(),
{
    if items.len() == 0 {
        Seq::empty()
    } else {
        items[0].enc() + items_enc(items.drop_first())
    }
}

/// Whether every element of a sequence is encodable.
pub open spec fn items_encodable<T: WriteTo>(items: Seq<T>) -> bool {
    forall|i: int| 0 <= i < items.len() ==> (#[trigger] items[i]).encodable()
}

/// Appending one element appends its byte image.
pub proof fn lemma_items_enc_push<T: WriteTo>(items: Seq<T>, x: T)
    ensures
        items_enc(items.push(x)) == items_enc(items) + x.enc(),
    decreases items.len(),
{
    if items.len() == 0 {
        let p = items.push(x);
        assert(p[0] == x);
        assert(p.drop_first() =~= Seq::<T>::empty());
        assert(items_enc(Seq::<T>::empty()) == Seq::<u8>::empty());
        assert(items_enc(p) == x.enc() + Seq::<u8>::empty());
        assert(items_enc(p) =~= items_enc(items) + x.enc());
    } else {
        let rest = items.drop_first();
        lemma_items_enc_push(rest, x);
        assert(items.push(x).drop_first() =~= rest.push(x));
        assert(items.push(x)[0] == items[0]);
        assert(items_enc(items.push(x)) == items[0].enc() + (items_enc(rest) + x.enc()));
        assert(items[0].enc() + (items_enc(rest) + x.enc()) =~= (items[0].enc() + items_enc(rest))
            + x.enc());
    }
}

impl<T: WriteTo> WriteTo for Vec<T> {
    open spec fn encodable(&self) -> bool {
        self@.len() <= MAX_LEN && items_encodable(self@)
    }

    open spec fn enc(&self) -> Seq<u8> {
        i32_bytes(self@.len() as i32) + items_enc(self@)
    }

    fn write_to(&self, out: &mut Vec<u8>) {
        let mut body: Vec<u8> = Vec::new();
        let mut idx: usize = 0;
        while idx < self.len()
            invariant
                idx <= self@.len(),
                self@.len() <= MAX_LEN,
                items_encodable(self@),
                body@ == items_enc(self@.take(idx as int)),
            decreases self@.len() - idx,
        {
            proof {
                assert(self@.take(idx as int + 1) =~= self@.take(idx as int).push(self@[idx as int]));
                lemma_items_enc_push(self@.take(idx as int), self@[idx as int]);
            }
            self[idx].write_to(&mut body);
            idx = idx + 1;
        }
        proof {
            assert(self@.take(self@.len() as int) =~= self@);
        }
        write_i32_be(out, self.len() as i32);
        write_bytes(out, body.as_slice());
        assert(out@ =~= old(out)@ + self.enc());
    }
}

// ---------------------------------------------------------------------------
// Request and reply headers
// ---------------------------------------------------------------------------

/// Correlates a request with its reply: a caller-assigned request id and
/// the operation code.
#[derive(Clone, Copy, Debug, PartialEq, Eq, Structural)]
pub struct RequestHeader {
    pub xid: i32,
    pub opcode: OpCode,
}

/// The byte image of a request header: the request id, then the
/// operation code, both as signed 32-bit fields.
pub open spec fn request_header_bytes(h: RequestHeader) -> Seq<u8> {
    i32_bytes(h.xid) + i32_bytes(opcode_code(h.opcode))
}

impl WriteTo for RequestHeader {
    open spec fn encodable(&self) -> bool {
        true
    }

    open spec fn enc(&self) -> Seq<u8> {
        request_header_bytes(*self)
    }

    fn write_to(&self, out: &mut Vec<u8>) {
        write_i32_be(out, self.xid);
        write_i32_be(out, self.opcode.code());
        assert(out@ =~= old(out)@ + request_header_bytes(*self));
    }
}

/// The spec-level decoder of a request header: the request id, then an
/// operation code that must belong to the fixed enumeration.
pub open spec fn dec_request_header(s: Seq<u8>, i: int) -> Result<(RequestHeader, int), DecodeError> {
    match dec_i32(s, i) {
        Err(e) => Err(e),
        Ok((xid, i1)) => match dec_i32(s, i1) {
            Err(e) => Err(e),
            Ok((code, i2)) => match opcode_from(code) {
                Some(opcode) => Ok((RequestHeader { xid, opcode }, i2)),
                None => Err(DecodeError::UnknownCode),
            },
        },
    }
}

/// Round trip: a request header's byte image decodes to the header,
/// whatever bytes surround it; the operation-code enumeration inverts
/// its wire codes.
pub proof fn lemma_dec_request_header_mid(pre: Seq<u8>, h: RequestHeader, tail: Seq<u8>)
    ensures
        dec_request_header(pre + request_header_bytes(h) + tail, pre.len() as int) == Ok::<
            (RequestHeader, int),
            DecodeError,
        >((h, pre.len() as int + 8)),
{
    lemma_enc_lens();
    let s = pre + request_header_bytes(h) + tail;
    let b1 = i32_bytes(h.xid);
    let b2 = i32_bytes(opcode_code(h.opcode));
    assert(request_header_bytes(h) == b1 + b2);
    assert(s == pre + b1 + (b2 + tail)) by {
        lemma_concat_associative(pre, b1 + b2, tail);
        lemma_concat_associative(b1, b2, tail);
        lemma_concat_associative(pre, b1, b2 + tail);
    }
    lemma_dec_i32_mid(pre, h.xid, b2 + tail);
    let p2 = pre + b1;
    assert(s == p2 + b2 + tail) by {
        lemma_concat_associative(p2, b2, tail);
    }
    lemma_dec_i32_mid(p2, opcode_code(h.opcode), tail);
    assert(opcode_from(opcode_code(h.opcode)) == Some(h.opcode));
}

/// Correlates a reply with its request: the request id it answers, the
/// server's transaction id, and the result code (0 for success).
#[derive(Clone, Copy, Debug, PartialEq, Eq, Structural)]
pub struct ReplyHeader {
    pub xid: i32,
    pub zxid: i64,
    pub err: i32,
}

/// The byte image of a reply header.
pub open spec fn reply_header_bytes(h: ReplyHeader) -> Seq<u8> {
    i32_bytes(h.xid) + i64_bytes(h.zxid) + i32_bytes(h.err)
}

/// The spec-level decoder of a reply header.
pub open spec fn dec_reply_header(s: Seq<u8>, i: int) -> Result<(ReplyHeader, int), DecodeError> {
    match dec_i32(s, i) {
        Err(e) => Err(e),
        Ok((xid, i1)) => match dec_i64(s, i1) {
            Err(e) => Err(e),
            Ok((zxid, i2)) => match dec_i32(s, i2) {
                Err(e) => Err(e),
                Ok((err, i3)) => Ok((ReplyHeader { xid, zxid, err }, i3)),
            },
        },
    }
}

/// Round trip: a reply header's byte image decodes to the header,
/// whatever bytes surround it.
pub proof fn lemma_dec_reply_header_mid(pre: Seq<u8>, h: ReplyHeader, tail: Seq<u8>)
    ensures
        dec_reply_header(pre + reply_header_bytes(h) + tail, pre.len() as int) == Ok::<
            (ReplyHeader, int),
            DecodeError,
        >((h, pre.len() as int + 16)),
{
    lemma_enc_lens();
    let s = pre + reply_header_bytes(h) + tail;
    let b1 = i32_bytes(h.xid);
    let b2 = i64_bytes(h.zxid);
    let b3 = i32_bytes(h.err);
    assert(s =~= pre + b1 + (b2 + b3 + tail));
    lemma_dec_i32_mid(pre, h.xid, b2 + b3 + tail);
    assert(s =~= (pre + b1) + b2 + (b3 + tail));
    lemma_dec_i64_mid(pre + b1, h.zxid, b3 + tail);
    assert(s =~= (pre + b1 + b2) + b3 + tail);
    lemma_dec_i32_mid(pre + b1 + b2, h.err, tail);
}

impl ReadFrom for ReplyHeader {
    type Model = ReplyHeader;

    open spec fn dec(s: Seq<u8>, i: int) -> Result<(ReplyHeader, int), DecodeError> {
        dec_reply_header(s, i)
    }

    open spec fn models(&self, m: ReplyHeader) -> bool {
        *self == m
    }

    fn read_from(buf: &[u8], pos: usize) -> (r: Result<(ReplyHeader, usize), DecodeError>) {
        let (xid, p1) = match read_i32_be(buf, pos) {
            Ok(v) => v,
            Err(e) => { return Err(e); },
        };
        let (zxid, p2) = match read_i64_be(buf, p1) {
            Ok(v) => v,
            Err(e) => { return Err(e); },
        };
        let (err, p3) = match read_i32_be(buf, p2) {
            Ok(v) => v,
            Err(e) => { return Err(e); },
        };
        Ok((ReplyHeader { xid, zxid, err }, p3))
    }
}

// ---------------------------------------------------------------------------
// Node metadata
// ---------------------------------------------------------------------------

/// The byte image of a node-metadata record: its eleven fixed-width
/// fields in declaration order.
pub open spec fn stat_bytes(st: Stat) -> Seq<u8> {
    i64_bytes(st.czxid) + (i64_bytes(st.mzxid) + (i64_bytes(st.ctime) + (i64_bytes(st.mtime) + (
    i32_bytes(st.version) + (i32_bytes(st.cversion) + (i32_bytes(st.aversion) + (i64_bytes(
        st.ephemeral_owner,
    ) + (i32_bytes(st.data_length) + (i32_bytes(st.num_children) + i64_bytes(st.pzxid))))))))))
}

/// The spec-level decoder of a node-metadata record.
pub open spec fn dec_stat(s: Seq<u8>, i: int) -> Result<(Stat, int), DecodeError> {
    match dec_i64(s, i) {
        Err(e) => Err(e),
        Ok((czxid, i1)) => match dec_i64(s, i1) {
            Err(e) => Err(e),
            Ok((mzxid, i2)) => match dec_i64(s, i2) {
                Err(e) => Err(e),
                Ok((ctime, i3)) => match dec_i64(s, i3) {
                    Err(e) => Err(e),
                    Ok((mtime, i4)) => match dec_i32(s, i4) {
                        Err(e) => Err(e),
                        Ok((version, i5)) => match dec_i32(s, i5) {
                            Err(e) => Err(e),
                            Ok((cversion, i6)) => match dec_i32(s, i6) {
                                Err(e) => Err(e),
                                Ok((aversion, i7)) => match dec_i64(s, i7) {
                                    Err(e) => Err(e),
                                    Ok((ephemeral_owner, i8)) => match dec_i32(s, i8) {
                                        Err(e) => Err(e),
                                        Ok((data_length, i9)) => match dec_i32(s, i9) {
                                            Err(e) => Err(e),
                                            Ok((num_children, i10)) => match dec_i64(s, i10) {
                                                Err(e) => Err(e),
                                                Ok((pzxid, i11)) => Ok(
                                                    (
                                                        Stat {
                                                            czxid,
                                                            mzxid,
                                                            ctime,
                                                            mtime,
                                                            version,
                                                            cversion,
                                                            aversion,
                                                            ephemeral_owner,
                                                            data_length,
                                                            num_children,
                                                            pzxid,
                                                        },
                                                        i11,
                                                    ),
                                                ),
                                            },
                                        },
                                    },
                                },
                            },
                        },
                    },
                },
            },
        },
    }
}

/// Round trip: a node-metadata record's byte image decodes to the
/// record, whatever bytes surround it. The image is 68 bytes.
#[verifier::rlimit(100)]
#[verifier::spinoff_prover]
pub proof fn lemma_dec_stat_mid(pre: Seq<u8>, st: Stat, tail: Seq<u8>)
    ensures
        dec_stat(pre + stat_bytes(st) + tail, pre.len() as int) == Ok::<(Stat, int), DecodeError>(
            (st, pre.len() as int + 68),
        ),
{
    lemma_enc_lens();
    let s = pre + stat_bytes(st) + tail;
    let b1 = i64_bytes(st.czxid);
    let b2 = i64_bytes(st.mzxid);
    let b3 = i64_bytes(st.ctime);
    let b4 = i64_bytes(st.mtime);
    let b5 = i32_bytes(st.version);
    let b6 = i32_bytes(st.cversion);
    let b7 = i32_bytes(st.aversion);
    let b8 = i64_bytes(st.ephemeral_owner);
    let b9 = i32_bytes(st.data_length);
    let b10 = i32_bytes(st.num_children);
    let b11 = i64_bytes(st.pzxid);
    let r10 = b11;
    let r9 = b10 + r10;
    let r8 = b9 + r9;
    let r7 = b8 + r8;
    let r6 = b7 + r7;
    let r5 = b6 + r6;
    let r4 = b5 + r5;
    let r3 = b4 + r4;
    let r2 = b3 + r3;
    let r1 = b2 + r2;
    assert(s == pre + b1 + (r1 + tail)) by {
        assert(stat_bytes(st) == b1 + r1);
        lemma_concat_associative(pre, b1 + r1, tail);
        lemma_concat_associative(b1, r1, tail);
        lemma_concat_associative(pre, b1, r1 + tail);
    }
    lemma_dec_i64_mid(pre, st.czxid, r1 + tail);
    let p2 = pre + b1;
    assert(s == p2 + b2 + (r2 + tail)) by {
        lemma_concat_associative(b2, r2, tail);
        lemma_concat_associative(p2, b2, r2 + tail);
    }
    lemma_dec_i64_mid(p2, st.mzxid, r2 + tail);
    let p3 = p2 + b2;
    assert(s == p3 + b3 + (r3 + tail)) by {
        lemma_concat_associative(b3, r3, tail);
        lemma_concat_associative(p3, b3, r3 + tail);
    }
    lemma_dec_i64_mid(p3, st.ctime, r3 + tail);
    let p4 = p3 + b3;
    assert(s == p4 + b4 + (r4 + tail)) by {
        lemma_concat_associative(b4, r4, tail);
        lemma_concat_associative(p4, b4, r4 + tail);
    }
    lemma_dec_i64_mid(p4, st.mtime, r4 + tail);
    let p5 = p4 + b4;
    assert(s == p5 + b5 + (r5 + tail)) by {
        lemma_concat_associative(b5, r5, tail);
        lemma_concat_associative(p5, b5, r5 + tail);
    }
    lemma_dec_i32_mid(p5, st.version, r5 + tail);
    let p6 = p5 + b5;
    assert(s == p6 + b6 + (r6 + tail)) by {
        lemma_concat_associative(b6, r6, tail);
        lemma_concat_associative(p6, b6, r6 + tail);
    }
    lemma_dec_i32_mid(p6, st.cversion, r6 + tail);
    let p7 = p6 + b6;
    assert(s == p7 + b7 + (r7 + tail)) by {
        lemma_concat_associative(b7, r7, tail);
        lemma_concat_associative(p7, b7, r7 + tail);
    }
    lemma_dec_i32_mid(p7, st.aversion, r7 + tail);
    let p8 = p7 + b7;
    assert(s == p8 + b8 + (r8 + tail)) by {
        lemma_concat_associative(b8, r8, tail);
        lemma_concat_associative(p8, b8, r8 + tail);
    }
    lemma_dec_i64_mid(p8, st.ephemeral_owner, r8 + tail);
    let p9 = p8 + b8;
    assert(s == p9 + b9 + (r9 + tail)) by {
        lemma_concat_associative(b9, r9, tail);
        lemma_concat_associative(p9, b9, r9 + tail);
    }
    lemma_dec_i32_mid(p9, st.data_length, r9 + tail);
    let p10 = p9 + b9;
    assert(s == p10 + b10 + (r10 + tail)) by {
        lemma_concat_associative(b10, r10, tail);
        lemma_concat_associative(p10, b10, r10 + tail);
    }
    lemma_dec_i32_mid(p10, st.num_children, r10 + tail);
    let p11 = p10 + b10;
    assert(s == p11 + b11 + tail) by {
        lemma_concat_associative(p11, b11, tail);
    }
    lemma_dec_i64_mid(p11, st.pzxid, tail);
}

impl ReadFrom for Stat {
    type Model = Stat;

    open spec fn dec(s: Seq<u8>, i: int) -> Result<(Stat, int), DecodeError> {
        dec_stat(s, i)
    }

    open spec fn models(&self, m: Stat) -> bool {
        *self == m
    }

    fn read_from(buf: &[u8], pos: usize) -> (r: Result<(Stat, usize), DecodeError>) {
        let (czxid, p1) = match read_i64_be(buf, pos) {
            Ok(v) => v,
            Err(e) => { return Err(e); },
        };
        let (mzxid, p2) = match read_i64_be(buf, p1) {
            Ok(v) => v,
            Err(e) => { return Err(e); },
        };
        let (ctime, p3) = match read_i64_be(buf, p2) {
            Ok(v) => v,
            Err(e) => { return Err(e); },
        };
        let (mtime, p4) = match read_i64_be(buf, p3) {
            Ok(v) => v,
            Err(e) => { return Err(e); },
        };
        let (version, p5) = match read_i32_be(buf, p4) {
            Ok(v) => v,
            Err(e) => { return Err(e); },
        };
        let (cversion, p6) = match read_i32_be(buf, p5) {
            Ok(v) => v,
            Err(e) => { return Err(e); },
        };
        let (aversion, p7) = match read_i32_be(buf, p6) {
            Ok(v) => v,
            Err(e) => { return Err(e); },
        };
        let (ephemeral_owner, p8) = match read_i64_be(buf, p7) {
            Ok(v) => v,
            Err(e) => { return Err(e); },
        };
        let (data_length, p9) = match read_i32_be(buf, p8) {
            Ok(v) => v,
            Err(e) => { return Err(e); },
        };
        let (num_children, p10) = match read_i32_be(buf, p9) {
            Ok(v) => v,
            Err(e) => { return Err(e); },
        };
        let (pzxid, p11) = match read_i64_be(buf, p10) {
            Ok(v) => v,
            Err(e) => { return Err(e); },
        };
        Ok(
            (
                Stat {
                    czxid,
                    mzxid,
                    ctime,
                    mtime,
                    version,
                    cversion,
                    aversion,
                    ephemeral_owner,
                    data_length,
                    num_children,
                    pzxid,
                },
                p11,
            ),
        )
    }
}

// ---------------------------------------------------------------------------
// ACL entries
// ---------------------------------------------------------------------------

/// The byte image of one ACL entry: the permission bitmask as an
/// unsigned 32-bit field, then the scheme and identity strings.
pub open spec fn acl_bytes(a: AclV) -> Seq<u8> {
    u32_bytes(a.perms) + str_bytes(a.scheme) + str_bytes(a.id)
}

/// Whether an ACL entry's strings fit their length prefixes.
pub open spec fn acl_encodable(a: AclV) -> bool {
    str_encodable(a.scheme) && str_encodable(a.id)
}

/// The spec-level decoder of one ACL entry.
pub open spec fn dec_acl(s: Seq<u8>, i: int) -> Result<(AclV, int), DecodeError> {
    match dec_u32(s, i) {
        Err(e) => Err(e),
        Ok((perms, i1)) => match dec_str(s, i1) {
            Err(e) => Err(e),
            Ok((scheme, i2)) => match dec_str(s, i2) {
                Err(e) => Err(e),
                Ok((id, i3)) => Ok((AclV { perms, scheme, id }, i3)),
            },
        },
    }
}

/// Round trip: an ACL entry's byte image decodes to the entry, whatever
/// bytes surround it.
pub proof fn lemma_dec_acl_mid(pre: Seq<u8>, a: AclV, tail: Seq<u8>)
    requires
        acl_encodable(a),
    ensures
        dec_acl(pre + acl_bytes(a) + tail, pre.len() as int) == Ok::<(AclV, int), DecodeError>(
            (a, pre.len() as int + acl_bytes(a).len() as int),
        ),
{
    lemma_enc_lens();
    let s = pre + acl_bytes(a) + tail;
    let b1 = u32_bytes(a.perms);
    let b2 = str_bytes(a.scheme);
    let b3 = str_bytes(a.id);
    let t3 = tail;
    let t2 = b3 + t3;
    let t1 = b2 + t2;
    assert(s =~= pre + b1 + t1);
    lemma_dec_u32_mid(pre, a.perms, t1);
    let p2 = pre + b1;
    lemma_concat_associative(p2, b2, t2);
    assert(s == p2 + b2 + t2);
    lemma_dec_str_mid(p2, a.scheme, t2);
    let p3 = p2 + b2;
    lemma_concat_associative(p3, b3, t3);
    assert(s == p3 + b3 + t3);
    lemma_dec_str_mid(p3, a.id, t3);
}

impl WriteTo for Acl {
    open spec fn encodable(&self) -> bool {
        acl_encodable(self@)
    }

    open spec fn enc(&self) -> Seq<u8> {
        acl_bytes(self@)
    }

    fn write_to(&self, out: &mut Vec<u8>) {
        write_u32_be(out, self.perms.code());
        write_str(out, self.scheme.as_str());
        write_str(out, self.id.as_str());
        assert(out@ =~= old(out)@ + acl_bytes(self@));
    }
}

impl ReadFrom for Acl {
    type Model = AclV;

    open spec fn dec(s: Seq<u8>, i: int) -> Result<(AclV, int), DecodeError> {
        dec_acl(s, i)
    }

    open spec fn models(&self, m: AclV) -> bool {
        self@ == m
    }

    fn read_from(buf: &[u8], pos: usize) -> (r: Result<(Acl, usize), DecodeError>) {
        let (raw, p1) = match read_u32_be(buf, pos) {
            Ok(v) => v,
            Err(e) => { return Err(e); },
        };
        let (scheme, p2) = match read_string(buf, p1) {
            Ok(v) => v,
            Err(e) => { return Err(e); },
        };
        let (id, p3) = match read_string(buf, p2) {
            Ok(v) => v,
            Err(e) => { return Err(e); },
        };
        Ok((Acl { perms: Permission::from_raw(raw), scheme, id }, p3))
    }
}

// ---------------------------------------------------------------------------
// Frame assembly
// ---------------------------------------------------------------------------

/// Assembles one transmission-ready frame: a request header and an
/// operation body behind a single signed 32-bit length prefix that
/// counts every byte after itself. The body is encoded first and
/// measured; the prefix is prepended once the length is known.
pub fn to_len_prefixed_buf<Request: WriteTo>(rh: RequestHeader, req: Request) -> (r: Vec<u8>)
    requires
        req.encodable(),
        rh.enc().len() + req.enc().len() <= MAX_LEN,
    ensures
        r@ == buf_bytes(rh.enc() + req.enc()),
{
    let mut body: Vec<u8> = Vec::new();
    rh.write_to(&mut body);
    req.write_to(&mut body);
    let mut out: Vec<u8> = Vec::new();
    write_buf(&mut out, body.as_slice());
    out
}

// ---------------------------------------------------------------------------
// Session establishment
// ---------------------------------------------------------------------------

/// The connect handshake request: the session parameters the client
/// proposes, echoing what the previous session negotiated.
pub struct ConnectRequest {
    pub protocol_version: i32,
    pub last_zxid_seen: i64,
    pub timeout: i32,
    pub session_id: i64,
    pub passwd: Vec<u8>,
    pub read_only: bool,
}

/// The mathematical content of a [`ConnectRequest`].
pub struct ConnectRequestV {
    pub protocol_version: i32,
    pub last_zxid_seen: i64,
    pub timeout: i32,
    pub session_id: i64,
    pub passwd: Seq<u8>,
    pub read_only: bool,
}

impl View for ConnectRequest {
    type V = ConnectRequestV;

    open spec fn view(&self) -> ConnectRequestV {
        ConnectRequestV {
            protocol_version: self.protocol_version,
            last_zxid_seen: self.last_zxid_seen,
            timeout: self.timeout,
            session_id: self.session_id,
            passwd: self.passwd@,
            read_only: self.read_only,
        }
    }
}

/// The byte image of a connect request.
pub open spec fn connect_request_bytes(r: ConnectRequestV) -> Seq<u8> {
    i32_bytes(r.protocol_version) + (i64_bytes(r.last_zxid_seen) + (i32_bytes(r.timeout) + (
    i64_bytes(r.session_id) + (buf_bytes(r.passwd) + bool_bytes(r.read_only)))))
}

/// The spec-level decoder of a connect request.
pub open spec fn dec_connect_request(s: Seq<u8>, i: int) -> Result<
    (ConnectRequestV, int),
    DecodeError,
> {
    match dec_i32(s, i) {
        Err(e) => Err(e),
        Ok((protocol_version, i1)) => match dec_i64(s, i1) {
            Err(e) => Err(e),
            Ok((last_zxid_seen, i2)) => match dec_i32(s, i2) {
                Err(e) => Err(e),
                Ok((timeout, i3)) => match dec_i64(s, i3) {
                    Err(e) => Err(e),
                    Ok((session_id, i4)) => match dec_buf(s, i4) {
                        Err(e) => Err(e),
                        Ok((passwd, i5)) => match dec_bool(s, i5) {
                            Err(e) => Err(e),
                            Ok((read_only, i6)) => Ok(
                                (
                                    ConnectRequestV {
                                        protocol_version,
                                        last_zxid_seen,
                                        timeout,
                                        session_id,
                                        passwd,
                                        read_only,
                                    },
                                    i6,
                                ),
                            ),
                        },
                    },
                },
            },
        },
    }
}

/// Round trip: a connect request's byte image decodes to the request,
/// whatever bytes surround it.
pub proof fn lemma_dec_connect_request_mid(pre: Seq<u8>, r: ConnectRequestV, tail: Seq<u8>)
    requires
        r.passwd.len() <= MAX_LEN,
    ensures
        dec_connect_request(pre + connect_request_bytes(r) + tail, pre.len() as int) == Ok::<
            (ConnectRequestV, int),
            DecodeError,
        >((r, pre.len() as int + connect_request_bytes(r).len() as int)),
{
    lemma_enc_lens();
    let s = pre + connect_request_bytes(r) + tail;
    let b1 = i32_bytes(r.protocol_version);
    let b2 = i64_bytes(r.last_zxid_seen);
    let b3 = i32_bytes(r.timeout);
    let b4 = i64_bytes(r.session_id);
    let b5 = buf_bytes(r.passwd);
    let b6 = bool_bytes(r.read_only);
    let r5 = b6;
    let r4 = b5 + r5;
    let r3 = b4 + r4;
    let r2 = b3 + r3;
    let r1 = b2 + r2;
    assert(s == pre + b1 + (r1 + tail)) by {
        assert(connect_request_bytes(r) == b1 + r1);
        lemma_concat_associative(pre, b1 + r1, tail);
        lemma_concat_associative(b1, r1, tail);
        lemma_concat_associative(pre, b1, r1 + tail);
    }
    lemma_dec_i32_mid(pre, r.protocol_version, r1 + tail);
    let p2 = pre + b1;
    assert(s == p2 + b2 + (r2 + tail)) by {
        lemma_concat_associative(b2, r2, tail);
        lemma_concat_associative(p2, b2, r2 + tail);
    }
    lemma_dec_i64_mid(p2, r.last_zxid_seen, r2 + tail);
    let p3 = p2 + b2;
    assert(s == p3 + b3 + (r3 + tail)) by {
        lemma_concat_associative(b3, r3, tail);
        lemma_concat_associative(p3, b3, r3 + tail);
    }
    lemma_dec_i32_mid(p3, r.timeout, r3 + tail);
    let p4 = p3 + b3;
    assert(s == p4 + b4 + (r4 + tail)) by {
        lemma_concat_associative(b4, r4, tail);
        lemma_concat_associative(p4, b4, r4 + tail);
    }
    lemma_dec_i64_mid(p4, r.session_id, r4 + tail);
    let p5 = p4 + b4;
    assert(s == p5 + b5 + (r5 + tail)) by {
        lemma_concat_associative(b5, r5, tail);
        lemma_concat_associative(p5, b5, r5 + tail);
    }
    lemma_dec_buf_mid(p5, r.passwd, r5 + tail);
    let p6 = p5 + b5;
    assert(s == p6 + b6 + tail) by {
        lemma_concat_associative(p6, b6, tail);
    }
    lemma_dec_bool_mid(p6, r.read_only, tail);
}

impl ConnectRequest {
    /// Rebuilds the handshake request from the last negotiated session
    /// parameters and the last transaction id this client observed. The
    /// negotiated timeout is carried as a signed 32-bit field on the
    /// wire, so it is narrowed here.
    pub fn from(conn_resp: &ConnectResponse, last_zxid_seen: i64) -> (r: ConnectRequest)
        ensures
            r@ == (ConnectRequestV {
                protocol_version: conn_resp.protocol_version,
                last_zxid_seen: last_zxid_seen,
                timeout: conn_resp.timeout as i32,
                session_id: conn_resp.session_id,
                passwd: conn_resp.passwd@,
                read_only: conn_resp.read_only,
            }),
    {
        ConnectRequest {
            protocol_version: conn_resp.protocol_version,
            last_zxid_seen: last_zxid_seen,
            timeout: #[verifier::truncate] (conn_resp.timeout as i32),
            session_id: conn_resp.session_id,
            passwd: slice_to_vec(conn_resp.passwd.as_slice()),
            read_only: conn_resp.read_only,
        }
    }
}

impl WriteTo for ConnectRequest {
    open spec fn encodable(&self) -> bool {
        self.passwd@.len() <= MAX_LEN
    }

    open spec fn enc(&self) -> Seq<u8> {
        connect_request_bytes(self@)
    }

    fn write_to(&self, out: &mut Vec<u8>) {
        write_i32_be(out, self.protocol_version);
        write_i64_be(out, self.last_zxid_seen);
        write_i32_be(out, self.timeout);
        write_i64_be(out, self.session_id);
        write_buf(out, self.passwd.as_slice());
        write_bool(out, self.read_only);
        assert(out@ =~= old(out)@ + connect_request_bytes(self@));
    }
}

/// The connect handshake reply: the session parameters the service
/// granted. The negotiated timeout arrives as a signed 32-bit field.
#[derive(Debug)]
pub struct ConnectResponse {
    pub protocol_version: i32,
    pub timeout: u64,
    pub session_id: i64,
    pub passwd: Vec<u8>,
    pub read_only: bool,
}

/// The mathematical content of a [`ConnectResponse`].
pub struct ConnectResponseV {
    pub protocol_version: i32,
    pub timeout: u64,
    pub session_id: i64,
    pub passwd: Seq<u8>,
    pub read_only: bool,
}

impl View for ConnectResponse {
    type V = ConnectResponseV;

    open spec fn view(&self) -> ConnectResponseV {
        ConnectResponseV {
            protocol_version: self.protocol_version,
            timeout: self.timeout,
            session_id: self.session_id,
            passwd: self.passwd@,
            read_only: self.read_only,
        }
    }
}

/// The byte image of a connect reply; the timeout is written as the
/// signed 32-bit field it occupies on the wire.
pub open spec fn connect_response_bytes(r: ConnectResponseV) -> Seq<u8> {
    i32_bytes(r.protocol_version) + (i32_bytes(r.timeout as i32) + (i64_bytes(r.session_id) + (
    buf_bytes(r.passwd) + bool_bytes(r.read_only))))
}

/// The spec-level decoder of a connect reply. The 32-bit timeout field
/// is widened, keeping its sign.
pub open spec fn dec_connect_response(s: Seq<u8>, i: int) -> Result<
    (ConnectResponseV, int),
    DecodeError,
> {
    match dec_i32(s, i) {
        Err(e) => Err(e),
        Ok((protocol_version, i1)) => match dec_i32(s, i1) {
            Err(e) => Err(e),
            Ok((timeout_raw, i2)) => match dec_i64(s, i2) {
                Err(e) => Err(e),
                Ok((session_id, i3)) => match dec_buf(s, i3) {
                    Err(e) => Err(e),
                    Ok((passwd, i4)) => match dec_bool(s, i4) {
                        Err(e) => Err(e),
                        Ok((read_only, i5)) => Ok(
                            (
                                ConnectResponseV {
                                    protocol_version,
                                    timeout: timeout_raw as u64,
                                    session_id,
                                    passwd,
                                    read_only,
                                },
                                i5,
                            ),
                        ),
                    },
                },
            },
        },
    }
}

/// Round trip: a connect reply's byte image decodes to the reply,
/// whatever bytes surround it, provided the timeout survives its 32-bit
/// wire field (every value the decoder itself produces does).
pub proof fn lemma_dec_connect_response_mid(pre: Seq<u8>, r: ConnectResponseV, tail: Seq<u8>)
    requires
        r.passwd.len() <= MAX_LEN,
        r.timeout == (r.timeout as i32) as u64,
    ensures
        dec_connect_response(pre + connect_response_bytes(r) + tail, pre.len() as int) == Ok::<
            (ConnectResponseV, int),
            DecodeError,
        >((r, pre.len() as int + connect_response_bytes(r).len() as int)),
{
    lemma_enc_lens();
    let s = pre + connect_response_bytes(r) + tail;
    let b1 = i32_bytes(r.protocol_version);
    let b2 = i32_bytes(r.timeout as i32);
    let b3 = i64_bytes(r.session_id);
    let b4 = buf_bytes(r.passwd);
    let b5 = bool_bytes(r.read_only);
    let r4 = b5;
    let r3 = b4 + r4;
    let r2 = b3 + r3;
    let r1 = b2 + r2;
    assert(s == pre + b1 + (r1 + tail)) by {
        assert(connect_response_bytes(r) == b1 + r1);
        lemma_concat_associative(pre, b1 + r1, tail);
        lemma_concat_associative(b1, r1, tail);
        lemma_concat_associative(pre, b1, r1 + tail);
    }
    lemma_dec_i32_mid(pre, r.protocol_version, r1 + tail);
    let p2 = pre + b1;
    assert(s == p2 + b2 + (r2 + tail)) by {
        lemma_concat_associative(b2, r2, tail);
        lemma_concat_associative(p2, b2, r2 + tail);
    }
    lemma_dec_i32_mid(p2, r.timeout as i32, r2 + tail);
    let p3 = p2 + b2;
    assert(s == p3 + b3 + (r3 + tail)) by {
        lemma_concat_associative(b3, r3, tail);
        lemma_concat_associative(p3, b3, r3 + tail);
    }
    lemma_dec_i64_mid(p3, r.session_id, r3 + tail);
    let p4 = p3 + b3;
    assert(s == p4 + b4 + (r4 + tail)) by {
        lemma_concat_associative(b4, r4, tail);
        lemma_concat_associative(p4, b4, r4 + tail);
    }
    lemma_dec_buf_mid(p4, r.passwd, r4 + tail);
    let p5 = p4 + b4;
    assert(s == p5 + b5 + tail) by {
        lemma_concat_associative(p5, b5, tail);
    }
    lemma_dec_bool_mid(p5, r.read_only, tail);
}

impl ConnectResponse {
    /// The state a client assumes before any handshake: protocol 0, a
    /// fresh session (id 0) and an all-zero 16-byte password.
    pub fn initial(timeout: u64) -> (r: ConnectResponse)
        ensures
            r.protocol_version == 0,
            r.timeout == timeout,
            r.session_id == 0,
            r.passwd@ =~= Seq::new(16, |k: int| 0u8),
            r.read_only == false,
    {
        let mut passwd: Vec<u8> = Vec::new();
        let mut k: usize = 0;
        while k < 16
            invariant
                k <= 16,
                passwd@ =~= Seq::new(k as nat, |j: int| 0u8),
            decreases 16 - k,
        {
            passwd.push(0u8);
            k = k + 1;
        }
        ConnectResponse {
            protocol_version: 0,
            timeout: timeout,
            session_id: 0,
            passwd,
            read_only: false,
        }
    }
}

impl ReadFrom for ConnectResponse {
    type Model = ConnectResponseV;

    open spec fn dec(s: Seq<u8>, i: int) -> Result<(ConnectResponseV, int), DecodeError> {
        dec_connect_response(s, i)
    }

    open spec fn models(&self, m: ConnectResponseV) -> bool {
        self@ == m
    }

    fn read_from(buf: &[u8], pos: usize) -> (r: Result<(ConnectResponse, usize), DecodeError>) {
        let (protocol_version, p1) = match read_i32_be(buf, pos) {
            Ok(v) => v,
            Err(e) => { return Err(e); },
        };
        let (timeout_raw, p2) = match read_i32_be(buf, p1) {
            Ok(v) => v,
            Err(e) => { return Err(e); },
        };
        let (session_id, p3) = match read_i64_be(buf, p2) {
            Ok(v) => v,
            Err(e) => { return Err(e); },
        };
        let (passwd, p4) = match read_buf(buf, p3) {
            Ok(v) => v,
            Err(e) => { return Err(e); },
        };
        let (read_only, p5) = match read_bool(buf, p4) {
            Ok(v) => v,
            Err(e) => { return Err(e); },
        };
        Ok(
            (
                ConnectResponse {
                    protocol_version,
                    timeout: timeout_raw as u64,
                    session_id,
                    passwd,
                    read_only,
                },
                p5,
            ),
        )
    }
}

// ---------------------------------------------------------------------------
// Homogeneous sequences of records
// ---------------------------------------------------------------------------

/// The mathematical content of a vector of ACL entries.
pub open spec fn acls_view(items: Seq<Acl>) -> Seq<AclV> {
    items.map_values(|a: Acl| a@)
}

/// The mathematical content of a vector of strings.
pub open spec fn strs_view(items: Seq<String>) -> Seq<Seq<char>> {
    items.map_values(|s: String| s@)
}

/// The byte images of a run of ACL entries, in order, with no count.
pub open spec fn acl_items_bytes(items: Seq<AclV>) -> Seq<u8>
    decreases items.len(),
{
    if items.len() == 0 {
        Seq::empty()
    } else {
        acl_bytes(items[0]) + acl_items_bytes(items.drop_first())
    }
}

/// The byte image of an ACL sequence: a signed 32-bit count, then each
/// entry's image in order.
pub open spec fn acl_vec_bytes(items: Seq<AclV>) -> Seq<u8> {
    i32_bytes(items.len() as i32) + acl_items_bytes(items)
}

/// Whether an ACL sequence fits its count prefix, every entry included.
pub open spec fn acl_vec_encodable(items: Seq<AclV>) -> bool {
    items.len() <= MAX_LEN && forall|i: int|
        0 <= i < items.len() ==> acl_encodable(#[trigger] items[i])
}

/// The byte images of a run of strings, in order, with no count.
pub open spec fn str_items_bytes(items: Seq<Seq<char>>) -> Seq<u8>
    decreases items.len(),
{
    if items.len() == 0 {
        Seq::empty()
    } else {
        str_bytes(items[0]) + str_items_bytes(items.drop_first())
    }
}

/// The byte image of a string sequence: a signed 32-bit count, then
/// each string's image in order.
pub open spec fn str_vec_bytes(items: Seq<Seq<char>>) -> Seq<u8> {
    i32_bytes(items.len() as i32) + str_items_bytes(items)
}

/// Whether a string sequence fits its count prefix, every string included.
pub open spec fn str_vec_encodable(items: Seq<Seq<char>>) -> bool {
    items.len() <= MAX_LEN && forall|i: int| 0 <= i < items.len() ==> str_encodable(#[trigger] items[i])
}

/// The spec-level decoder of exactly `n` consecutive ACL entries.
pub open spec fn dec_acl_items(s: Seq<u8>, i: int, n: nat) -> Result<(Seq<AclV>, int), DecodeError>
    decreases n,
{
    if n == 0 {
        Ok((Seq::empty(), i))
    } else {
        match dec_acl(s, i) {
            Err(e) => Err(e),
            Ok((a, j)) => match dec_acl_items(s, j, (n - 1) as nat) {
                Err(e) => Err(e),
                Ok((rest, k)) => Ok((seq![a] + rest, k)),
            },
        }
    }
}

/// The spec-level decoder of an ACL sequence: a signed 32-bit count,
/// then exactly that many entries, read in order and failing eagerly.
/// A negative count is nowhere expected for a sequence, so it is a
/// framing error, unlike a buffer's negative length.
pub open spec fn dec_acl_vec(s: Seq<u8>, i: int) -> Result<(Seq<AclV>, int), DecodeError> {
    match dec_i32(s, i) {
        Err(e) => Err(e),
        Ok((count, j)) => if count < 0 {
            Err(DecodeError::Truncated)
        } else {
            dec_acl_items(s, j, count as nat)
        },
    }
}

/// The spec-level decoder of exactly `n` consecutive strings.
pub open spec fn dec_str_items(s: Seq<u8>, i: int, n: nat) -> Result<
    (Seq<Seq<char>>, int),
    DecodeError,
>
    decreases n,
{
    if n == 0 {
        Ok((Seq::empty(), i))
    } else {
        match dec_str(s, i) {
            Err(e) => Err(e),
            Ok((c, j)) => match dec_str_items(s, j, (n - 1) as nat) {
                Err(e) => Err(e),
                Ok((rest, k)) => Ok((seq![c] + rest, k)),
            },
        }
    }
}

/// The spec-level decoder of a string sequence, shaped like
/// [`dec_acl_vec`]: a negative count is a framing error here too.
pub open spec fn dec_str_vec(s: Seq<u8>, i: int) -> Result<(Seq<Seq<char>>, int), DecodeError> {
    match dec_i32(s, i) {
        Err(e) => Err(e),
        Ok((count, j)) => if count < 0 {
            Err(DecodeError::Truncated)
        } else {
            dec_str_items(s, j, count as nat)
        },
    }
}

/// Round trip for a run of ACL entries, by induction over the run.
pub proof fn lemma_dec_acl_items_mid(pre: Seq<u8>, items: Seq<AclV>, tail: Seq<u8>)
    requires
        forall|i: int| 0 <= i < items.len() ==> acl_encodable(#[trigger] items[i]),
    ensures
        dec_acl_items(pre + acl_items_bytes(items) + tail, pre.len() as int, items.len()) == Ok::<
            (Seq<AclV>, int),
            DecodeError,
        >((items, pre.len() as int + acl_items_bytes(items).len() as int)),
    decreases items.len(),
{
    let s = pre + acl_items_bytes(items) + tail;
    if items.len() == 0 {
        assert(acl_items_bytes(items) == Seq::<u8>::empty());
        assert(items =~= Seq::<AclV>::empty());
        assert(s == pre + Seq::<u8>::empty() + tail);
    } else {
        let a = items[0];
        let rest = items.drop_first();
        let b = acl_bytes(a);
        let rb = acl_items_bytes(rest);
        assert(acl_items_bytes(items) == b + rb);
        assert(s == pre + b + (rb + tail)) by {
            lemma_concat_associative(pre, b + rb, tail);
            lemma_concat_associative(b, rb, tail);
            lemma_concat_associative(pre, b, rb + tail);
        }
        lemma_dec_acl_mid(pre, a, rb + tail);
        let p2 = pre + b;
        assert(s == p2 + rb + tail) by {
            lemma_concat_associative(p2, rb, tail);
        }
        assert(forall|i: int| 0 <= i < rest.len() ==> acl_encodable(#[trigger] rest[i]));
        lemma_dec_acl_items_mid(p2, rest, tail);
        let j = pre.len() as int + b.len() as int;
        assert(dec_acl(s, pre.len() as int) == Ok::<(AclV, int), DecodeError>((a, j)));
        assert(dec_acl_items(s, j, rest.len()) == Ok::<(Seq<AclV>, int), DecodeError>(
            (rest, j + rb.len() as int),
        ));
        assert(dec_acl_items(s, pre.len() as int, items.len()) == Ok::<
            (Seq<AclV>, int),
            DecodeError,
        >((seq![a] + rest, j + rb.len() as int)));
        assert(items =~= seq![a] + rest);
    }
}

/// Round trip: an ACL sequence's byte image decodes to the sequence,
/// whatever bytes surround it.
pub proof fn lemma_dec_acl_vec_mid(pre: Seq<u8>, items: Seq<AclV>, tail: Seq<u8>)
    requires
        acl_vec_encodable(items),
    ensures
        dec_acl_vec(pre + acl_vec_bytes(items) + tail, pre.len() as int) == Ok::<
            (Seq<AclV>, int),
            DecodeError,
        >((items, pre.len() as int + acl_vec_bytes(items).len() as int)),
{
    lemma_enc_lens();
    let s = pre + acl_vec_bytes(items) + tail;
    let b = i32_bytes(items.len() as i32);
    let rb = acl_items_bytes(items);
    assert(s == pre + b + (rb + tail)) by {
        assert(acl_vec_bytes(items) == b + rb);
        lemma_concat_associative(pre, b + rb, tail);
        lemma_concat_associative(b, rb, tail);
        lemma_concat_associative(pre, b, rb + tail);
    }
    lemma_dec_i32_mid(pre, items.len() as i32, rb + tail);
    let p2 = pre + b;
    assert(s == p2 + rb + tail) by {
        lemma_concat_associative(p2, rb, tail);
    }
    lemma_dec_acl_items_mid(p2, items, tail);
}

/// Round trip for a run of strings, by induction over the run.
pub proof fn lemma_dec_str_items_mid(pre: Seq<u8>, items: Seq<Seq<char>>, tail: Seq<u8>)
    requires
        forall|i: int| 0 <= i < items.len() ==> str_encodable(#[trigger] items[i]),
    ensures
        dec_str_items(pre + str_items_bytes(items) + tail, pre.len() as int, items.len()) == Ok::<
            (Seq<Seq<char>>, int),
            DecodeError,
        >((items, pre.len() as int + str_items_bytes(items).len() as int)),
    decreases items.len(),
{
    lemma_enc_lens();
    let s = pre + str_items_bytes(items) + tail;
    if items.len() == 0 {
        assert(str_items_bytes(items) == Seq::<u8>::empty());
        assert(items =~= Seq::<Seq<char>>::empty());
        assert(s == pre + Seq::<u8>::empty() + tail);
    } else {
        let c = items[0];
        let rest = items.drop_first();
        let b = str_bytes(c);
        let rb = str_items_bytes(rest);
        assert(str_items_bytes(items) == b + rb);
        assert(s == pre + b + (rb + tail)) by {
            lemma_concat_associative(pre, b + rb, tail);
            lemma_concat_associative(b, rb, tail);
            lemma_concat_associative(pre, b, rb + tail);
        }
        lemma_dec_str_mid(pre, c, rb + tail);
        let p2 = pre + b;
        assert(s == p2 + rb + tail) by {
            lemma_concat_associative(p2, rb, tail);
        }
        assert(forall|i: int| 0 <= i < rest.len() ==> str_encodable(#[trigger] rest[i]));
        lemma_dec_str_items_mid(p2, rest, tail);
        let j = pre.len() as int + b.len() as int;
        assert(dec_str(s, pre.len() as int) == Ok::<(Seq<char>, int), DecodeError>((c, j)));
        assert(dec_str_items(s, j, rest.len()) == Ok::<(Seq<Seq<char>>, int), DecodeError>(
            (rest, j + rb.len() as int),
        ));
        assert(dec_str_items(s, pre.len() as int, items.len()) == Ok::<
            (Seq<Seq<char>>, int),
            DecodeError,
        >((seq![c] + rest, j + rb.len() as int)));
        assert(items =~= seq![c] + rest);
    }
}

/// Round trip: a string sequence's byte image decodes to the sequence,
/// whatever bytes surround it.
pub proof fn lemma_dec_str_vec_mid(pre: Seq<u8>, items: Seq<Seq<char>>, tail: Seq<u8>)
    requires
        str_vec_encodable(items),
    ensures
        dec_str_vec(pre + str_vec_bytes(items) + tail, pre.len() as int) == Ok::<
            (Seq<Seq<char>>, int),
            DecodeError,
        >((items, pre.len() as int + str_vec_bytes(items).len() as int)),
{
    lemma_enc_lens();
    let s = pre + str_vec_bytes(items) + tail;
    let b = i32_bytes(items.len() as i32);
    let rb = str_items_bytes(items);
    assert(s == pre + b + (rb + tail)) by {
        assert(str_vec_bytes(items) == b + rb);
        lemma_concat_associative(pre, b + rb, tail);
        lemma_concat_associative(b, rb, tail);
        lemma_concat_associative(pre, b, rb + tail);
    }
    lemma_dec_i32_mid(pre, items.len() as i32, rb + tail);
    let p2 = pre + b;
    assert(s == p2 + rb + tail) by {
        lemma_concat_associative(p2, rb, tail);
    }
    lemma_dec_str_items_mid(p2, items, tail);
}

/// A vector of encodable records writes the same bytes as the run of
/// their mathematical contents.
pub proof fn lemma_acl_items_enc(items: Seq<Acl>)
    ensures
        items_enc(items) == acl_items_bytes(acls_view(items)),
    decreases items.len(),
{
    if items.len() == 0 {
        assert(acls_view(items) =~= Seq::<AclV>::empty());
    } else {
        lemma_acl_items_enc(items.drop_first());
        assert(acls_view(items).drop_first() =~= acls_view(items.drop_first()));
        assert(acls_view(items)[0] == items[0]@);
        assert(acls_view(items).len() == items.len());
    }
}

/// Writes an ACL sequence: a signed 32-bit count, then each entry in
/// order.
pub fn write_acl_vec(out: &mut Vec<u8>, items: &Vec<Acl>)
    requires
        items@.len() <= MAX_LEN,
        items_encodable(items@),
    ensures
        final(out)@ == old(out)@ + acl_vec_bytes(acls_view(items@)),
{
    let mut body: Vec<u8> = Vec::new();
    let mut idx: usize = 0;
    while idx < items.len()
        invariant
            idx <= items@.len(),
            items@.len() <= MAX_LEN,
            items_encodable(items@),
            body@ == acl_items_bytes(acls_view(items@.take(idx as int))),
        decreases items@.len() - idx,
    {
        proof {
            assert(acls_view(items@.take(idx as int + 1)) =~= acls_view(
                items@.take(idx as int),
            ).push(items@[idx as int]@));
            lemma_acl_items_bytes_push(acls_view(items@.take(idx as int)), items@[idx as int]@);
        }
        items[idx].write_to(&mut body);
        idx = idx + 1;
    }
    proof {
        assert(acls_view(items@.take(items@.len() as int)) =~= acls_view(items@));
        assert(acls_view(items@).len() == items@.len());
    }
    write_i32_be(out, items.len() as i32);
    write_bytes(out, body.as_slice());
    assert(out@ =~= old(out)@ + acl_vec_bytes(acls_view(items@)));
}

/// Appending one ACL entry appends its byte image.
pub proof fn lemma_acl_items_bytes_push(items: Seq<AclV>, a: AclV)
    ensures
        acl_items_bytes(items.push(a)) == acl_items_bytes(items) + acl_bytes(a),
    decreases items.len(),
{
    if items.len() == 0 {
        let q = items.push(a);
        assert(q[0] == a);
        assert(q.drop_first() =~= Seq::<AclV>::empty());
        assert(acl_items_bytes(Seq::<AclV>::empty()) == Seq::<u8>::empty());
        assert(acl_items_bytes(q) == acl_bytes(a) + Seq::<u8>::empty());
        assert(acl_items_bytes(q) =~= acl_items_bytes(items) + acl_bytes(a));
    } else {
        let rest = items.drop_first();
        lemma_acl_items_bytes_push(rest, a);
        assert(items.push(a).drop_first() =~= rest.push(a));
        assert(items.push(a)[0] == items[0]);
        assert(acl_items_bytes(items.push(a)) == acl_bytes(items[0]) + (acl_items_bytes(rest)
            + acl_bytes(a)));
        assert(acl_bytes(items[0]) + (acl_items_bytes(rest) + acl_bytes(a)) =~= (acl_bytes(
            items[0],
        ) + acl_items_bytes(rest)) + acl_bytes(a));
    }
}

/// Reads an ACL sequence: a signed 32-bit count, then exactly that
/// many entries, failing eagerly on any entry failure. A negative
/// count is a framing error.
pub fn read_acl_vec(buf: &[u8], pos: usize) -> (r: Result<(Vec<Acl>, usize), DecodeError>)
    ensures
        match r {
            Ok((v, p)) => dec_acl_vec(buf@, pos as int) == Ok::<(Seq<AclV>, int), DecodeError>(
                (acls_view(v@), p as int),
            ) && p <= buf@.len() && p as int >= pos as int + 4,
            Err(e) => dec_acl_vec(buf@, pos as int) == Err::<(Seq<AclV>, int), DecodeError>(e),
        },
{
    let (count, p1) = match read_i32_be(buf, pos) {
        Ok(v) => v,
        Err(e) => { return Err(e); },
    };
    if count < 0 {
        return Err(DecodeError::Truncated);
    }
    let n: usize = count as usize;
    let mut acc: Vec<Acl> = Vec::new();
    let mut p: usize = p1;
    let mut k: usize = 0;
    while k < n
        invariant
            k <= n,
            p <= buf@.len(),
            p >= p1,
            acc@.len() == k,
            dec_i32(buf@, pos as int) == Ok::<(i32, int), DecodeError>((count, p1 as int)),
            n as int == count as int,
            ({
                let full = dec_acl_items(buf@, p1 as int, n as nat);
                match dec_acl_items(buf@, p as int, (n - k) as nat) {
                    Ok((m, e)) => full == Ok::<(Seq<AclV>, int), DecodeError>(
                        (acls_view(acc@) + m, e),
                    ),
                    Err(er) => full == Err::<(Seq<AclV>, int), DecodeError>(er),
                }
            }),
        decreases n - k,
    {
        match <Acl as ReadFrom>::read_from(buf, p) {
            Ok((a, p2)) => {
                proof {
                    let nk = (n - k) as nat;
                    assert(dec_acl(buf@, p as int) == Ok::<(AclV, int), DecodeError>(
                        (a@, p2 as int),
                    ));
                    assert(acls_view(acc@.push(a)) =~= acls_view(acc@) + seq![a@]);
                    match dec_acl_items(buf@, p2 as int, (nk - 1) as nat) {
                        Ok((m2, e2)) => {
                            lemma_concat_associative(acls_view(acc@), seq![a@], m2);
                        },
                        Err(_) => {},
                    }
                }
                acc.push(a);
                p = p2;
                k = k + 1;
            },
            Err(e) => {
                return Err(e);
            },
        }
    }
    proof {
        assert(dec_acl_items(buf@, p as int, 0) == Ok::<(Seq<AclV>, int), DecodeError>(
            (Seq::empty(), p as int),
        ));
        assert(acls_view(acc@) + Seq::<AclV>::empty() =~= acls_view(acc@));
    }
    Ok((acc, p))
}

/// Reads a string sequence, shaped like [`read_acl_vec`]: a negative
/// count is a framing error.
pub fn read_string_vec(buf: &[u8], pos: usize) -> (r: Result<(Vec<String>, usize), DecodeError>)
    ensures
        match r {
            Ok((v, p)) => dec_str_vec(buf@, pos as int) == Ok::<(Seq<Seq<char>>, int), DecodeError>(
                (strs_view(v@), p as int),
            ) && p <= buf@.len() && p as int >= pos as int + 4,
            Err(e) => dec_str_vec(buf@, pos as int) == Err::<(Seq<Seq<char>>, int), DecodeError>(e),
        },
{
    let (count, p1) = match read_i32_be(buf, pos) {
        Ok(v) => v,
        Err(e) => { return Err(e); },
    };
    if count < 0 {
        return Err(DecodeError::Truncated);
    }
    let n: usize = count as usize;
    let mut acc: Vec<String> = Vec::new();
    let mut p: usize = p1;
    let mut k: usize = 0;
    while k < n
        invariant
            k <= n,
            p <= buf@.len(),
            p >= p1,
            acc@.len() == k,
            dec_i32(buf@, pos as int) == Ok::<(i32, int), DecodeError>((count, p1 as int)),
            n as int == count as int,
            ({
                let full = dec_str_items(buf@, p1 as int, n as nat);
                match dec_str_items(buf@, p as int, (n - k) as nat) {
                    Ok((m, e)) => full == Ok::<(Seq<Seq<char>>, int), DecodeError>(
                        (strs_view(acc@) + m, e),
                    ),
                    Err(er) => full == Err::<(Seq<Seq<char>>, int), DecodeError>(er),
                }
            }),
        decreases n - k,
    {
        match read_string(buf, p) {
            Ok((c, p2)) => {
                proof {
                    let nk = (n - k) as nat;
                    assert(dec_str(buf@, p as int) == Ok::<(Seq<char>, int), DecodeError>(
                        (c@, p2 as int),
                    ));
                    assert(strs_view(acc@.push(c)) =~= strs_view(acc@) + seq![c@]);
                    match dec_str_items(buf@, p2 as int, (nk - 1) as nat) {
                        Ok((m2, e2)) => {
                            lemma_concat_associative(strs_view(acc@), seq![c@], m2);
                        },
                        Err(_) => {},
                    }
                }
                acc.push(c);
                p = p2;
                k = k + 1;
            },
            Err(e) => {
                return Err(e);
            },
        }
    }
    proof {
        assert(dec_str_items(buf@, p as int, 0) == Ok::<(Seq<Seq<char>>, int), DecodeError>(
            (Seq::empty(), p as int),
        ));
        assert(strs_view(acc@) + Seq::<Seq<char>>::empty() =~= strs_view(acc@));
    }
    Ok((acc, p))
}

// ---------------------------------------------------------------------------
// Per-operation requests and responses
// ---------------------------------------------------------------------------

/// Asks the service to create a node with initial data, an ACL and a
/// creation-mode code.
pub struct CreateRequest {
    pub path: String,
    pub data: Vec<u8>,
    pub acl: Vec<Acl>,
    pub flags: i32,
}

/// The byte image of a create request.
pub open spec fn create_request_bytes(
    path: Seq<char>,
    data: Seq<u8>,
    acl: Seq<AclV>,
    flags: i32,
) -> Seq<u8> {
    str_bytes(path) + (buf_bytes(data) + (acl_vec_bytes(acl) + i32_bytes(flags)))
}

/// The spec-level decoder of a create request.
pub open spec fn dec_create_request(s: Seq<u8>, i: int) -> Result<
    ((Seq<char>, Seq<u8>, Seq<AclV>, i32), int),
    DecodeError,
> {
    match dec_str(s, i) {
        Err(e) => Err(e),
        Ok((path, i1)) => match dec_buf(s, i1) {
            Err(e) => Err(e),
            Ok((data, i2)) => match dec_acl_vec(s, i2) {
                Err(e) => Err(e),
                Ok((acl, i3)) => match dec_i32(s, i3) {
                    Err(e) => Err(e),
                    Ok((flags, i4)) => Ok(((path, data, acl, flags), i4)),
                },
            },
        },
    }
}

/// Round trip: a create request's byte image decodes to its fields,
/// whatever bytes surround it.
pub proof fn lemma_dec_create_request_mid(
    pre: Seq<u8>,
    path: Seq<char>,
    data: Seq<u8>,
    acl: Seq<AclV>,
    flags: i32,
    tail: Seq<u8>,
)
    requires
        str_encodable(path),
        data.len() <= MAX_LEN,
        acl_vec_encodable(acl),
    ensures
        dec_create_request(pre + create_request_bytes(path, data, acl, flags) + tail, pre.len() as int)
            == Ok::<((Seq<char>, Seq<u8>, Seq<AclV>, i32), int), DecodeError>(
            ((path, data, acl, flags), pre.len() as int + create_request_bytes(
                path,
                data,
                acl,
                flags,
            ).len() as int),
        ),
{
    lemma_enc_lens();
    let s = pre + create_request_bytes(path, data, acl, flags) + tail;
    let b1 = str_bytes(path);
    let b2 = buf_bytes(data);
    let b3 = acl_vec_bytes(acl);
    let b4 = i32_bytes(flags);
    let r3 = b4;
    let r2 = b3 + r3;
    let r1 = b2 + r2;
    assert(create_request_bytes(path, data, acl, flags) == b1 + r1);
    assert(s == pre + b1 + (r1 + tail)) by {
        lemma_concat_associative(pre, b1 + r1, tail);
        lemma_concat_associative(b1, r1, tail);
        lemma_concat_associative(pre, b1, r1 + tail);
    }
    lemma_dec_str_mid(pre, path, r1 + tail);
    let p2 = pre + b1;
    assert(s == p2 + b2 + (r2 + tail)) by {
        lemma_concat_associative(b2, r2, tail);
        lemma_concat_associative(p2, b2, r2 + tail);
    }
    lemma_dec_buf_mid(p2, data, r2 + tail);
    let p3 = p2 + b2;
    assert(s == p3 + b3 + (r3 + tail)) by {
        lemma_concat_associative(b3, r3, tail);
        lemma_concat_associative(p3, b3, r3 + tail);
    }
    lemma_dec_acl_vec_mid(p3, acl, r3 + tail);
    let p4 = p3 + b3;
    assert(s == p4 + b4 + tail) by {
        lemma_concat_associative(p4, b4, tail);
    }
    lemma_dec_i32_mid(p4, flags, tail);
}

impl WriteTo for CreateRequest {
    open spec fn encodable(&self) -> bool {
        str_encodable(self.path@) && self.data@.len() <= MAX_LEN && self.acl@.len() <= MAX_LEN
            && items_encodable(self.acl@)
    }

    open spec fn enc(&self) -> Seq<u8> {
        create_request_bytes(self.path@, self.data@, acls_view(self.acl@), self.flags)
    }

    fn write_to(&self, out: &mut Vec<u8>) {
        write_str(out, self.path.as_str());
        write_buf(out, self.data.as_slice());
        self.acl.write_to(out);
        write_i32_be(out, self.flags);
        proof {
            lemma_acl_items_enc(self.acl@);
        }
        assert(out@ =~= old(out)@ + self.enc());
    }
}

/// The create reply: the path the service actually created (it may
/// differ from the requested path for sequential creation modes).
pub struct CreateResponse {
    pub path: String,
}

/// The byte image of a create reply.
pub open spec fn create_response_bytes(path: Seq<char>) -> Seq<u8> {
    str_bytes(path)
}

/// The spec-level decoder of a create reply.
pub open spec fn dec_create_response(s: Seq<u8>, i: int) -> Result<(Seq<char>, int), DecodeError> {
    dec_str(s, i)
}

/// Round trip: a create reply's byte image decodes to the path.
pub proof fn lemma_dec_create_response_mid(pre: Seq<u8>, path: Seq<char>, tail: Seq<u8>)
    requires
        str_encodable(path),
    ensures
        dec_create_response(pre + create_response_bytes(path) + tail, pre.len() as int) == Ok::<
            (Seq<char>, int),
            DecodeError,
        >((path, pre.len() as int + create_response_bytes(path).len() as int)),
{
    lemma_enc_lens();
    lemma_dec_str_mid(pre, path, tail);
}

impl ReadFrom for CreateResponse {
    type Model = Seq<char>;

    open spec fn dec(s: Seq<u8>, i: int) -> Result<(Seq<char>, int), DecodeError> {
        dec_create_response(s, i)
    }

    open spec fn models(&self, m: Seq<char>) -> bool {
        self.path@ == m
    }

    fn read_from(buf: &[u8], pos: usize) -> (r: Result<(CreateResponse, usize), DecodeError>) {
        match read_string(buf, pos) {
            Ok((path, p)) => Ok((CreateResponse { path }, p)),
            Err(e) => Err(e),
        }
    }
}

/// Asks the service to delete a node, optionally only at an expected
/// version (-1 matches any version).
pub struct DeleteRequest {
    pub path: String,
    pub version: i32,
}

/// The byte image of a delete request.
pub open spec fn delete_request_bytes(path: Seq<char>, version: i32) -> Seq<u8> {
    str_bytes(path) + i32_bytes(version)
}

/// The spec-level decoder of a delete request.
pub open spec fn dec_delete_request(s: Seq<u8>, i: int) -> Result<
    ((Seq<char>, i32), int),
    DecodeError,
> {
    match dec_str(s, i) {
        Err(e) => Err(e),
        Ok((path, i1)) => match dec_i32(s, i1) {
            Err(e) => Err(e),
            Ok((version, i2)) => Ok(((path, version), i2)),
        },
    }
}

/// Round trip: a delete request's byte image decodes to its fields.
pub proof fn lemma_dec_delete_request_mid(pre: Seq<u8>, path: Seq<char>, version: i32, tail: Seq<u8>)
    requires
        str_encodable(path),
    ensures
        dec_delete_request(pre + delete_request_bytes(path, version) + tail, pre.len() as int)
            == Ok::<((Seq<char>, i32), int), DecodeError>(
            ((path, version), pre.len() as int + delete_request_bytes(path, version).len() as int),
        ),
{
    lemma_enc_lens();
    let s = pre + delete_request_bytes(path, version) + tail;
    let b1 = str_bytes(path);
    let b2 = i32_bytes(version);
    assert(delete_request_bytes(path, version) == b1 + b2);
    assert(s == pre + b1 + (b2 + tail)) by {
        lemma_concat_associative(pre, b1 + b2, tail);
        lemma_concat_associative(b1, b2, tail);
        lemma_concat_associative(pre, b1, b2 + tail);
    }
    lemma_dec_str_mid(pre, path, b2 + tail);
    let p2 = pre + b1;
    assert(s == p2 + b2 + tail) by {
        lemma_concat_associative(p2, b2, tail);
    }
    lemma_dec_i32_mid(p2, version, tail);
}

impl WriteTo for DeleteRequest {
    open spec fn encodable(&self) -> bool {
        str_encodable(self.path@)
    }

    open spec fn enc(&self) -> Seq<u8> {
        delete_request_bytes(self.path@, self.version)
    }

    fn write_to(&self, out: &mut Vec<u8>) {
        write_str(out, self.path.as_str());
        write_i32_be(out, self.version);
        assert(out@ =~= old(out)@ + self.enc());
    }
}

/// The shared request shape of the exists, get-data and get-children
/// operations: a path and a flag asking the service to leave a watch.
pub struct StringAndBoolRequest {
    pub path: String,
    pub watch: bool,
}

/// The byte image of a path-and-watch request; the flag is one byte.
pub open spec fn string_and_bool_bytes(path: Seq<char>, watch: bool) -> Seq<u8> {
    str_bytes(path) + bool_bytes(watch)
}

/// The spec-level decoder of a path-and-watch request.
pub open spec fn dec_string_and_bool(s: Seq<u8>, i: int) -> Result<
    ((Seq<char>, bool), int),
    DecodeError,
> {
    match dec_str(s, i) {
        Err(e) => Err(e),
        Ok((path, i1)) => match dec_bool(s, i1) {
            Err(e) => Err(e),
            Ok((watch, i2)) => Ok(((path, watch), i2)),
        },
    }
}

/// Round trip: a path-and-watch request's byte image decodes to its
/// fields.
pub proof fn lemma_dec_string_and_bool_mid(pre: Seq<u8>, path: Seq<char>, watch: bool, tail: Seq<u8>)
    requires
        str_encodable(path),
    ensures
        dec_string_and_bool(pre + string_and_bool_bytes(path, watch) + tail, pre.len() as int)
            == Ok::<((Seq<char>, bool), int), DecodeError>(
            ((path, watch), pre.len() as int + string_and_bool_bytes(path, watch).len() as int),
        ),
{
    lemma_enc_lens();
    let s = pre + string_and_bool_bytes(path, watch) + tail;
    let b1 = str_bytes(path);
    let b2 = bool_bytes(watch);
    assert(string_and_bool_bytes(path, watch) == b1 + b2);
    assert(s == pre + b1 + (b2 + tail)) by {
        lemma_concat_associative(pre, b1 + b2, tail);
        lemma_concat_associative(b1, b2, tail);
        lemma_concat_associative(pre, b1, b2 + tail);
    }
    lemma_dec_str_mid(pre, path, b2 + tail);
    let p2 = pre + b1;
    assert(s == p2 + b2 + tail) by {
        lemma_concat_associative(p2, b2, tail);
    }
    lemma_dec_bool_mid(p2, watch, tail);
}

impl WriteTo for StringAndBoolRequest {
    open spec fn encodable(&self) -> bool {
        str_encodable(self.path@)
    }

    open spec fn enc(&self) -> Seq<u8> {
        string_and_bool_bytes(self.path@, self.watch)
    }

    fn write_to(&self, out: &mut Vec<u8>) {
        write_str(out, self.path.as_str());
        write_bool(out, self.watch);
        assert(out@ =~= old(out)@ + self.enc());
    }
}

pub type ExistsRequest = StringAndBoolRequest;

pub type GetChildrenRequest = StringAndBoolRequest;

pub type GetDataRequest = StringAndBoolRequest;

/// A reply carrying only a node-metadata record.
#[derive(Clone, Copy, Debug, PartialEq, Eq, Structural)]
pub struct StatResponse {
    pub stat: Stat,
}

impl ReadFrom for StatResponse {
    type Model = Stat;

    open spec fn dec(s: Seq<u8>, i: int) -> Result<(Stat, int), DecodeError> {
        dec_stat(s, i)
    }

    open spec fn models(&self, m: Stat) -> bool {
        self.stat == m
    }

    fn read_from(buf: &[u8], pos: usize) -> (r: Result<(StatResponse, usize), DecodeError>) {
        match <Stat as ReadFrom>::read_from(buf, pos) {
            Ok((stat, p)) => Ok((StatResponse { stat }, p)),
            Err(e) => Err(e),
        }
    }
}

pub type ExistsResponse = StatResponse;

pub type SetAclResponse = StatResponse;

pub type SetDataResponse = StatResponse;

/// Asks the service for a node's ACL.
pub struct GetAclRequest {
    pub path: String,
}

impl WriteTo for GetAclRequest {
    open spec fn encodable(&self) -> bool {
        str_encodable(self.path@)
    }

    open spec fn enc(&self) -> Seq<u8> {
        str_bytes(self.path@)
    }

    fn write_to(&self, out: &mut Vec<u8>) {
        write_str(out, self.path.as_str());
    }
}

/// The get-ACL reply: the node's ACL entries, then its metadata.
pub struct GetAclResponse {
    pub acl_stat: (Vec<Acl>, Stat),
}

/// The byte image of a get-ACL reply.
pub open spec fn get_acl_response_bytes(acl: Seq<AclV>, st: Stat) -> Seq<u8> {
    acl_vec_bytes(acl) + stat_bytes(st)
}

/// The spec-level decoder of a get-ACL reply.
pub open spec fn dec_get_acl_response(s: Seq<u8>, i: int) -> Result<
    ((Seq<AclV>, Stat), int),
    DecodeError,
> {
    match dec_acl_vec(s, i) {
        Err(e) => Err(e),
        Ok((acl, i1)) => match dec_stat(s, i1) {
            Err(e) => Err(e),
            Ok((st, i2)) => Ok(((acl, st), i2)),
        },
    }
}

/// Round trip: a get-ACL reply's byte image decodes to its fields.
pub proof fn lemma_dec_get_acl_response_mid(pre: Seq<u8>, acl: Seq<AclV>, st: Stat, tail: Seq<u8>)
    requires
        acl_vec_encodable(acl),
    ensures
        dec_get_acl_response(pre + get_acl_response_bytes(acl, st) + tail, pre.len() as int)
            == Ok::<((Seq<AclV>, Stat), int), DecodeError>(
            ((acl, st), pre.len() as int + get_acl_response_bytes(acl, st).len() as int),
        ),
{
    lemma_enc_lens();
    let s = pre + get_acl_response_bytes(acl, st) + tail;
    let b1 = acl_vec_bytes(acl);
    let b2 = stat_bytes(st);
    assert(get_acl_response_bytes(acl, st) == b1 + b2);
    assert(s == pre + b1 + (b2 + tail)) by {
        lemma_concat_associative(pre, b1 + b2, tail);
        lemma_concat_associative(b1, b2, tail);
        lemma_concat_associative(pre, b1, b2 + tail);
    }
    lemma_dec_acl_vec_mid(pre, acl, b2 + tail);
    let p2 = pre + b1;
    assert(s == p2 + b2 + tail) by {
        lemma_concat_associative(p2, b2, tail);
    }
    lemma_dec_stat_mid(p2, st, tail);
}

impl ReadFrom for GetAclResponse {
    type Model = (Seq<AclV>, Stat);

    open spec fn dec(s: Seq<u8>, i: int) -> Result<((Seq<AclV>, Stat), int), DecodeError> {
        dec_get_acl_response(s, i)
    }

    open spec fn models(&self, m: (Seq<AclV>, Stat)) -> bool {
        acls_view(self.acl_stat.0@) == m.0 && self.acl_stat.1 == m.1
    }

    fn read_from(buf: &[u8], pos: usize) -> (r: Result<(GetAclResponse, usize), DecodeError>) {
        let (acl, p1) = match read_acl_vec(buf, pos) {
            Ok(v) => v,
            Err(e) => { return Err(e); },
        };
        let (stat, p2) = match <Stat as ReadFrom>::read_from(buf, p1) {
            Ok(v) => v,
            Err(e) => { return Err(e); },
        };
        Ok((GetAclResponse { acl_stat: (acl, stat) }, p2))
    }
}

/// Asks the service to replace a node's ACL, optionally only at an
/// expected ACL version.
pub struct SetAclRequest {
    pub path: String,
    pub acl: Vec<Acl>,
    pub version: i32,
}

/// The byte image of a set-ACL request.
pub open spec fn set_acl_request_bytes(path: Seq<char>, acl: Seq<AclV>, version: i32) -> Seq<u8> {
    str_bytes(path) + (acl_vec_bytes(acl) + i32_bytes(version))
}

/// The spec-level decoder of a set-ACL request.
pub open spec fn dec_set_acl_request(s: Seq<u8>, i: int) -> Result<
    ((Seq<char>, Seq<AclV>, i32), int),
    DecodeError,
> {
    match dec_str(s, i) {
        Err(e) => Err(e),
        Ok((path, i1)) => match dec_acl_vec(s, i1) {
            Err(e) => Err(e),
            Ok((acl, i2)) => match dec_i32(s, i2) {
                Err(e) => Err(e),
                Ok((version, i3)) => Ok(((path, acl, version), i3)),
            },
        },
    }
}

/// Round trip: a set-ACL request's byte image decodes to its fields.
pub proof fn lemma_dec_set_acl_request_mid(
    pre: Seq<u8>,
    path: Seq<char>,
    acl: Seq<AclV>,
    version: i32,
    tail: Seq<u8>,
)
    requires
        str_encodable(path),
        acl_vec_encodable(acl),
    ensures
        dec_set_acl_request(pre + set_acl_request_bytes(path, acl, version) + tail, pre.len() as int)
            == Ok::<((Seq<char>, Seq<AclV>, i32), int), DecodeError>(
            ((path, acl, version), pre.len() as int + set_acl_request_bytes(
                path,
                acl,
                version,
            ).len() as int),
        ),
{
    lemma_enc_lens();
    let s = pre + set_acl_request_bytes(path, acl, version) + tail;
    let b1 = str_bytes(path);
    let b2 = acl_vec_bytes(acl);
    let b3 = i32_bytes(version);
    let r2 = b3;
    let r1 = b2 + r2;
    assert(set_acl_request_bytes(path, acl, version) == b1 + r1);
    assert(s == pre + b1 + (r1 + tail)) by {
        lemma_concat_associative(pre, b1 + r1, tail);
        lemma_concat_associative(b1, r1, tail);
        lemma_concat_associative(pre, b1, r1 + tail);
    }
    lemma_dec_str_mid(pre, path, r1 + tail);
    let p2 = pre + b1;
    assert(s == p2 + b2 + (r2 + tail)) by {
        lemma_concat_associative(b2, r2, tail);
        lemma_concat_associative(p2, b2, r2 + tail);
    }
    lemma_dec_acl_vec_mid(p2, acl, r2 + tail);
    let p3 = p2 + b2;
    assert(s == p3 + b3 + tail) by {
        lemma_concat_associative(p3, b3, tail);
    }
    lemma_dec_i32_mid(p3, version, tail);
}

impl WriteTo for SetAclRequest {
    open spec fn encodable(&self) -> bool {
        str_encodable(self.path@) && self.acl@.len() <= MAX_LEN && items_encodable(self.acl@)
    }

    open spec fn enc(&self) -> Seq<u8> {
        set_acl_request_bytes(self.path@, acls_view(self.acl@), self.version)
    }

    fn write_to(&self, out: &mut Vec<u8>) {
        write_str(out, self.path.as_str());
        self.acl.write_to(out);
        write_i32_be(out, self.version);
        proof {
            lemma_acl_items_enc(self.acl@);
        }
        assert(out@ =~= old(out)@ + self.enc());
    }
}

/// Asks the service to replace a node's data, optionally only at an
/// expected version.
pub struct SetDataRequest {
    pub path: String,
    pub data: Vec<u8>,
    pub version: i32,
}

/// The byte image of a set-data request.
pub open spec fn set_data_request_bytes(path: Seq<char>, data: Seq<u8>, version: i32) -> Seq<u8> {
    str_bytes(path) + (buf_bytes(data) + i32_bytes(version))
}

/// The spec-level decoder of a set-data request.
pub open spec fn dec_set_data_request(s: Seq<u8>, i: int) -> Result<
    ((Seq<char>, Seq<u8>, i32), int),
    DecodeError,
> {
    match dec_str(s, i) {
        Err(e) => Err(e),
        Ok((path, i1)) => match dec_buf(s, i1) {
            Err(e) => Err(e),
            Ok((data, i2)) => match dec_i32(s, i2) {
                Err(e) => Err(e),
                Ok((version, i3)) => Ok(((path, data, version), i3)),
            },
        },
    }
}

/// Round trip: a set-data request's byte image decodes to its fields.
pub proof fn lemma_dec_set_data_request_mid(
    pre: Seq<u8>,
    path: Seq<char>,
    data: Seq<u8>,
    version: i32,
    tail: Seq<u8>,
)
    requires
        str_encodable(path),
        data.len() <= MAX_LEN,
    ensures
        dec_set_data_request(pre + set_data_request_bytes(path, data, version) + tail, pre.len() as int)
            == Ok::<((Seq<char>, Seq<u8>, i32), int), DecodeError>(
            ((path, data, version), pre.len() as int + set_data_request_bytes(
                path,
                data,
                version,
            ).len() as int),
        ),
{
    lemma_enc_lens();
    let s = pre + set_data_request_bytes(path, data, version) + tail;
    let b1 = str_bytes(path);
    let b2 = buf_bytes(data);
    let b3 = i32_bytes(version);
    let r2 = b3;
    let r1 = b2 + r2;
    assert(set_data_request_bytes(path, data, version) == b1 + r1);
    assert(s == pre + b1 + (r1 + tail)) by {
        lemma_concat_associative(pre, b1 + r1, tail);
        lemma_concat_associative(b1, r1, tail);
        lemma_concat_associative(pre, b1, r1 + tail);
    }
    lemma_dec_str_mid(pre, path, r1 + tail);
    let p2 = pre + b1;
    assert(s == p2 + b2 + (r2 + tail)) by {
        lemma_concat_associative(b2, r2, tail);
        lemma_concat_associative(p2, b2, r2 + tail);
    }
    lemma_dec_buf_mid(p2, data, r2 + tail);
    let p3 = p2 + b2;
    assert(s == p3 + b3 + tail) by {
        lemma_concat_associative(p3, b3, tail);
    }
    lemma_dec_i32_mid(p3, version, tail);
}

impl WriteTo for SetDataRequest {
    open spec fn encodable(&self) -> bool {
        str_encodable(self.path@) && self.data@.len() <= MAX_LEN
    }

    open spec fn enc(&self) -> Seq<u8> {
        set_data_request_bytes(self.path@, self.data@, self.version)
    }

    fn write_to(&self, out: &mut Vec<u8>) {
        write_str(out, self.path.as_str());
        write_buf(out, self.data.as_slice());
        write_i32_be(out, self.version);
        assert(out@ =~= old(out)@ + self.enc());
    }
}

/// The get-children reply: the node's child names.
pub struct GetChildrenResponse {
    pub children: Vec<String>,
}

impl ReadFrom for GetChildrenResponse {
    type Model = Seq<Seq<char>>;

    open spec fn dec(s: Seq<u8>, i: int) -> Result<(Seq<Seq<char>>, int), DecodeError> {
        dec_str_vec(s, i)
    }

    open spec fn models(&self, m: Seq<Seq<char>>) -> bool {
        strs_view(self.children@) == m
    }

    fn read_from(buf: &[u8], pos: usize) -> (r: Result<(GetChildrenResponse, usize), DecodeError>) {
        match read_string_vec(buf, pos) {
            Ok((children, p)) => Ok((GetChildrenResponse { children }, p)),
            Err(e) => Err(e),
        }
    }
}

/// The get-data reply: the node's data, then its metadata.
pub struct GetDataResponse {
    pub data_stat: (Vec<u8>, Stat),
}

/// The byte image of a get-data reply.
pub open spec fn get_data_response_bytes(data: Seq<u8>, st: Stat) -> Seq<u8> {
    buf_bytes(data) + stat_bytes(st)
}

/// The spec-level decoder of a get-data reply.
pub open spec fn dec_get_data_response(s: Seq<u8>, i: int) -> Result<
    ((Seq<u8>, Stat), int),
    DecodeError,
> {
    match dec_buf(s, i) {
        Err(e) => Err(e),
        Ok((data, i1)) => match dec_stat(s, i1) {
            Err(e) => Err(e),
            Ok((st, i2)) => Ok(((data, st), i2)),
        },
    }
}

/// Round trip: a get-data reply's byte image decodes to its fields.
pub proof fn lemma_dec_get_data_response_mid(pre: Seq<u8>, data: Seq<u8>, st: Stat, tail: Seq<u8>)
    requires
        data.len() <= MAX_LEN,
    ensures
        dec_get_data_response(pre + get_data_response_bytes(data, st) + tail, pre.len() as int)
            == Ok::<((Seq<u8>, Stat), int), DecodeError>(
            ((data, st), pre.len() as int + get_data_response_bytes(data, st).len() as int),
        ),
{
    lemma_enc_lens();
    let s = pre + get_data_response_bytes(data, st) + tail;
    let b1 = buf_bytes(data);
    let b2 = stat_bytes(st);
    assert(get_data_response_bytes(data, st) == b1 + b2);
    assert(s == pre + b1 + (b2 + tail)) by {
        lemma_concat_associative(pre, b1 + b2, tail);
        lemma_concat_associative(b1, b2, tail);
        lemma_concat_associative(pre, b1, b2 + tail);
    }
    lemma_dec_buf_mid(pre, data, b2 + tail);
    let p2 = pre + b1;
    assert(s == p2 + b2 + tail) by {
        lemma_concat_associative(p2, b2, tail);
    }
    lemma_dec_stat_mid(p2, st, tail);
}

impl ReadFrom for GetDataResponse {
    type Model = (Seq<u8>, Stat);

    open spec fn dec(s: Seq<u8>, i: int) -> Result<((Seq<u8>, Stat), int), DecodeError> {
        dec_get_data_response(s, i)
    }

    open spec fn models(&self, m: (Seq<u8>, Stat)) -> bool {
        self.data_stat.0@ == m.0 && self.data_stat.1 == m.1
    }

    fn read_from(buf: &[u8], pos: usize) -> (r: Result<(GetDataResponse, usize), DecodeError>) {
        let (data, p1) = match read_buf(buf, pos) {
            Ok(v) => v,
            Err(e) => { return Err(e); },
        };
        let (stat, p2) = match <Stat as ReadFrom>::read_from(buf, p1) {
            Ok(v) => v,
            Err(e) => { return Err(e); },
        };
        Ok((GetDataResponse { data_stat: (data, stat) }, p2))
    }
}

/// Adds authentication material to the session: a scheme type code, a
/// scheme name and an opaque credential.
pub struct AuthRequest {
    pub typ: i32,
    pub scheme: String,
    pub auth: Vec<u8>,
}

/// The byte image of an authentication request.
pub open spec fn auth_request_bytes(typ: i32, scheme: Seq<char>, auth: Seq<u8>) -> Seq<u8> {
    i32_bytes(typ) + (str_bytes(scheme) + buf_bytes(auth))
}

/// The spec-level decoder of an authentication request.
pub open spec fn dec_auth_request(s: Seq<u8>, i: int) -> Result<
    ((i32, Seq<char>, Seq<u8>), int),
    DecodeError,
> {
    match dec_i32(s, i) {
        Err(e) => Err(e),
        Ok((typ, i1)) => match dec_str(s, i1) {
            Err(e) => Err(e),
            Ok((scheme, i2)) => match dec_buf(s, i2) {
                Err(e) => Err(e),
                Ok((auth, i3)) => Ok(((typ, scheme, auth), i3)),
            },
        },
    }
}

/// Round trip: an authentication request's byte image decodes to its
/// fields.
pub proof fn lemma_dec_auth_request_mid(
    pre: Seq<u8>,
    typ: i32,
    scheme: Seq<char>,
    auth: Seq<u8>,
    tail: Seq<u8>,
)
    requires
        str_encodable(scheme),
        auth.len() <= MAX_LEN,
    ensures
        dec_auth_request(pre + auth_request_bytes(typ, scheme, auth) + tail, pre.len() as int)
            == Ok::<((i32, Seq<char>, Seq<u8>), int), DecodeError>(
            ((typ, scheme, auth), pre.len() as int + auth_request_bytes(typ, scheme, auth).len() as int),
        ),
{
    lemma_enc_lens();
    let s = pre + auth_request_bytes(typ, scheme, auth) + tail;
    let b1 = i32_bytes(typ);
    let b2 = str_bytes(scheme);
    let b3 = buf_bytes(auth);
    let r2 = b3;
    let r1 = b2 + r2;
    assert(auth_request_bytes(typ, scheme, auth) == b1 + r1);
    assert(s == pre + b1 + (r1 + tail)) by {
        lemma_concat_associative(pre, b1 + r1, tail);
        lemma_concat_associative(b1, r1, tail);
        lemma_concat_associative(pre, b1, r1 + tail);
    }
    lemma_dec_i32_mid(pre, typ, r1 + tail);
    let p2 = pre + b1;
    assert(s == p2 + b2 + (r2 + tail)) by {
        lemma_concat_associative(b2, r2, tail);
        lemma_concat_associative(p2, b2, r2 + tail);
    }
    lemma_dec_str_mid(p2, scheme, r2 + tail);
    let p3 = p2 + b2;
    assert(s == p3 + b3 + tail) by {
        lemma_concat_associative(p3, b3, tail);
    }
    lemma_dec_buf_mid(p3, auth, tail);
}

impl WriteTo for AuthRequest {
    open spec fn encodable(&self) -> bool {
        str_encodable(self.scheme@) && self.auth@.len() <= MAX_LEN
    }

    open spec fn enc(&self) -> Seq<u8> {
        auth_request_bytes(self.typ, self.scheme@, self.auth@)
    }

    fn write_to(&self, out: &mut Vec<u8>) {
        write_i32_be(out, self.typ);
        write_str(out, self.scheme.as_str());
        write_buf(out, self.auth.as_slice());
        assert(out@ =~= old(out)@ + self.enc());
    }
}

/// A request with no body (ping, close session).
pub struct EmptyRequest;

/// A reply with no body.
pub struct EmptyResponse;

impl WriteTo for EmptyRequest {
    open spec fn encodable(&self) -> bool {
        true
    }

    open spec fn enc(&self) -> Seq<u8> {
        Seq::empty()
    }

    fn write_to(&self, out: &mut Vec<u8>) {
        assert(out@ =~= old(out)@ + Seq::<u8>::empty());
    }
}

/// The spec-level decoder of an empty reply: it consumes nothing and
/// cannot fail within the input.
pub open spec fn dec_empty(s: Seq<u8>, i: int) -> Result<(EmptyResponse, int), DecodeError> {
    if 0 <= i <= s.len() {
        Ok((EmptyResponse, i))
    } else {
        Err(DecodeError::Truncated)
    }
}

impl ReadFrom for EmptyResponse {
    type Model = EmptyResponse;

    open spec fn dec(s: Seq<u8>, i: int) -> Result<(EmptyResponse, int), DecodeError> {
        dec_empty(s, i)
    }

    open spec fn models(&self, m: EmptyResponse) -> bool {
        true
    }

    fn read_from(buf: &[u8], pos: usize) -> (r: Result<(EmptyResponse, usize), DecodeError>) {
        if pos <= buf.len() {
            Ok((EmptyResponse, pos))
        } else {
            Err(DecodeError::Truncated)
        }
    }
}

// ---------------------------------------------------------------------------
// Watch events
// ---------------------------------------------------------------------------

/// The byte image of a watch-event body: the event-type code, the
/// connection-state code, then the path, with no header and no request
/// id.
pub open spec fn watched_event_bytes(
    t: WatchedEventType,
    k: KeeperState,
    path: Seq<char>,
) -> Seq<u8> {
    i32_bytes(event_type_code(t)) + (i32_bytes(keeper_state_code(k)) + str_bytes(path))
}

/// The spec-level decoder of a watch-event body. A code outside either
/// fixed enumeration is a protocol-shape error.
pub open spec fn dec_watched_event(s: Seq<u8>, i: int) -> Result<
    ((WatchedEventType, KeeperState, Seq<char>), int),
    DecodeError,
> {
    match dec_i32(s, i) {
        Err(e) => Err(e),
        Ok((traw, i1)) => match dec_i32(s, i1) {
            Err(e) => Err(e),
            Ok((kraw, i2)) => match dec_str(s, i2) {
                Err(e) => Err(e),
                Ok((path, i3)) => match (event_type_from(traw), keeper_state_from(kraw)) {
                    (Some(t), Some(k)) => Ok(((t, k, path), i3)),
                    _ => Err(DecodeError::UnknownCode),
                },
            },
        },
    }
}

/// Round trip: a watch-event body decodes to the event, whatever bytes
/// surround it; the two code enumerations invert their wire codes.
pub proof fn lemma_dec_watched_event_mid(
    pre: Seq<u8>,
    t: WatchedEventType,
    k: KeeperState,
    path: Seq<char>,
    tail: Seq<u8>,
)
    requires
        str_encodable(path),
    ensures
        dec_watched_event(pre + watched_event_bytes(t, k, path) + tail, pre.len() as int) == Ok::<
            ((WatchedEventType, KeeperState, Seq<char>), int),
            DecodeError,
        >(((t, k, path), pre.len() as int + watched_event_bytes(t, k, path).len() as int)),
{
    lemma_enc_lens();
    let s = pre + watched_event_bytes(t, k, path) + tail;
    let b1 = i32_bytes(event_type_code(t));
    let b2 = i32_bytes(keeper_state_code(k));
    let b3 = str_bytes(path);
    let r2 = b3;
    let r1 = b2 + r2;
    assert(watched_event_bytes(t, k, path) == b1 + r1);
    assert(s == pre + b1 + (r1 + tail)) by {
        lemma_concat_associative(pre, b1 + r1, tail);
        lemma_concat_associative(b1, r1, tail);
        lemma_concat_associative(pre, b1, r1 + tail);
    }
    lemma_dec_i32_mid(pre, event_type_code(t), r1 + tail);
    let p2 = pre + b1;
    assert(s == p2 + b2 + (r2 + tail)) by {
        lemma_concat_associative(b2, r2, tail);
        lemma_concat_associative(p2, b2, r2 + tail);
    }
    lemma_dec_i32_mid(p2, keeper_state_code(k), r2 + tail);
    let p3 = p2 + b2;
    assert(s == p3 + b3 + tail) by {
        lemma_concat_associative(p3, b3, tail);
    }
    lemma_dec_str_mid(p3, path, tail);
    assert(event_type_from(event_type_code(t)) == Some(t));
    assert(keeper_state_from(keeper_state_code(k)) == Some(k));
}

impl ReadFrom for WatchedEvent {
    type Model = (WatchedEventType, KeeperState, Seq<char>);

    open spec fn dec(s: Seq<u8>, i: int) -> Result<
        ((WatchedEventType, KeeperState, Seq<char>), int),
        DecodeError,
    > {
        dec_watched_event(s, i)
    }

    open spec fn models(&self, m: (WatchedEventType, KeeperState, Seq<char>)) -> bool {
        self.event_type == m.0 && self.keeper_state == m.1 && (self.path matches Some(p) && p@
            == m.2)
    }

    fn read_from(buf: &[u8], pos: usize) -> (r: Result<(WatchedEvent, usize), DecodeError>) {
        let (traw, p1) = match read_i32_be(buf, pos) {
            Ok(v) => v,
            Err(e) => { return Err(e); },
        };
        let (kraw, p2) = match read_i32_be(buf, p1) {
            Ok(v) => v,
            Err(e) => { return Err(e); },
        };
        let (path, p3) = match read_string(buf, p2) {
            Ok(v) => v,
            Err(e) => { return Err(e); },
        };
        let event_type = match WatchedEventType::from_code(traw) {
            Some(t) => t,
            None => { return Err(DecodeError::UnknownCode); },
        };
        let keeper_state = match KeeperState::from_code(kraw) {
            Some(k) => k,
            None => { return Err(DecodeError::UnknownCode); },
        };
        Ok((WatchedEvent { event_type, keeper_state, path: Some(path) }, p3))
    }
}

} // verus!
