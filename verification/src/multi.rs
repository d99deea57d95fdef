//! The multi-operation transaction codec: an ordered batch of
//! heterogeneous operations encoded into one frame, and the service's
//! self-terminating reply stream decoded back into one outcome per
//! operation.
//!
//! Each request entry is a header `{type code: i32, done: u8 = 0,
//! err: i32 = -1}` followed by the operation's own payload; after the
//! last entry comes a mandatory terminal entry `{-1, 1, -1}` with no
//! payload. A reply entry's header decides its meaning: the terminal
//! type code ends the stream; a non `-1` `err` is that operation's
//! service error, with no payload; otherwise the type code keys the
//! payload shape. An entry marked `done` ends the stream after its own
//! outcome, for servers that mark the last real result instead of
//! sending a separate terminal entry.

use vstd::prelude::*;
use vstd::seq_lib::lemma_concat_associative;
use crate::data::{Acl, AclV, CreateMode, OpCode, Stat, ZkError, ZkResult, create_mode_code,
    opcode_code};
use crate::proto::{ReadFrom, WriteTo, acl_vec_bytes, acl_vec_encodable, acls_view, dec_stat,
    lemma_dec_stat_mid, stat_bytes, write_acl_vec};
use crate::wire::{DecodeError, MAX_LEN, buf_bytes, dec_i32, dec_str, dec_u8, i32_bytes,
    lemma_dec_i32_mid, lemma_dec_str_mid, lemma_dec_u8_mid, lemma_enc_lens, read_i32_be,
    read_string, read_u8, str_bytes, str_encodable, u8_bytes, write_buf, write_i32_be, write_str,
    write_u8};

verus! {

/// One step of a transaction, not yet sent. An absent version means
/// "match any version" and is encoded as -1.
#[derive(Debug)]
pub enum Op {
    /// Fails the transaction unless the node at `path` has `version`.
    Check { path: String, version: Option<i32> },
    /// Creates a node with data, an ACL and a creation mode.
    Create { path: String, data: Vec<u8>, acl: Vec<Acl>, mode: CreateMode },
    /// Deletes the node at `path`, optionally only at `version`.
    Delete { path: String, version: Option<i32> },
    /// Replaces the data at `path`, optionally only at `version`.
    SetData { path: String, data: Vec<u8>, version: Option<i32> },
}

/// The mathematical content of an [`Op`].
pub enum OpV {
    Check { path: Seq<char>, version: Option<i32> },
    Create { path: Seq<char>, data: Seq<u8>, acl: Seq<AclV>, mode: CreateMode },
    Delete { path: Seq<char>, version: Option<i32> },
    SetData { path: Seq<char>, data: Seq<u8>, version: Option<i32> },
}

impl View for Op {
    type V = OpV;

    open spec fn view(&self) -> OpV {
        match self {
            Op::Check { path, version } => OpV::Check { path: path@, version: *version },
            Op::Create { path, data, acl, mode } => OpV::Create {
                path: path@,
                data: data@,
                acl: acls_view(acl@),
                mode: *mode,
            },
            Op::Delete { path, version } => OpV::Delete { path: path@, version: *version },
            Op::SetData { path, data, version } => OpV::SetData {
                path: path@,
                data: data@,
                version: *version,
            },
        }
    }
}

/// The mathematical content of a slice of operations.
pub open spec fn ops_view(items: Seq<Op>) -> Seq<OpV> {
    items.map_values(|op: Op| op@)
}

/// One step's result, positionally corresponding to the operation that
/// produced it.
#[derive(Debug, PartialEq, Eq)]
pub enum OpResult {
    /// Result of a check or delete: no information.
    Empty,
    /// Result of a create: the path of the created node.
    Create { path: String },
    /// Result of a set-data: the node's new metadata.
    SetData { stat: Stat },
}

/// The mathematical content of an [`OpResult`].
pub enum OpResultV {
    Empty,
    Create { path: Seq<char> },
    SetData { stat: Stat },
}

impl View for OpResult {
    type V = OpResultV;

    open spec fn view(&self) -> OpResultV {
        match self {
            OpResult::Empty => OpResultV::Empty,
            OpResult::Create { path } => OpResultV::Create { path: path@ },
            OpResult::SetData { stat } => OpResultV::SetData { stat: *stat },
        }
    }
}

/// One decoded reply-stream outcome: an operation's payload, or its
/// service error.
pub type OutcomeV = Result<OpResultV, ZkError>;

/// The mathematical content of a vector of outcomes.
pub open spec fn responses_view(items: Seq<ZkResult<OpResult>>) -> Seq<OutcomeV> {
    items.map_values(
        |r: ZkResult<OpResult>|
            match r {
                Ok(o) => Ok(o@),
                Err(z) => Err(z),
            },
    )
}

// ---------------------------------------------------------------------------
// Request encoding
// ---------------------------------------------------------------------------

/// The operation code a transaction entry carries for this operation.
pub open spec fn op_opcode(op: OpV) -> OpCode {
    match op {
        OpV::Check { .. } => OpCode::Check,
        OpV::Create { .. } => OpCode::Create,
        OpV::Delete { .. } => OpCode::Delete,
        OpV::SetData { .. } => OpCode::SetData,
    }
}

/// An optional expected version as its wire field: -1 means "match any
/// version".
pub open spec fn version_or_any(v: Option<i32>) -> i32 {
    match v {
        Some(x) => x,
        None => -1i32,
    }
}

/// The payload of one transaction request entry: the operation's own
/// fields, in its standalone request order (a create also carries its
/// creation-mode code).
pub open spec fn op_payload_bytes(op: OpV) -> Seq<u8> {
    match op {
        OpV::Check { path, version } => str_bytes(path) + i32_bytes(version_or_any(version)),
        OpV::Create { path, data, acl, mode } => str_bytes(path) + (buf_bytes(data) + (
        acl_vec_bytes(acl) + i32_bytes(create_mode_code(mode)))),
        OpV::Delete { path, version } => str_bytes(path) + i32_bytes(version_or_any(version)),
        OpV::SetData { path, data, version } => str_bytes(path) + (buf_bytes(data) + i32_bytes(
            version_or_any(version),
        )),
    }
}

/// One entry header, request or reply side: a type code, the done flag
/// and a service error code.
pub open spec fn entry_header_bytes(tc: i32, done: u8, err: i32) -> Seq<u8> {
    i32_bytes(tc) + (u8_bytes(done) + i32_bytes(err))
}

/// One full transaction request entry: the header `{type code, done = 0,
/// err = -1}`, then the payload.
pub open spec fn op_entry_bytes(op: OpV) -> Seq<u8> {
    entry_header_bytes(opcode_code(op_opcode(op)), 0, -1i32) + op_payload_bytes(op)
}

/// The byte image of a run of transaction request entries, in order.
pub open spec fn ops_bytes(ops: Seq<OpV>) -> Seq<u8>
    decreases ops.len(),
{
    if ops.len() == 0 {
        Seq::empty()
    } else {
        op_entry_bytes(ops[0]) + ops_bytes(ops.drop_first())
    }
}

/// The terminal entry: a header-only entry `{-1, 1, -1}` that ends the
/// stream. It is mandatory even for an empty operation list.
pub open spec fn terminal_bytes() -> Seq<u8> {
    entry_header_bytes(-1i32, 1, -1i32)
}

/// The byte image of a whole transaction request body: every entry in
/// order, then the terminal entry.
pub open spec fn txn_request_bytes(ops: Seq<OpV>) -> Seq<u8> {
    ops_bytes(ops) + terminal_bytes()
}

/// Whether one operation's lengths fit their prefixes.
pub open spec fn op_encodable(op: OpV) -> bool {
    match op {
        OpV::Check { path, .. } => str_encodable(path),
        OpV::Create { path, data, acl, .. } => str_encodable(path) && data.len() <= MAX_LEN
            && acl_vec_encodable(acl),
        OpV::Delete { path, .. } => str_encodable(path),
        OpV::SetData { path, data, .. } => str_encodable(path) && data.len() <= MAX_LEN,
    }
}

/// Whether every operation of a batch is encodable.
pub open spec fn ops_encodable(ops: Seq<OpV>) -> bool {
    forall|i: int| 0 <= i < ops.len() ==> op_encodable(#[trigger] ops[i])
}

/// Appending one operation appends its entry image.
pub proof fn lemma_ops_bytes_push(ops: Seq<OpV>, op: OpV)
    ensures
        ops_bytes(ops.push(op)) == ops_bytes(ops) + op_entry_bytes(op),
    decreases ops.len(),
{
    if ops.len() == 0 {
        let p = ops.push(op);
        assert(p[0] == op);
        assert(p.drop_first() =~= Seq::<OpV>::empty());
        assert(ops_bytes(Seq::<OpV>::empty()) == Seq::<u8>::empty());
        assert(ops_bytes(p) == op_entry_bytes(op) + Seq::<u8>::empty());
        assert(ops_bytes(p) =~= ops_bytes(ops) + op_entry_bytes(op));
    } else {
        let rest = ops.drop_first();
        lemma_ops_bytes_push(rest, op);
        assert(ops.push(op).drop_first() =~= rest.push(op));
        assert(ops.push(op)[0] == ops[0]);
        assert(ops_bytes(ops.push(op)) == op_entry_bytes(ops[0]) + (ops_bytes(rest)
            + op_entry_bytes(op)));
        assert(op_entry_bytes(ops[0]) + (ops_bytes(rest) + op_entry_bytes(op)) =~= (op_entry_bytes(
            ops[0],
        ) + ops_bytes(rest)) + op_entry_bytes(op));
    }
}

/// An ordered batch of operations to send as one atomic transaction.
pub struct TransactionRequest {
    pub ops: Vec<Op>,
}

impl WriteTo for TransactionRequest {
    open spec fn encodable(&self) -> bool {
        ops_encodable(ops_view(self.ops@))
    }

    open spec fn enc(&self) -> Seq<u8> {
        txn_request_bytes(ops_view(self.ops@))
    }

    #[verifier::rlimit(100)]
    #[verifier::spinoff_prover]
    fn write_to(&self, out: &mut Vec<u8>) {
        let ghost ovs = ops_view(self.ops@);
        let mut body: Vec<u8> = Vec::new();
        let mut idx: usize = 0;
        while idx < self.ops.len()
            invariant
                idx <= self.ops@.len(),
                ops_encodable(ops_view(self.ops@)),
                ovs == ops_view(self.ops@),
                body@ == ops_bytes(ovs.take(idx as int)),
            decreases self.ops@.len() - idx,
        {
            let ghost opv = self.ops@[idx as int]@;
            proof {
                assert(ovs[idx as int] == opv);
                assert(ovs.take(idx as int + 1) =~= ovs.take(idx as int).push(opv));
                lemma_ops_bytes_push(ovs.take(idx as int), opv);
            }
            proof {
                assert(op_encodable(opv));
            }
            let ghost base = body@;
            let op = &self.ops[idx];
            match op {
                Op::Check { path, version } => {
                    write_i32_be(&mut body, OpCode::Check.code());
                    write_u8(&mut body, 0);
                    write_i32_be(&mut body, -1);
                    write_str(&mut body, path.as_str());
                    let v: i32 = match version {
                        Some(x) => *x,
                        None => -1,
                    };
                    write_i32_be(&mut body, v);
                    assert(body@ =~= base + op_entry_bytes(opv));
                },
                Op::Create { path, data, acl, mode } => {
                    write_i32_be(&mut body, OpCode::Create.code());
                    write_u8(&mut body, 0);
                    write_i32_be(&mut body, -1);
                    write_str(&mut body, path.as_str());
                    write_buf(&mut body, data.as_slice());
                    proof {
                        assert forall|i: int| 0 <= i < acl@.len() implies (#[trigger] acl@[i]).encodable() by {
                            assert(acls_view(acl@)[i] == acl@[i]@);
                        }
                        assert(acl@.len() == acls_view(acl@).len());
                    }
                    write_acl_vec(&mut body, acl);
                    write_i32_be(&mut body, mode.code());
                    assert(body@ =~= base + op_entry_bytes(opv));
                },
                Op::Delete { path, version } => {
                    write_i32_be(&mut body, OpCode::Delete.code());
                    write_u8(&mut body, 0);
                    write_i32_be(&mut body, -1);
                    write_str(&mut body, path.as_str());
                    let v: i32 = match version {
                        Some(x) => *x,
                        None => -1,
                    };
                    write_i32_be(&mut body, v);
                    assert(body@ =~= base + op_entry_bytes(opv));
                },
                Op::SetData { path, data, version } => {
                    write_i32_be(&mut body, OpCode::SetData.code());
                    write_u8(&mut body, 0);
                    write_i32_be(&mut body, -1);
                    write_str(&mut body, path.as_str());
                    write_buf(&mut body, data.as_slice());
                    let v: i32 = match version {
                        Some(x) => *x,
                        None => -1,
                    };
                    write_i32_be(&mut body, v);
                    assert(body@ =~= base + op_entry_bytes(opv));
                },
            }
            idx = idx + 1;
        }
        proof {
            assert(ovs.take(ovs.len() as int) =~= ovs);
        }
        write_i32_be(&mut body, -1);
        write_u8(&mut body, 1);
        write_i32_be(&mut body, -1);
        assert(body@ =~= ops_bytes(ovs) + terminal_bytes());
        crate::wire::write_bytes(out, body.as_slice());
        assert(out@ =~= old(out)@ + self.enc());
    }
}

// ---------------------------------------------------------------------------
// Reply decoding
// ---------------------------------------------------------------------------

/// Completion type codes of the reply stream: -1 is the terminal
/// sentinel, 0 an empty payload, 1 a node-metadata payload, 6 a string
/// payload.
pub open spec fn outcome_type_code(o: OpResultV) -> i32 {
    match o {
        OpResultV::Empty => 0,
        OpResultV::SetData { .. } => 1,
        OpResultV::Create { .. } => 6,
    }
}

/// The rest of one reply entry once its header is read: a non `-1`
/// `err` is that operation's service error and has no payload; else the
/// type code keys the payload shape, and a code outside the fixed set
/// is a protocol-shape error.
pub open spec fn dec_outcome(s: Seq<u8>, j: int, type_code: i32, err: i32) -> Result<
    (OutcomeV, int),
    DecodeError,
> {
    if err != -1 {
        Ok((Err(ZkError { code: err }), j))
    } else if type_code == 0 {
        Ok((Ok(OpResultV::Empty), j))
    } else if type_code == 1 {
        match dec_stat(s, j) {
            Err(e) => Err(e),
            Ok((st, k)) => Ok((Ok(OpResultV::SetData { stat: st }), k)),
        }
    } else if type_code == 6 {
        match dec_str(s, j) {
            Err(e) => Err(e),
            Ok((p, k)) => Ok((Ok(OpResultV::Create { path: p }), k)),
        }
    } else {
        Err(DecodeError::UnknownCode)
    }
}

/// The spec-level decoder of a whole reply stream: outcomes in order
/// until the terminal sentinel (which adds nothing) or an entry marked
/// done (which adds its own outcome), with the position after the
/// stream.
pub open spec fn dec_txn_entries(s: Seq<u8>, i: int) -> Result<(Seq<OutcomeV>, int), DecodeError>
    decreases s.len() - i,
{
    match dec_i32(s, i) {
        Err(e) => Err(e),
        Ok((type_code, i1)) => match dec_u8(s, i1) {
            Err(e) => Err(e),
            Ok((done, i2)) => match dec_i32(s, i2) {
                Err(e) => Err(e),
                Ok((err, i3)) => {
                    if type_code == -1 {
                        Ok((Seq::empty(), i3))
                    } else {
                        match dec_outcome(s, i3, type_code, err) {
                            Err(e) => Err(e),
                            Ok((outcome, k)) => {
                                if done != 0 {
                                    Ok((seq![outcome], k))
                                } else if i < k <= s.len() {
                                    match dec_txn_entries(s, k) {
                                        Err(e) => Err(e),
                                        Ok((rest, end)) => Ok((seq![outcome] + rest, end)),
                                    }
                                } else {
                                    Err(DecodeError::Truncated)
                                }
                            },
                        }
                    }
                },
            },
        },
    }
}

/// The ordered outcomes of a whole transaction, one per operation sent.
pub struct TransactionResponse {
    pub responses: Vec<ZkResult<OpResult>>,
}

impl ReadFrom for TransactionResponse {
    type Model = Seq<OutcomeV>;

    open spec fn dec(s: Seq<u8>, i: int) -> Result<(Seq<OutcomeV>, int), DecodeError> {
        dec_txn_entries(s, i)
    }

    open spec fn models(&self, m: Seq<OutcomeV>) -> bool {
        responses_view(self.responses@) == m
    }

    fn read_from(buf: &[u8], pos: usize) -> (r: Result<(TransactionResponse, usize), DecodeError>) {
        let mut acc: Vec<ZkResult<OpResult>> = Vec::new();
        let mut p: usize = pos;
        loop
            invariant
                p >= pos,
                p <= buf@.len() || p == pos,
                ({
                    let full = dec_txn_entries(buf@, pos as int);
                    match dec_txn_entries(buf@, p as int) {
                        Ok((rest, end)) => full == Ok::<(Seq<OutcomeV>, int), DecodeError>(
                            (responses_view(acc@) + rest, end),
                        ),
                        Err(e) => full == Err::<(Seq<OutcomeV>, int), DecodeError>(e),
                    }
                }),
            decreases buf@.len() + 1 - p,
        {
            let ghost p0 = p as int;
            let (type_code, q1) = match read_i32_be(buf, p) {
                Ok(v) => v,
                Err(e) => { return Err(e); },
            };
            let (done, q2) = match read_u8(buf, q1) {
                Ok(v) => v,
                Err(e) => { return Err(e); },
            };
            let (err, q3) = match read_i32_be(buf, q2) {
                Ok(v) => v,
                Err(e) => { return Err(e); },
            };
            if type_code == -1 {
                proof {
                    assert(responses_view(acc@) + Seq::<OutcomeV>::empty() =~= responses_view(
                        acc@,
                    ));
                }
                return Ok((TransactionResponse { responses: acc }, q3));
            }
            let (outcome, k): (ZkResult<OpResult>, usize) = if err != -1 {
                (Err(ZkError { code: err }), q3)
            } else if type_code == 0 {
                (Ok(OpResult::Empty), q3)
            } else if type_code == 1 {
                match <Stat as ReadFrom>::read_from(buf, q3) {
                    Ok((st, k2)) => (Ok(OpResult::SetData { stat: st }), k2),
                    Err(e) => { return Err(e); },
                }
            } else if type_code == 6 {
                match read_string(buf, q3) {
                    Ok((path, k2)) => (Ok(OpResult::Create { path }), k2),
                    Err(e) => { return Err(e); },
                }
            } else {
                return Err(DecodeError::UnknownCode);
            };
            proof {
                assert(k as int > p0);
            }
            let ghost ov: OutcomeV = (match &outcome {
                Ok(o) => Ok(o@),
                Err(z) => Err(*z),
            });
            proof {
                assert(dec_outcome(buf@, q3 as int, type_code, err) == Ok::<
                    (OutcomeV, int),
                    DecodeError,
                >((ov, k as int)));
                assert(responses_view(acc@.push(outcome)) =~= responses_view(acc@) + seq![ov]);
                if done != 0 {
                    assert(dec_txn_entries(buf@, p0) == Ok::<(Seq<OutcomeV>, int), DecodeError>(
                        (seq![ov], k as int),
                    ));
                } else {
                    match dec_txn_entries(buf@, k as int) {
                        Ok((m2, e2)) => {
                            lemma_concat_associative(responses_view(acc@), seq![ov], m2);
                        },
                        Err(_) => {},
                    }
                }
            }
            acc.push(outcome);
            if done != 0 {
                return Ok((TransactionResponse { responses: acc }, k));
            }
            p = k;
        }
    }
}

/// Decodes a transaction reply stream and holds it to the operation
/// count that was sent: a stream with any other number of outcomes is a
/// protocol-shape error, never silently coerced.
pub fn decode_transaction_reply(buf: &[u8], pos: usize, expected: usize) -> (r: Result<
    (TransactionResponse, usize),
    DecodeError,
>)
    ensures
        match r {
            Ok((t, p)) => dec_txn_entries(buf@, pos as int) matches Ok((m, q)) && responses_view(
                t.responses@,
            ) == m && p as int == q && m.len() == expected,
            Err(e) => (dec_txn_entries(buf@, pos as int) == Err::<
                (Seq<OutcomeV>, int),
                DecodeError,
            >(e)) || (e == DecodeError::CountMismatch && (dec_txn_entries(buf@, pos as int)
                matches Ok((m, q)) && m.len() != expected)),
        },
{
    match <TransactionResponse as ReadFrom>::read_from(buf, pos) {
        Ok((t, p)) => {
            proof {
                assert(responses_view(t.responses@).len() == t.responses@.len());
            }
            if t.responses.len() == expected {
                Ok((t, p))
            } else {
                Err(DecodeError::CountMismatch)
            }
        },
        Err(e) => Err(e),
    }
}

// ---------------------------------------------------------------------------
// Reply round trip
// ---------------------------------------------------------------------------

/// The byte image of one reply entry that carries this outcome: a
/// service error rides in the header's `err` field with no payload; a
/// success payload follows a header with `err = -1` and the payload's
/// completion type code.
pub open spec fn outcome_entry_bytes(o: OutcomeV) -> Seq<u8> {
    match o {
        Ok(OpResultV::Empty) => entry_header_bytes(0, 0, -1i32),
        Ok(OpResultV::SetData { stat }) => entry_header_bytes(1, 0, -1i32) + stat_bytes(stat),
        Ok(OpResultV::Create { path }) => entry_header_bytes(6, 0, -1i32) + str_bytes(path),
        Err(z) => entry_header_bytes(0, 0, z.code),
    }
}

/// The byte images of a run of reply entries, in order.
pub open spec fn outcomes_bytes(rs: Seq<OutcomeV>) -> Seq<u8>
    decreases rs.len(),
{
    if rs.len() == 0 {
        Seq::empty()
    } else {
        outcome_entry_bytes(rs[0]) + outcomes_bytes(rs.drop_first())
    }
}

/// The byte image of a whole reply stream: one entry per outcome, in
/// order, then the terminal entry.
pub open spec fn txn_reply_bytes(rs: Seq<OutcomeV>) -> Seq<u8> {
    outcomes_bytes(rs) + terminal_bytes()
}

/// What any reply entry must satisfy to be expressible on the wire: a
/// service error code is never the -1 that means "no error", and a
/// created path fits its length prefix.
pub open spec fn outcome_wf(o: OutcomeV) -> bool {
    match o {
        Err(z) => z.code != -1,
        Ok(OpResultV::Create { path }) => str_encodable(path),
        _ => true,
    }
}

/// Whether every outcome of a reply is expressible.
pub open spec fn reply_wf(rs: Seq<OutcomeV>) -> bool {
    forall|i: int| 0 <= i < rs.len() ==> outcome_wf(#[trigger] rs[i])
}

/// Decoding one entry header that sits between arbitrary bytes: its
/// three fields, at their fixed offsets.
pub proof fn lemma_dec_entry_header_mid(pre: Seq<u8>, tc: i32, done: u8, err: i32, tail: Seq<u8>)
    ensures
        entry_header_bytes(tc, done, err).len() == 9,
        dec_i32(pre + entry_header_bytes(tc, done, err) + tail, pre.len() as int) == Ok::<
            (i32, int),
            DecodeError,
        >((tc, pre.len() as int + 4)),
        dec_u8(pre + entry_header_bytes(tc, done, err) + tail, pre.len() as int + 4) == Ok::<
            (u8, int),
            DecodeError,
        >((done, pre.len() as int + 5)),
        dec_i32(pre + entry_header_bytes(tc, done, err) + tail, pre.len() as int + 5) == Ok::<
            (i32, int),
            DecodeError,
        >((err, pre.len() as int + 9)),
{
    lemma_enc_lens();
    let s = pre + entry_header_bytes(tc, done, err) + tail;
    let b1 = i32_bytes(tc);
    let b2 = u8_bytes(done);
    let b3 = i32_bytes(err);
    let r1 = b2 + b3;
    assert(entry_header_bytes(tc, done, err) == b1 + r1);
    assert(s == pre + b1 + (r1 + tail)) by {
        lemma_concat_associative(pre, b1 + r1, tail);
        lemma_concat_associative(b1, r1, tail);
        lemma_concat_associative(pre, b1, r1 + tail);
    }
    lemma_dec_i32_mid(pre, tc, r1 + tail);
    let p2 = pre + b1;
    assert(s == p2 + b2 + (b3 + tail)) by {
        lemma_concat_associative(b2, b3, tail);
        lemma_concat_associative(p2, b2, b3 + tail);
    }
    lemma_dec_u8_mid(p2, done, b3 + tail);
    let p3 = p2 + b2;
    assert(s == p3 + b3 + tail) by {
        lemma_concat_associative(p3, b3, tail);
    }
    lemma_dec_i32_mid(p3, err, tail);
}

/// Round trip of a whole reply stream, by induction over the outcomes:
/// the stream a well-formed outcome list denotes decodes back to
/// exactly that list, whatever bytes follow the terminal entry. Each
/// entry decodes from its own bytes alone, so a service error at any
/// position leaves every other position's outcome untouched.
pub proof fn lemma_dec_txn_reply_mid(pre: Seq<u8>, rs: Seq<OutcomeV>, tail: Seq<u8>)
    requires
        reply_wf(rs),
    ensures
        dec_txn_entries(pre + txn_reply_bytes(rs) + tail, pre.len() as int) == Ok::<
            (Seq<OutcomeV>, int),
            DecodeError,
        >((rs, pre.len() as int + txn_reply_bytes(rs).len() as int)),
    decreases rs.len(),
{
    lemma_enc_lens();
    let s = pre + txn_reply_bytes(rs) + tail;
    if rs.len() == 0 {
        assert(outcomes_bytes(rs) == Seq::<u8>::empty());
        assert(txn_reply_bytes(rs) =~= terminal_bytes());
        assert(s == pre + terminal_bytes() + tail);
        lemma_dec_entry_header_mid(pre, -1i32, 1, -1i32, tail);
        assert(rs =~= Seq::<OutcomeV>::empty());
    } else {
        let o = rs[0];
        let rest = rs.drop_first();
        let e0 = outcome_entry_bytes(o);
        let rbytes = txn_reply_bytes(rest);
        assert(outcomes_bytes(rs) == e0 + outcomes_bytes(rest));
        assert(s == pre + e0 + (rbytes + tail)) by {
            assert(txn_reply_bytes(rs) == (e0 + outcomes_bytes(rest)) + terminal_bytes());
            lemma_concat_associative(e0, outcomes_bytes(rest), terminal_bytes());
            assert(txn_reply_bytes(rs) == e0 + rbytes);
            lemma_concat_associative(pre, e0 + rbytes, tail);
            lemma_concat_associative(e0, rbytes, tail);
            lemma_concat_associative(pre, e0, rbytes + tail);
        }
        assert(outcome_wf(o));
        assert(forall|i: int| 0 <= i < rest.len() ==> outcome_wf(#[trigger] rest[i]));
        let i0 = pre.len() as int;
        let p4 = pre + e0;
        assert(rbytes.len() >= 9) by {
            assert(rbytes == outcomes_bytes(rest) + terminal_bytes());
        }
        match o {
            Ok(OpResultV::Empty) => {
                assert(e0 == entry_header_bytes(0, 0, -1i32));
                lemma_dec_entry_header_mid(pre, 0, 0, -1i32, rbytes + tail);
                lemma_dec_txn_reply_mid(p4, rest, tail);
                assert(s == p4 + rbytes + tail) by {
                    lemma_concat_associative(p4, rbytes, tail);
                }
                assert(dec_outcome(s, i0 + 9, 0, -1i32) == Ok::<(OutcomeV, int), DecodeError>(
                    (o, i0 + 9),
                ));
            },
            Err(z) => {
                assert(e0 == entry_header_bytes(0, 0, z.code));
                lemma_dec_entry_header_mid(pre, 0, 0, z.code, rbytes + tail);
                lemma_dec_txn_reply_mid(p4, rest, tail);
                assert(s == p4 + rbytes + tail) by {
                    lemma_concat_associative(p4, rbytes, tail);
                }
                assert(dec_outcome(s, i0 + 9, 0, z.code) == Ok::<(OutcomeV, int), DecodeError>(
                    (o, i0 + 9),
                ));
            },
            Ok(OpResultV::SetData { stat }) => {
                let hdr = entry_header_bytes(1, 0, -1i32);
                let pay = stat_bytes(stat);
                assert(e0 == hdr + pay);
                assert(s == pre + hdr + (pay + (rbytes + tail))) by {
                    lemma_concat_associative(pre, hdr + pay, rbytes + tail);
                    lemma_concat_associative(hdr, pay, rbytes + tail);
                    lemma_concat_associative(pre, hdr, pay + (rbytes + tail));
                    lemma_concat_associative(pre, e0, rbytes + tail);
                }
                lemma_dec_entry_header_mid(pre, 1, 0, -1i32, pay + (rbytes + tail));
                let ph = pre + hdr;
                assert(s == ph + pay + (rbytes + tail)) by {
                    lemma_concat_associative(ph, pay, rbytes + tail);
                }
                lemma_dec_stat_mid(ph, stat, rbytes + tail);
                assert(dec_outcome(s, i0 + 9, 1, -1i32) == Ok::<(OutcomeV, int), DecodeError>(
                    (o, i0 + 9 + 68),
                ));
                assert(p4 =~= ph + pay);
                lemma_dec_txn_reply_mid(p4, rest, tail);
                assert(s == p4 + rbytes + tail) by {
                    lemma_concat_associative(p4, rbytes, tail);
                }
            },
            Ok(OpResultV::Create { path }) => {
                let hdr = entry_header_bytes(6, 0, -1i32);
                let pay = str_bytes(path);
                assert(e0 == hdr + pay);
                assert(s == pre + hdr + (pay + (rbytes + tail))) by {
                    lemma_concat_associative(pre, hdr + pay, rbytes + tail);
                    lemma_concat_associative(hdr, pay, rbytes + tail);
                    lemma_concat_associative(pre, hdr, pay + (rbytes + tail));
                    lemma_concat_associative(pre, e0, rbytes + tail);
                }
                lemma_dec_entry_header_mid(pre, 6, 0, -1i32, pay + (rbytes + tail));
                let ph = pre + hdr;
                assert(s == ph + pay + (rbytes + tail)) by {
                    lemma_concat_associative(ph, pay, rbytes + tail);
                }
                lemma_dec_str_mid(ph, path, rbytes + tail);
                assert(dec_outcome(s, i0 + 9, 6, -1i32) == Ok::<(OutcomeV, int), DecodeError>(
                    (o, i0 + 9 + pay.len()),
                ));
                assert(p4 =~= ph + pay);
                lemma_dec_txn_reply_mid(p4, rest, tail);
                assert(s == p4 + rbytes + tail) by {
                    lemma_concat_associative(p4, rbytes, tail);
                }
            },
        }
        assert(rs =~= seq![o] + rest);
    }
}

/// A service error in an entry header decides the outcome by itself:
/// whenever `err` is not -1, the decoder takes the error and reads no
/// payload, whatever non-terminal type code the header carries.
pub proof fn lemma_service_error_ignores_type_code(s: Seq<u8>, j: int, tc: i32, err: i32)
    requires
        err != -1,
    ensures
        dec_outcome(s, j, tc, err) == Ok::<(OutcomeV, int), DecodeError>(
            (Err(ZkError { code: err }), j),
        ),
{
}

/// A failed entry at the head of a reply stream, carrying any
/// non-terminal type code, decodes to its service error with no
/// payload consumed, and the entries after it decode exactly as they
/// would on their own. Since `pre` is arbitrary, this covers a failed
/// entry at any position of a stream.
pub proof fn lemma_dec_txn_reply_error_entry_mid(
    pre: Seq<u8>,
    tc: i32,
    z: ZkError,
    rs: Seq<OutcomeV>,
    tail: Seq<u8>,
)
    requires
        tc != -1,
        z.code != -1,
        reply_wf(rs),
    ensures
        dec_txn_entries(
            pre + (entry_header_bytes(tc, 0, z.code) + txn_reply_bytes(rs)) + tail,
            pre.len() as int,
        ) == Ok::<(Seq<OutcomeV>, int), DecodeError>(
            (seq![Err(z)] + rs, pre.len() as int + 9 + txn_reply_bytes(rs).len() as int),
        ),
{
    lemma_enc_lens();
    let hdr = entry_header_bytes(tc, 0, z.code);
    let rbytes = txn_reply_bytes(rs);
    let s = pre + (hdr + rbytes) + tail;
    let i0 = pre.len() as int;
    assert(s == pre + hdr + (rbytes + tail)) by {
        lemma_concat_associative(pre, hdr + rbytes, tail);
        lemma_concat_associative(hdr, rbytes, tail);
        lemma_concat_associative(pre, hdr, rbytes + tail);
    }
    lemma_dec_entry_header_mid(pre, tc, 0, z.code, rbytes + tail);
    lemma_service_error_ignores_type_code(s, i0 + 9, tc, z.code);
    let ph = pre + hdr;
    assert(s == ph + rbytes + tail) by {
        lemma_concat_associative(ph, rbytes, tail);
    }
    lemma_dec_txn_reply_mid(ph, rs, tail);
    assert(rbytes.len() >= 9) by {
        assert(rbytes == outcomes_bytes(rs) + terminal_bytes());
        lemma_dec_entry_header_mid(Seq::empty(), -1i32, 1, -1i32, Seq::empty());
    }
    assert(ZkError { code: z.code } == z);
}

/// Whether an outcome is the kind of result the operation at the same
/// position can produce: any operation may fail with a service error;
/// a check or delete succeeds with no payload, a create with the
/// resulting path, a set-data with the node's new metadata.
pub open spec fn outcome_matches_op(op: OpV, o: OutcomeV) -> bool {
    match o {
        Err(_) => true,
        Ok(r) => match (op, r) {
            (OpV::Check { .. }, OpResultV::Empty) => true,
            (OpV::Delete { .. }, OpResultV::Empty) => true,
            (OpV::Create { .. }, OpResultV::Create { .. }) => true,
            (OpV::SetData { .. }, OpResultV::SetData { .. }) => true,
            _ => false,
        },
    }
}

/// Transaction round trip: a reply stream built of one matching
/// outcome per encoded operation decodes to exactly those outcomes, in
/// the same order and with the same variant correspondence. A service
/// error at any position is decoded at that position while every other
/// entry still decodes its own payload or error independently.
pub proof fn lemma_transaction_round_trip(ops: Seq<OpV>, rs: Seq<OutcomeV>)
    requires
        reply_wf(rs),
        rs.len() == ops.len(),
        forall|i: int| 0 <= i < rs.len() ==> outcome_matches_op(ops[i], #[trigger] rs[i]),
    ensures
        dec_txn_entries(txn_reply_bytes(rs), 0) matches Ok((m, end)) && m == rs && m.len()
            == ops.len() && (forall|i: int|
            0 <= i < m.len() ==> outcome_matches_op(ops[i], #[trigger] m[i])),
{
    lemma_dec_txn_reply_mid(Seq::empty(), rs, Seq::empty());
    assert(Seq::<u8>::empty() + txn_reply_bytes(rs) + Seq::<u8>::empty() =~= txn_reply_bytes(rs));
}

/// Terminal-sentinel detection: a reply stream holding only the
/// terminal entry decodes to the empty outcome list, whatever bytes
/// follow the stream.
pub proof fn lemma_terminal_only_reply_is_empty(tail: Seq<u8>)
    ensures
        dec_txn_entries(terminal_bytes() + tail, 0) == Ok::<(Seq<OutcomeV>, int), DecodeError>(
            (Seq::empty(), 9),
        ),
{
    lemma_dec_txn_reply_mid(Seq::empty(), Seq::empty(), tail);
    assert(txn_reply_bytes(Seq::empty()) =~= terminal_bytes());
    assert(Seq::<u8>::empty() + txn_reply_bytes(Seq::empty()) + tail =~= terminal_bytes() + tail);
    lemma_enc_lens();
    assert(txn_reply_bytes(Seq::<OutcomeV>::empty()).len() == 9);
}

} // verus!
