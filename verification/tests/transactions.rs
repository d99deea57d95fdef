use zkwire::data::{Acl, CreateMode, Stat, ZkError};
use zkwire::multi::{decode_transaction_reply, Op, OpResult, TransactionRequest, TransactionResponse};
use zkwire::proto::{ReadFrom, WriteTo};
use zkwire::wire::{write_i32_be, write_i64_be, write_str, DecodeError};

fn entry_header(out: &mut Vec<u8>, type_code: i32, done: u8, err: i32) {
    write_i32_be(out, type_code);
    out.push(done);
    write_i32_be(out, err);
}

fn terminal(out: &mut Vec<u8>) {
    entry_header(out, -1, 1, -1);
}

fn push_stat(out: &mut Vec<u8>, st: &Stat) {
    write_i64_be(out, st.czxid);
    write_i64_be(out, st.mzxid);
    write_i64_be(out, st.ctime);
    write_i64_be(out, st.mtime);
    write_i32_be(out, st.version);
    write_i32_be(out, st.cversion);
    write_i32_be(out, st.aversion);
    write_i64_be(out, st.ephemeral_owner);
    write_i32_be(out, st.data_length);
    write_i32_be(out, st.num_children);
    write_i64_be(out, st.pzxid);
}

fn zero_stat() -> Stat {
    Stat {
        czxid: 0,
        mzxid: 0,
        ctime: 0,
        mtime: 0,
        version: 0,
        cversion: 0,
        aversion: 0,
        ephemeral_owner: 0,
        data_length: 0,
        num_children: 0,
        pzxid: 0,
    }
}

#[test]
fn two_op_transaction_encodes_absent_version_as_minus_one() {
    let ops = vec![
        Op::Create {
            path: "/t".to_string(),
            data: vec![],
            acl: Acl::open_unsafe(),
            mode: CreateMode::Ephemeral,
        },
        Op::Check { path: "/".to_string(), version: None },
    ];
    let req = TransactionRequest { ops };
    let mut out: Vec<u8> = Vec::new();
    req.write_to(&mut out);

    let mut expected: Vec<u8> = Vec::new();
    // create entry: header, path, data, acl sequence, mode code
    entry_header(&mut expected, 1, 0, -1);
    write_str(&mut expected, "/t");
    write_i32_be(&mut expected, 0);
    write_i32_be(&mut expected, 1);
    Acl::open_unsafe()[0].write_to(&mut expected);
    write_i32_be(&mut expected, 1);
    // check entry: header, path, absent version as -1
    entry_header(&mut expected, 13, 0, -1);
    write_str(&mut expected, "/");
    write_i32_be(&mut expected, -1);
    terminal(&mut expected);
    assert_eq!(out, expected);
}

#[test]
fn transaction_round_trip_mixed_operations() {
    let ops = vec![
        Op::Create {
            path: "/n".to_string(),
            data: vec![1],
            acl: Acl::open_unsafe(),
            mode: CreateMode::Persistent,
        },
        Op::Check { path: "/".to_string(), version: Some(3) },
        Op::Delete { path: "/old".to_string(), version: None },
        Op::SetData { path: "/n".to_string(), data: vec![2], version: Some(0) },
    ];
    let req = TransactionRequest { ops };
    let mut frame: Vec<u8> = Vec::new();
    req.write_to(&mut frame);
    assert!(frame.len() > 9);

    // a synthetic matching reply: one outcome per operation, in order
    let st = zero_stat();
    let mut reply: Vec<u8> = Vec::new();
    entry_header(&mut reply, 6, 0, -1);
    write_str(&mut reply, "/n");
    entry_header(&mut reply, 0, 0, -1);
    entry_header(&mut reply, 0, 0, -1);
    entry_header(&mut reply, 1, 0, -1);
    push_stat(&mut reply, &st);
    terminal(&mut reply);

    let (resp, p) = decode_transaction_reply(&reply, 0, 4).unwrap();
    assert_eq!(p, reply.len());
    assert_eq!(resp.responses.len(), 4);
    match &resp.responses[0] {
        Ok(OpResult::Create { path }) => assert_eq!(path, "/n"),
        other => panic!("{:?}", other),
    }
    assert!(matches!(&resp.responses[1], Ok(OpResult::Empty)));
    assert!(matches!(&resp.responses[2], Ok(OpResult::Empty)));
    match &resp.responses[3] {
        Ok(OpResult::SetData { stat }) => assert_eq!(*stat, st),
        other => panic!("{:?}", other),
    }
}

#[test]
fn mid_list_service_error_leaves_neighbours_intact() {
    let mut reply: Vec<u8> = Vec::new();
    entry_header(&mut reply, 0, 0, -1);
    entry_header(&mut reply, 0, 0, -101);
    entry_header(&mut reply, 6, 0, -1);
    write_str(&mut reply, "/z");
    terminal(&mut reply);

    let (resp, _) = decode_transaction_reply(&reply, 0, 3).unwrap();
    assert!(matches!(&resp.responses[0], Ok(OpResult::Empty)));
    assert_eq!(resp.responses[1], Err(ZkError { code: -101 }));
    match &resp.responses[2] {
        Ok(OpResult::Create { path }) => assert_eq!(path, "/z"),
        other => panic!("{:?}", other),
    }
}

#[test]
fn terminal_only_reply_is_empty() {
    let mut reply: Vec<u8> = Vec::new();
    terminal(&mut reply);
    let (resp, p) = decode_transaction_reply(&reply, 0, 0).unwrap();
    assert!(resp.responses.is_empty());
    assert_eq!(p, 9);
}

#[test]
fn done_flag_on_last_real_entry_ends_stream() {
    let mut reply: Vec<u8> = Vec::new();
    entry_header(&mut reply, 0, 0, -1);
    entry_header(&mut reply, 0, 1, -1);
    let (resp, p) = decode_transaction_reply(&reply, 0, 2).unwrap();
    assert_eq!(resp.responses.len(), 2);
    assert_eq!(p, reply.len());
}

#[test]
fn outcome_count_mismatch_is_error() {
    let mut reply: Vec<u8> = Vec::new();
    entry_header(&mut reply, 0, 0, -1);
    terminal(&mut reply);
    assert!(matches!(
        decode_transaction_reply(&reply, 0, 2),
        Err(DecodeError::CountMismatch)
    ));
}

#[test]
fn unknown_completion_code_is_error() {
    let mut reply: Vec<u8> = Vec::new();
    entry_header(&mut reply, 4, 0, -1);
    terminal(&mut reply);
    assert!(matches!(
        decode_transaction_reply(&reply, 0, 1),
        Err(DecodeError::UnknownCode)
    ));
}

#[test]
fn truncated_reply_stream_is_framing_error() {
    let mut reply: Vec<u8> = Vec::new();
    entry_header(&mut reply, 1, 0, -1);
    // the node-metadata payload is missing entirely
    assert!(matches!(
        TransactionResponse::read_from(&reply, 0),
        Err(DecodeError::Truncated)
    ));
}

#[test]
fn service_error_entry_ignores_its_type_code() {
    // the failed entry carries the node-metadata completion code, yet no
    // payload follows: the error field alone decides the outcome
    let mut reply: Vec<u8> = Vec::new();
    entry_header(&mut reply, 1, 0, -110);
    entry_header(&mut reply, 0, 0, -1);
    terminal(&mut reply);
    let (resp, p) = decode_transaction_reply(&reply, 0, 2).unwrap();
    assert_eq!(resp.responses[0], Err(ZkError { code: -110 }));
    assert!(matches!(&resp.responses[1], Ok(OpResult::Empty)));
    assert_eq!(p, reply.len());
}
