use zkwire::data::{Acl, KeeperState, OpCode, Permission, Stat, WatchedEvent, WatchedEventType};
use zkwire::proto::{
    to_len_prefixed_buf, BufferReader, ConnectRequest, ConnectResponse, CreateRequest, CreateResponse,
    AuthRequest, DeleteRequest, EmptyRequest, EmptyResponse, GetAclRequest, GetAclResponse,
    GetChildrenResponse, GetDataResponse, ReadFrom, ReplyHeader, RequestHeader, SetAclRequest,
    SetDataRequest, StatResponse, StringAndBoolRequest, WriteTo,
};
use zkwire::wire::{
    read_buf, read_i32_be, read_i64_be, read_string, read_u32_be, write_buf, write_i32_be,
    write_i64_be, write_str, write_u32_be, DecodeError,
};

fn sample_stat() -> Stat {
    Stat {
        czxid: 1,
        mzxid: 2,
        ctime: 3,
        mtime: 4,
        version: 5,
        cversion: 6,
        aversion: 7,
        ephemeral_owner: 8,
        data_length: 9,
        num_children: 10,
        pzxid: 11,
    }
}

fn push_stat(out: &mut Vec<u8>, st: &Stat) {
    write_i64_be(out, st.czxid);
    write_i64_be(out, st.mzxid);
    write_i64_be(out, st.ctime);
    write_i64_be(out, st.mtime);
    write_i32_be(out, st.version);
    write_i32_be(out, st.cversion);
    write_i32_be(out, st.aversion);
    write_i64_be(out, st.ephemeral_owner);
    write_i32_be(out, st.data_length);
    write_i32_be(out, st.num_children);
    write_i64_be(out, st.pzxid);
}

#[test]
fn u32_exact_bytes() {
    let mut out: Vec<u8> = Vec::new();
    write_u32_be(&mut out, 0x0102_0304);
    assert_eq!(out, vec![1, 2, 3, 4]);
    let (x, p) = read_u32_be(&out, 0).unwrap();
    assert_eq!(x, 0x0102_0304);
    assert_eq!(p, 4);
}

#[test]
fn i32_negative_exact_bytes() {
    let mut out: Vec<u8> = Vec::new();
    write_i32_be(&mut out, -1);
    assert_eq!(out, vec![0xff, 0xff, 0xff, 0xff]);
    let (x, _) = read_i32_be(&out, 0).unwrap();
    assert_eq!(x, -1);
}

#[test]
fn i64_round_trip() {
    let mut out: Vec<u8> = Vec::new();
    write_i64_be(&mut out, -123_456_789_012_345);
    write_i64_be(&mut out, i64::MAX);
    let (a, p) = read_i64_be(&out, 0).unwrap();
    let (b, q) = read_i64_be(&out, p).unwrap();
    assert_eq!(a, -123_456_789_012_345);
    assert_eq!(b, i64::MAX);
    assert_eq!(q, 16);
}

#[test]
fn buffer_round_trip() {
    let mut out: Vec<u8> = Vec::new();
    write_buf(&mut out, &[7, 8, 9]);
    assert_eq!(out, vec![0, 0, 0, 3, 7, 8, 9]);
    let (v, p) = read_buf(&out, 0).unwrap();
    assert_eq!(v, vec![7, 8, 9]);
    assert_eq!(p, 7);
}

#[test]
fn empty_buffer_round_trip() {
    let mut out: Vec<u8> = Vec::new();
    write_buf(&mut out, &[]);
    assert_eq!(out, vec![0, 0, 0, 0]);
    let (v, p) = read_buf(&out, 0).unwrap();
    assert!(v.is_empty());
    assert_eq!(p, 4);
}

#[test]
fn negative_length_buffer_is_empty() {
    let mut bytes: Vec<u8> = Vec::new();
    write_i32_be(&mut bytes, -1);
    bytes.push(42);
    let (v, p) = read_buf(&bytes, 0).unwrap();
    assert!(v.is_empty());
    assert_eq!(p, 4);
}

#[test]
fn negative_length_string_is_empty() {
    let mut bytes: Vec<u8> = Vec::new();
    write_i32_be(&mut bytes, -5);
    let (s, p) = read_string(&bytes, 0).unwrap();
    assert_eq!(s, "");
    assert_eq!(p, 4);
}

#[test]
fn truncated_buffer_is_framing_error() {
    let mut bytes: Vec<u8> = Vec::new();
    write_i32_be(&mut bytes, 5);
    bytes.push(1);
    bytes.push(2);
    assert_eq!(read_buf(&bytes, 0), Err(DecodeError::Truncated));
}

#[test]
fn truncated_fixed_width_is_framing_error() {
    let bytes: Vec<u8> = vec![0, 1, 2];
    assert!(matches!(read_u32_be(&bytes, 0), Err(DecodeError::Truncated)));
    assert!(matches!(read_i64_be(&bytes, 0), Err(DecodeError::Truncated)));
}

#[test]
fn string_round_trip() {
    let mut out: Vec<u8> = Vec::new();
    write_str(&mut out, "ab");
    assert_eq!(out, vec![0, 0, 0, 2, 97, 98]);
    let (s, p) = read_string(&out, 0).unwrap();
    assert_eq!(s, "ab");
    assert_eq!(p, 6);
}

#[test]
fn empty_string_round_trip() {
    let mut out: Vec<u8> = Vec::new();
    write_str(&mut out, "");
    let (s, p) = read_string(&out, 0).unwrap();
    assert_eq!(s, "");
    assert_eq!(p, 4);
}

#[test]
fn non_ascii_string_round_trip() {
    let mut out: Vec<u8> = Vec::new();
    write_str(&mut out, "caf\u{e9}");
    let (s, _) = read_string(&out, 0).unwrap();
    assert_eq!(s, "caf\u{e9}");
}

#[test]
fn invalid_utf8_is_decode_error() {
    let mut bytes: Vec<u8> = Vec::new();
    write_i32_be(&mut bytes, 1);
    bytes.push(0xff);
    assert_eq!(read_string(&bytes, 0), Err(DecodeError::InvalidUtf8));
}

#[test]
fn acl_round_trip() {
    let acl = Acl {
        perms: Permission::from_raw(31),
        scheme: "world".to_string(),
        id: "anyone".to_string(),
    };
    let mut out: Vec<u8> = Vec::new();
    acl.write_to(&mut out);
    let (back, p) = Acl::read_from(&out, 0).unwrap();
    assert_eq!(back, acl);
    assert_eq!(p, out.len());
}

#[test]
fn open_unsafe_preset() {
    let acls = Acl::open_unsafe();
    assert_eq!(acls.len(), 1);
    assert_eq!(acls[0].perms.code(), 31);
    assert_eq!(acls[0].scheme, "world");
    assert_eq!(acls[0].id, "anyone");
}

#[test]
fn stat_decode() {
    let st = sample_stat();
    let mut bytes: Vec<u8> = Vec::new();
    push_stat(&mut bytes, &st);
    assert_eq!(bytes.len(), 68);
    let (back, p) = Stat::read_from(&bytes, 0).unwrap();
    assert_eq!(back, st);
    assert_eq!(p, 68);
    let (resp, _) = StatResponse::read_from(&bytes, 0).unwrap();
    assert_eq!(resp.stat, st);
}

#[test]
fn stat_truncated_is_framing_error() {
    let st = sample_stat();
    let mut bytes: Vec<u8> = Vec::new();
    push_stat(&mut bytes, &st);
    bytes.truncate(67);
    assert!(matches!(Stat::read_from(&bytes, 0), Err(DecodeError::Truncated)));
}

#[test]
fn reply_header_decode() {
    let mut bytes: Vec<u8> = Vec::new();
    write_i32_be(&mut bytes, 7);
    write_i64_be(&mut bytes, 99);
    write_i32_be(&mut bytes, -101);
    let (h, p) = ReplyHeader::read_from(&bytes, 0).unwrap();
    assert_eq!(h.xid, 7);
    assert_eq!(h.zxid, 99);
    assert_eq!(h.err, -101);
    assert_eq!(p, 16);
}

#[test]
fn opcode_values() {
    assert_eq!(OpCode::Create.code(), 1);
    assert_eq!(OpCode::Delete.code(), 2);
    assert_eq!(OpCode::Exists.code(), 3);
    assert_eq!(OpCode::GetData.code(), 4);
    assert_eq!(OpCode::SetData.code(), 5);
    assert_eq!(OpCode::GetAcl.code(), 6);
    assert_eq!(OpCode::SetAcl.code(), 7);
    assert_eq!(OpCode::GetChildren.code(), 8);
    assert_eq!(OpCode::Ping.code(), 11);
    assert_eq!(OpCode::Check.code(), 13);
    assert_eq!(OpCode::Transaction.code(), 14);
    assert_eq!(OpCode::Auth.code(), 100);
    assert_eq!(OpCode::CloseSession.code(), -11);
}

#[test]
fn frame_assembly_exact_bytes() {
    let rh = RequestHeader { xid: 1, opcode: OpCode::Ping };
    let frame = to_len_prefixed_buf(rh, EmptyRequest);
    assert_eq!(frame, vec![0, 0, 0, 8, 0, 0, 0, 1, 0, 0, 0, 11]);
}

#[test]
fn self_framed_request() {
    let req = StringAndBoolRequest { path: "/a".to_string(), watch: true };
    let framed = req.to_len_prefixed_buf();
    // 4-byte prefix, then a 6-byte string image and the watch byte
    assert_eq!(framed, vec![0, 0, 0, 7, 0, 0, 0, 2, 47, 97, 1]);
}

#[test]
fn connect_handshake_round_trip() {
    let initial = ConnectResponse::initial(10_000);
    assert_eq!(initial.protocol_version, 0);
    assert_eq!(initial.session_id, 0);
    assert_eq!(initial.passwd, vec![0u8; 16]);
    let req = ConnectRequest::from(&initial, 55);
    assert_eq!(req.timeout, 10_000);
    assert_eq!(req.last_zxid_seen, 55);
    let mut out: Vec<u8> = Vec::new();
    req.write_to(&mut out);
    // protocol version, last seen zxid, timeout, session id, password, read-only
    assert_eq!(out.len(), 4 + 8 + 4 + 8 + (4 + 16) + 1);

    // a synthetic handshake reply decodes to the granted parameters
    let mut reply: Vec<u8> = Vec::new();
    write_i32_be(&mut reply, 0);
    write_i32_be(&mut reply, 8_000);
    write_i64_be(&mut reply, 0x1234);
    write_buf(&mut reply, &[9u8; 16]);
    reply.push(1);
    let (resp, p) = ConnectResponse::read_from(&reply, 0).unwrap();
    assert_eq!(resp.timeout, 8_000);
    assert_eq!(resp.session_id, 0x1234);
    assert_eq!(resp.passwd, vec![9u8; 16]);
    assert!(resp.read_only);
    assert_eq!(p, reply.len());
}

#[test]
fn create_frame_and_response() {
    // encode a create request frame
    let req = CreateRequest {
        path: "/a".to_string(),
        data: vec![1, 2],
        acl: Acl::open_unsafe(),
        flags: 1,
    };
    let rh = RequestHeader { xid: 2, opcode: OpCode::Create };
    let frame = to_len_prefixed_buf(rh, req);
    let (declared, body_start) = read_i32_be(&frame, 0).unwrap();
    assert_eq!(declared as usize, frame.len() - 4);
    let (xid, p) = read_i32_be(&frame, body_start).unwrap();
    let (opcode, _) = read_i32_be(&frame, p).unwrap();
    assert_eq!(xid, 2);
    assert_eq!(opcode, 1);

    // a synthetic create reply { path: "/a" } decodes to that path
    let mut reply: Vec<u8> = Vec::new();
    write_str(&mut reply, "/a");
    let (resp, q) = CreateResponse::read_from(&reply, 0).unwrap();
    assert_eq!(resp.path, "/a");
    assert_eq!(q, reply.len());
}

#[test]
fn delete_request_exact_bytes() {
    let req = DeleteRequest { path: "/d".to_string(), version: -1 };
    let mut out: Vec<u8> = Vec::new();
    req.write_to(&mut out);
    assert_eq!(out, vec![0, 0, 0, 2, 47, 100, 0xff, 0xff, 0xff, 0xff]);
}

#[test]
fn get_acl_request_and_response() {
    let req = GetAclRequest { path: "/n".to_string() };
    let mut out: Vec<u8> = Vec::new();
    req.write_to(&mut out);
    assert_eq!(out, vec![0, 0, 0, 2, 47, 110]);

    let st = sample_stat();
    let mut reply: Vec<u8> = Vec::new();
    write_i32_be(&mut reply, 1);
    let acl = Acl {
        perms: Permission::from_raw(1),
        scheme: "digest".to_string(),
        id: "u:pw".to_string(),
    };
    acl.write_to(&mut reply);
    push_stat(&mut reply, &st);
    let (resp, p) = GetAclResponse::read_from(&reply, 0).unwrap();
    assert_eq!(resp.acl_stat.0, vec![acl]);
    assert_eq!(resp.acl_stat.1, st);
    assert_eq!(p, reply.len());
}

#[test]
fn get_children_response_decode() {
    let mut reply: Vec<u8> = Vec::new();
    write_i32_be(&mut reply, 2);
    write_str(&mut reply, "a");
    write_str(&mut reply, "bb");
    let (resp, p) = GetChildrenResponse::read_from(&reply, 0).unwrap();
    assert_eq!(resp.children, vec!["a".to_string(), "bb".to_string()]);
    assert_eq!(p, reply.len());
}

#[test]
fn get_data_response_decode() {
    let st = sample_stat();
    let mut reply: Vec<u8> = Vec::new();
    write_buf(&mut reply, &[5, 6]);
    push_stat(&mut reply, &st);
    let (resp, p) = GetDataResponse::read_from(&reply, 0).unwrap();
    assert_eq!(resp.data_stat.0, vec![5, 6]);
    assert_eq!(resp.data_stat.1, st);
    assert_eq!(p, reply.len());
}

#[test]
fn empty_response_decode() {
    let bytes: Vec<u8> = Vec::new();
    let (_, p) = EmptyResponse::read_from(&bytes, 0).unwrap();
    assert_eq!(p, 0);
}

#[test]
fn watch_event_decode() {
    let mut bytes: Vec<u8> = Vec::new();
    write_i32_be(&mut bytes, 1);
    write_i32_be(&mut bytes, 3);
    write_str(&mut bytes, "/w");
    let (ev, p) = WatchedEvent::read_from(&bytes, 0).unwrap();
    assert_eq!(ev.event_type, WatchedEventType::NodeCreated);
    assert_eq!(ev.keeper_state, KeeperState::SyncConnected);
    assert_eq!(ev.path, Some("/w".to_string()));
    assert_eq!(p, bytes.len());
}

#[test]
fn watch_event_unknown_code_is_error() {
    let mut bytes: Vec<u8> = Vec::new();
    write_i32_be(&mut bytes, 77);
    write_i32_be(&mut bytes, 3);
    write_str(&mut bytes, "/w");
    assert_eq!(WatchedEvent::read_from(&bytes, 0), Err(DecodeError::UnknownCode));
}

#[test]
fn set_data_request_exact_bytes() {
    let req = SetDataRequest { path: "/s".to_string(), data: vec![9], version: 2 };
    let mut out: Vec<u8> = Vec::new();
    req.write_to(&mut out);
    assert_eq!(out, vec![0, 0, 0, 2, 47, 115, 0, 0, 0, 1, 9, 0, 0, 0, 2]);
}

#[test]
fn auth_request_exact_bytes() {
    let req = AuthRequest { typ: 0, scheme: "digest".to_string(), auth: vec![1, 2] };
    let mut out: Vec<u8> = Vec::new();
    req.write_to(&mut out);
    let mut expected: Vec<u8> = Vec::new();
    write_i32_be(&mut expected, 0);
    write_str(&mut expected, "digest");
    write_buf(&mut expected, &[1, 2]);
    assert_eq!(out, expected);
}

#[test]
fn set_acl_request_encode() {
    let req = SetAclRequest { path: "/s".to_string(), acl: Acl::open_unsafe(), version: 1 };
    let mut out: Vec<u8> = Vec::new();
    req.write_to(&mut out);
    let mut expected: Vec<u8> = Vec::new();
    write_str(&mut expected, "/s");
    write_i32_be(&mut expected, 1);
    Acl::open_unsafe()[0].write_to(&mut expected);
    write_i32_be(&mut expected, 1);
    assert_eq!(out, expected);
}

#[test]
fn str_fits_accepts_ordinary_paths() {
    assert!(zkwire::wire::str_fits("/some/path"));
    assert!(zkwire::wire::str_fits(""));
}

#[test]
fn buffer_reader_trait_on_slices() {
    let bytes: Vec<u8> = vec![0, 0, 0, 2, 5, 6, 77];
    let (v, p) = bytes.as_slice().read_buffer(0).unwrap();
    assert_eq!(v, vec![5, 6]);
    assert_eq!(p, 6);
}

#[test]
fn negative_count_children_is_framing_error() {
    let mut reply: Vec<u8> = Vec::new();
    write_i32_be(&mut reply, -1);
    assert!(matches!(
        GetChildrenResponse::read_from(&reply, 0),
        Err(DecodeError::Truncated)
    ));
}

#[test]
fn negative_count_acl_sequence_is_framing_error() {
    let mut reply: Vec<u8> = Vec::new();
    write_i32_be(&mut reply, -2);
    push_stat(&mut reply, &sample_stat());
    assert!(matches!(
        GetAclResponse::read_from(&reply, 0),
        Err(DecodeError::Truncated)
    ));
}
