use cdrs::auth::password_token;
use cdrs::connection::{handshake_step, route, send_startup, Routed, Stage, StreamIdAllocator};
use cdrs::consistency::{consistency_of, Consistency};
use cdrs::cursor::Cursor;
use cdrs::error::{server_error_kind_of, Error, ServerErrorKind};
use cdrs::events::{decode_event_body, event_type_of, EventType, ServerEvent};
use cdrs::frame::{decode_error_body, decode_frame, decode_result_kind, encode_frame, opcode_of,
    query_body, startup_frame, Frame, Opcode, ResultKind};
use cdrs::types::{uuid_from_cursor, CBytes, CInet, CString, CStringList, CStringLong,
    CStringMap, CStringMultiMap};
use cdrs::types::{AsRust, IntoRustByName};
use cdrs::value::{decode_ascii, decode_bigint, decode_boolean, decode_date, decode_int,
    decode_smallint, decode_time, decode_tinyint, decode_uuid, decode_varchar, encode_bigint,
    encode_boolean, encode_int, encode_smallint, encode_tinyint};
use cdrs::wire::{from_bytes, from_i_bytes, from_u16_bytes, i_to_n_bytes, to_int, to_n_bytes,
    to_short, try_from_bytes, try_i_from_bytes, try_i32_from_bytes, try_i_to_n_bytes,
    try_to_n_bytes, try_u16_from_bytes};
use cdrs::{AsByte, FromCursor, FromSingleByte, IntoBytes};

// Numeric conversions

#[test]
fn test_to_n_bytes() {
    assert_eq!(to_n_bytes(0x0102, 2), vec![0x01, 0x02]);
    assert_eq!(to_n_bytes(5, 4), vec![0, 0, 0, 5]);
    assert_eq!(to_short(5), vec![0, 5]);
    assert_eq!(to_int(5), vec![0, 0, 0, 5]);
    assert_eq!(to_int(-1), vec![0xFF, 0xFF, 0xFF, 0xFF]);
    assert_eq!(i_to_n_bytes(-2, 4), vec![0xFF, 0xFF, 0xFF, 0xFE]);
}

#[test]
fn test_from_bytes_round_trips() {
    assert_eq!(from_bytes(vec![0, 0, 0, 5]), 5);
    assert_eq!(from_u16_bytes(vec![0, 5]), 5);
    assert_eq!(from_i_bytes(vec![0xFF, 0xFF, 0xFF, 0xFB]), -5);
    assert_eq!(try_from_bytes(vec![0, 0, 0, 5]), Ok(5));
    assert_eq!(try_u16_from_bytes(vec![0, 5]), Ok(5));
    assert_eq!(try_i_from_bytes(vec![0xFF]), Ok(-1));
    assert_eq!(try_i32_from_bytes(vec![0, 0, 0, 42]), Ok(42));
    assert_eq!(
        try_from_bytes(vec![0, 1, 2, 3, 4, 5, 6, 7, 8]),
        Err(Error::Overflow)
    );
    assert_eq!(try_u16_from_bytes(vec![7]), Err(Error::Truncated));
    assert_eq!(try_i32_from_bytes(vec![0, 0, 1]), Err(Error::Truncated));
    assert_eq!(try_to_n_bytes(256, 1), Err(Error::Overflow));
    assert_eq!(try_i_to_n_bytes(128, 1), Err(Error::Overflow));
    assert_eq!(try_i_to_n_bytes(-128, 1), Ok(vec![0x80]));
}

#[test]
fn test_u64_round_trip() {
    let v: u64 = 0x0102030405060708;
    assert_eq!(from_bytes(to_n_bytes(v, 8)), v);
    let w: i64 = -123456789;
    assert_eq!(from_i_bytes(i_to_n_bytes(w, 8)), w);
}

// Typed values

#[test]
fn test_decode_typed_int_and_boolean() {
    assert_eq!(decode_int(vec![0x00, 0x00, 0x00, 0x2A]), Ok(42));
    assert_eq!(decode_boolean(vec![0x01]), Ok(true));
    assert_eq!(decode_boolean(vec![0x00]), Ok(false));
}

#[test]
fn test_typed_round_trips() {
    assert_eq!(decode_int(encode_int(-42)), Ok(-42));
    assert_eq!(decode_bigint(encode_bigint(-1234567890123)), Ok(-1234567890123));
    assert_eq!(decode_smallint(encode_smallint(-300)), Ok(-300));
    assert_eq!(decode_tinyint(encode_tinyint(-7)), Ok(-7));
    assert_eq!(decode_boolean(encode_boolean(true)), Ok(true));
}

#[test]
fn test_typed_mismatch_and_strings() {
    assert_eq!(decode_int(vec![1, 2, 3]), Err(Error::TypeMismatch));
    assert_eq!(decode_boolean(vec![]), Err(Error::TypeMismatch));
    assert_eq!(decode_varchar(vec![0x66, 0x6F, 0x6F]).unwrap(), "foo");
    assert_eq!(decode_varchar(vec![0xFF]), Err(Error::InvalidUtf8));
    assert_eq!(decode_ascii(vec![0x66, 0x6F, 0x6F]).unwrap(), "foo");
    assert_eq!(decode_ascii(vec![0xC3, 0xA9]), Err(Error::InvalidUtf8));
    assert_eq!(decode_date(vec![0x80, 0, 0, 0]), Ok(0x80000000));
    assert_eq!(decode_time(vec![0, 0, 0, 0, 0, 0, 0, 1]), Ok(1));
    assert_eq!(
        decode_time(vec![0x7F, 0xFF, 0xFF, 0xFF, 0xFF, 0xFF, 0xFF, 0xFF]),
        Err(Error::TypeMismatch)
    );
    assert_eq!(decode_uuid(vec![1; 16]).unwrap().len(), 16);
    assert_eq!(decode_uuid(vec![1; 15]), Err(Error::TypeMismatch));
}

// Frames

#[test]
fn test_startup_frame_scenario() {
    let options = CStringMap {
        pairs: vec![(
            CString::new("CQL_VERSION".to_string()),
            CString::new("3.0.0".to_string()),
        )],
    };
    let frame = startup_frame(&options, 0).unwrap();
    let expected: Vec<u8> = vec![
        0x04, 0x00, 0x00, 0x00, 0x01, 0x00, 0x00, 0x00, 0x16, 0x00, 0x01, 0x00, 0x0B, 0x43,
        0x51, 0x4C, 0x5F, 0x56, 0x45, 0x52, 0x53, 0x49, 0x4F, 0x4E, 0x00, 0x05, 0x33, 0x2E,
        0x30, 0x2E, 0x30,
    ];
    assert_eq!(frame, expected);
}

#[test]
fn test_frame_round_trip() {
    let body: Vec<u8> = vec![9, 8, 7];
    let wire = encode_frame(Opcode::Query, 5, &body);
    let mut cursor = Cursor::new(wire);
    let frame = decode_frame(&mut cursor).unwrap();
    assert_eq!(frame.version, 0x04);
    assert_eq!(frame.flags, 0);
    assert_eq!(frame.stream, 5);
    assert_eq!(frame.opcode, Opcode::Query);
    assert_eq!(frame.body, vec![9, 8, 7]);
    assert_eq!(cursor.position(), 12);
}

#[test]
fn test_frame_rejects_compression_flag() {
    let mut wire = encode_frame(Opcode::Query, 0, &vec![]);
    wire[1] = 0x01;
    let mut cursor = Cursor::new(wire);
    assert_eq!(decode_frame(&mut cursor), Err(Error::Protocol));
}

#[test]
fn test_frame_rejects_bad_version_and_opcode() {
    let mut wire = encode_frame(Opcode::Query, 0, &vec![]);
    wire[0] = 0x03;
    let mut cursor = Cursor::new(wire);
    assert_eq!(decode_frame(&mut cursor), Err(Error::Protocol));

    let mut wire2 = encode_frame(Opcode::Query, 0, &vec![]);
    wire2[4] = 0x04;
    let mut cursor2 = Cursor::new(wire2);
    assert_eq!(decode_frame(&mut cursor2), Err(Error::Protocol));
}

#[test]
fn test_frame_truncated() {
    let wire = encode_frame(Opcode::Query, 0, &vec![1, 2, 3]);
    let mut cursor = Cursor::new(wire[..10].to_vec());
    assert_eq!(decode_frame(&mut cursor), Err(Error::Truncated));
}

#[test]
fn test_opcode_bytes() {
    assert_eq!(Opcode::Startup.as_byte(), 0x01);
    assert_eq!(Opcode::AuthSuccess.as_byte(), 0x10);
    assert_eq!(opcode_of(0x0C), Some(Opcode::Event));
    assert_eq!(opcode_of(0x04), None);
    assert_eq!(Opcode::from_byte(0x08), Opcode::QueryResult);
}

#[test]
fn test_query_body_layout() {
    let cql = CStringLong::new("SELECT 1".to_string());
    let body = query_body(&cql, &Consistency::One);
    let mut expected: Vec<u8> = vec![0, 0, 0, 8];
    expected.extend_from_slice(b"SELECT 1");
    expected.extend_from_slice(&[0x00, 0x01, 0x00]);
    assert_eq!(body, expected);
}

// ERROR bodies

#[test]
fn test_error_body_bad_credentials() {
    let mut body: Vec<u8> = vec![0x00, 0x00, 0x01, 0x00];
    let msg = CString::new("Bad credentials".to_string());
    body.extend_from_slice(&msg.into_cbytes());
    let mut cursor = Cursor::new(body);
    let (kind, message) = decode_error_body(&mut cursor).unwrap();
    assert_eq!(kind, ServerErrorKind::BadCredentials);
    assert_eq!(message.as_str(), "Bad credentials");
    assert_eq!(Error::Server(kind), Error::Server(ServerErrorKind::BadCredentials));
}

#[test]
fn test_error_codes() {
    assert_eq!(server_error_kind_of(0x0000), Some(ServerErrorKind::ServerError));
    assert_eq!(server_error_kind_of(0x1100), Some(ServerErrorKind::WriteTimeout));
    assert_eq!(server_error_kind_of(0x2500), Some(ServerErrorKind::Unprepared));
    assert_eq!(server_error_kind_of(0x0042), None);
}

// Consistency

#[test]
fn test_consistency_round_trip() {
    let wire = Consistency::Quorum.into_cbytes();
    assert_eq!(wire, vec![0x00, 0x04]);
    let mut cursor = Cursor::new(wire);
    let back = Consistency::from_cursor(&mut cursor).unwrap();
    assert_eq!(back, Consistency::Quorum);
    assert_eq!(consistency_of(10), Some(Consistency::LocalOne));
    assert_eq!(consistency_of(11), None);
    let mut bad = Cursor::new(vec![0x00, 0x63]);
    assert_eq!(Consistency::from_cursor(&mut bad), Err(Error::Protocol));
}

// String map

#[test]
fn test_string_map_last_occurrence_wins() {
    let map = CStringMap {
        pairs: vec![
            (
                CString::new("k".to_string()),
                CString::new("first".to_string()),
            ),
            (
                CString::new("k".to_string()),
                CString::new("second".to_string()),
            ),
        ],
    };
    assert_eq!(map.get(&"k".to_string()), Some("second".to_string()));
    assert_eq!(map.get(&"missing".to_string()), None);
}

#[test]
fn test_string_map_round_trip() {
    let map = CStringMap {
        pairs: vec![(
            CString::new("CQL_VERSION".to_string()),
            CString::new("3.0.0".to_string()),
        )],
    };
    let wire = map.into_cbytes();
    let mut cursor = Cursor::new(wire);
    let back = CStringMap::from_cursor(&mut cursor).unwrap();
    assert_eq!(back.pairs.len(), 1);
    assert_eq!(back.pairs[0].0.as_str(), "CQL_VERSION");
    assert_eq!(back.pairs[0].1.as_str(), "3.0.0");
}

// Handshake and routing

#[test]
fn test_handshake_ready() {
    let s = send_startup(Stage::Fresh);
    assert_eq!(s, Stage::Started);
    assert_eq!(handshake_step(s, Opcode::Ready), Stage::Ready);
}

#[test]
fn test_handshake_authentication() {
    let s = send_startup(Stage::Fresh);
    let s = handshake_step(s, Opcode::Authenticate);
    assert_eq!(s, Stage::Authenticating);
    let s = handshake_step(s, Opcode::AuthChallenge);
    assert_eq!(s, Stage::Authenticating);
    let s = handshake_step(s, Opcode::AuthSuccess);
    assert_eq!(s, Stage::Ready);
}

#[test]
fn test_handshake_unexpected_closes() {
    let s = send_startup(Stage::Fresh);
    assert_eq!(handshake_step(s, Opcode::Event), Stage::Closed);
    assert_eq!(send_startup(Stage::Ready), Stage::Closed);
}

#[test]
fn test_event_routing() {
    let event = Frame {
        version: 0x84,
        flags: 0,
        stream: -1,
        opcode: Opcode::Event,
        body: vec![],
    };
    assert_eq!(route(&event), Routed::AsEvent);
    let reply = Frame {
        version: 0x84,
        flags: 0,
        stream: 0,
        opcode: Opcode::Ready,
        body: vec![],
    };
    assert_eq!(route(&reply), Routed::AsReply);
}

#[test]
fn test_stream_id_allocator() {
    let mut ids = StreamIdAllocator::new();
    assert_eq!(ids.allocate(), Some(0));
    assert_eq!(ids.allocate(), Some(1));
    assert_eq!(ids.allocate(), Some(2));
}

// Authenticator

#[test]
fn test_password_token() {
    let token = password_token("user", "pass");
    let expected: Vec<u8> = vec![
        0x00, 0x75, 0x73, 0x65, 0x72, 0x00, 0x70, 0x61, 0x73, 0x73,
    ];
    assert_eq!(token, expected);
}

#[test]
fn test_result_kind() {
    let mut cursor = Cursor::new(vec![0, 0, 0, 3]);
    assert_eq!(decode_result_kind(&mut cursor), Ok(ResultKind::SetKeyspace));
    let mut bad = Cursor::new(vec![0, 0, 0, 9]);
    assert_eq!(decode_result_kind(&mut bad), Err(Error::Protocol));
}

#[test]
fn test_uuid_from_cursor() {
    let raw: Vec<u8> = (0u8..16).collect();
    let mut cursor = Cursor::new(raw.clone());
    assert_eq!(uuid_from_cursor(&mut cursor), Ok(raw));
    let mut short = Cursor::new(vec![0u8; 15]);
    assert_eq!(uuid_from_cursor(&mut short), Err(Error::Truncated));
}

#[test]
fn test_string_multimap_decode() {
    // one key, "CQL_VERSION", carrying the list ["3.0.0", "3.4.4"]
    let key = CString::new("CQL_VERSION".to_string());
    let values = CStringList {
        list: vec![
            CString::new("3.0.0".to_string()),
            CString::new("3.4.4".to_string()),
        ],
    };
    let mut wire: Vec<u8> = vec![0, 1];
    wire.extend_from_slice(&key.into_cbytes());
    wire.extend_from_slice(&values.into_cbytes());
    let mut cursor = Cursor::new(wire);
    let mm = CStringMultiMap::from_cursor(&mut cursor).unwrap();
    assert_eq!(mm.pairs.len(), 1);
    assert_eq!(mm.pairs[0].0.as_str(), "CQL_VERSION");
    let vals = mm.pairs[0].1.clone().into_plain();
    assert_eq!(vals, vec!["3.0.0".to_string(), "3.4.4".to_string()]);
}

#[test]
fn test_status_change_event() {
    let mut body = CString::new("STATUS_CHANGE".to_string()).into_cbytes();
    body.extend_from_slice(&CString::new("UP".to_string()).into_cbytes());
    let node = CInet {
        addr: vec![127, 0, 0, 1],
        port: 9042,
    };
    body.extend_from_slice(&node.into_cbytes());
    let mut cursor = Cursor::new(body);
    let event = decode_event_body(&mut cursor).unwrap();
    match event {
        ServerEvent::StatusChange { change, node } => {
            assert_eq!(change.as_str(), "UP");
            assert_eq!(node.addr, vec![127, 0, 0, 1]);
            assert_eq!(node.port, 9042);
        }
        other => panic!("unexpected event {:?}", other),
    }
}

#[test]
fn test_schema_change_event() {
    let mut body = CString::new("SCHEMA_CHANGE".to_string()).into_cbytes();
    body.extend_from_slice(&CString::new("CREATED".to_string()).into_cbytes());
    body.extend_from_slice(&CString::new("TABLE".to_string()).into_cbytes());
    body.extend_from_slice(&CString::new("ks".to_string()).into_cbytes());
    body.extend_from_slice(&CString::new("tbl".to_string()).into_cbytes());
    let mut cursor = Cursor::new(body);
    let event = decode_event_body(&mut cursor).unwrap();
    match event {
        ServerEvent::SchemaChange {
            change,
            target,
            keyspace,
            name,
        } => {
            assert_eq!(change.as_str(), "CREATED");
            assert_eq!(target.as_str(), "TABLE");
            assert_eq!(keyspace.as_str(), "ks");
            assert_eq!(name.unwrap().as_str(), "tbl");
        }
        other => panic!("unexpected event {:?}", other),
    }
}

#[test]
fn test_keyspace_schema_change_has_no_name() {
    let mut body = CString::new("SCHEMA_CHANGE".to_string()).into_cbytes();
    body.extend_from_slice(&CString::new("DROPPED".to_string()).into_cbytes());
    body.extend_from_slice(&CString::new("KEYSPACE".to_string()).into_cbytes());
    body.extend_from_slice(&CString::new("ks".to_string()).into_cbytes());
    let mut cursor = Cursor::new(body);
    let event = decode_event_body(&mut cursor).unwrap();
    match event {
        ServerEvent::SchemaChange { name, .. } => assert!(name.is_none()),
        other => panic!("unexpected event {:?}", other),
    }
}

#[test]
fn test_unknown_event_type() {
    assert_eq!(
        event_type_of(&CString::new("TOPOLOGY_CHANGE".to_string())),
        Some(EventType::TopologyChange)
    );
    let body = CString::new("SOMETHING_ELSE".to_string()).into_cbytes();
    let mut cursor = Cursor::new(body);
    assert_eq!(decode_event_body(&mut cursor), Err(Error::Protocol));
}

#[test]
fn test_as_rust_conversions() {
    let col = CBytes::new(vec![0, 0, 0, 42]);
    let i: Result<i32, Error> = col.as_rust();
    assert_eq!(i, Ok(42));
    let b: Result<bool, Error> = CBytes::new(vec![1]).as_rust();
    assert_eq!(b, Ok(true));
    let s: Result<String, Error> = CBytes::new(b"foo".to_vec()).as_rust();
    assert_eq!(s.unwrap(), "foo");
    let null: Result<i64, Error> = CBytes::new_null().as_rust();
    assert_eq!(null, Err(Error::TypeMismatch));
}

#[test]
fn test_get_by_name() {
    let map = CStringMap {
        pairs: vec![(
            CString::new("COMPRESSION".to_string()),
            CString::new("lz4".to_string()),
        )],
    };
    let hit: Option<Result<String, Error>> = map.get_by_name("COMPRESSION");
    assert_eq!(hit.unwrap().unwrap(), "lz4");
    let miss: Option<Result<String, Error>> = map.get_by_name("CQL_VERSION");
    assert!(miss.is_none());
}

#[test]
fn test_cursor_bounded_consumption() {
    let mut cursor = Cursor::new(vec![0, 3, 102, 111, 111, 9, 9]);
    assert_eq!(cursor.remaining_len(), 7);
    let _ = CString::from_cursor(&mut cursor).unwrap();
    assert_eq!(cursor.position(), 5);
    assert_eq!(cursor.remaining_len(), 2);
}
