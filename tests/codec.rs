use bytes::BytesMut;
use daemon_codec::codec::{parse_search_reply, CodecError, DaemonMsgCodec};
use daemon_codec::message::{
    pack_file_entry, read_file_entry, CLoginAlgorithm, CSearchKind, DaemonMsg, FileEntry,
};
use daemon_codec::wire::{pack_string, read_string};

fn encoded(msg: DaemonMsg) -> Vec<u8> {
    let mut codec = DaemonMsgCodec::new();
    let mut out = BytesMut::new();
    codec.encode(msg, &mut out).unwrap();
    out.to_vec()
}

fn frame(kind: u32, body: &[u8]) -> Vec<u8> {
    let mut v = Vec::new();
    v.extend_from_slice(&(body.len() as u32 + 4).to_le_bytes());
    v.extend_from_slice(&kind.to_le_bytes());
    v.extend_from_slice(body);
    v
}

fn string_field(s: &str) -> Vec<u8> {
    let mut v = Vec::new();
    v.extend_from_slice(&(s.len() as u32).to_le_bytes());
    v.extend_from_slice(s.as_bytes());
    v
}

fn login_body(token: &str, response: &str, mask: u32) -> Vec<u8> {
    let mut b = string_field(token);
    b.extend_from_slice(&string_field(response));
    b.extend_from_slice(&mask.to_le_bytes());
    b
}

fn search_body(code: u32, query: &str) -> Vec<u8> {
    let mut b = code.to_le_bytes().to_vec();
    b.extend_from_slice(&string_field(query));
    b
}

/// Feeds `chunks` one after another, calling the decoder until it yields
/// nothing, and collects the messages.
fn feed(chunks: &[&[u8]]) -> Vec<DaemonMsg> {
    let mut codec = DaemonMsgCodec::new();
    let mut buf = BytesMut::new();
    let mut out = Vec::new();
    for c in chunks {
        buf.extend_from_slice(c);
        while let Some(m) = codec.decode(&mut buf).unwrap() {
            out.push(m);
        }
    }
    out
}

#[test]
fn ping_scenario_bytes() {
    let bytes = encoded(DaemonMsg::SPing { id: 7 });
    assert_eq!(bytes, vec![0x08, 0, 0, 0, 0, 0, 0, 0, 0x07, 0, 0, 0]);
}

#[test]
fn ping_scenario_decodes_as_inbound_ping() {
    let mut codec = DaemonMsgCodec::new();
    let mut buf = BytesMut::from(vec![0x08u8, 0, 0, 0, 0, 0, 0, 0, 0x07, 0, 0, 0]);
    let r = codec.decode(&mut buf).unwrap();
    assert_eq!(r, Some(DaemonMsg::CPing { id: 7 }));
    assert!(buf.is_empty());
}

#[test]
fn server_state_scenario_bytes() {
    let bytes = encoded(DaemonMsg::SServerState { connected: true, username: "abc".to_string() });
    assert_eq!(
        bytes,
        vec![0x0C, 0, 0, 0, 0x03, 0, 0, 0, 0x01, 0x03, 0, 0, 0, 0x61, 0x62, 0x63]
    );
}

#[test]
fn empty_search_reply_keeps_both_counts() {
    let bytes = encoded(DaemonMsg::SSearchReply {
        token: 1,
        username: "u".to_string(),
        slots_free: false,
        average_speed: 2,
        queue_length: 3,
        results: vec![],
        locked_results: vec![],
    });
    let mut body = 1u32.to_le_bytes().to_vec();
    body.extend_from_slice(&string_field("u"));
    body.push(0);
    body.extend_from_slice(&2u32.to_le_bytes());
    body.extend_from_slice(&3u32.to_le_bytes());
    body.extend_from_slice(&[0, 0, 0, 0]);
    body.extend_from_slice(&[0, 0, 0, 0]);
    assert_eq!(bytes, frame(0x0402, &body));
    assert_eq!(&bytes[bytes.len() - 8..], &[0u8, 0, 0, 0, 0, 0, 0, 0][..]);
}

#[test]
fn search_reply_with_entries() {
    let entry = FileEntry {
        name: "a.mp3".to_string(),
        size: 0x1_0000_0002,
        extension: "mp3".to_string(),
        attributes: vec![(0, 320), (1, 60)],
    };
    let bytes = encoded(DaemonMsg::SSearchReply {
        token: 9,
        username: "bob".to_string(),
        slots_free: true,
        average_speed: 100,
        queue_length: 0,
        results: vec![entry.clone()],
        locked_results: vec![entry],
    });
    let mut e = string_field("a.mp3");
    e.extend_from_slice(&0x1_0000_0002u64.to_le_bytes());
    e.extend_from_slice(&string_field("mp3"));
    e.extend_from_slice(&2u32.to_le_bytes());
    for v in [0u32, 320, 1, 60] {
        e.extend_from_slice(&v.to_le_bytes());
    }
    let mut body = 9u32.to_le_bytes().to_vec();
    body.extend_from_slice(&string_field("bob"));
    body.push(1);
    body.extend_from_slice(&100u32.to_le_bytes());
    body.extend_from_slice(&0u32.to_le_bytes());
    body.extend_from_slice(&1u32.to_le_bytes());
    body.extend_from_slice(&e);
    body.extend_from_slice(&1u32.to_le_bytes());
    body.extend_from_slice(&e);
    assert_eq!(bytes, frame(0x0402, &body));
}

#[test]
fn other_outbound_layouts() {
    let mut b = 3u32.to_le_bytes().to_vec();
    b.extend_from_slice(&string_field("xyz"));
    assert_eq!(
        encoded(DaemonMsg::SChallenge { version: 3, challenge: "xyz".to_string() }),
        frame(0x0001, &b)
    );
    let mut b = vec![0u8];
    b.extend_from_slice(&string_field("no"));
    b.extend_from_slice(&string_field("c"));
    assert_eq!(
        encoded(DaemonMsg::SLogin {
            success: false,
            message: "no".to_string(),
            challenge: "c".to_string()
        }),
        frame(0x0002, &b)
    );
    let mut b = string_field("song");
    b.extend_from_slice(&5u32.to_le_bytes());
    assert_eq!(
        encoded(DaemonMsg::SSearch { query: "song".to_string(), token: 5 }),
        frame(0x0401, &b)
    );
}

#[test]
fn encode_appends_to_existing_bytes() {
    let mut codec = DaemonMsgCodec::new();
    let mut out = BytesMut::from(vec![0xAAu8]);
    codec.encode(DaemonMsg::SPing { id: 1 }, &mut out).unwrap();
    assert_eq!(out.to_vec(), vec![0xAA, 8, 0, 0, 0, 0, 0, 0, 0, 1, 0, 0, 0]);
}

#[test]
fn login_decodes() {
    let bytes = frame(0x0002, &login_body("SHA256", "resp", 0x1234));
    let msgs = feed(&[&bytes]);
    assert_eq!(
        msgs,
        vec![DaemonMsg::CLogin {
            algorithm: CLoginAlgorithm::Sha256,
            challenge_response: "resp".to_string(),
            mask: 0x1234
        }]
    );
    let md5 = feed(&[&frame(0x0002, &login_body("MD5", "", 0))]);
    assert_eq!(
        md5,
        vec![DaemonMsg::CLogin {
            algorithm: CLoginAlgorithm::Md5,
            challenge_response: String::new(),
            mask: 0
        }]
    );
}

#[test]
fn search_decodes_each_scope() {
    for (code, kind) in [(0u32, CSearchKind::Global), (1, CSearchKind::Buddies), (2, CSearchKind::Room)]
    {
        let msgs = feed(&[&frame(0x0401, &search_body(code, "q"))]);
        assert_eq!(msgs, vec![DaemonMsg::CSearch { kind, query: "q".to_string() }]);
    }
}

#[test]
fn split_at_every_boundary_gives_same_messages() {
    let mut stream = frame(0x0000, &7u32.to_le_bytes());
    stream.extend_from_slice(&frame(0x0002, &login_body("SHA1", "r", 3)));
    stream.extend_from_slice(&frame(0x0401, &search_body(2, "hello")));
    let whole = feed(&[&stream]);
    assert_eq!(whole.len(), 3);
    for i in 0..=stream.len() {
        for j in i..=stream.len() {
            let got = feed(&[&stream[..i], &stream[i..j], &stream[j..]]);
            assert_eq!(got, whole);
        }
    }
    let bytewise: Vec<&[u8]> = stream.chunks(1).collect();
    assert_eq!(feed(&bytewise), whole);
}

#[test]
fn partial_input_consumes_header_fields_only() {
    let bytes = frame(0x0000, &9u32.to_le_bytes());
    let mut codec = DaemonMsgCodec::new();
    let mut buf = BytesMut::from(bytes[..3].to_vec());
    assert_eq!(codec.decode(&mut buf).unwrap(), None);
    assert_eq!(buf.len(), 3);
    buf.extend_from_slice(&bytes[3..6]);
    assert_eq!(codec.decode(&mut buf).unwrap(), None);
    assert_eq!(buf.len(), 2);
    buf.extend_from_slice(&bytes[6..10]);
    assert_eq!(codec.decode(&mut buf).unwrap(), None);
    assert_eq!(buf.len(), 2);
    buf.extend_from_slice(&bytes[10..]);
    assert_eq!(codec.decode(&mut buf).unwrap(), Some(DaemonMsg::CPing { id: 9 }));
    assert!(buf.is_empty());
}

#[test]
fn unknown_kind_is_skipped_whole() {
    let mut stream = frame(0x9999, &[1, 2, 3, 4, 5]);
    stream.extend_from_slice(&frame(0x0000, &4u32.to_le_bytes()));
    let mut codec = DaemonMsgCodec::new();
    let mut buf = BytesMut::from(stream);
    assert_eq!(codec.decode(&mut buf).unwrap(), None);
    assert_eq!(buf.len(), 12);
    assert_eq!(codec.decode(&mut buf).unwrap(), Some(DaemonMsg::CPing { id: 4 }));
}

#[test]
fn outbound_only_kind_is_skipped() {
    let mut stream = frame(0x0003, &[1, 0, 0, 0, 0]);
    stream.extend_from_slice(&frame(0x0402, &[]));
    let mut codec = DaemonMsgCodec::new();
    let mut buf = BytesMut::from(stream);
    assert_eq!(codec.decode(&mut buf).unwrap(), None);
    assert_eq!(buf.len(), 8);
    assert_eq!(codec.decode(&mut buf).unwrap(), None);
    assert!(buf.is_empty());
}

#[test]
fn string_overrun_is_truncated_error() {
    let mut body = 0u32.to_le_bytes().to_vec();
    body.extend_from_slice(&10u32.to_le_bytes());
    body.extend_from_slice(b"abc");
    let mut codec = DaemonMsgCodec::new();
    let mut buf = BytesMut::from(frame(0x0401, &body));
    assert_eq!(codec.decode(&mut buf), Err(CodecError::Truncated));
    assert!(buf.is_empty());
}

#[test]
fn short_ping_body_is_truncated_error() {
    let mut codec = DaemonMsgCodec::new();
    let mut buf = BytesMut::from(frame(0x0000, &[1, 2]));
    assert_eq!(codec.decode(&mut buf), Err(CodecError::Truncated));
}

#[test]
fn login_missing_mask_is_truncated_error() {
    let mut body = string_field("SHA1");
    body.extend_from_slice(&string_field("x"));
    let mut codec = DaemonMsgCodec::new();
    let mut buf = BytesMut::from(frame(0x0002, &body));
    assert_eq!(codec.decode(&mut buf), Err(CodecError::Truncated));
}

#[test]
fn unknown_algorithm_is_error() {
    let mut codec = DaemonMsgCodec::new();
    let mut buf = BytesMut::from(frame(0x0002, &login_body("sha1", "r", 1)));
    assert_eq!(codec.decode(&mut buf), Err(CodecError::UnknownAlgorithm));
}

#[test]
fn unknown_search_scope_is_error() {
    let mut codec = DaemonMsgCodec::new();
    let mut buf = BytesMut::from(frame(0x0401, &search_body(3, "q")));
    assert_eq!(codec.decode(&mut buf), Err(CodecError::UnknownSearchKind));
}

#[test]
fn total_length_below_four_is_error() {
    let mut codec = DaemonMsgCodec::new();
    let mut buf = BytesMut::from(vec![3u8, 0, 0, 0, 0, 0, 0]);
    assert_eq!(codec.decode(&mut buf), Err(CodecError::FrameTooShort));
    assert_eq!(buf.len(), 3);
}

#[test]
fn invalid_utf8_query_does_not_panic() {
    let mut body = 0u32.to_le_bytes().to_vec();
    body.extend_from_slice(&2u32.to_le_bytes());
    body.extend_from_slice(&[0xff, 0x41]);
    let msgs = feed(&[&frame(0x0401, &body)]);
    assert_eq!(
        msgs,
        vec![DaemonMsg::CSearch { kind: CSearchKind::Global, query: "\u{fffd}A".to_string() }]
    );
}

#[test]
fn string_round_trip_non_ascii() {
    let mut out = Vec::new();
    pack_string("héllo", &mut out);
    assert_eq!(out.len(), 4 + 6);
    assert_eq!(&out[..4], &6u32.to_le_bytes()[..]);
    let (s, next) = read_string(&out, 0).unwrap();
    assert_eq!(s, "héllo");
    assert_eq!(next, 10);
    assert!(read_string(&out[..9], 0).is_none());
}

#[test]
fn algorithm_tokens() {
    assert_eq!(CLoginAlgorithm::Sha1.token(), b"SHA1".to_vec());
    assert_eq!(CLoginAlgorithm::Sha256.token(), b"SHA256".to_vec());
    assert_eq!(CLoginAlgorithm::Md5.token(), b"MD5".to_vec());
    assert_eq!(CLoginAlgorithm::from_token(b"MD5"), Some(CLoginAlgorithm::Md5));
    assert_eq!(CLoginAlgorithm::from_token(b"SHA512"), None);
}

#[test]
fn search_scope_codes() {
    assert_eq!(CSearchKind::Room.code(), 2);
    assert_eq!(CSearchKind::from_code(1), Some(CSearchKind::Buddies));
    assert_eq!(CSearchKind::from_code(3), None);
}

#[test]
fn empty_search_reply_decodes_back_to_empty_lists() {
    let msg = DaemonMsg::SSearchReply {
        token: 1,
        username: "u".to_string(),
        slots_free: false,
        average_speed: 2,
        queue_length: 3,
        results: vec![],
        locked_results: vec![],
    };
    let bytes = encoded(msg.clone());
    let back = parse_search_reply(&bytes[8..]).unwrap();
    assert_eq!(back, msg);
    match back {
        DaemonMsg::SSearchReply { results, locked_results, .. } => {
            assert!(results.is_empty());
            assert!(locked_results.is_empty());
        }
        _ => panic!("not a search reply"),
    }
}

#[test]
fn search_reply_with_entries_decodes_back() {
    let a = FileEntry {
        name: "x.flac".to_string(),
        size: 77,
        extension: "flac".to_string(),
        attributes: vec![(4, 5)],
    };
    let b = FileEntry {
        name: "y".to_string(),
        size: u64::MAX,
        extension: String::new(),
        attributes: vec![],
    };
    let msg = DaemonMsg::SSearchReply {
        token: 42,
        username: "ann".to_string(),
        slots_free: true,
        average_speed: 1000,
        queue_length: 7,
        results: vec![a.clone(), b.clone()],
        locked_results: vec![b],
    };
    let bytes = encoded(msg.clone());
    assert_eq!(parse_search_reply(&bytes[8..]), Some(msg));
    assert_eq!(parse_search_reply(&bytes[8..bytes.len() - 1]), None);
}

#[test]
fn file_entries_read_one_after_another() {
    let a = FileEntry {
        name: "a".to_string(),
        size: 1,
        extension: "b".to_string(),
        attributes: vec![(1, 2), (3, 4)],
    };
    let b = FileEntry { name: "cd".to_string(), size: 2, extension: String::new(), attributes: vec![] };
    let mut out = Vec::new();
    pack_file_entry(&a, &mut out);
    let first_len = out.len();
    pack_file_entry(&b, &mut out);
    let (ra, p) = read_file_entry(&out, 0).unwrap();
    assert_eq!(ra, a);
    assert_eq!(p, first_len);
    let (rb, q) = read_file_entry(&out, p).unwrap();
    assert_eq!(rb, b);
    assert_eq!(q, out.len());
    assert!(read_file_entry(&out[..first_len - 1], 0).is_none());
}

#[test]
fn oversized_attribute_count_is_rejected() {
    let mut out = Vec::new();
    pack_string("n", &mut out);
    out.extend_from_slice(&5u64.to_le_bytes());
    pack_string("e", &mut out);
    out.extend_from_slice(&u32::MAX.to_le_bytes());
    out.extend_from_slice(&[0; 8]);
    assert!(read_file_entry(&out, 0).is_none());
}
