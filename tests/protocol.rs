use justshow::extension::ExtensionRegistry;
use justshow::tracker::{FrameKind, Tracker, TrackerError};
use justshow::wire::{
    decode_error, decode_list_extensions_reply, decode_query_extension,
    decode_query_extension_reply, encode_error, encode_list_extensions, encode_query_extension,
    encode_request, ExtensionInfo, WireError, XError,
};

fn reply(seq: u16, extra_words: u32, total_len: usize) -> Vec<u8> {
    let mut f = vec![0u8; total_len];
    f[0] = 1;
    f[2] = (seq & 0xff) as u8;
    f[3] = (seq >> 8) as u8;
    f[4..8].copy_from_slice(&extra_words.to_le_bytes());
    f
}

fn error_frame(code: u8, seq: u16, bad: u32) -> Vec<u8> {
    encode_error(XError { code, sequence: seq, bad_value: bad, minor_opcode: 0, major_opcode: 20 })
}

fn query_reply(seq: u16, present: bool, major: u8, event: u8, error: u8) -> Vec<u8> {
    let mut f = reply(seq, 0, 32);
    f[8] = present as u8;
    f[9] = major;
    f[10] = event;
    f[11] = error;
    f
}

#[test]
fn request_frames_are_padded_to_four() {
    for n in 0..9usize {
        let body: Vec<u8> = (1..=n as u8).collect();
        let f = encode_request(7, 3, &body).unwrap();
        assert_eq!(f.len() % 4, 0);
        assert_eq!(f.len(), 4 + (n + 3) / 4 * 4);
        assert_eq!(f[0], 7);
        assert_eq!(f[1], 3);
        assert_eq!(u16::from_le_bytes([f[2], f[3]]) as usize * 4, f.len());
        assert_eq!(&f[4..4 + n], &body[..]);
        assert!(f[4 + n..].iter().all(|b| *b == 0));
    }
}

#[test]
fn request_too_long_is_refused() {
    let body = vec![0u8; 262137];
    assert_eq!(encode_request(1, 0, &body), Err(WireError::RequestTooLong));
    let body = vec![0u8; 262136];
    assert_eq!(encode_request(1, 0, &body).unwrap().len(), 262140);
}

#[test]
fn list_extensions_request_bytes() {
    assert_eq!(encode_list_extensions(), vec![99, 0, 1, 0]);
}

#[test]
fn query_extension_request_bytes() {
    let f = encode_query_extension(&b"RANDR".to_vec()).unwrap();
    assert_eq!(f, vec![98, 0, 4, 0, 5, 0, 0, 0, b'R', b'A', b'N', b'D', b'R', 0, 0, 0]);
}

#[test]
fn query_extension_round_trip() {
    for name in [&b""[..], b"X", b"BIG-REQUESTS", b"MIT-SHM"] {
        let f = encode_query_extension(&name.to_vec()).unwrap();
        assert_eq!(decode_query_extension(&f), Some(name.to_vec()));
    }
}

#[test]
fn query_extension_decode_refuses_other_frames() {
    assert_eq!(decode_query_extension(&vec![99, 0, 1, 0]), None);
    assert_eq!(decode_query_extension(&vec![98, 0, 3, 0, 9, 0, 0, 0, 1, 2, 3, 4]), None);
}

#[test]
fn error_frame_round_trip() {
    let e = XError { code: 3, sequence: 0x1234, bad_value: 0xdead_beef, minor_opcode: 0x0102, major_opcode: 42 };
    let f = encode_error(e);
    assert_eq!(f.len(), 32);
    assert_eq!(&f[..11], &[0, 3, 0x34, 0x12, 0xef, 0xbe, 0xad, 0xde, 0x02, 0x01, 42]);
    assert_eq!(decode_error(&f), e);
}

#[test]
fn sequence_numbers_increase_and_wrap() {
    let mut t = Tracker::new();
    assert_eq!(t.next_sequence(), 1);
    assert_eq!(t.send(true), Ok(1));
    assert_eq!(t.send(false), Ok(2));
    assert_eq!(t.send(true), Ok(3));
    for expected in 4..=65535u32 {
        assert_eq!(t.send(false), Ok(expected as u16));
    }
    assert_eq!(t.send(false), Ok(0));
    // sequence 1 still waits: a request that expects a reply cannot reuse it
    assert_eq!(t.send(true), Err(TrackerError::WindowFull));
    assert_eq!(t.next_sequence(), 1);
}

#[test]
fn two_requests_awaited_in_reverse_order() {
    let mut t = Tracker::new();
    let a = t.send(true).unwrap();
    let b = t.send(true).unwrap();
    assert_eq!((a, b), (1, 2));
    assert_eq!(t.take_reply(a), Ok(None));
    let mut ra = reply(a, 1, 36);
    ra[32] = 0xaa;
    let mut rb = reply(b, 0, 32);
    rb[8] = 0xbb;
    assert_eq!(t.handle_frame(ra.clone()), Ok(FrameKind::Reply));
    assert_eq!(t.handle_frame(rb.clone()), Ok(FrameKind::Reply));
    assert_eq!(t.take_reply(b), Ok(Some(rb)));
    assert_eq!(t.take_reply(a), Ok(Some(ra)));
    assert_eq!(t.take_reply(a), Err(TrackerError::NotPending));
}

#[test]
fn error_for_waiting_request_settles_it() {
    let mut t = Tracker::new();
    let a = t.send(true).unwrap();
    assert_eq!(t.handle_frame(error_frame(3, a, 77)), Ok(FrameKind::Error));
    let expected = XError { code: 3, sequence: a, bad_value: 77, minor_opcode: 0, major_opcode: 20 };
    assert_eq!(t.take_reply(a), Err(TrackerError::Protocol(expected)));
    assert!(t.drain_errors().is_empty());
}

#[test]
fn unclaimed_error_is_drained_unchanged() {
    let mut t = Tracker::new();
    let _ = t.send(false).unwrap();
    let f = error_frame(9, 1, 0x0040_0001);
    assert_eq!(t.handle_frame(f.clone()), Ok(FrameKind::Error));
    let errors = t.drain_errors();
    assert_eq!(errors, vec![decode_error(&f)]);
    assert_eq!(errors[0].bad_value, 0x0040_0001);
    assert!(t.drain_errors().is_empty());
}

#[test]
fn events_are_queued() {
    let mut t = Tracker::new();
    let mut ev = vec![0u8; 32];
    ev[0] = 12;
    assert_eq!(t.handle_frame(ev.clone()), Ok(FrameKind::Event));
    assert_eq!(t.drain_events(), vec![ev]);
    let mut short = vec![0u8; 36];
    short[0] = 12;
    assert_eq!(t.handle_frame(short), Err(TrackerError::BadLength));
}

#[test]
fn overlong_reply_breaks_the_stream() {
    let mut t = Tracker::new();
    let a = t.send(true).unwrap();
    // declares one more four-byte unit than the frame holds
    assert_eq!(t.handle_frame(reply(a, 1, 32)), Err(TrackerError::BadLength));
    assert!(t.is_desynchronized());
    assert_eq!(t.handle_frame(reply(a, 0, 32)), Err(TrackerError::Desynchronized));
    assert_eq!(t.send(true), Err(TrackerError::Desynchronized));
}

#[test]
fn truncated_frame_and_unexpected_reply_are_fatal() {
    let mut t = Tracker::new();
    assert_eq!(t.handle_frame(vec![1, 0, 1]), Err(TrackerError::Truncated));
    let mut t = Tracker::new();
    assert_eq!(t.handle_frame(reply(5, 0, 32)), Err(TrackerError::UnexpectedReply));
    assert!(t.is_desynchronized());
}

#[test]
fn extension_answer_is_cached() {
    let mut reg = ExtensionRegistry::new();
    let name = b"RANDR".to_vec();
    assert_eq!(reg.lookup(&name), None);
    let first = reg.record_reply(name.clone(), &query_reply(1, true, 140, 89, 147)).unwrap();
    let d = ExtensionInfo { major_opcode: 140, first_event: 89, first_error: 147 };
    assert_eq!(first, Some(d));
    assert_eq!(reg.lookup(&name), Some(Some(d)));
    assert_eq!(reg.lookup(&name), Some(Some(d)));
    // a later, different answer does not replace the cached one
    assert_eq!(reg.record(name.clone(), None), Some(d));
    assert_eq!(reg.lookup(&name), Some(Some(d)));
}

#[test]
fn absent_extension_is_not_present() {
    let mut reg = ExtensionRegistry::new();
    let name = b"NO-SUCH".to_vec();
    assert_eq!(decode_query_extension_reply(&query_reply(1, false, 0, 0, 0)), Ok(None));
    assert_eq!(reg.record_reply(name.clone(), &query_reply(1, false, 0, 0, 0)), Ok(None));
    assert_eq!(reg.lookup(&name), Some(None));
    assert_eq!(reg.record_reply(name, &vec![0u8; 32]), Err(WireError::Malformed));
}

#[test]
fn listed_extension_resolves_by_query() {
    let mut t = Tracker::new();
    let list = encode_list_extensions();
    assert_eq!(list.len() % 4, 0);
    let token = t.send(true).unwrap();
    // the server lists two extensions
    let mut f = reply(token, 4, 48);
    f[1] = 2;
    let names: &[u8] = b"\x05RANDR\x07MIT-SHM";
    f[32..32 + names.len()].copy_from_slice(names);
    assert_eq!(t.handle_frame(f), Ok(FrameKind::Reply));
    let got = t.take_reply(token).unwrap().unwrap();
    let listed = decode_list_extensions_reply(&got).unwrap();
    assert_eq!(listed, vec![b"RANDR".to_vec(), b"MIT-SHM".to_vec()]);
    // query the first listed name; the answer resolves it
    let q = encode_query_extension(&listed[0]).unwrap();
    assert_eq!(decode_query_extension(&q), Some(listed[0].clone()));
    let token = t.send(true).unwrap();
    assert_eq!(t.handle_frame(query_reply(token, true, 140, 89, 147)), Ok(FrameKind::Reply));
    let answer = t.take_reply(token).unwrap().unwrap();
    let mut reg = ExtensionRegistry::new();
    let d = reg.record_reply(listed[0].clone(), &answer).unwrap();
    assert!(d.is_some());
}

#[test]
fn list_extensions_reply_malformed() {
    let mut f = reply(1, 0, 32);
    f[1] = 1;
    assert_eq!(decode_list_extensions_reply(&f), Err(WireError::Malformed));
    let f = reply(1, 0, 32);
    assert_eq!(decode_list_extensions_reply(&f), Ok(vec![]));
}

use justshow::extension::EventOrigin;

#[test]
fn events_are_attributed_to_queried_extensions() {
    let mut reg = ExtensionRegistry::new();
    let randr = ExtensionInfo { major_opcode: 140, first_event: 89, first_error: 147 };
    let shm = ExtensionInfo { major_opcode: 130, first_event: 65, first_error: 128 };
    reg.record(b"RANDR".to_vec(), Some(randr));
    reg.record(b"NOPE".to_vec(), None);
    reg.record(b"MIT-SHM".to_vec(), Some(shm));
    assert_eq!(reg.len(), 3);
    assert_eq!(reg.name_at(2), &b"MIT-SHM".to_vec());
    assert_eq!(reg.classify_event(2), EventOrigin::Core);
    assert_eq!(reg.classify_event(63), EventOrigin::Core);
    assert_eq!(reg.classify_event(64), EventOrigin::Unrecognized);
    assert_eq!(reg.classify_event(70), EventOrigin::Extension(2));
    assert_eq!(reg.classify_event(90), EventOrigin::Extension(0));
    assert_eq!(reg.classify_event(0x80 | 90), EventOrigin::Extension(0));
    assert_eq!(reg.classify_event(0x80 | 12), EventOrigin::Core);
}

use justshow::extension::ExtensionQuery;
use justshow::tracker::frame_rest;

#[test]
fn extension_without_events_claims_none() {
    let mut reg = ExtensionRegistry::new();
    reg.record(b"BIG-REQUESTS".to_vec(), Some(ExtensionInfo { major_opcode: 133, first_event: 0, first_error: 0 }));
    assert_eq!(reg.classify_event(100), EventOrigin::Unrecognized);
    assert_eq!(reg.classify_error(200), EventOrigin::Unrecognized);
    reg.record(b"RANDR".to_vec(), Some(ExtensionInfo { major_opcode: 140, first_event: 89, first_error: 147 }));
    assert_eq!(reg.classify_error(3), EventOrigin::Core);
    assert_eq!(reg.classify_error(150), EventOrigin::Extension(1));
    assert_eq!(reg.classify_error(130), EventOrigin::Unrecognized);
}

#[test]
fn query_uses_the_cache() {
    let mut reg = ExtensionRegistry::new();
    let name = b"RANDR".to_vec();
    match reg.query(&name).unwrap() {
        ExtensionQuery::Ask(f) => assert_eq!(f, encode_query_extension(&name).unwrap()),
        ExtensionQuery::Cached(_) => panic!("nothing is cached yet"),
    }
    reg.record(name.clone(), None);
    assert!(matches!(reg.query(&name), Ok(ExtensionQuery::Cached(None))));
}

#[test]
fn frame_rest_reads_declared_units() {
    assert_eq!(frame_rest(&reply(1, 3, 32), 10), Ok(12));
    assert_eq!(frame_rest(&reply(1, 11, 32), 10), Err(TrackerError::BadLength));
    assert_eq!(frame_rest(&error_frame(3, 1, 0), 0), Ok(0));
}
