use whistle::capture::{now_ms, timestamp_of, CaptureStore, Header, Traffic, WsMessage};
use whistle::frames::{encode_text_frame, FrameParser, Message};

fn record(id: u64) -> Traffic {
    Traffic::new(id, "http", "GET", "http://x/", "x", "c")
}

fn text_of(m: &Message) -> String {
    String::from_utf8_lossy(&m.payload).into_owned()
}

#[test]
fn capacity_is_enforced_and_newest_first() {
    let mut store = CaptureStore::new(2);
    for _ in 0..3 {
        let id = store.next_id();
        store.upsert(Traffic::new(id, "http", "GET", "http://x/", "x", "c"));
    }
    assert_eq!(store.len(), 2);
    let list = store.list(10);
    assert_eq!(list.len(), 2);
    assert_eq!(list[0].id, 3);
    assert_eq!(list[1].id, 2);
    assert!(store.get(1).is_none());
}

#[test]
fn upsert_updates_existing() {
    let mut store = CaptureStore::new(8);
    let id = store.next_id();
    let mut t = Traffic::new(id, "http", "GET", "http://x/", "x", "c");
    store.upsert(t.clone());
    t.status = Some(200);
    store.upsert(t);
    assert_eq!(store.len(), 1);
    assert_eq!(store.get(id).unwrap().status, Some(200));
}

#[test]
fn store_list_roundtrip() {
    let mut store = CaptureStore::new(100);
    let id = store.next_id();
    store.upsert(Traffic::new(id, "http", "GET", "http://x/", "x", "c"));
    assert_eq!(store.list(10).len(), 1);
}

#[test]
fn update_keeps_the_place() {
    let mut store = CaptureStore::new(3);
    for id in 1..4 {
        store.upsert(record(id));
    }
    let mut t = record(1);
    t.status = Some(404);
    store.upsert(t);
    let ids: Vec<u64> = store.list(9).iter().map(|t| t.id).collect();
    assert_eq!(ids, vec![3, 2, 1]);
    assert_eq!(store.get(1).unwrap().status, Some(404));
    assert_eq!(store.list(2).len(), 2);
    assert_eq!(store.list(0).len(), 0);
}

#[test]
fn store_of_nothing_holds_one() {
    let mut store = CaptureStore::new(0);
    assert!(store.is_empty());
    store.upsert(record(7));
    store.upsert(record(8));
    assert_eq!(store.len(), 1);
    assert_eq!(store.list(5)[0].id, 8);
    store.clear();
    assert!(store.is_empty());
    assert!(store.get(8).is_none());
    assert_eq!(store.next_id(), 1);
    assert_eq!(store.next_id(), 2);
}

#[test]
fn bodies_are_kept_up_to_a_limit() {
    let mut t = record(1);
    t.set_req_body(b"abcdef", 4);
    assert_eq!(t.req_body.as_deref(), Some("abcd"));
    assert_eq!(t.req_body_size, 6);
    t.set_res_body(b"abcdef", 4);
    assert_eq!(t.res_body.as_deref(), Some("abcd"));
    assert!(t.res_body_truncated);
    t.set_res_body(b"abcd", 4);
    assert!(!t.res_body_truncated);
    t.set_res_body(&[0x61, 0xff], 4);
    assert_eq!(t.res_body.as_deref(), Some("a\u{fffd}"));
}

#[test]
fn record_is_copied_whole() {
    let mut t = record(1);
    t.req_headers = vec![Header { name: "a".to_string(), value: "1".to_string() }];
    t.rules = vec!["host://1.1.1.1".to_string()];
    t.push_ws(WsMessage { dir: "send".to_string(), opcode: 1, text: Some("x".to_string()), size: 1 }, 1);
    t.push_ws(WsMessage { dir: "recv".to_string(), opcode: 2, text: None, size: 9 }, 1);
    t.error = Some("e".to_string());
    let c = t.clone();
    assert_eq!(c.req_headers[0].value, "1");
    assert_eq!(c.rules[0], "host://1.1.1.1");
    assert_eq!(c.ws_messages.len(), 1);
    assert_eq!(c.ws_messages[0].text.as_deref(), Some("x"));
    assert_eq!(c.error.as_deref(), Some("e"));
}

#[test]
fn durations_do_not_go_back() {
    let mut t = Traffic::started_at(1, "http", "GET", "http://x/", "x", "c", 100);
    t.finish_at(350);
    assert_eq!(t.duration_ms, Some(250));
    t.finish_at(50);
    assert_eq!(t.duration_ms, Some(0));
    let mut now = record(2);
    assert!(now.start_time > 1_600_000_000_000);
    now.finish();
    assert!(now.duration_ms.unwrap() < 60_000);
}

#[test]
fn clock_before_its_start_reads_zero() {
    assert_eq!(timestamp_of(None), 0);
    assert_eq!(timestamp_of(Some(12)), 12);
    assert_eq!(timestamp_of(Some(18446744073709551616 + 5)), 5);
    assert!(now_ms() > 1_600_000_000_000);
}

#[test]
fn parses_unmasked_text_frame() {
    let mut p = FrameParser::default();
    let frame = encode_text_frame(b"hello", None);
    let msgs: Vec<(u8, String, u64)> =
        p.feed(&frame).iter().map(|m| (m.opcode, text_of(m), m.total)).collect();
    assert_eq!(msgs, vec![(0x1, "hello".to_string(), 5)]);
}

#[test]
fn parses_masked_text_frame() {
    let mut p = FrameParser::default();
    let frame = encode_text_frame(b"world", Some([0x12, 0x34, 0x56, 0x78]));
    let msgs = p.feed(&frame);
    let got = text_of(&msgs[0]);
    assert_eq!(got, "world");
}

#[test]
fn handles_frame_split_across_feeds() {
    let mut p = FrameParser::default();
    let frame = encode_text_frame(b"abcdef", None);
    let mut got: Vec<String> = Vec::new();
    got.extend(p.feed(&frame[..4]).iter().map(text_of));
    assert!(got.is_empty(), "未到齐不应 emit");
    got.extend(p.feed(&frame[4..]).iter().map(text_of));
    assert_eq!(got, vec!["abcdef".to_string()]);
}

#[test]
fn reassembles_fragmented_message() {
    let mut p = FrameParser::default();
    let first = vec![0x01, 0x02, b'a', b'b'];
    let cont = vec![0x80, 0x02, b'c', b'd'];
    let mut got: Vec<String> = Vec::new();
    got.extend(p.feed(&first).iter().map(text_of));
    assert!(got.is_empty());
    got.extend(p.feed(&cont).iter().map(text_of));
    assert_eq!(got, vec!["abcd".to_string()]);
}

#[test]
fn large_frame_is_counted_and_passed_over() {
    let mut p = FrameParser::default();
    let len: u64 = 70_000;
    let mut head = vec![0x82, 127];
    head.extend_from_slice(&len.to_be_bytes());
    let mut msgs = p.feed(&head);
    msgs.extend(p.feed(&vec![7u8; 70_000]));
    msgs.extend(p.feed(&encode_text_frame(b"next", None)));
    let seen: Vec<(u8, usize, u64)> =
        msgs.iter().map(|m| (m.opcode, m.payload.len(), m.total)).collect();
    assert_eq!(seen, vec![(2, 0, 70_000), (1, 4, 4)]);
}

#[test]
fn frame_of_middle_length_is_read() {
    let mut p = FrameParser::default();
    let mut bytes = vec![0x81, 126, 1, 0];
    bytes.extend(vec![b'x'; 256]);
    let msgs = p.feed(&bytes);
    assert_eq!(msgs.len(), 1);
    assert_eq!(msgs[0].total, 256);
    assert_eq!(msgs[0].payload.len(), 256);
}

#[test]
fn control_frames_come_between_fragments() {
    let mut p = FrameParser::default();
    let mut bytes = vec![0x01, 0x01, b'a'];
    bytes.extend([0x89, 0x00]);
    bytes.extend([0x80, 0x01, b'b']);
    let seen: Vec<(u8, String)> = p.feed(&bytes).iter().map(|m| (m.opcode, text_of(m))).collect();
    assert_eq!(seen, vec![(9, String::new()), (1, "ab".to_string())]);
}

#[test]
fn pieces_make_no_difference() {
    let mut bytes = encode_text_frame(b"one", Some([1, 2, 3, 4]));
    bytes.extend(encode_text_frame(b"two", None));
    let mut whole = FrameParser::default();
    let all: Vec<String> = whole.feed(&bytes).iter().map(text_of).collect();
    let mut slow = FrameParser::default();
    let mut got: Vec<String> = Vec::new();
    for b in &bytes {
        got.extend(slow.feed(&[*b]).iter().map(text_of));
    }
    assert_eq!(all, vec!["one".to_string(), "two".to_string()]);
    assert_eq!(got, all);
}

/// A frame of `n` bytes; the first two bytes of its head are given.
fn long_frame(first: u8, n: u64) -> Vec<u8> {
    let mut bytes = vec![first, 127];
    bytes.extend_from_slice(&n.to_be_bytes());
    bytes.extend(vec![b'x'; n as usize]);
    bytes
}

#[test]
fn size_of_a_fragmented_message_is_that_of_all_its_frames() {
    let mut p = FrameParser::default();
    assert!(p.feed(&long_frame(0x01, 65_537)).is_empty());
    let msgs = p.feed(&[0x80, 0x02, b'y', b'z']);
    assert_eq!(msgs.len(), 1);
    assert_eq!((msgs[0].opcode, msgs[0].total), (1, 65_539));
    assert!(msgs[0].payload.is_empty());
    let next = p.feed(&encode_text_frame(b"next", None));
    assert_eq!((next[0].total, text_of(&next[0]).as_str()), (4, "next"));
}

#[test]
fn payload_limit_holds_for_whole_messages() {
    let mut p = FrameParser::default();
    assert!(p.feed(&long_frame(0x02, 40_000)).is_empty());
    let msgs = p.feed(&long_frame(0x80, 40_000));
    assert_eq!((msgs[0].opcode, msgs[0].total), (2, 80_000));
    assert!(msgs[0].payload.is_empty());
    assert!(p.feed(&long_frame(0x02, 30_000)).is_empty());
    let msgs = p.feed(&long_frame(0x80, 30_000));
    assert_eq!((msgs[0].total, msgs[0].payload.len()), (60_000, 60_000));
}

#[test]
fn each_update_is_one_event() {
    let mut store = CaptureStore::new(1);
    let mut t = record(1);
    store.upsert(t.clone());
    t.status = Some(200);
    store.upsert(t);
    store.upsert(record(2));
    let seen: Vec<(u64, Option<u16>)> =
        store.take_events().iter().map(|e| (e.id, e.status)).collect();
    assert_eq!(seen, vec![(1, None), (1, Some(200)), (2, None)]);
    assert!(store.take_events().is_empty());
    store.clear();
    assert!(store.take_events().is_empty());
}
