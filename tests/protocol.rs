use icmpsh::codec::{encode_reply, verify_checksum};
use icmpsh::registry::App;
use icmpsh::session::Entry;

fn marker() -> Vec<u8> {
    let mut m = vec![0u8; 9];
    m.extend_from_slice(b"icmpsh");
    m.extend_from_slice(&[0u8; 9]);
    m
}

fn request(identifier: u16, sequence: u16, payload: &[u8]) -> Vec<u8> {
    let mut raw = vec![8u8, 0, 0, 0];
    raw.extend_from_slice(&identifier.to_be_bytes());
    raw.extend_from_slice(&sequence.to_be_bytes());
    raw.extend_from_slice(payload);
    raw
}

fn marked(text: &[u8]) -> Vec<u8> {
    let mut p = marker();
    p.extend_from_slice(text);
    p
}

fn type_text(app: &mut App, text: &str) {
    for c in text.chars() {
        app.handle_char(c);
    }
}

fn entries(app: &App, idx: usize) -> Vec<(bool, String)> {
    app.recipients()[idx]
        .history()
        .iter()
        .map(|e| match e {
            Entry::Outbound(s) => (true, s.clone()),
            Entry::Inbound(s) => (false, s.clone()),
        })
        .collect()
}

fn peer(s: &str) -> String {
    s.to_string()
}

#[test]
fn foreign_request_is_mirrored() {
    let mut app = App::new();
    let raw = request(0x0102, 0x0304, b"abcdefgh-plain-ping-data");
    let reply = app.process_packet(&peer("10.0.0.1"), &raw).unwrap();
    assert_eq!(reply.len(), raw.len());
    assert_eq!(&reply[4..], &raw[4..]);
    assert_eq!(reply[0], 0);
    assert!(verify_checksum(&reply));
    assert!(app.recipients().is_empty());
}

#[test]
fn foreign_empty_payload_is_mirrored() {
    let mut app = App::new();
    let raw = request(9, 10, b"");
    let reply = app.process_packet(&peer("10.0.0.1"), &raw).unwrap();
    assert_eq!(reply, encode_reply(9, 10, b""));
    assert!(app.recipients().is_empty());
}

#[test]
fn non_request_gets_no_reply() {
    let mut app = App::new();
    let mut raw = request(1, 1, &marker());
    raw[0] = 0;
    assert!(app.process_packet(&peer("10.0.0.1"), &raw).is_none());
    assert!(app.process_packet(&peer("10.0.0.1"), &[8, 0, 0]).is_none());
    assert!(app.recipients().is_empty());
}

#[test]
fn marked_reply_keeps_identifier_and_sequence() {
    let mut app = App::new();
    let raw = request(0xaaaa, 0x5555, &marker());
    let reply = app.process_packet(&peer("10.0.0.2"), &raw).unwrap();
    assert_eq!(&reply[4..8], &raw[4..8]);
    assert_eq!(reply, encode_reply(0xaaaa, 0x5555, &marker()));
}

#[test]
fn probe_is_idempotent() {
    let mut app = App::new();
    let raw = request(5, 6, &marker());
    for _ in 0..5 {
        let reply = app.process_packet(&peer("10.0.0.3"), &raw).unwrap();
        assert_eq!(&reply[8..], &marker()[..]);
        assert_eq!(app.recipients().len(), 1);
        assert!(!app.recipients()[0].is_blocked());
        assert!(app.recipients()[0].history().is_empty());
    }
}

#[test]
fn submit_then_reply_state_machine() {
    let mut app = App::new();
    let p = peer("192.0.2.7");
    app.process_packet(&p, &request(1, 1, &marker())).unwrap();
    type_text(&mut app, "ls");
    app.submit_message();
    assert!(app.recipients()[0].is_blocked());
    assert_eq!(app.input(), "");
    let reply = app.process_packet(&p, &request(1, 2, &marker())).unwrap();
    assert_eq!(reply[8..].to_vec(), marked(b"ls"));
    let reply = app.process_packet(&p, &request(1, 3, &marked(b"file1\nfile2"))).unwrap();
    assert_eq!(reply[8..].to_vec(), marker());
    assert!(!app.recipients()[0].is_blocked());
    let reply = app.process_packet(&p, &request(1, 4, &marker())).unwrap();
    assert_eq!(reply[8..].to_vec(), marker());
    assert_eq!(
        entries(&app, 0),
        vec![(true, "ls".to_string()), (false, "file1\nfile2".to_string())]
    );
}

#[test]
fn new_peer_is_appended() {
    let mut app = App::new();
    app.process_packet(&peer("198.51.100.1"), &request(1, 1, &marker())).unwrap();
    app.process_packet(&peer("198.51.100.2"), &request(1, 1, &marker())).unwrap();
    app.process_packet(&peer("203.0.113.5"), &request(1, 1, &marked(b"hi"))).unwrap();
    let labels: Vec<String> = app.recipients().iter().map(|r| r.label().clone()).collect();
    assert_eq!(labels, vec!["198.51.100.1", "198.51.100.2", "203.0.113.5"]);
    let r = &app.recipients()[2];
    assert!(!r.is_blocked());
    app.process_packet(&peer("203.0.113.5"), &request(1, 2, &marker())).unwrap();
    assert_eq!(app.recipients().len(), 3);
}

#[test]
fn new_peer_probe_starts_idle_and_empty() {
    let mut app = App::new();
    app.process_packet(&peer("198.51.100.1"), &request(1, 1, &marker())).unwrap();
    app.process_packet(&peer("203.0.113.5"), &request(1, 1, &marker())).unwrap();
    assert_eq!(app.recipients().len(), 2);
    let r = &app.recipients()[1];
    assert_eq!(r.label(), "203.0.113.5");
    assert!(!r.is_blocked());
    assert!(r.history().is_empty());
}

#[test]
fn submit_and_message_both_recorded() {
    let p = peer("10.1.1.1");
    // operator first
    let mut app = App::new();
    app.process_packet(&p, &request(1, 1, &marker())).unwrap();
    type_text(&mut app, "whoami");
    app.submit_message();
    app.process_packet(&p, &request(1, 2, &marked(b"root"))).unwrap();
    assert_eq!(
        entries(&app, 0),
        vec![(true, "whoami".to_string()), (false, "root".to_string())]
    );
    assert!(!app.recipients()[0].is_blocked());
    // peer first
    let mut app = App::new();
    app.process_packet(&p, &request(1, 1, &marker())).unwrap();
    app.process_packet(&p, &request(1, 2, &marked(b"hello"))).unwrap();
    type_text(&mut app, "id");
    app.submit_message();
    assert_eq!(
        entries(&app, 0),
        vec![(false, "hello".to_string()), (true, "id".to_string())]
    );
    assert!(app.recipients()[0].is_blocked());
}

#[test]
fn invalid_utf8_changes_nothing() {
    let mut app = App::new();
    let p = peer("10.2.2.2");
    app.process_packet(&p, &request(1, 1, &marker())).unwrap();
    type_text(&mut app, "pwd");
    app.submit_message();
    let reply = app.process_packet(&p, &request(1, 2, &marked(&[0xff, 0xfe]))).unwrap();
    assert_eq!(reply[8..].to_vec(), marked(b"pwd"));
    assert!(app.recipients()[0].is_blocked());
    assert_eq!(entries(&app, 0), vec![(true, "pwd".to_string())]);
}

#[test]
fn invalid_utf8_from_new_peer_still_replies() {
    let mut app = App::new();
    let reply = app
        .process_packet(&peer("10.2.2.3"), &request(4, 4, &marked(&[0xff, 0xfe])))
        .unwrap();
    assert_eq!(reply, encode_reply(4, 4, &marker()));
    assert!(app.recipients()[0].history().is_empty());
}

#[test]
fn queued_text_encoded_as_utf8() {
    let mut app = App::new();
    let p = peer("10.3.3.3");
    app.process_packet(&p, &request(1, 1, &marker())).unwrap();
    type_text(&mut app, "éç");
    app.submit_message();
    let reply = app.process_packet(&p, &request(1, 2, &marker())).unwrap();
    assert_eq!(reply[8..].to_vec(), marked("éç".as_bytes()));
}

#[test]
fn oversized_reply_is_not_built() {
    let mut app = App::new();
    let p = peer("10.4.4.4");
    app.process_packet(&p, &request(1, 1, &marker())).unwrap();
    type_text(&mut app, &"a".repeat(65504));
    app.submit_message();
    assert!(app.process_packet(&p, &request(1, 2, &marker())).is_none());
    let mut app = App::new();
    app.process_packet(&p, &request(1, 1, &marker())).unwrap();
    type_text(&mut app, &"a".repeat(65503));
    app.submit_message();
    let reply = app.process_packet(&p, &request(1, 2, &marker())).unwrap();
    assert_eq!(reply.len(), 65535);
    assert!(verify_checksum(&reply));
}

#[test]
fn oversized_foreign_request_gets_no_reply() {
    let mut app = App::new();
    let raw = request(1, 1, &vec![1u8; 65528]);
    assert!(app.process_packet(&peer("10.4.4.5"), &raw).is_none());
}
