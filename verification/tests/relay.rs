use neolink::broadcast::broadcast;
use neolink::codec::encode_message;
use neolink::config::connection_string;
use neolink::decode::decode_message;
use neolink::gateway::{
    accept_connection, authenticate, on_frame_event, AcceptError, AuthError, FrameEvent,
    LoopAction,
};
use neolink::message::Message;
use neolink::overlay::{on_overlay_event, NodeSwarm, OverlayEvent, PingOutcome, Surfaced};
use neolink::registry::{Registry, RegistryError};

fn msg(id: &str, content: &str, sender: &str, node_id: &str, timestamp: i64) -> Message {
    Message {
        id: id.to_string(),
        content: content.to_string(),
        sender: sender.to_string(),
        node_id: node_id.to_string(),
        timestamp,
    }
}

const FRAME_A: &str =
    "{\"id\":\"1\",\"content\":\"hi\",\"sender\":\"alice\",\"node_id\":\"n1\",\"timestamp\":1000}";

#[test]
fn encode_canonical_frame() {
    let m = msg("1", "hi", "alice", "n1", 1000);
    assert_eq!(encode_message(&m), FRAME_A);
}

#[test]
fn decode_canonical_frame() {
    let m = decode_message(FRAME_A).unwrap();
    assert_eq!(m.id, "1");
    assert_eq!(m.content, "hi");
    assert_eq!(m.sender, "alice");
    assert_eq!(m.node_id, "n1");
    assert_eq!(m.timestamp, 1000);
}

#[test]
fn round_trip_plain() {
    let m = msg("abc", "hello world", "bob", "node-7", 1700000000123);
    let d = decode_message(&encode_message(&m)).unwrap();
    assert_eq!(d.id, m.id);
    assert_eq!(d.content, m.content);
    assert_eq!(d.sender, m.sender);
    assert_eq!(d.node_id, m.node_id);
    assert_eq!(d.timestamp, m.timestamp);
}

#[test]
fn round_trip_escapes_and_sign() {
    let m = msg("a\"b", "back\\slash \"quoted\"", "", "n\\\"x", -42);
    let e = encode_message(&m);
    let d = decode_message(&e).unwrap();
    assert_eq!(d.id, m.id);
    assert_eq!(d.content, m.content);
    assert_eq!(d.sender, m.sender);
    assert_eq!(d.node_id, m.node_id);
    assert_eq!(d.timestamp, m.timestamp);
}

#[test]
fn round_trip_control_characters() {
    let m = msg("a\u{1}b", "hi\nthere\ttab\u{8}\u{c}\r", "nul\u{0}", "n\u{1f}", 7);
    let e = encode_message(&m);
    assert!(!e.contains(|c: char| (c as u32) < 0x20));
    let d = decode_message(&e).unwrap();
    assert_eq!(d.id, m.id);
    assert_eq!(d.content, m.content);
    assert_eq!(d.sender, m.sender);
    assert_eq!(d.node_id, m.node_id);
}

#[test]
fn encode_escapes_control_characters() {
    let m = msg("1", "a\nb\u{1}", "s", "n", 0);
    assert_eq!(
        encode_message(&m),
        "{\"id\":\"1\",\"content\":\"a\\nb\\u0001\",\"sender\":\"s\",\"node_id\":\"n\",\"timestamp\":0}"
    );
}

#[test]
fn decode_accepts_whitespace_and_any_field_order() {
    let frame = "{ \"timestamp\": 1000 ,\n\t\"sender\": \"alice\", \"node_id\": \"n1\", \"content\": \"hi\", \"id\": \"1\" }  ";
    let m = decode_message(frame).unwrap();
    assert_eq!(m.id, "1");
    assert_eq!(m.content, "hi");
    assert_eq!(m.sender, "alice");
    assert_eq!(m.node_id, "n1");
    assert_eq!(m.timestamp, 1000);
}

#[test]
fn decode_skips_unknown_members() {
    let frame = "{\"extra\": {\"x\": [1, -2.5e3, true, null, \"s[]\"], \"y\": false}, \"id\":\"1\",\"content\":\"hi\",\"sender\":\"alice\",\"node_id\":\"n1\",\"timestamp\":1000,\"more\":\"z\"}";
    let m = decode_message(frame).unwrap();
    assert_eq!(m.content, "hi");
    assert_eq!(m.timestamp, 1000);
}

#[test]
fn decode_reads_full_escape_set() {
    let frame = "{\"id\":\"\\u0041\\b\\f\\/\",\"content\":\"\\uD83D\\uDE00\",\"sender\":\"a\",\"node_id\":\"n\",\"timestamp\":1}";
    let m = decode_message(frame).unwrap();
    assert_eq!(m.id, "A\u{8}\u{c}/");
    assert_eq!(m.content, "\u{1F600}");
}

#[test]
fn decode_rejects_bad_json_details() {
    let cases = [
        // duplicate field
        "{\"id\":\"1\",\"id\":\"2\",\"content\":\"hi\",\"sender\":\"a\",\"node_id\":\"n\",\"timestamp\":1}",
        // trailing comma
        "{\"id\":\"1\",\"content\":\"hi\",\"sender\":\"a\",\"node_id\":\"n\",\"timestamp\":1,}",
        // leading zero
        "{\"id\":\"1\",\"content\":\"hi\",\"sender\":\"a\",\"node_id\":\"n\",\"timestamp\":01}",
        // fractional timestamp
        "{\"id\":\"1\",\"content\":\"hi\",\"sender\":\"a\",\"node_id\":\"n\",\"timestamp\":10.5}",
        // exponent timestamp
        "{\"id\":\"1\",\"content\":\"hi\",\"sender\":\"a\",\"node_id\":\"n\",\"timestamp\":1e3}",
        // raw control character inside a string
        "{\"id\":\"a\u{1}b\",\"content\":\"hi\",\"sender\":\"a\",\"node_id\":\"n\",\"timestamp\":1}",
        // lone high surrogate
        "{\"id\":\"\\uD83D\",\"content\":\"hi\",\"sender\":\"a\",\"node_id\":\"n\",\"timestamp\":1}",
    ];
    for c in cases {
        assert!(decode_message(c).is_err(), "accepted: {}", c);
    }
}

#[test]
fn round_trip_timestamp_extremes() {
    for t in [i64::MIN, i64::MAX, 0, -1] {
        let m = msg("x", "y", "z", "w", t);
        let d = decode_message(&encode_message(&m)).unwrap();
        assert_eq!(d.timestamp, t);
    }
}

#[test]
fn decode_rejects_malformed() {
    let cases = [
        "",
        "not json",
        "{}",
        "{\"id\":\"1\"}",
        "{\"id\":\"1\",\"content\":\"hi\",\"sender\":\"alice\",\"node_id\":\"n1\",\"timestamp\":}",
        "{\"id\":\"1\",\"content\":\"hi\",\"sender\":\"alice\",\"node_id\":\"n1\",\"timestamp\":1000",
        "{\"id\":\"1\",\"content\":\"hi\",\"sender\":\"alice\",\"node_id\":\"n1\",\"timestamp\":1000}x",
        "{\"id\":\"1\",\"content\":\"hi\",\"sender\":\"alice\",\"node_id\":\"n1\",\"timestamp\":99999999999999999999}",
        "{\"id\":1,\"content\":\"hi\",\"sender\":\"alice\",\"node_id\":\"n1\",\"timestamp\":1000}",
    ];
    for c in cases {
        assert!(decode_message(c).is_err(), "accepted: {}", c);
    }
}

#[test]
fn registry_register_and_len() {
    let mut r: Registry<u64> = Registry::new();
    assert_eq!(r.len(), 0);
    assert!(r.register(1, 10).is_ok());
    assert!(r.register(2, 20).is_ok());
    assert_eq!(r.len(), 2);
    assert_eq!(r.get(1), Some(10));
    assert_eq!(r.get(2), Some(20));
    assert_eq!(r.get(3), None);
}

#[test]
fn registry_duplicate_is_conflict() {
    let mut r: Registry<u64> = Registry::new();
    assert!(r.register(1, 10).is_ok());
    assert_eq!(r.register(1, 11), Err(RegistryError::DuplicateId));
    assert_eq!(r.len(), 1);
    assert_eq!(r.get(1), Some(10));
}

#[test]
fn unregister_removes_exactly_one() {
    let mut r: Registry<u64> = Registry::new();
    assert!(r.register(1, 10).is_ok());
    assert!(r.register(2, 20).is_ok());
    assert!(r.register(3, 30).is_ok());
    assert!(r.unregister(2));
    assert_eq!(r.len(), 2);
    assert_eq!(r.get(1), Some(10));
    assert_eq!(r.get(2), None);
    assert_eq!(r.get(3), Some(30));
}

#[test]
fn unregister_is_idempotent() {
    let mut r: Registry<u64> = Registry::new();
    assert!(r.register(1, 10).is_ok());
    assert!(r.unregister(1));
    assert!(!r.unregister(1));
    assert_eq!(r.len(), 0);
}

#[test]
fn registry_tracks_connect_disconnect_history() {
    let mut r: Registry<u64> = Registry::new();
    let mut live = 0usize;
    for id in 0..8u128 {
        assert!(r.register(id, id as u64).is_ok());
        live += 1;
        assert_eq!(r.len(), live);
    }
    for id in [1u128, 3, 5] {
        assert!(r.unregister(id));
        live -= 1;
        assert_eq!(r.len(), live);
    }
    assert!(r.register(100, 0).is_ok());
    assert_eq!(r.len(), live + 1);
}

#[test]
fn broadcast_reaches_every_registered_connection() {
    let mut r: Registry<u64> = Registry::new();
    assert!(r.register(1, 10).is_ok());
    assert!(r.register(2, 20).is_ok());
    assert!(r.register(3, 30).is_ok());
    let m = decode_message(FRAME_A).unwrap();
    let plan = broadcast(&r, &m);
    assert_eq!(plan.len(), 3);
    let mut channels: Vec<u64> = plan.iter().map(|d| d.channel).collect();
    channels.sort();
    assert_eq!(channels, vec![10, 20, 30]);
    for d in &plan {
        assert_eq!(d.payload, FRAME_A);
    }
}

#[test]
fn broadcast_with_no_connections_is_empty() {
    let r: Registry<u64> = Registry::new();
    let m = msg("1", "hi", "alice", "n1", 1000);
    assert!(broadcast(&r, &m).is_empty());
}

#[test]
fn missing_token_is_rejected() {
    assert_eq!(
        authenticate(None).map(|i| i.token),
        Err(AuthError::MissingToken)
    );
    assert_eq!(
        authenticate(Some("Bearer abc".to_string())).map(|i| i.token),
        Ok("Bearer abc".to_string())
    );
}

#[test]
fn rejected_connection_never_registered() {
    let mut r: Registry<u64> = Registry::new();
    let res = accept_connection(&mut r, None, 10);
    assert_eq!(res, Err(AcceptError::Auth(AuthError::MissingToken)));
    assert_eq!(r.len(), 0);
}

#[test]
fn admitted_connections_get_fresh_ids() {
    let mut r: Registry<u64> = Registry::new();
    let a = accept_connection(&mut r, Some("t1".to_string()), 10).unwrap();
    let b = accept_connection(&mut r, Some("t2".to_string()), 20).unwrap();
    assert_ne!(a, b);
    assert_eq!(r.len(), 2);
    assert_eq!(r.get(a), Some(10));
    assert_eq!(r.get(b), Some(20));
}

#[test]
fn valid_frame_is_broadcast() {
    match on_frame_event(FrameEvent::Text(FRAME_A.to_string())) {
        LoopAction::Broadcast(m) => {
            assert_eq!(m.sender, "alice");
            assert_eq!(m.timestamp, 1000);
        }
        _ => panic!("expected a broadcast"),
    }
}

#[test]
fn malformed_frame_is_dropped_not_fatal() {
    assert!(matches!(
        on_frame_event(FrameEvent::Text("{oops".to_string())),
        LoopAction::Ignore
    ));
    assert!(matches!(
        on_frame_event(FrameEvent::NonText),
        LoopAction::Ignore
    ));
}

#[test]
fn transport_error_ends_the_loop() {
    assert!(matches!(
        on_frame_event(FrameEvent::TransportError),
        LoopAction::Disconnect
    ));
}

#[test]
fn overlay_records_liveness_per_peer() {
    let mut s = NodeSwarm::new();
    assert_eq!(
        on_overlay_event(&mut s, OverlayEvent::PingResult(1, PingOutcome::Success(5))),
        Surfaced::Liveness
    );
    assert_eq!(
        on_overlay_event(&mut s, OverlayEvent::PingResult(2, PingOutcome::Success(9))),
        Surfaced::Liveness
    );
    // An unreachable peer records a failure without halting the loop or
    // touching other peers' results.
    assert_eq!(
        on_overlay_event(&mut s, OverlayEvent::PingResult(2, PingOutcome::Failure)),
        Surfaced::Liveness
    );
    assert_eq!(s.peer_status(1), Some(PingOutcome::Success(5)));
    assert_eq!(s.peer_status(2), Some(PingOutcome::Failure));
    assert_eq!(s.peer_count(), 2);
    // The loop keeps handling events afterwards.
    assert_eq!(
        on_overlay_event(&mut s, OverlayEvent::PingResult(3, PingOutcome::Success(1))),
        Surfaced::Liveness
    );
    assert_eq!(s.peer_count(), 3);
}

#[test]
fn overlay_records_listen_addrs_and_surfaces_diagnostics() {
    let mut s = NodeSwarm::new();
    assert_eq!(s.listen_addr_count(), 0);
    assert_eq!(
        on_overlay_event(&mut s, OverlayEvent::NewListenAddr("/ip4/127.0.0.1/tcp/4001".to_string())),
        Surfaced::ListenAddr
    );
    assert_eq!(s.listen_addr_count(), 1);
    assert_eq!(on_overlay_event(&mut s, OverlayEvent::Other), Surfaced::Diagnostic);
    assert_eq!(s.listen_addr_count(), 1);
    assert_eq!(s.peer_count(), 0);
}

#[test]
fn connection_string_is_exact() {
    assert_eq!(
        connection_string("localhost", "5432", "postgres", "secret", "neolink"),
        "host=localhost port=5432 user=postgres password=secret dbname=neolink"
    );
}
