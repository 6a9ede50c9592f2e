//! The WebSocket session rules: the echo/command session's
//! request-and-reply loop, its termination, and the heartbeat frame.

use valkeyhttp::store::Store;
use valkeyhttp::translate::{echo_reply, health_frame, EchoSession, Frame, HealthSession};

#[test]
fn ping_frame_answers_pong_in_any_case() {
    let mut store = Store::new();
    assert_eq!(echo_reply(&mut store, "ping"), "PONG");
    assert_eq!(echo_reply(&mut store, "PING"), "PONG");
    assert_eq!(echo_reply(&mut store, "PiNg"), "PONG");
}

#[test]
fn command_frames_round_trip_through_the_translator() {
    let mut store = Store::new();
    assert_eq!(echo_reply(&mut store, "set a 1"), "{\"code\":\"Ok\",\"data\":null}");
    assert_eq!(echo_reply(&mut store, "get a"), "{\"code\":\"Ok\",\"data\":\"1\"}");
}

#[test]
fn bad_command_frames_answer_the_failure_shape() {
    let mut store = Store::new();
    assert_eq!(echo_reply(&mut store, "flush all"), "{\"code\":\"Err\",\"data\":null}");
    assert_eq!(echo_reply(&mut store, "set a"), "{\"code\":\"Err\",\"data\":null}");
}

#[test]
fn session_replies_in_order_and_stays_open_on_text() {
    let mut store = Store::new();
    let mut session = EchoSession::new();
    let out = session.step(&mut store, &Frame::Text("set a 1".to_string()));
    assert_eq!(out.as_deref(), Some("{\"code\":\"Ok\",\"data\":null}"));
    let out = session.step(&mut store, &Frame::Text("get a".to_string()));
    assert_eq!(out.as_deref(), Some("{\"code\":\"Ok\",\"data\":\"1\"}"));
    assert!(session.open);
}

#[test]
fn binary_frame_closes_the_session() {
    let mut store = Store::new();
    let mut session = EchoSession::new();
    let out = session.step(&mut store, &Frame::Binary);
    assert_eq!(out, None);
    assert!(!session.open);
    let out = session.step(&mut store, &Frame::Text("get a".to_string()));
    assert_eq!(out, None);
    assert!(!session.open);
}

#[test]
fn closed_receive_ends_the_session() {
    let mut store = Store::new();
    let mut session = EchoSession::new();
    let out = session.step(&mut store, &Frame::Closed);
    assert_eq!(out, None);
    assert!(!session.open);
}

#[test]
fn heartbeat_frame_is_ping() {
    assert_eq!(health_frame(), "PING");
}

#[test]
fn heartbeat_session_emits_until_a_send_fails() {
    let mut session = HealthSession::new();
    assert_eq!(session.frame().as_deref(), Some("PING"));
    session.note_send(true);
    assert_eq!(session.frame().as_deref(), Some("PING"));
    session.note_send(false);
    assert!(!session.open);
    assert_eq!(session.frame(), None);
    session.note_send(true);
    assert_eq!(session.frame(), None);
}
