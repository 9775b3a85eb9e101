use lsp_session::codec::encode_frame;
use lsp_session::msg::{Message, Outcome, RequestId};
use lsp_session::session::{DispatchStep, SendError, Session, SessionState, MALFORMED_LIMIT};
use lsp_session::table::{PendingTable, TableError};

fn val(text: &str) -> serde_json::Value {
    serde_json::from_str(text).expect("test value must be valid JSON")
}

fn running_session() -> Session<u32> {
    let mut s: Session<u32> = Session::new();
    assert_eq!(s.state(), SessionState::Starting);
    s.activate();
    assert_eq!(s.state(), SessionState::Running);
    s
}

fn response_frame(id: u64, result: &str) -> Vec<u8> {
    let body = format!("{{\"jsonrpc\":\"2.0\",\"id\":{},\"result\":{}}}", id, result);
    encode_frame(&body.into_bytes())
}

fn step_kind<T>(s: &DispatchStep<T>) -> &'static str {
    match s {
        DispatchStep::Idle => "Idle",
        DispatchStep::Completed { .. } => "Completed",
        DispatchStep::Incoming { .. } => "Incoming",
        DispatchStep::UnknownIdentifier { .. } => "UnknownIdentifier",
        DispatchStep::Malformed => "Malformed",
        DispatchStep::Corrupted { .. } => "Corrupted",
    }
}

#[test]
fn send_before_running_is_refused() {
    let mut s: Session<u32> = Session::new();
    assert!(matches!(
        s.send_request("initialize", None, 1),
        Err(SendError::SessionNotReady)
    ));
    assert!(matches!(
        s.send_notification("initialized", None),
        Err(SendError::SessionNotReady)
    ));
    assert_eq!(s.pending_count(), 0);
}

#[test]
fn send_after_terminate_is_refused() {
    let mut s = running_session();
    let drained = s.terminate();
    assert!(drained.is_empty());
    assert_eq!(s.state(), SessionState::Terminated);
    assert!(matches!(
        s.send_request("m", None, 1),
        Err(SendError::SessionNotReady)
    ));
}

#[test]
fn send_while_draining_is_refused() {
    let mut s = running_session();
    s.begin_drain();
    assert_eq!(s.state(), SessionState::Draining);
    assert!(matches!(
        s.send_notification("m", None),
        Err(SendError::SessionNotReady)
    ));
}

#[test]
fn request_identifiers_increase() {
    let mut s = running_session();
    let (id1, _) = s.send_request("a", None, 10).expect("send must succeed");
    let (id2, _) = s.send_request("b", None, 20).expect("send must succeed");
    let (id3, _) = s.send_request("c", None, 30).expect("send must succeed");
    assert_eq!((id1, id2, id3), (1, 2, 3));
    assert_eq!(s.pending_count(), 3);
}

#[test]
fn request_frame_carries_method_and_params() {
    let mut s = running_session();
    let (id, frame) = s
        .send_request("initialize", Some(val("{\"p\":1}")), 0)
        .expect("send must succeed");
    let body = format!(
        "{{\"jsonrpc\":\"2.0\",\"id\":{},\"method\":\"initialize\",\"params\":{{\"p\":1}}}}",
        id
    );
    let expected = format!("Content-Length: {}\r\n\r\n{}", body.len(), body);
    assert_eq!(frame, expected.into_bytes());
}

#[test]
fn notification_frame_has_no_id() {
    let mut s = running_session();
    let frame = s
        .send_notification("initialized", Some(val("{}")))
        .expect("send must succeed");
    let text = String::from_utf8(frame).expect("frame is UTF-8");
    assert!(text.ends_with("{\"jsonrpc\":\"2.0\",\"method\":\"initialized\",\"params\":{}}"));
    assert!(!text.contains("\"id\""));
    assert_eq!(s.pending_count(), 0);
}

#[test]
fn each_request_completes_with_its_own_response() {
    let mut s = running_session();
    let (id1, _) = s.send_request("alpha", None, 100).expect("send must succeed");
    let (id2, _) = s.send_request("beta", None, 200).expect("send must succeed");
    // responses arrive in the reverse order
    s.feed(&response_frame(id2, "\"second\""));
    s.feed(&response_frame(id1, "\"first\""));
    match s.step() {
        DispatchStep::Completed { entry, outcome } => {
            assert_eq!(entry.id, id2);
            assert_eq!(entry.method, "beta");
            assert_eq!(entry.handle, 200);
            match outcome {
                Outcome::Success(v) => assert_eq!(v, val("\"second\"")),
                Outcome::Failure(_) => panic!("success decoded as failure"),
            }
        }
        other => panic!("expected completion, got {}", step_kind(&other)),
    }
    match s.step() {
        DispatchStep::Completed { entry, .. } => {
            assert_eq!(entry.id, id1);
            assert_eq!(entry.method, "alpha");
            assert_eq!(entry.handle, 100);
        }
        other => panic!("expected completion, got {}", step_kind(&other)),
    }
    assert_eq!(s.pending_count(), 0);
}

#[test]
fn second_response_for_same_identifier_is_unknown() {
    let mut s = running_session();
    let (id, _) = s.send_request("a", None, 1).expect("send must succeed");
    s.feed(&response_frame(id, "1"));
    s.feed(&response_frame(id, "2"));
    assert!(matches!(s.step(), DispatchStep::Completed { .. }));
    match s.step() {
        DispatchStep::UnknownIdentifier { id: got } => {
            assert!(matches!(got, RequestId::Num(n) if n == id));
        }
        other => panic!("expected unknown identifier, got {}", step_kind(&other)),
    }
    assert_eq!(s.state(), SessionState::Running);
}

#[test]
fn unknown_identifier_is_reported_and_loop_survives() {
    let mut s = running_session();
    let (id, _) = s.send_request("a", None, 7).expect("send must succeed");
    s.feed(&response_frame(99, "null"));
    s.feed(&response_frame(id, "null"));
    match s.step() {
        DispatchStep::UnknownIdentifier { id: got } => {
            assert!(matches!(got, RequestId::Num(99)));
        }
        other => panic!("expected unknown identifier, got {}", step_kind(&other)),
    }
    assert_eq!(s.state(), SessionState::Running);
    assert_eq!(s.pending_count(), 1);
    match s.step() {
        DispatchStep::Completed { entry, .. } => assert_eq!(entry.handle, 7),
        other => panic!("expected completion, got {}", step_kind(&other)),
    }
}

#[test]
fn string_identifier_response_is_unknown() {
    let mut s = running_session();
    let _ = s.send_request("a", None, 1).expect("send must succeed");
    let body = b"{\"jsonrpc\":\"2.0\",\"id\":\"srv-1\",\"result\":null}".to_vec();
    s.feed(&encode_frame(&body));
    match s.step() {
        DispatchStep::UnknownIdentifier { id } => match id {
            RequestId::Text(t) => assert_eq!(t, "srv-1"),
            RequestId::Num(_) => panic!("string identifier read as a number"),
        },
        other => panic!("expected unknown identifier, got {}", step_kind(&other)),
    }
}

#[test]
fn stream_end_fails_three_pending_requests() {
    let mut s = running_session();
    let (id1, _) = s.send_request("a", None, 11).expect("send must succeed");
    let (id2, _) = s.send_request("b", None, 22).expect("send must succeed");
    let (id3, _) = s.send_request("c", None, 33).expect("send must succeed");
    let abandoned = s.terminate();
    assert_eq!(s.state(), SessionState::Terminated);
    assert_eq!(s.pending_count(), 0);
    let ids: Vec<u64> = abandoned.iter().map(|e| e.id).collect();
    let handles: Vec<u32> = abandoned.iter().map(|e| e.handle).collect();
    assert_eq!(ids, vec![id1, id2, id3]);
    assert_eq!(handles, vec![11, 22, 33]);
}

#[test]
fn notification_between_request_and_response_does_not_interfere() {
    let mut s = running_session();
    let (id, req_frame) = s
        .send_request("initialize", Some(val("{}")), 5)
        .expect("send must succeed");
    let note_frame = s
        .send_notification("textDocument/didOpen", Some(val("{\"textDocument\":{}}")))
        .expect("send must succeed");
    assert!(!req_frame.is_empty() && !note_frame.is_empty());
    assert_eq!(s.pending_count(), 1);
    s.feed(&response_frame(id, "{\"capabilities\":{}}"));
    match s.step() {
        DispatchStep::Completed { entry, outcome } => {
            assert_eq!(entry.id, id);
            assert_eq!(entry.method, "initialize");
            assert_eq!(entry.handle, 5);
            match outcome {
                Outcome::Success(v) => assert_eq!(v, val("{\"capabilities\":{}}")),
                Outcome::Failure(_) => panic!("success decoded as failure"),
            }
        }
        other => panic!("expected completion, got {}", step_kind(&other)),
    }
    assert_eq!(s.pending_count(), 0);
}

#[test]
fn server_error_response_is_surfaced_verbatim() {
    let mut s = running_session();
    let (id, _) = s.send_request("m", None, 1).expect("send must succeed");
    let body = format!(
        "{{\"jsonrpc\":\"2.0\",\"id\":{},\"error\":{{\"code\":-32000,\"message\":\"boom\"}}}}",
        id
    );
    s.feed(&encode_frame(&body.into_bytes()));
    match s.step() {
        DispatchStep::Completed { outcome, .. } => match outcome {
            Outcome::Failure(e) => {
                assert_eq!(e.code, -32000);
                assert_eq!(e.message, "boom");
                assert_eq!(e.data, None);
            }
            Outcome::Success(_) => panic!("error response decoded as success"),
        },
        other => panic!("expected completion, got {}", step_kind(&other)),
    }
}

#[test]
fn server_notification_is_handed_to_the_handler() {
    let mut s = running_session();
    let body = b"{\"jsonrpc\":\"2.0\",\"method\":\"window/logMessage\",\"params\":{\"type\":3}}"
        .to_vec();
    s.feed(&encode_frame(&body));
    match s.step() {
        DispatchStep::Incoming { message } => match message {
            Message::Notification { method, params } => {
                assert_eq!(method, "window/logMessage");
                assert_eq!(params, Some(val("{\"type\":3}")));
            }
            _ => panic!("notification decoded to a different variant"),
        },
        other => panic!("expected incoming message, got {}", step_kind(&other)),
    }
}

#[test]
fn one_malformed_frame_does_not_terminate() {
    let mut s = running_session();
    let (id, _) = s.send_request("a", None, 9).expect("send must succeed");
    s.feed(b"Content-Length: nope\r\n\r\n");
    s.feed(&response_frame(id, "true"));
    assert!(matches!(s.step(), DispatchStep::Malformed));
    assert_eq!(s.state(), SessionState::Running);
    assert!(matches!(s.step(), DispatchStep::Completed { .. }));
}

#[test]
fn repeated_malformed_frames_corrupt_the_stream() {
    let mut s = running_session();
    let _ = s.send_request("a", None, 4).expect("send must succeed");
    let mut saw_corrupted = false;
    for i in 0..MALFORMED_LIMIT {
        s.feed(b"Content-Length: x\r\n\r\n");
        match s.step() {
            DispatchStep::Malformed => assert!(i + 1 < MALFORMED_LIMIT),
            DispatchStep::Corrupted { abandoned } => {
                assert_eq!(i + 1, MALFORMED_LIMIT);
                assert_eq!(abandoned.len(), 1);
                assert_eq!(abandoned[0].handle, 4);
                saw_corrupted = true;
            }
            other => panic!("expected malformed traffic, got {}", step_kind(&other)),
        }
    }
    assert!(saw_corrupted);
    assert_eq!(s.state(), SessionState::Terminated);
}

#[test]
fn good_frame_resets_the_malformed_streak() {
    let mut s = running_session();
    for round in 0..3 {
        for _ in 0..(MALFORMED_LIMIT - 1) {
            s.feed(b"Content-Length: x\r\n\r\n");
            assert!(matches!(s.step(), DispatchStep::Malformed));
        }
        let body = b"{\"jsonrpc\":\"2.0\",\"method\":\"ping\"}".to_vec();
        s.feed(&encode_frame(&body));
        assert!(matches!(s.step(), DispatchStep::Incoming { .. }));
        assert_eq!(s.state(), SessionState::Running, "round {}", round);
    }
}

#[test]
fn idle_when_nothing_buffered() {
    let mut s = running_session();
    assert!(matches!(s.step(), DispatchStep::Idle));
    s.feed(b"Content-Le");
    assert!(matches!(s.step(), DispatchStep::Idle));
}

#[test]
fn table_refuses_duplicate_identifier() {
    let mut t: PendingTable<u32> = PendingTable::new();
    let id = t.allocate();
    assert_eq!(id, 1);
    assert!(t.register(id, String::from("a"), 1).is_ok());
    assert!(matches!(
        t.register(id, String::from("b"), 2),
        Err(TableError::DuplicateIdentifier)
    ));
    assert_eq!(t.pending_count(), 1);
}

#[test]
fn table_refuses_unknown_completion() {
    let mut t: PendingTable<u32> = PendingTable::new();
    assert!(matches!(t.complete(5), Err(TableError::UnknownIdentifier)));
    assert!(t.register(3, String::from("m"), 30).is_ok());
    let e = t.complete(3).expect("registered entry completes");
    assert_eq!((e.id, e.handle), (3, 30));
    assert!(matches!(t.complete(3), Err(TableError::UnknownIdentifier)));
}

#[test]
fn table_drains_in_registration_order() {
    let mut t: PendingTable<u32> = PendingTable::new();
    assert!(t.register(2, String::from("b"), 20).is_ok());
    assert!(t.register(1, String::from("a"), 10).is_ok());
    let drained = t.drain_all();
    let ids: Vec<u64> = drained.iter().map(|e| e.id).collect();
    assert_eq!(ids, vec![2, 1]);
    assert_eq!(t.pending_count(), 0);
}
