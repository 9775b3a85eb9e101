use lsp_session::body::{decode_message, encode_message, encode_message_frame, DecodeError};
use lsp_session::codec::{encode_frame, DecodeStep, FrameDecoder};
use lsp_session::msg::{ErrorInfo, Message, Outcome, RequestId};

fn val(text: &str) -> serde_json::Value {
    serde_json::from_str(text).expect("test value must be valid JSON")
}

fn decode_one(bytes: &[u8]) -> Vec<u8> {
    let mut d = FrameDecoder::new();
    d.feed(bytes);
    match d.poll() {
        DecodeStep::Frame(body) => body,
        other => panic!("expected a frame, got {}", kind_of(&other)),
    }
}

fn kind_of(s: &DecodeStep) -> &'static str {
    match s {
        DecodeStep::NeedMoreData => "NeedMoreData",
        DecodeStep::MalformedHeader => "MalformedHeader",
        DecodeStep::Frame(_) => "Frame",
    }
}

#[test]
fn frame_encoding_is_exact() {
    let body: Vec<u8> = b"{}".to_vec();
    let frame = encode_frame(&body);
    assert_eq!(frame, b"Content-Length: 2\r\n\r\n{}".to_vec());
    let body: Vec<u8> = vec![120u8; 1234];
    let frame = encode_frame(&body);
    assert!(frame.starts_with(b"Content-Length: 1234\r\n\r\n"));
    assert_eq!(frame.len(), 24 + 1234);
}

#[test]
fn frame_round_trip_whole() {
    let body: Vec<u8> = b"{\"jsonrpc\":\"2.0\",\"method\":\"m\"}".to_vec();
    let frame = encode_frame(&body);
    assert_eq!(decode_one(&frame), body);
}

#[test]
fn decoder_handles_one_byte_at_a_time() {
    let body: Vec<u8> = b"{\"a\":[1,2,3]}".to_vec();
    let frame = encode_frame(&body);
    let mut d = FrameDecoder::new();
    let mut decoded: Option<Vec<u8>> = None;
    for (i, b) in frame.iter().enumerate() {
        d.feed(&[*b]);
        match d.poll() {
            DecodeStep::NeedMoreData => {
                assert!(i + 1 < frame.len(), "must decode once all bytes arrived");
            }
            DecodeStep::Frame(got) => {
                assert_eq!(i + 1, frame.len(), "must not decode before all bytes arrived");
                decoded = Some(got);
            }
            DecodeStep::MalformedHeader => panic!("well-formed frame reported malformed"),
        }
    }
    assert_eq!(decoded, Some(body));
}

#[test]
fn decoder_split_anywhere_matches_whole() {
    let body: Vec<u8> = b"{\"x\":\"y\"}".to_vec();
    let frame = encode_frame(&body);
    let whole = decode_one(&frame);
    for cut in 0..frame.len() {
        let mut d = FrameDecoder::new();
        d.feed(&frame[..cut]);
        match d.poll() {
            DecodeStep::Frame(_) => panic!("decoded from an incomplete prefix"),
            DecodeStep::MalformedHeader => panic!("prefix reported malformed"),
            DecodeStep::NeedMoreData => {}
        }
        d.feed(&frame[cut..]);
        match d.poll() {
            DecodeStep::Frame(got) => assert_eq!(got, whole),
            other => panic!("expected a frame, got {}", kind_of(&other)),
        }
    }
}

#[test]
fn decoder_two_frames_back_to_back() {
    let b1: Vec<u8> = b"{\"first\":1}".to_vec();
    let b2: Vec<u8> = b"{\"second\":2}".to_vec();
    let mut stream = encode_frame(&b1);
    stream.extend_from_slice(&encode_frame(&b2));
    let mut d = FrameDecoder::new();
    d.feed(&stream);
    match d.poll() {
        DecodeStep::Frame(got) => assert_eq!(got, b1),
        other => panic!("expected first frame, got {}", kind_of(&other)),
    }
    match d.poll() {
        DecodeStep::Frame(got) => assert_eq!(got, b2),
        other => panic!("expected second frame, got {}", kind_of(&other)),
    }
    match d.poll() {
        DecodeStep::NeedMoreData => {}
        other => panic!("expected an empty buffer, got {}", kind_of(&other)),
    }
}

#[test]
fn decoder_accepts_extra_headers() {
    let mut stream: Vec<u8> =
        b"Content-Type: application/vscode-jsonrpc\r\nContent-Length: 4\r\n\r\nnull".to_vec();
    stream.extend_from_slice(b"Content-Length: 2\r\nContent-Type: x\r\n\r\n{}");
    let mut d = FrameDecoder::new();
    d.feed(&stream);
    match d.poll() {
        DecodeStep::Frame(got) => assert_eq!(got, b"null".to_vec()),
        other => panic!("expected a frame, got {}", kind_of(&other)),
    }
    match d.poll() {
        DecodeStep::Frame(got) => assert_eq!(got, b"{}".to_vec()),
        other => panic!("expected a frame, got {}", kind_of(&other)),
    }
}

#[test]
fn decoder_reports_missing_length_header() {
    let mut d = FrameDecoder::new();
    d.feed(b"Content-Type: text\r\n\r\nrest");
    match d.poll() {
        DecodeStep::MalformedHeader => {}
        other => panic!("expected malformed, got {}", kind_of(&other)),
    }
}

#[test]
fn decoder_reports_non_numeric_length() {
    let mut d = FrameDecoder::new();
    d.feed(b"Content-Length: abc\r\n\r\n");
    match d.poll() {
        DecodeStep::MalformedHeader => {}
        other => panic!("expected malformed, got {}", kind_of(&other)),
    }
}

#[test]
fn decoder_reports_empty_length_value() {
    let mut d = FrameDecoder::new();
    d.feed(b"Content-Length: \r\n\r\n");
    match d.poll() {
        DecodeStep::MalformedHeader => {}
        other => panic!("expected malformed, got {}", kind_of(&other)),
    }
}

#[test]
fn decoder_reports_oversized_length_value() {
    let mut d = FrameDecoder::new();
    d.feed(b"Content-Length: 99999999999999999999999999\r\n\r\n");
    match d.poll() {
        DecodeStep::MalformedHeader => {}
        other => panic!("expected malformed, got {}", kind_of(&other)),
    }
}

#[test]
fn decoder_recovers_after_malformed_header() {
    let mut d = FrameDecoder::new();
    let mut stream: Vec<u8> = b"Content-Length: oops\r\n\r\n".to_vec();
    stream.extend_from_slice(&encode_frame(&b"{}".to_vec()));
    d.feed(&stream);
    match d.poll() {
        DecodeStep::MalformedHeader => {}
        other => panic!("expected malformed, got {}", kind_of(&other)),
    }
    match d.poll() {
        DecodeStep::Frame(got) => assert_eq!(got, b"{}".to_vec()),
        other => panic!("expected recovery frame, got {}", kind_of(&other)),
    }
}

fn round_trip(m: &Message) -> Message {
    let frame = encode_message_frame(m);
    let mut d = FrameDecoder::new();
    d.feed(&frame);
    let body = match d.poll() {
        DecodeStep::Frame(body) => body,
        other => panic!("expected a frame, got {}", kind_of(&other)),
    };
    decode_message(&body).expect("encoded message must decode")
}

#[test]
fn round_trip_request_with_params() {
    let m = Message::Request {
        id: RequestId::Num(7),
        method: String::from("initialize"),
        params: Some(val("{\"capabilities\":{\"x\":[1,2]},\"processId\":null}")),
    };
    match round_trip(&m) {
        Message::Request { id, method, params } => {
            assert!(matches!(id, RequestId::Num(7)));
            assert_eq!(method, "initialize");
            assert_eq!(params, Some(val("{\"capabilities\":{\"x\":[1,2]},\"processId\":null}")));
        }
        _ => panic!("decoded to a different variant"),
    }
}

#[test]
fn round_trip_request_absent_params() {
    let m = Message::Request {
        id: RequestId::Num(1),
        method: String::from("shutdown"),
        params: None,
    };
    match round_trip(&m) {
        Message::Request { id, method, params } => {
            assert!(matches!(id, RequestId::Num(1)));
            assert_eq!(method, "shutdown");
            assert_eq!(params, None);
        }
        _ => panic!("decoded to a different variant"),
    }
}

#[test]
fn round_trip_request_empty_params() {
    let m = Message::Request {
        id: RequestId::Num(2),
        method: String::from("m"),
        params: Some(val("{}")),
    };
    match round_trip(&m) {
        Message::Request { params, .. } => assert_eq!(params, Some(val("{}"))),
        _ => panic!("decoded to a different variant"),
    }
}

#[test]
fn round_trip_request_string_id() {
    let m = Message::Request {
        id: RequestId::Text(String::from("alpha-3")),
        method: String::from("m"),
        params: None,
    };
    match round_trip(&m) {
        Message::Request { id, .. } => match id {
            RequestId::Text(s) => assert_eq!(s, "alpha-3"),
            RequestId::Num(_) => panic!("string identifier decoded as a number"),
        },
        _ => panic!("decoded to a different variant"),
    }
}

#[test]
fn round_trip_notification() {
    let m = Message::Notification {
        method: String::from("textDocument/didOpen"),
        params: Some(val("{\"textDocument\":{\"uri\":\"file:///a.ts\"}}")),
    };
    match round_trip(&m) {
        Message::Notification { method, params } => {
            assert_eq!(method, "textDocument/didOpen");
            assert_eq!(params, Some(val("{\"textDocument\":{\"uri\":\"file:///a.ts\"}}")));
        }
        _ => panic!("decoded to a different variant"),
    }
}

#[test]
fn round_trip_response_success() {
    let m = Message::Response {
        id: RequestId::Num(9),
        outcome: Outcome::Success(val("[{\"uri\":\"file:///t.ts\"}]")),
    };
    match round_trip(&m) {
        Message::Response { id, outcome } => {
            assert!(matches!(id, RequestId::Num(9)));
            match outcome {
                Outcome::Success(v) => assert_eq!(v, val("[{\"uri\":\"file:///t.ts\"}]")),
                Outcome::Failure(_) => panic!("success decoded as failure"),
            }
        }
        _ => panic!("decoded to a different variant"),
    }
}

#[test]
fn round_trip_response_error() {
    let m = Message::Response {
        id: RequestId::Num(3),
        outcome: Outcome::Failure(ErrorInfo {
            code: -32601,
            message: String::from("method not found"),
            data: Some(val("{\"method\":\"nope\"}")),
        }),
    };
    match round_trip(&m) {
        Message::Response { outcome, .. } => match outcome {
            Outcome::Failure(e) => {
                assert_eq!(e.code, -32601);
                assert_eq!(e.message, "method not found");
                assert_eq!(e.data, Some(val("{\"method\":\"nope\"}")));
            }
            Outcome::Success(_) => panic!("failure decoded as success"),
        },
        _ => panic!("decoded to a different variant"),
    }
}

#[test]
fn round_trip_response_error_without_data() {
    let m = Message::Response {
        id: RequestId::Num(4),
        outcome: Outcome::Failure(ErrorInfo {
            code: 1,
            message: String::from(""),
            data: None,
        }),
    };
    match round_trip(&m) {
        Message::Response { outcome, .. } => match outcome {
            Outcome::Failure(e) => {
                assert_eq!(e.code, 1);
                assert_eq!(e.message, "");
                assert_eq!(e.data, None);
            }
            Outcome::Success(_) => panic!("failure decoded as success"),
        },
        _ => panic!("decoded to a different variant"),
    }
}

#[test]
fn round_trip_method_needing_escapes() {
    let tricky = "a\"b\\c\nd\te\u{1F600}\u{00e9}";
    let m = Message::Notification {
        method: String::from(tricky),
        params: None,
    };
    match round_trip(&m) {
        Message::Notification { method, .. } => assert_eq!(method, tricky),
        _ => panic!("decoded to a different variant"),
    }
}

#[test]
fn encoded_body_is_valid_json_with_exact_members() {
    let m = Message::Request {
        id: RequestId::Num(42),
        method: String::from("textDocument/typeDefinition"),
        params: Some(val("{\"position\":{\"line\":6,\"character\":14}}")),
    };
    let body = encode_message(&m);
    let v: serde_json::Value = serde_json::from_slice(&body).expect("body must be valid JSON");
    assert_eq!(v.get("jsonrpc"), Some(&val("\"2.0\"")));
    assert_eq!(v.get("id"), Some(&val("42")));
    assert_eq!(v.get("method"), Some(&val("\"textDocument/typeDefinition\"")));
    assert_eq!(
        v.get("params"),
        Some(&val("{\"position\":{\"line\":6,\"character\":14}}"))
    );
}

#[test]
fn decode_rejects_non_json_body() {
    let body: Vec<u8> = b"not json at all".to_vec();
    assert!(matches!(decode_message(&body), Err(DecodeError::BodyNotJson)));
}

#[test]
fn decode_rejects_shapeless_object() {
    let body: Vec<u8> = b"{\"jsonrpc\":\"2.0\"}".to_vec();
    assert!(matches!(decode_message(&body), Err(DecodeError::UnrecognizedShape)));
}

#[test]
fn decode_rejects_response_with_result_and_error() {
    let body: Vec<u8> =
        b"{\"id\":1,\"result\":{},\"error\":{\"code\":1,\"message\":\"m\"}}".to_vec();
    assert!(matches!(decode_message(&body), Err(DecodeError::UnrecognizedShape)));
}

#[test]
fn decode_rejects_response_with_neither_result_nor_error() {
    let body: Vec<u8> = b"{\"id\":1}".to_vec();
    assert!(matches!(decode_message(&body), Err(DecodeError::UnrecognizedShape)));
}

#[test]
fn decode_rejects_error_without_message() {
    let body: Vec<u8> = b"{\"id\":1,\"error\":{\"code\":3}}".to_vec();
    assert!(matches!(decode_message(&body), Err(DecodeError::UnrecognizedShape)));
}

#[test]
fn decode_accepts_server_request() {
    let body: Vec<u8> =
        b"{\"id\":5,\"method\":\"workspace/configuration\",\"params\":{\"items\":[]}}".to_vec();
    match decode_message(&body) {
        Ok(Message::Request { id, method, params }) => {
            assert!(matches!(id, RequestId::Num(5)));
            assert_eq!(method, "workspace/configuration");
            assert_eq!(params, Some(val("{\"items\":[]}")));
        }
        _ => panic!("server request did not decode"),
    }
}
