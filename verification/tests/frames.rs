//! Frames, and what a server makes of them.

use serde_json::Value;
use wand_render::error::RenderError;
use wand_render::frame::{decode_frame, encode_frame, frame, FrameError};
use wand_render::hub::ClientHub;
use wand_render::protocol::{ErrorCode, Request, MAX_FRAME_BYTES, RENDER_PROTOCOL_VERSION};
use wand_render::server::{
    authenticate, handle_frame, list_response_with_frame_budget, malformed_request,
    map_render_error, respond, response_to, Delivery, FrameBuffer, FrameStep, Taken, Verdict,
    MAX_REQUEST_BUFFER_BYTES,
};
use wand_render::structured_server::{handle_connection, request_length, RequestStep};

fn object(members: Vec<(&str, Value)>) -> Value {
    let mut map = serde_json::Map::new();
    for (key, value) in members {
        map.insert(key.to_string(), value);
    }
    Value::Object(map)
}

fn request(token: &str, version: u32) -> Request {
    Request {
        id: 7,
        token: token.to_string(),
        protocol_version: version,
        method: "list".to_string(),
        params: None,
    }
}

fn request_document(request: &Request) -> Value {
    object(vec![
        ("id", Value::from(request.id)),
        ("token", Value::from(request.token.clone())),
        ("protocolVersion", Value::from(request.protocol_version)),
        ("method", Value::from(request.method.clone())),
    ])
}

#[test]
fn frame_roundtrip_request() {
    let document = request_document(&request("abc", RENDER_PROTOCOL_VERSION));
    let encoded = encode_frame(&document).expect("encode");
    assert_eq!(&encoded[..4], &(encoded.len() as u32 - 4).to_be_bytes());
    let (consumed, decoded) = decode_frame(&encoded).expect("decode").expect("complete");
    assert_eq!(consumed, encoded.len());
    assert_eq!(decoded, document);
}

#[test]
fn frame_partial_returns_none() {
    let response = object(vec![
        ("id", Value::from(1)),
        ("ok", Value::from(true)),
        ("result", object(vec![("pong", Value::from(true))])),
    ]);
    let encoded = encode_frame(&response).expect("encode");
    assert!(decode_frame(&encoded[..3]).expect("short").is_none());
    assert!(decode_frame(&encoded[..encoded.len() - 1]).expect("partial").is_none());
}

#[test]
fn frame_rejects_oversized_length() {
    let mut buf = Vec::new();
    buf.extend_from_slice(&(MAX_FRAME_BYTES + 1).to_be_bytes());
    assert!(matches!(decode_frame(&buf), Err(FrameError::TooLarge(_))));
}

#[test]
fn frames_that_are_no_documents_are_rejected() {
    let encoded = frame(b"{\"id\":").expect("frame");
    let error = decode_frame(&encoded).expect_err("no document");
    assert!(matches!(error, FrameError::Json(_)));
    assert_eq!(error.message(), "json error: EOF while parsing a value at line 1 column 6");
    assert_eq!(
        FrameError::TooLarge(67_108_865).message(),
        "frame length 67108865 exceeds MAX_FRAME_BYTES"
    );
}

#[test]
fn the_longest_body_fits_and_one_byte_more_does_not() {
    let body = vec![b' '; MAX_FRAME_BYTES as usize];
    assert_eq!(frame(&body).expect("fits").len(), MAX_FRAME_BYTES as usize + 4);
    let longer = vec![b' '; MAX_FRAME_BYTES as usize + 1];
    assert!(matches!(frame(&longer), Err(FrameError::TooLarge(67_108_865))));
}

#[test]
fn frames_are_taken_off_a_stream_however_it_is_cut() {
    let documents = [object(vec![("a", Value::from(1))]), Value::Null, Value::from("x")];
    let mut stream: Vec<u8> = Vec::new();
    for document in &documents {
        stream.extend_from_slice(&encode_frame(document).expect("encode"));
    }
    for width in 1..=stream.len() {
        let mut buffer = FrameBuffer::new();
        let mut taken: Vec<Value> = Vec::new();
        for chunk in stream.chunks(width) {
            buffer.extend(chunk);
            let mut more = true;
            while more {
                match buffer.next() {
                    Taken::Document(document) => taken.push(document),
                    Taken::More => more = false,
                    Taken::Broken => panic!("broken stream"),
                }
            }
        }
        assert_eq!(taken, documents);
    }
}

#[test]
fn a_stream_that_can_never_become_a_frame_is_broken() {
    let mut buffer = FrameBuffer::new();
    buffer.extend(&[0xff, 0xff, 0xff, 0xff]);
    assert!(matches!(buffer.next(), Taken::Broken));
    let mut buffer = FrameBuffer::new();
    buffer.extend(&[0, 0, 0, 1, b'{']);
    assert!(matches!(buffer.next(), Taken::Broken));
    assert_eq!(MAX_REQUEST_BUFFER_BYTES, MAX_FRAME_BYTES as usize + 4);
}

#[test]
fn structured_requests_are_limited_to_sixteen_mebibytes() {
    assert_eq!(request_length([0, 0, 1, 2]), Some(258));
    assert_eq!(request_length([1, 0, 0, 0]), Some(16 * 1024 * 1024));
    assert_eq!(request_length([1, 0, 0, 1]), None);
    assert_eq!(request_length([0xff, 0xff, 0xff, 0xff]), None);
}

#[test]
fn only_the_right_token_and_version_are_accepted() {
    assert!(matches!(authenticate("tok", &request("tok", 1)), Verdict::Accept));
    assert!(matches!(authenticate("tok", &request("no", 1)), Verdict::Close));
    assert!(matches!(authenticate("tok", &request("no", 2)), Verdict::Close));
    match authenticate("tok", &request("tok", 2)) {
        Verdict::Refuse(code, text) => {
            assert_eq!(code, ErrorCode::ProtocolMismatch);
            assert_eq!(text, "protocol version 2 is not supported (expected 1)");
        }
        _ => panic!("expected a refusal"),
    }
}

#[test]
fn a_frame_with_the_right_token_lets_the_client_hear_of_events() {
    let mut hub = ClientHub::new();
    let client = hub.connect().expect("number");
    let good = request("tok", 1);
    let step = handle_frame(&mut hub, client, "tok", &request_document(&good), Ok(good));
    assert!(matches!(step, FrameStep::Dispatch(_)));
    assert_eq!(hub.broadcast(), vec![client]);
}

#[test]
fn a_frame_with_the_wrong_token_closes_the_connection() {
    let mut hub = ClientHub::new();
    let client = hub.connect().expect("number");
    let bad = request("guess", 1);
    let step = handle_frame(&mut hub, client, "tok", &request_document(&bad), Ok(bad));
    assert!(matches!(step, FrameStep::Closed));
    assert!(hub.is_closed(client));
    assert!(hub.broadcast().is_empty());
}

#[test]
fn frames_that_are_no_requests_are_answered_by_number_and_method() {
    let mut hub = ClientHub::new();
    let client = hub.connect().expect("number");
    let good = request("tok", 1);
    let step = handle_frame(&mut hub, client, "tok", &request_document(&good), Ok(good));
    assert!(matches!(step, FrameStep::Dispatch(_)));
    let value = object(vec![("id", Value::from(9)), ("method", Value::from("write"))]);
    match handle_frame(&mut hub, client, "tok", &value, Err("missing field".to_string())) {
        FrameStep::Refuse(id, method, (code, text)) => {
            assert_eq!((id, method.as_str()), (9, "write"));
            assert_eq!(code, ErrorCode::BadRequest);
            assert_eq!(text, "missing field");
        }
        _ => panic!("expected a refusal"),
    }
    assert!(!hub.is_closed(client));
    assert!(hub.is_authed(client));
    assert_eq!(malformed_request(&Value::Null), (0, "unknown".to_string()));
    let odd = object(vec![("id", Value::from("x")), ("method", Value::from(3))]);
    assert_eq!(malformed_request(&odd), (0, "unknown".to_string()));
    let large = object(vec![("id", Value::from(4_294_967_297u64))]);
    assert_eq!(malformed_request(&large).0, 1);
}

#[test]
fn a_first_frame_without_a_token_closes_the_connection() {
    let mut hub = ClientHub::new();
    let other = hub.connect().expect("number");
    hub.authenticate(other);
    let client = hub.connect().expect("number");
    let value = object(vec![("id", Value::from(9)), ("method", Value::from("list"))]);
    let step = handle_frame(&mut hub, client, "tok", &value, Err("missing field".to_string()));
    assert!(matches!(step, FrameStep::Closed));
    assert!(hub.is_closed(client));
    assert!(!hub.is_authed(client));
    assert!(!hub.is_closed(other));
    assert_eq!(hub.broadcast(), vec![other]);
}

#[test]
fn other_versions_are_answered_and_stay_connected() {
    let mut hub = ClientHub::new();
    let client = hub.connect().expect("number");
    let old = request("tok", 0);
    match handle_frame(&mut hub, client, "tok", &request_document(&old), Ok(old)) {
        FrameStep::Refuse(id, method, (code, _)) => {
            assert_eq!((id, method.as_str()), (7, "list"));
            assert_eq!(code, ErrorCode::ProtocolMismatch);
        }
        _ => panic!("expected a refusal"),
    }
    assert!(!hub.is_closed(client));
    assert!(hub.broadcast().is_empty());
}

#[test]
fn structured_connections_end_with_anything_but_a_good_request() {
    let mut hub = ClientHub::new();
    let client = hub.connect().expect("number");
    let step = handle_connection(&mut hub, client, "tok", Some(request("tok", 2)));
    assert!(matches!(step, RequestStep::Dispatch(_)));
    assert!(hub.is_authed(client));
    for bad in [None, Some(request("guess", 2)), Some(request("guess", 1))] {
        let client = hub.connect().expect("number");
        let step = handle_connection(&mut hub, client, "tok", bad);
        assert!(matches!(step, RequestStep::Closed));
        assert!(hub.is_closed(client));
    }
    let client = hub.connect().expect("number");
    match handle_connection(&mut hub, client, "tok", Some(request("tok", 1))) {
        RequestStep::Refused(id, (code, text)) => {
            assert_eq!(id, 7);
            assert_eq!(code, ErrorCode::ProtocolMismatch);
            assert_eq!(text, "structured protocol version mismatch");
        }
        _ => panic!("expected a refusal"),
    }
    assert!(hub.is_closed(client));
}

#[test]
fn render_errors_map_to_protocol_codes() {
    assert_eq!(
        map_render_error(RenderError::NotFound("s".into())).0,
        ErrorCode::NotFound
    );
    assert_eq!(
        map_render_error(RenderError::Conflict("s".into())).0,
        ErrorCode::Conflict
    );
    assert_eq!(
        map_render_error(RenderError::BadRequest("s".into())).0,
        ErrorCode::BadRequest
    );
    assert_eq!(
        map_render_error(RenderError::Internal("s".into())).0,
        ErrorCode::Internal
    );
}

#[test]
fn errors_have_their_texts() {
    assert_eq!(map_render_error(RenderError::NotFound("s".into())).1, "session s not found");
    assert_eq!(map_render_error(RenderError::Io("x".into())).0, ErrorCode::Internal);
    assert_eq!(map_render_error(RenderError::Spawn("x".into())).0, ErrorCode::Internal);
    for error in [
        RenderError::BadRequest("why".into()),
        RenderError::Conflict("why".into()),
        RenderError::Io("why".into()),
        RenderError::Spawn("why".into()),
        RenderError::Internal("why".into()),
    ] {
        assert!(map_render_error(error).1.contains("why"));
    }
}

#[test]
fn oversized_response_falls_back_to_an_internal_error_frame() {
    let oversized = Value::String("x".repeat(MAX_FRAME_BYTES as usize + 16));
    let response = response_to(42, Ok(oversized));
    let body = serde_json::to_vec(response.result.as_ref().expect("result"));
    let delivery = respond(42, "list", body, false);
    match delivery {
        Delivery::Instead(response) => {
            assert_eq!(response.id, 42);
            assert!(!response.ok);
            let message = response.error.expect("error body");
            assert_eq!(message.code, ErrorCode::Internal);
            assert!(
                message.message.contains("list") && message.message.contains("MAX_FRAME_BYTES"),
                "unhelpful message: {}",
                message.message
            );
        }
        _ => panic!("expected another answer"),
    }
}

#[test]
fn an_answer_that_fits_is_sent_and_a_failed_fallback_closes() {
    match respond(1, "ping", Ok(b"{}".to_vec()), false) {
        Delivery::Send(bytes) => assert_eq!(bytes, vec![0, 0, 0, 2, b'{', b'}']),
        _ => panic!("expected a frame"),
    }
    let long = vec![b' '; MAX_FRAME_BYTES as usize + 1];
    assert!(matches!(respond(1, "ping", Ok(long), true), Delivery::Close));
    let broken = serde_json::from_slice::<Value>(b"{").expect_err("no document");
    match respond(3, "stats", Err(broken), false) {
        Delivery::Instead(response) => assert!(response
            .error
            .expect("error body")
            .message
            .starts_with("stats response could not be encoded as a frame: json error: ")),
        _ => panic!("expected another answer"),
    }
}

#[test]
fn oversized_list_response_reports_an_internal_error() {
    let value = object(vec![("sessions", Value::Array(Vec::new()))]);
    let error = list_response_with_frame_budget(value, 8)
        .expect_err("a tiny budget must trip the frame limit");
    assert_eq!(error.0, ErrorCode::Internal);
    assert!(error.1.contains("frame limit"), "unhelpful message: {}", error.1);
    assert!(error.1.starts_with("list response is 15 bytes, over the 8-byte frame limit"));
    let response = response_to(7, Err(error));
    assert_eq!(response.id, 7);
    assert!(!response.ok);
    assert_eq!(response.error.expect("error body").code, ErrorCode::Internal);
}

#[test]
fn empty_list_response_is_ok() {
    let value = object(vec![("sessions", Value::Array(Vec::new()))]);
    let listing = list_response_with_frame_budget(value, MAX_FRAME_BYTES as usize);
    let response = response_to(1, listing);
    assert!(response.ok);
    assert_eq!(response.result.expect("result")["sessions"], Value::Array(Vec::new()));
}

#[test]
fn slow_and_gone_clients_are_let_go() {
    let mut hub = ClientHub::new();
    let first = hub.connect().expect("number");
    let second = hub.connect().expect("number");
    let third = hub.connect().expect("number");
    assert_eq!((first, second, third), (1, 2, 3));
    hub.authenticate(third);
    hub.authenticate(first);
    assert_eq!(hub.broadcast(), vec![first, third]);
    hub.disconnect(&vec![first]);
    assert_eq!(hub.broadcast(), vec![third]);
    assert!(hub.is_closed(first));
    assert!(!hub.is_closed(second));
    hub.close(third);
    assert!(hub.is_closed(third));
    assert_eq!(hub.connect(), Some(4));
}
