use lspmux_cc_mcp::frame::{
    decode_frame, encode_frame, FrameError, HeaderReader, HeaderStep, MAX_MESSAGE_SIZE,
};
use lspmux_cc_mcp::message::{decode_incoming, encode_notification, encode_request};

#[test]
fn frame_has_exact_header() {
    let frame = encode_frame(b"{}");
    assert_eq!(frame, b"Content-Length: 2\r\n\r\n{}".to_vec());
    let empty = encode_frame(b"");
    assert_eq!(empty, b"Content-Length: 0\r\n\r\n".to_vec());
}

#[test]
fn frame_round_trip_keeps_body_and_length() {
    let body = r#"{"jsonrpc":"2.0","id":12,"result":{"a":[1,2,"é"]}}"#.as_bytes().to_vec();
    let mut input = encode_frame(&body);
    let frame_len = input.len();
    input.extend_from_slice(b"Content-Length: 1\r\n\r\n7");
    let frame = decode_frame(&input, MAX_MESSAGE_SIZE).unwrap().unwrap();
    assert_eq!(frame.body, body);
    assert_eq!(frame.consumed, frame_len);
    let next = decode_frame(&input[frame.consumed..], MAX_MESSAGE_SIZE).unwrap().unwrap();
    assert_eq!(next.body, b"7".to_vec());
}

#[test]
fn frame_round_trip_recovers_the_message() {
    let text = r#"{"jsonrpc":"2.0","id":3,"result":{"contents":"fn main()","list":[1.5,null,true]}}"#;
    let value: serde_json::Value = serde_json::from_str(text).unwrap();
    let body = serde_json::to_vec(&value).unwrap();
    let frame = decode_frame(&encode_frame(&body), MAX_MESSAGE_SIZE).unwrap().unwrap();
    assert_eq!(frame.body, body);
    let incoming = decode_incoming(&frame.body).unwrap();
    assert_eq!(incoming.message, value);
    assert_eq!(incoming.id, Some(3));
}

#[test]
fn incomplete_input_needs_more() {
    assert!(decode_frame(b"Content-Length: 5\r\n", 100).unwrap().is_none());
    assert!(decode_frame(b"Content-Length: 5\r\n\r\nab", 100).unwrap().is_none());
    assert!(decode_frame(b"", 100).unwrap().is_none());
}

#[test]
fn oversized_length_is_refused_before_the_body() {
    let input = b"Content-Length: 101\r\n\r\n";
    assert!(matches!(decode_frame(input, 100), Err(FrameError::TooLarge(101))));
    let huge = b"Content-Length: 104857601\r\n\r\n";
    assert!(matches!(
        decode_frame(huge, MAX_MESSAGE_SIZE),
        Err(FrameError::TooLarge(104857601))
    ));
    let mut reader = HeaderReader::new();
    assert_eq!(reader.push_line(b"Content-Length: 101\r\n", 100), Ok(HeaderStep::Continue));
    assert_eq!(reader.push_line(b"\r\n", 100), Err(FrameError::TooLarge(101)));
}

#[test]
fn header_errors() {
    assert!(matches!(decode_frame(b"\r\n{}", 100), Err(FrameError::MissingContentLength)));
    assert!(matches!(
        decode_frame(b"Content-Type: x\r\n\r\n", 100),
        Err(FrameError::MissingContentLength)
    ));
    assert!(matches!(
        decode_frame(b"Content-Length: abc\r\n\r\n", 100),
        Err(FrameError::InvalidContentLength)
    ));
    assert!(matches!(
        decode_frame(b"Content-Length: 99999999999999999999\r\n\r\n", 100),
        Err(FrameError::InvalidContentLength)
    ));
    assert!(matches!(
        decode_frame(b"Content-Length: \r\n\r\n", 100),
        Err(FrameError::MissingContentLength)
    ));
    assert!(matches!(
        decode_frame(b"Content-Length: -4\r\n\r\n", 100),
        Err(FrameError::InvalidContentLength)
    ));
}

#[test]
fn header_reader_follows_the_headers() {
    let mut reader = HeaderReader::new();
    assert_eq!(reader.push_line(b"Content-Length: 7\r\n", 100), Ok(HeaderStep::Continue));
    assert_eq!(reader.declared, Some(7));
    assert_eq!(
        reader.push_line(b"Content-Type: application/vscode-jsonrpc\r\n", 100),
        Ok(HeaderStep::Continue)
    );
    assert_eq!(reader.push_line(b"Content-Length: +3\r\n", 100), Ok(HeaderStep::Continue));
    assert_eq!(reader.push_line(b"\r\n", 100), Ok(HeaderStep::Body(3)));
    assert_eq!(reader.declared, None);
    assert_eq!(reader.push_line(b"  \n", 100), Err(FrameError::MissingContentLength));
}

#[test]
fn request_and_notification_bodies() {
    let req = encode_request(7, "initialize", b"{\"capabilities\":{}}");
    assert_eq!(
        req,
        br#"{"jsonrpc":"2.0","id":7,"method":"initialize","params":{"capabilities":{}}}"#.to_vec()
    );
    let note = encode_notification("initialized", b"{}");
    assert_eq!(note, br#"{"jsonrpc":"2.0","method":"initialized","params":{}}"#.to_vec());
    let quoted = encode_notification("a\"b", b"null");
    assert_eq!(quoted, br#"{"jsonrpc":"2.0","method":"a\"b","params":null}"#.to_vec());
    let parsed: serde_json::Value = serde_json::from_slice(&req).unwrap();
    assert_eq!(parsed["id"].as_i64(), Some(7));
}

#[test]
fn incoming_messages_by_identifier() {
    let response = decode_incoming(br#"{"jsonrpc":"2.0","id":42,"result":null}"#).unwrap();
    assert_eq!(response.id, Some(42));
    let notification =
        decode_incoming(br#"{"jsonrpc":"2.0","method":"textDocument/publishDiagnostics"}"#)
            .unwrap();
    assert_eq!(notification.id, None);
    assert!(matches!(decode_incoming(b"{not json"), Err(FrameError::InvalidJson)));
    assert!(matches!(decode_incoming(b""), Err(FrameError::InvalidJson)));
}

#[test]
fn negative_identifiers_keep_their_sign() {
    assert_eq!(
        encode_request(-12, "m", b"1"),
        br#"{"jsonrpc":"2.0","id":-12,"method":"m","params":1}"#.to_vec()
    );
    let min = encode_request(i64::MIN, "m", b"1");
    let parsed: serde_json::Value = serde_json::from_slice(&min).unwrap();
    assert_eq!(parsed["id"].as_i64(), Some(i64::MIN));
}

#[test]
fn error_responses_are_told_apart() {
    let failed = decode_incoming(br#"{"jsonrpc":"2.0","id":4,"error":{"code":-32601,"message":"no"}}"#)
        .unwrap();
    assert!(failed.is_error);
    assert_eq!(failed.id, Some(4));
    let e = lspmux_cc_mcp::message::into_reply(failed).err().unwrap();
    assert_eq!(e.message["error"]["code"].as_i64(), Some(-32601));
    let ok = decode_incoming(br#"{"jsonrpc":"2.0","id":5,"result":[1]}"#).unwrap();
    assert!(!ok.is_error);
    let v = lspmux_cc_mcp::message::into_reply(ok).ok().unwrap();
    assert_eq!(v["result"][0].as_i64(), Some(1));
    let string_id = decode_incoming(br#"{"jsonrpc":"2.0","id":"7","result":null}"#).unwrap();
    assert_eq!(string_id.id, None);
}

#[test]
fn several_frames_in_a_row_each_give_their_body() {
    let bodies: Vec<Vec<u8>> = vec![
        br#"{"jsonrpc":"2.0","id":1,"result":null}"#.to_vec(),
        br#"{"jsonrpc":"2.0","method":"window/logMessage","params":{}}"#.to_vec(),
        br#"{"jsonrpc":"2.0","id":2,"result":"x"}"#.to_vec(),
    ];
    let mut input = Vec::new();
    for b in &bodies {
        input.extend_from_slice(&encode_frame(b));
    }
    let mut at = 0;
    let mut ids = Vec::new();
    for b in &bodies {
        let frame = decode_frame(&input[at..], MAX_MESSAGE_SIZE).unwrap().unwrap();
        assert_eq!(&frame.body, b);
        ids.push(decode_incoming(&frame.body).unwrap().id);
        at += frame.consumed;
    }
    assert_eq!(at, input.len());
    assert_eq!(ids, vec![Some(1), None, Some(2)]);
}

#[test]
fn method_names_are_escaped_as_json_strings() {
    let body = encode_notification("a\\b\n\u{1}", b"0");
    assert_eq!(body, br#"{"jsonrpc":"2.0","method":"a\\b\n\u0001","params":0}"#.to_vec());
}
