use std::path::PathBuf;

use scrybe::rpc::{
    check_frame, classify_connect, is_timeout, judge_envelope, reply_text, resolve_socket_path,
    ConnectFailure, EnvelopeError, EnvelopeFields, FrameFault, IoKind, QuitParams, Reply, Response,
    ReplyFault, RpcError, UnavailableKind, Verdict, validate_envelope, ERR_DIRTY_QUIT_REFUSED, ERR_METHOD_NOT_FOUND,
    ERR_REPLY_TIMEOUT, ERR_SECTION_NOT_FOUND, ERR_TAB_NOT_OPEN, MAX_FRAME_BYTES,
};

#[test]
fn resolve_socket_path_uses_override() {
    let p = resolve_socket_path(Some("/tmp/custom-scrybe-sock"), Some("/home/test"));
    assert_eq!(PathBuf::from(p), PathBuf::from("/tmp/custom-scrybe-sock"));
}

#[test]
fn resolve_socket_path_uses_home_when_no_override() {
    let p = resolve_socket_path(None, Some("/home/test"));
    assert_eq!(PathBuf::from(p), PathBuf::from("/home/test/.scrybe/sock"));
}

#[test]
fn resolve_socket_path_falls_back_when_home_unset() {
    let p = resolve_socket_path(None, None);
    assert_eq!(PathBuf::from(p), PathBuf::from("/tmp/.scrybe-sock"));
}

#[test]
fn socket_path_joins_like_path_join() {
    assert_eq!(resolve_socket_path(None, Some("/home/test/")), "/home/test/.scrybe/sock");
    assert_eq!(resolve_socket_path(None, Some("")), ".scrybe/sock");
}

#[test]
fn error_codes_are_distinct() {
    let codes = [ERR_TAB_NOT_OPEN, ERR_DIRTY_QUIT_REFUSED, ERR_REPLY_TIMEOUT, ERR_SECTION_NOT_FOUND];
    for &c in &codes {
        assert!((-32099..=-32000).contains(&c), "code {c} outside app range");
    }
    let mut sorted = codes.to_vec();
    sorted.sort_unstable();
    sorted.dedup();
    assert_eq!(sorted.len(), codes.len());
}

#[test]
fn response_and_reply_constructors() {
    let r = Response::err(7, ERR_TAB_NOT_OPEN, "tab not open");
    assert_eq!(r.id, 7);
    assert!(r.result.is_none());
    let e = r.error.unwrap();
    assert_eq!(e.code, -32001);
    assert_eq!(e.message, "tab not open");
    let ok = Response::ok(3, serde_json::Value::Bool(true));
    assert_eq!(ok.result, Some(serde_json::Value::Bool(true)));
    assert!(ok.error.is_none());
    let rep = Reply::err(ERR_TAB_NOT_OPEN, "not open");
    assert!(rep.result.is_none());
    assert_eq!(rep.error.unwrap().code, ERR_TAB_NOT_OPEN);
    assert!(!QuitParams::default().force);
}

#[test]
fn frames_are_checked_before_parsing() {
    assert_eq!(check_frame(b"{}\n"), Ok(()));
    assert_eq!(check_frame(b""), Err(FrameFault::Empty));
    assert_eq!(check_frame(b"{}"), Err(FrameFault::Unterminated));
    let big = vec![b'x'; MAX_FRAME_BYTES + 1];
    assert_eq!(
        check_frame(&big),
        Err(FrameFault::TooLarge { bytes: MAX_FRAME_BYTES + 1, limit: MAX_FRAME_BYTES })
    );
}

#[test]
fn reply_text_requires_utf8_and_trims_the_end() {
    assert_eq!(reply_text(b"{\"a\":1} \r\n").as_deref(), Some("{\"a\":1}"));
    assert_eq!(reply_text(&[0xff, 0xfe, b'\n']), None);
}

fn fields(version: Option<&str>, id: Option<u64>, result: bool, error: Option<Option<RpcError>>) -> EnvelopeFields {
    EnvelopeFields {
        version: version.map(|s| s.to_string()),
        id,
        result: if result { Some(serde_json::Value::Null) } else { None },
        has_error: error.is_some(),
        error: error.flatten(),
    }
}

fn rpc_error(code: i32) -> RpcError {
    RpcError { code, message: "x".to_string(), data: None }
}

#[test]
fn envelope_checks_run_in_order() {
    assert!(matches!(judge_envelope(fields(Some("2.0"), Some(1), true, None), 1), Verdict::Result(_)));
    assert!(matches!(
        judge_envelope(fields(Some("1.0"), Some(1), true, None), 1),
        Verdict::Invalid(EnvelopeError::WrongVersion)
    ));
    assert!(matches!(
        judge_envelope(fields(None, None, false, None), 1),
        Verdict::Invalid(EnvelopeError::WrongVersion)
    ));
    assert!(matches!(
        judge_envelope(fields(Some("2.0"), None, true, None), 1),
        Verdict::Invalid(EnvelopeError::MissingId)
    ));
    assert!(matches!(
        judge_envelope(fields(Some("2.0"), Some(7), true, None), 1),
        Verdict::MismatchedResponseId { expected: 1, actual: 7 }
    ));
    assert!(matches!(
        judge_envelope(fields(Some("2.0"), Some(1), true, Some(Some(rpc_error(-32000)))), 1),
        Verdict::Invalid(EnvelopeError::BothResultAndError)
    ));
    assert!(matches!(
        judge_envelope(fields(Some("2.0"), Some(1), false, None), 1),
        Verdict::Invalid(EnvelopeError::NeitherResultNorError)
    ));
    assert!(matches!(
        judge_envelope(fields(Some("2.0"), Some(1), false, Some(None)), 1),
        Verdict::Invalid(EnvelopeError::InvalidErrorObject)
    ));
    match judge_envelope(fields(Some("2.0"), Some(1), false, Some(Some(rpc_error(ERR_METHOD_NOT_FOUND)))), 1) {
        Verdict::Remote(e) => assert_eq!(e.code, ERR_METHOD_NOT_FOUND),
        other => panic!("expected Remote, got {other:?}"),
    }
    assert_eq!(EnvelopeError::MissingId.message(), "missing or non-integer `id`");
}

#[test]
fn connection_failures_are_typed() {
    assert_eq!(classify_connect(IoKind::NotFound), ConnectFailure::SocketUnavailable(UnavailableKind::NotFound));
    assert_eq!(
        classify_connect(IoKind::ConnectionRefused),
        ConnectFailure::SocketUnavailable(UnavailableKind::ConnectionRefused)
    );
    assert_eq!(classify_connect(IoKind::PermissionDenied), ConnectFailure::PermissionDenied);
    assert_eq!(classify_connect(IoKind::WouldBlock), ConnectFailure::ConnectTimeout);
    assert_eq!(classify_connect(IoKind::Other), ConnectFailure::Io);
    assert!(is_timeout(IoKind::TimedOut));
    assert!(!is_timeout(IoKind::NotFound));
}

#[test]
fn valid_result_envelope_unwraps() {
    let frame = b"{\"jsonrpc\":\"2.0\",\"id\":1,\"result\":{\"applied\":true}}\n";
    match validate_envelope(frame, 1) {
        Ok(v) => assert_eq!(v["applied"], true),
        other => panic!("expected a result, got {other:?}"),
    }
}

#[test]
fn remote_error_envelope_is_typed() {
    let frame = format!(
        "{{\"jsonrpc\":\"2.0\",\"id\":1,\"error\":{{\"code\":{ERR_METHOD_NOT_FOUND},\"message\":\"x\"}}}}\n",
    );
    match validate_envelope(frame.as_bytes(), 1) {
        Err(ReplyFault::Remote(e)) => assert_eq!(e.code, ERR_METHOD_NOT_FOUND),
        other => panic!("expected Remote, got {other:?}"),
    }
}

#[test]
fn wrong_version_is_envelope_error() {
    let frame = b"{\"jsonrpc\":\"1.0\",\"id\":1,\"result\":{}}";
    assert!(matches!(
        validate_envelope(frame, 1),
        Err(ReplyFault::InvalidEnvelope(EnvelopeError::WrongVersion))
    ));
}

#[test]
fn missing_version_is_envelope_error() {
    let frame = b"{\"id\":1,\"result\":{}}";
    assert!(matches!(
        validate_envelope(frame, 1),
        Err(ReplyFault::InvalidEnvelope(EnvelopeError::WrongVersion))
    ));
}

#[test]
fn missing_id_is_envelope_error() {
    let frame = b"{\"jsonrpc\":\"2.0\",\"result\":{}}";
    assert!(matches!(
        validate_envelope(frame, 1),
        Err(ReplyFault::InvalidEnvelope(EnvelopeError::MissingId))
    ));
}

#[test]
fn mismatched_id_carries_both_ids() {
    let frame = b"{\"jsonrpc\":\"2.0\",\"id\":7,\"result\":{}}";
    match validate_envelope(frame, 1) {
        Err(ReplyFault::MismatchedResponseId { expected, actual }) => {
            assert_eq!(expected, 1);
            assert_eq!(actual, 7);
        }
        other => panic!("expected MismatchedResponseId, got {other:?}"),
    }
}

#[test]
fn both_result_and_error_is_envelope_error() {
    let frame = b"{\"jsonrpc\":\"2.0\",\"id\":1,\"result\":{},\"error\":{\"code\":-32000,\"message\":\"x\"}}";
    assert!(matches!(
        validate_envelope(frame, 1),
        Err(ReplyFault::InvalidEnvelope(EnvelopeError::BothResultAndError))
    ));
}

#[test]
fn neither_result_nor_error_is_envelope_error() {
    let frame = b"{\"jsonrpc\":\"2.0\",\"id\":1}";
    assert!(matches!(
        validate_envelope(frame, 1),
        Err(ReplyFault::InvalidEnvelope(EnvelopeError::NeitherResultNorError))
    ));
}

#[test]
fn malformed_error_object_is_envelope_error() {
    let frame = b"{\"jsonrpc\":\"2.0\",\"id\":1,\"error\":\"boom\"}";
    assert!(matches!(
        validate_envelope(frame, 1),
        Err(ReplyFault::InvalidEnvelope(EnvelopeError::InvalidErrorObject))
    ));
}

#[test]
fn invalid_utf8_is_typed() {
    assert!(matches!(validate_envelope(&[0xff, 0xfe, b'\n'], 1), Err(ReplyFault::InvalidUtf8)));
}

#[test]
fn invalid_json_is_typed() {
    assert!(matches!(validate_envelope(b"{not json\n", 1), Err(ReplyFault::InvalidJson(_))));
}

/// Reads the reply a server sends as `sent` to request `expected_id`: one
/// frame, up to and including the first newline and at most one byte past
/// the frame limit, checked and then judged.
fn read_reply(sent: &[u8], expected_id: u64) -> Result<Result<serde_json::Value, ReplyFault>, FrameFault> {
    let end = match sent.iter().position(|&b| b == b'\n') {
        Some(i) => i + 1,
        None => sent.len(),
    };
    let buf = &sent[..end.min(MAX_FRAME_BYTES + 1)];
    check_frame(buf)?;
    Ok(validate_envelope(buf, expected_id))
}

#[test]
fn malformed_json_reply_is_invalid_json() {
    assert!(matches!(read_reply(b"{this is not json\n", 1), Ok(Err(ReplyFault::InvalidJson(_)))));
}

#[test]
fn wrong_id_reply_is_mismatched_response_id() {
    let id = 5u64;
    let reply = format!("{{\"jsonrpc\":\"2.0\",\"id\":{},\"result\":{{}}}}\n", id + 41);
    match read_reply(reply.as_bytes(), id) {
        Ok(Err(ReplyFault::MismatchedResponseId { expected, actual })) => {
            assert_eq!(actual, expected + 41);
        }
        other => panic!("expected MismatchedResponseId, got {other:?}"),
    }
}

#[test]
fn both_result_and_error_is_invalid_envelope() {
    let reply = "{\"jsonrpc\":\"2.0\",\"id\":3,\"result\":{},\"error\":{\"code\":-32000,\"message\":\"x\"}}\n";
    assert!(matches!(
        read_reply(reply.as_bytes(), 3),
        Ok(Err(ReplyFault::InvalidEnvelope(EnvelopeError::BothResultAndError)))
    ));
}

#[test]
fn neither_result_nor_error_is_invalid_envelope() {
    assert!(matches!(
        read_reply(b"{\"jsonrpc\":\"2.0\",\"id\":3}\n", 3),
        Ok(Err(ReplyFault::InvalidEnvelope(EnvelopeError::NeitherResultNorError)))
    ));
}

#[test]
fn missing_jsonrpc_member_is_wrong_version() {
    assert!(matches!(
        read_reply(b"{\"id\":3,\"result\":{}}\n", 3),
        Ok(Err(ReplyFault::InvalidEnvelope(EnvelopeError::WrongVersion)))
    ));
}

#[test]
fn wrong_jsonrpc_version_is_wrong_version() {
    assert!(matches!(
        read_reply(b"{\"jsonrpc\":\"1.0\",\"id\":3,\"result\":{}}\n", 3),
        Ok(Err(ReplyFault::InvalidEnvelope(EnvelopeError::WrongVersion)))
    ));
}

#[test]
fn missing_id_is_invalid_envelope() {
    assert!(matches!(
        read_reply(b"{\"jsonrpc\":\"2.0\",\"result\":{}}\n", 3),
        Ok(Err(ReplyFault::InvalidEnvelope(EnvelopeError::MissingId)))
    ));
}

#[test]
fn malformed_error_object_is_invalid_envelope() {
    assert!(matches!(
        read_reply(b"{\"jsonrpc\":\"2.0\",\"id\":3,\"error\":\"boom\"}\n", 3),
        Ok(Err(ReplyFault::InvalidEnvelope(EnvelopeError::InvalidErrorObject)))
    ));
}

#[test]
fn abrupt_close_mid_frame_is_typed_io() {
    assert!(matches!(read_reply(b"{\"jsonrpc\":\"2.0\",\"id", 3), Err(FrameFault::Unterminated)));
}

#[test]
fn empty_close_without_reply_is_typed_io() {
    assert!(matches!(read_reply(b"", 3), Err(FrameFault::Empty)));
}

#[test]
fn oversized_frame_is_frame_too_large() {
    match read_reply(&vec![b'x'; MAX_FRAME_BYTES + 2], 3) {
        Err(FrameFault::TooLarge { bytes, limit }) => {
            assert_eq!(limit, MAX_FRAME_BYTES);
            assert!(bytes > limit);
        }
        other => panic!("expected TooLarge, got {other:?}"),
    }
}

#[test]
fn remote_error_object_is_remote_with_code_and_message_intact() {
    let reply = format!(
        "{{\"jsonrpc\":\"2.0\",\"id\":3,\"error\":{{\"code\":{ERR_TAB_NOT_OPEN},\"message\":\"not open: /tmp/x.md\"}}}}\n"
    );
    match read_reply(reply.as_bytes(), 3) {
        Ok(Err(ReplyFault::Remote(e))) => {
            assert_eq!(e.code, ERR_TAB_NOT_OPEN);
            assert_eq!(e.message, "not open: /tmp/x.md");
        }
        other => panic!("expected Remote, got {other:?}"),
    }
}

#[test]
fn remote_error_keeps_code_message_and_data() {
    let frame = b"{\"jsonrpc\":\"2.0\",\"id\":2,\"error\":{\"code\":-32001,\"message\":\"busy\",\"data\":{\"n\":3}}}\n";
    match validate_envelope(frame, 2) {
        Err(ReplyFault::Remote(e)) => {
            assert_eq!(e.code, -32001);
            assert_eq!(e.message, "busy");
            assert_eq!(e.data, Some(serde_json::from_str::<serde_json::Value>("{\"n\":3}").unwrap()));
        }
        other => panic!("expected Remote, got {other:?}"),
    }
}

#[test]
fn null_error_data_reads_as_absent() {
    let frame = b"{\"jsonrpc\":\"2.0\",\"id\":2,\"error\":{\"code\":1,\"message\":\"m\",\"data\":null}}";
    match validate_envelope(frame, 2) {
        Err(ReplyFault::Remote(e)) => assert_eq!(e.data, None),
        other => panic!("expected Remote, got {other:?}"),
    }
}

#[test]
fn error_code_beyond_i32_is_malformed_error_object() {
    let frame = b"{\"jsonrpc\":\"2.0\",\"id\":2,\"error\":{\"code\":4294967296,\"message\":\"m\"}}";
    assert!(matches!(
        validate_envelope(frame, 2),
        Err(ReplyFault::InvalidEnvelope(EnvelopeError::InvalidErrorObject))
    ));
}
