use aether::dap::{
    check_response, encode, frame, parse_usize_text, DapError, DapResponse, FrameHeaders,
    InitializeArgs, SessionId, SessionRequest, SessionState, Source, SourceBreakpoint,
};

#[test]
fn session_id_display() {
    assert_eq!(SessionId(3).to_string(), "session#3");
}

#[test]
fn state_transitions_compile_and_compare() {
    assert_eq!(SessionState::Created, SessionState::Created);
    assert_eq!(
        SessionState::Stopped("breakpoint".to_string()),
        SessionState::Stopped("breakpoint".to_string())
    );
    assert_ne!(
        SessionState::Stopped("step".to_string()),
        SessionState::Running
    );
}

#[test]
fn require_state_rejects_wrong_state() {
    let reason = "breakpoint".to_string();
    let stopped = SessionState::Stopped(reason);
    // Matches any Stopped regardless of reason.
    assert!(matches!(stopped, SessionState::Stopped(_)));
    assert_ne!(stopped, SessionState::Running);
}

#[test]
fn stop_reasons_distinguish_states() {
    assert_ne!(
        SessionState::Stopped("step".to_string()),
        SessionState::Stopped("breakpoint".to_string())
    );
}

#[test]
fn require_state_accepts_any_stop_reason() {
    let stopped = SessionState::Stopped("exception".to_string());
    assert!(stopped
        .require_state(&SessionState::Stopped(String::new()), "continue")
        .is_ok());
}

#[test]
fn require_state_names_expected_and_current_states() {
    let err = SessionState::Running
        .require_state(&SessionState::Created, "initialize")
        .unwrap_err();
    match err {
        DapError::WrongState(m) => {
            assert_eq!(m, "'initialize' requires state Created, current: Running")
        }
        other => panic!("unexpected error {other:?}"),
    }
}

#[test]
fn require_any_lists_allowed_states() {
    let err = SessionState::Ready
        .require_any(
            &[SessionState::Configuring, SessionState::Running],
            "setBreakpoints",
        )
        .unwrap_err();
    assert_eq!(
        err.message(),
        "session in wrong state for this operation: 'setBreakpoints' requires one of [Configuring, Running], current: Ready"
    );
}

#[test]
fn continue_refusal_quotes_the_expected_reason() {
    let err = SessionState::Running
        .guard(SessionRequest::Continue)
        .unwrap_err();
    match err {
        DapError::WrongState(m) => assert_eq!(
            m,
            "'continue' requires state Stopped(\"\"), current: Running"
        ),
        other => panic!("unexpected error {other:?}"),
    }
}

#[test]
fn stepping_requires_a_stopped_session() {
    let err = SessionState::Stopped("a\"b".to_string())
        .require_stopped("next")
        .map(|_| ());
    assert!(err.is_ok());
    let err = SessionState::Configuring.guard(SessionRequest::StepIn).unwrap_err();
    match err {
        DapError::WrongState(m) => {
            assert_eq!(m, "'stepIn' requires Stopped, current: Configuring")
        }
        other => panic!("unexpected error {other:?}"),
    }
}

#[test]
fn documented_lifecycle_walks_through_every_state() {
    let s = SessionState::Created;
    let pending = s.guard(SessionRequest::Initialize).unwrap();
    assert_eq!(pending, SessionState::Initializing);
    let s = pending.accepted(SessionRequest::Initialize);
    assert_eq!(s, SessionState::Ready);
    s.guard(SessionRequest::Launch).unwrap();
    let s = s.accepted(SessionRequest::Launch);
    assert_eq!(s, SessionState::Configuring);
    s.guard(SessionRequest::SetBreakpoints).unwrap();
    s.guard(SessionRequest::ConfigurationDone).unwrap();
    let s = s.accepted(SessionRequest::ConfigurationDone);
    assert_eq!(s, SessionState::Running);
    s.guard(SessionRequest::Pause).unwrap();
    assert_eq!(s.accepted(SessionRequest::Pause), SessionState::Running);
    let s = SessionState::Stopped("breakpoint".to_string());
    s.guard(SessionRequest::Next).unwrap();
    assert_eq!(s.accepted(SessionRequest::Next), SessionState::Running);
}

#[test]
fn failed_launch_terminates_the_session() {
    let s = SessionState::Ready;
    assert_eq!(s.failed(SessionRequest::Attach), SessionState::Terminated);
    assert_eq!(s.failed(SessionRequest::Pause), SessionState::Ready);
    assert_eq!(
        SessionState::Created.failed(SessionRequest::Initialize),
        SessionState::Initializing
    );
}

#[test]
fn terminated_session_refuses_requests() {
    assert!(SessionState::Terminated
        .guard(SessionRequest::Initialize)
        .is_err());
    assert!(SessionState::Terminated.guard(SessionRequest::Pause).is_err());
}

#[test]
fn request_commands_are_protocol_names() {
    assert_eq!(SessionRequest::StepOut.command(), "stepOut");
    assert_eq!(SessionRequest::ConfigurationDone.command(), "configurationDone");
}

#[test]
fn initialize_defaults_name_the_client() {
    let a = InitializeArgs::default();
    assert_eq!(a.client_id, "bitcode");
    assert_eq!(a.client_name, "Bit Code");
    assert_eq!(a.adapter_id, "bitcode");
    assert_eq!(a.locale, "en-US");
    assert_eq!(a.path_format, "path");
    assert!(a.lines_start_at1 && a.columns_start_at1 && a.supports_variable_type);
    assert!(!a.supports_run_in_terminal_request);
}

#[test]
fn source_from_path_names_the_file() {
    let s = Source::from_path("/work/app/main.py".to_string());
    assert_eq!(s.name.as_deref(), Some("main.py"));
    assert_eq!(s.path.as_deref(), Some("/work/app/main.py"));
    assert_eq!(Source::from_path("src/lib.rs/".to_string()).name.as_deref(), Some("lib.rs"));
    assert_eq!(Source::from_path("a/b/.".to_string()).name.as_deref(), Some("b"));
    assert_eq!(Source::from_path("a/..".to_string()).name, None);
    assert_eq!(Source::from_path("/".to_string()).name, None);
    assert_eq!(Source::from_path(String::new()).name, None);
}

#[test]
fn source_breakpoint_at_line_has_no_extras() {
    let b = SourceBreakpoint::at_line(12);
    assert_eq!(b.line, 12);
    assert!(b.column.is_none() && b.condition.is_none() && b.log_message.is_none());
}

#[test]
fn frame_prefixes_content_length() {
    let f = frame(b"{}");
    assert_eq!(f, b"Content-Length: 2\r\n\r\n{}".to_vec());
    let f = frame(b"");
    assert_eq!(f, b"Content-Length: 0\r\n\r\n".to_vec());
}

#[test]
fn encode_frames_the_json_text() {
    let mut m = serde_json::Map::new();
    m.insert("seq".to_string(), serde_json::Value::from(1));
    let v = serde_json::Value::Object(m);
    let f = encode(&v).unwrap();
    assert_eq!(f, b"Content-Length: 9\r\n\r\n{\"seq\":1}".to_vec());
}

#[test]
fn frame_headers_read_back_the_length() {
    let f = frame(b"{\"seq\":1}");
    let text = String::from_utf8(f).unwrap();
    let mut lines = text.split_inclusive('\n');
    let mut h = FrameHeaders::new();
    assert_eq!(h.take_line(lines.next().unwrap()).unwrap(), false);
    assert_eq!(h.take_line(lines.next().unwrap()).unwrap(), true);
    assert_eq!(h.body_length().unwrap(), 9);
}

#[test]
fn unknown_headers_are_skipped() {
    let mut h = FrameHeaders::new();
    assert_eq!(h.take_line("X-Custom: whatever\r\n").unwrap(), false);
    assert_eq!(h.take_line("Content-Length:  +42 \r\n").unwrap(), false);
    assert_eq!(h.take_line("\r\n").unwrap(), true);
    assert_eq!(h.body_length().unwrap(), 42);
}

#[test]
fn missing_content_length_is_a_protocol_error() {
    let mut h = FrameHeaders::new();
    assert_eq!(h.take_line("X-Custom: whatever\r\n").unwrap(), false);
    assert_eq!(h.take_line("\r\n").unwrap(), true);
    match h.body_length().unwrap_err() {
        DapError::Protocol(m) => assert_eq!(m, "message missing Content-Length header"),
        other => panic!("expected Protocol error, got {other:?}"),
    }
}

#[test]
fn invalid_content_length_quotes_the_value() {
    let mut h = FrameHeaders::new();
    match h.take_line("Content-Length: 12x\r\n").unwrap_err() {
        DapError::Protocol(m) => assert_eq!(m, "invalid Content-Length: '12x'"),
        other => panic!("expected Protocol error, got {other:?}"),
    }
    assert!(h.content_length.is_none());
}

#[test]
fn parse_follows_unsigned_parsing() {
    assert_eq!(parse_usize_text("0"), Some(0));
    assert_eq!(parse_usize_text("+7"), Some(7));
    assert_eq!(parse_usize_text("+"), None);
    assert_eq!(parse_usize_text("-1"), None);
    assert_eq!(parse_usize_text(""), None);
    assert_eq!(parse_usize_text("99999999999999999999999"), None);
}

#[test]
fn check_response_fails_on_error() {
    let r = DapResponse {
        seq: 2,
        msg_type: "response".into(),
        request_seq: 1,
        success: false,
        command: "initialize".into(),
        message: Some("not supported".into()),
        body: serde_json::Value::Null,
    };
    let err = check_response(&r, "initialize").unwrap_err();
    assert!(matches!(err, DapError::RequestFailed { .. }));
    assert_eq!(err.message(), "request 'initialize' failed: not supported");
}

#[test]
fn check_response_accepts_success() {
    let r = DapResponse {
        seq: 2,
        msg_type: "response".into(),
        request_seq: 1,
        success: true,
        command: "threads".into(),
        message: None,
        body: serde_json::Value::Null,
    };
    assert!(check_response(&r, "threads").is_ok());
}

#[test]
fn error_messages_match_the_protocol_layer() {
    assert_eq!(DapError::Timeout.message(), "timed out waiting for adapter response");
    assert_eq!(DapError::AdapterExited.message(), "adapter process exited unexpectedly");
    assert_eq!(
        DapError::SessionNotFound(SessionId(9)).message(),
        "session session#9 not found"
    );
}

/// Reads one frame from `buf` at `pos` the way the transport does: header
/// lines through [`FrameHeaders`], then exactly the announced body bytes.
fn read_frame(buf: &[u8], pos: &mut usize) -> Result<Vec<u8>, DapError> {
    let mut headers = FrameHeaders::new();
    loop {
        if *pos >= buf.len() {
            return Err(DapError::AdapterExited);
        }
        let end = buf[*pos..]
            .iter()
            .position(|b| *b == b'\n')
            .map(|i| *pos + i + 1)
            .unwrap_or(buf.len());
        let line = String::from_utf8(buf[*pos..end].to_vec()).unwrap();
        *pos = end;
        if headers.take_line(&line)? {
            break;
        }
    }
    let len = headers.body_length()?;
    let body = buf[*pos..*pos + len].to_vec();
    *pos += len;
    Ok(body)
}

fn json(text: &str) -> serde_json::Value {
    serde_json::from_str(text).unwrap()
}

#[test]
fn round_trip_encode_decode() {
    let msg = json(r#"{"seq": 1, "type": "request", "command": "initialize", "arguments": {"clientID": "bitcode"}}"#);

    let frame = encode(&msg).unwrap();

    let frame_str = std::str::from_utf8(&frame).unwrap();
    assert!(frame_str.starts_with("Content-Length: "));

    let mut pos = 0;
    let body = read_frame(&frame, &mut pos).unwrap();
    let decoded: serde_json::Value = serde_json::from_slice(&body).unwrap();
    assert_eq!(decoded, msg);
}

#[test]
fn multiple_frames_in_sequence() {
    let m1 = json(r#"{"seq": 1, "type": "request", "command": "initialize"}"#);
    let m2 = json(r#"{"seq": 2, "type": "event", "event": "initialized"}"#);

    let mut buf = encode(&m1).unwrap();
    buf.extend(encode(&m2).unwrap());

    let mut pos = 0;
    let b1 = read_frame(&buf, &mut pos).unwrap();
    let b2 = read_frame(&buf, &mut pos).unwrap();

    let d1: serde_json::Value = serde_json::from_slice(&b1).unwrap();
    let d2: serde_json::Value = serde_json::from_slice(&b2).unwrap();
    assert_eq!(d1["seq"], 1);
    assert_eq!(d2["event"], "initialized");
}

#[test]
fn missing_content_length_returns_error() {
    let bad_frame = b"X-Custom: whatever\r\n\r\n{}";
    let mut pos = 0;
    let err = read_frame(bad_frame, &mut pos).unwrap_err();
    assert!(matches!(err, DapError::Protocol(_)), "expected Protocol error, got {err:?}");
}

#[test]
fn encode_decode_matches_round_trip() {
    let request = json(r#"{"seq": 1, "type": "request", "command": "initialize", "arguments": {"clientID": "girder"}}"#);
    let frame = encode(&request).unwrap();
    let mut pos = 0;
    let body = read_frame(&frame, &mut pos).unwrap();
    let decoded: serde_json::Value = serde_json::from_slice(&body).unwrap();
    assert_eq!(decoded["command"], "initialize");
}
