use ws_gateway::error::WebsocketError;
use ws_gateway::json::JsonValue;
use ws_gateway::message::{ClientMessage, ConnectionId, ReplyHandle, WebsocketSystems};
use ws_gateway::route::{
    FrameResponse, MainWebsocket, SessionState, TickAction, WSMessage, WebsocketSettings, WsFrame,
};

fn settings() -> WebsocketSettings {
    WebsocketSettings { heartbeat_interval: 5_000, client_timeout: 10_000 }
}

fn active_session() -> MainWebsocket {
    let mut s = MainWebsocket::new(&settings(), ConnectionId(1), ReplyHandle(9), 0);
    assert_eq!(s.state, SessionState::Starting);
    s.started(0);
    assert_eq!(s.state, SessionState::Active);
    s
}

#[test]
fn responsive_client_is_never_disconnected() {
    let mut s = active_session();
    let mut now: u64 = 0;
    for _ in 0..20 {
        now += 5_000;
        assert_eq!(s.hb(now), TickAction::Ping);
        let r = s.handle(Ok(WsFrame::Pong), now + 100);
        assert_eq!(r, FrameResponse::Noop);
        now += 100;
    }
    assert_eq!(s.state, SessionState::Active);
}

#[test]
fn silent_client_is_disconnected_after_timeout_never_earlier() {
    let mut s = active_session();
    assert_eq!(s.hb(10_000), TickAction::Ping);
    assert_eq!(s.hb(10_001), TickAction::Disconnect);
    assert_eq!(s.state, SessionState::Closing);
}

#[test]
fn clock_running_backwards_counts_as_no_silence() {
    let mut s = MainWebsocket::new(&settings(), ConnectionId(1), ReplyHandle(9), 50_000);
    s.started(50_000);
    assert_eq!(s.hb(0), TickAction::Ping);
    assert_eq!(s.state, SessionState::Active);
}

#[test]
fn ping_is_answered_and_resets_the_clock() {
    let mut s = active_session();
    let r = s.handle(Ok(WsFrame::Ping(b"beat".to_vec())), 9_000);
    assert_eq!(r, FrameResponse::Pong(b"beat".to_vec()));
    assert_eq!(s.hb, 9_000);
    assert_eq!(s.hb(19_000), TickAction::Ping);
    assert_eq!(s.hb(19_001), TickAction::Disconnect);
}

#[test]
fn close_frame_is_echoed_and_session_closes() {
    let mut s = active_session();
    let r = s.handle(Ok(WsFrame::Close), 1);
    assert_eq!(r, FrameResponse::CloseEcho);
    assert_eq!(s.state, SessionState::Closing);
}

#[test]
fn unexpected_frame_kind_closes_session() {
    let mut s = active_session();
    let r = s.handle(Ok(WsFrame::Other), 1);
    assert_eq!(r, FrameResponse::Stop);
    assert_eq!(s.state, SessionState::Closing);
}

#[test]
fn stream_error_closes_session() {
    let mut s = active_session();
    let r = s.handle(Err(()), 1);
    assert_eq!(r, FrameResponse::Stop);
    assert_eq!(s.state, SessionState::Closing);
}

#[test]
fn malformed_text_is_answered_directly_with_failure() {
    let mut s = active_session();
    let r = s.handle(Ok(WsFrame::Text(b"not json at all".to_vec())), 1);
    match r {
        FrameResponse::Reply(out) => {
            assert_eq!(
                out,
                br#"{"system":null,"success":false,"payload":"Failed to deserialize message."}"#
                    .to_vec()
            );
        },
        other => panic!("expected a direct reply, got {:?}", other),
    }
    assert_eq!(s.state, SessionState::Active);
}

#[test]
fn unknown_subsystem_is_answered_directly_and_dispatches_nothing() {
    let mut s = active_session();
    let text = br#"{"system":"unknown","task":{"name":"get_files","payload":{"data":"x"}}}"#;
    let r = s.handle(Ok(WsFrame::Text(text.to_vec())), 1);
    match r {
        FrameResponse::Reply(out) => {
            let v: serde_json::Value = serde_json::from_slice(&out).unwrap();
            assert_eq!(v.get("success").unwrap().as_bool(), Some(false));
            assert!(v.get("system").unwrap().is_null());
        },
        other => panic!("expected a direct reply, got {:?}", other),
    }
}

#[test]
fn valid_envelope_is_dispatched_with_injected_identity() {
    let mut s = active_session();
    let text =
        br#"{"system":"python_repo","task":{"name":"get_files","payload":{"data":"src"}}}"#;
    let r = s.handle(Ok(WsFrame::Text(text.to_vec())), 1);
    match r {
        FrameResponse::Dispatch(sys, connect, task) => {
            assert_eq!(sys, WebsocketSystems::PythonRepo);
            assert_eq!(connect.id, ConnectionId(1));
            assert_eq!(connect.addr, ReplyHandle(9));
            assert_eq!(task.name, b"get_files".to_vec());
            assert_eq!(task.payload.id, Some(ConnectionId(1)));
        },
        other => panic!("expected a dispatch, got {:?}", other),
    }
}

#[test]
fn delivery_is_dropped_once_session_closes() {
    let mut s = active_session();
    let msg = ClientMessage {
        system: Some(WebsocketSystems::PythonRepo),
        success: true,
        payload: JsonValue::Null,
    };
    assert!(s.deliver(msg).is_some());
    s.handle(Ok(WsFrame::Close), 1);
    let msg2 = ClientMessage {
        system: Some(WebsocketSystems::PythonRepo),
        success: true,
        payload: JsonValue::Null,
    };
    assert!(s.deliver(msg2).is_none());
}

#[test]
fn slash_form_parses_to_the_identical_envelope() {
    let w = WSMessage::from_str(b"python_repo/get_files/tests/examples").unwrap();
    let env = w.to_envelope(ConnectionId(3));
    assert_eq!(env.system, WebsocketSystems::PythonRepo);
    assert_eq!(env.task.name, b"get_files".to_vec());
    assert_eq!(env.task.payload.id, Some(ConnectionId(3)));
    match env.task.payload.data {
        ws_gateway::json::JsonValue::Obj(fields) => {
            assert_eq!(fields.len(), 1);
            assert_eq!(fields[0].0, b"data".to_vec());
            assert_eq!(
                fields[0].1,
                ws_gateway::json::JsonValue::Str(b"tests/examples".to_vec())
            );
        },
        other => panic!("expected an object payload, got {:?}", other),
    }
}

#[test]
fn slash_form_rejects_incomplete_and_unknown_messages() {
    match WSMessage::from_str(b"python_repo") {
        Err(WebsocketError::MessageParseError(c)) => {
            assert_eq!(c, b"Incomplete message: python_repo".to_vec());
        },
        other => panic!("expected a parse error, got {:?}", other),
    }
    match WSMessage::from_str(b"python_repo/get_files") {
        Err(WebsocketError::MessageParseError(c)) => {
            assert_eq!(c, b"Incomplete message: python_repo/get_files".to_vec());
        },
        other => panic!("expected a parse error, got {:?}", other),
    }
    match WSMessage::from_str(b"other_service/get_files/x") {
        Err(WebsocketError::MessageParseError(c)) => {
            assert_eq!(c, b"Invalid service: other_service".to_vec());
        },
        other => panic!("expected a parse error, got {:?}", other),
    }
}
