use ws_gateway::json::{parse_json, serialize_json, JsonValue};
use ws_gateway::message::{
    ClientMessage, ConnectionId, WebsocketMessage, WebsocketSystems,
};
use ws_gateway::python_repo::{task_from_name, Tasks};

fn obj(fields: Vec<(&[u8], JsonValue)>) -> JsonValue {
    JsonValue::Obj(fields.into_iter().map(|(k, v)| (k.to_vec(), v)).collect())
}

fn envelope_text() -> &'static [u8] {
    br#"{"system":"python_repo","task":{"name":"get_files","payload":{"data":"tests/examples"}}}"#
}

#[test]
fn correctly_deserialize_websocket_message() {
    let message = WebsocketMessage::decode(envelope_text()).unwrap();
    assert_eq!(WebsocketSystems::PythonRepo, message.system);
    assert_eq!(None, message.task.payload.id);
}

#[test]
fn parse_injects_the_session_identity() {
    let id = ConnectionId(7);
    let message = WebsocketMessage::parse(id, envelope_text()).unwrap();
    assert_eq!(WebsocketSystems::PythonRepo, message.system);
    assert_eq!(Some(id), message.task.payload.id);
}

#[test]
fn correctly_deserialize_task_name() {
    let id = ConnectionId(7);
    let message = WebsocketMessage::parse(id, envelope_text()).unwrap();
    let task = task_from_name(&message.task.name).unwrap();
    assert_eq!(Tasks::GetFiles, task);
}

#[test]
fn parse_rejects_empty_input() {
    assert!(WebsocketMessage::parse(ConnectionId(1), b"").is_err());
    assert_eq!(parse_json(b""), None);
    assert_eq!(parse_json(b"   "), None);
}

#[test]
fn parse_rejects_missing_system() {
    let text = br#"{"task":{"name":"get_files","payload":{"data":"x"}}}"#;
    assert!(WebsocketMessage::parse(ConnectionId(1), text).is_err());
}

#[test]
fn parse_rejects_unknown_system() {
    let text = br#"{"system":"other","task":{"name":"get_files","payload":{"data":"x"}}}"#;
    assert!(WebsocketMessage::parse(ConnectionId(1), text).is_err());
}

#[test]
fn parse_rejects_non_string_task_name() {
    let text = br#"{"system":"python_repo","task":{"name":7,"payload":{"data":"x"}}}"#;
    assert!(WebsocketMessage::parse(ConnectionId(1), text).is_err());
}

#[test]
fn json_round_trip_plain_values() {
    let values = vec![
        JsonValue::Null,
        JsonValue::Bool(true),
        JsonValue::Bool(false),
        JsonValue::Num(b"42".to_vec()),
        JsonValue::Num(b"-3.25e2".to_vec()),
        JsonValue::Str(b"hello world".to_vec()),
        JsonValue::Arr(vec![]),
        JsonValue::Obj(vec![]),
    ];
    for v in values {
        let text = serialize_json(&v);
        let back = parse_json(&text).unwrap();
        assert_eq!(back, v);
    }
}

#[test]
fn json_round_trip_nested_value() {
    let v = obj(vec![
        (b"a", JsonValue::Arr(vec![
            JsonValue::Num(b"1".to_vec()),
            JsonValue::Str(b"two".to_vec()),
            obj(vec![(b"deep", JsonValue::Null)]),
        ])),
        (b"b", JsonValue::Bool(false)),
    ]);
    let text = serialize_json(&v);
    let back = parse_json(&text).unwrap();
    assert_eq!(back, v);
}

#[test]
fn json_round_trip_escaped_strings() {
    let tricky = JsonValue::Str(b"a \"quoted\" back\\slash\nnew\tline\rdone \x01\x1f".to_vec());
    let text = serialize_json(&tricky);
    let back = parse_json(&text).unwrap();
    assert_eq!(back, tricky);
}

#[test]
fn json_parser_accepts_whitespace_and_escapes() {
    let text = b" { \"a\" : [ 1 , true , null ] , \"b\" : \"x\\u0041\\t\" } ";
    let v = parse_json(text).unwrap();
    let expected = obj(vec![
        (b"a", JsonValue::Arr(vec![
            JsonValue::Num(b"1".to_vec()),
            JsonValue::Bool(true),
            JsonValue::Null,
        ])),
        (b"b", JsonValue::Str(b"xA\t".to_vec())),
    ]);
    assert_eq!(v, expected);
}

#[test]
fn unicode_escapes_outside_ascii_are_rejected_raw_utf8_passes() {
    assert_eq!(parse_json(br#""\u0080""#), None);
    assert_eq!(
        parse_json(br#""\u007f""#),
        Some(JsonValue::Str(vec![0x7f]))
    );
    let raw = [34u8, 0xE2, 0x82, 0xAC, 34u8];
    assert_eq!(
        parse_json(&raw),
        Some(JsonValue::Str(vec![0xE2, 0x82, 0xAC]))
    );
}

#[test]
fn deeply_nested_value_round_trips() {
    let mut v = JsonValue::Str(b"leaf".to_vec());
    for _ in 0..40 {
        v = JsonValue::Arr(vec![v]);
    }
    let text = serialize_json(&v);
    assert_eq!(parse_json(&text), Some(v));
}

#[test]
fn nesting_beyond_the_depth_limit_is_rejected() {
    let mut deep: Vec<u8> = Vec::new();
    for _ in 0..129 {
        deep.push(b'[');
    }
    for _ in 0..129 {
        deep.push(b']');
    }
    assert_eq!(parse_json(&deep), None);
    let mut ok: Vec<u8> = Vec::new();
    for _ in 0..128 {
        ok.push(b'[');
    }
    for _ in 0..128 {
        ok.push(b']');
    }
    assert!(parse_json(&ok).is_some());
}

#[test]
fn large_flat_inputs_round_trip_without_deep_recursion() {
    let mut els = Vec::new();
    for _ in 0..50_000 {
        els.push(JsonValue::Num(b"1".to_vec()));
    }
    let v = JsonValue::Arr(els);
    let text = serialize_json(&v);
    assert_eq!(parse_json(&text), Some(v));
    let s = JsonValue::Str(vec![b'a'; 100_000]);
    let text2 = serialize_json(&s);
    assert_eq!(parse_json(&text2), Some(s));
}

#[test]
fn json_parser_rejects_malformed_text() {
    assert_eq!(parse_json(b"{"), None);
    assert_eq!(parse_json(b"{\"a\":}"), None);
    assert_eq!(parse_json(b"[1,]"), None);
    assert_eq!(parse_json(b"tru"), None);
    assert_eq!(parse_json(b"\"unterminated"), None);
    assert_eq!(parse_json(b"{} trailing"), None);
}

#[test]
fn parse_rejects_missing_payload_member() {
    let text = br#"{"system":"python_repo","task":{"name":"get_files"}}"#;
    assert!(WebsocketMessage::parse(ConnectionId(1), text).is_err());
}

#[test]
fn first_member_wins_on_duplicate_keys() {
    let text = br#"{"a":1,"a":2}"#;
    let v = parse_json(text).unwrap();
    let expected = obj(vec![
        (b"a", JsonValue::Num(b"1".to_vec())),
        (b"a", JsonValue::Num(b"2".to_vec())),
    ]);
    assert_eq!(v, expected);
    let envelope = br#"{"system":"python_repo","system":"other","task":{"name":"n","payload":{}}}"#;
    let m = WebsocketMessage::decode(envelope).unwrap();
    assert_eq!(m.system, WebsocketSystems::PythonRepo);
}

#[test]
fn serialized_client_message_reads_back_as_generic_json() {
    let msg = ClientMessage {
        system: Some(WebsocketSystems::PythonRepo),
        success: true,
        payload: JsonValue::Arr(vec![JsonValue::Str(b"a.py".to_vec())]),
    };
    let out = msg.serialize();
    let v: serde_json::Value = serde_json::from_slice(&out).unwrap();
    assert_eq!(v.get("system").unwrap().as_str(), Some("python_repo"));
    assert_eq!(v.get("success").unwrap().as_bool(), Some(true));
    assert!(v.get("payload").unwrap().to_string().contains("a.py"));
}

#[test]
fn session_failure_message_has_null_system() {
    let msg = ClientMessage {
        system: None,
        success: false,
        payload: JsonValue::Str(b"cause".to_vec()),
    };
    let out = msg.serialize();
    assert_eq!(out, br#"{"system":null,"success":false,"payload":"cause"}"#.to_vec());
    let v: serde_json::Value = serde_json::from_slice(&out).unwrap();
    assert!(v.get("system").unwrap().is_null());
    assert_eq!(v.get("success").unwrap().as_bool(), Some(false));
}

#[test]
fn parser_agrees_with_generic_json_writer() {
    let mut m = serde_json::Map::new();
    m.insert(
        "k".to_string(),
        serde_json::Value::Array(vec![
            serde_json::Value::Bool(true),
            serde_json::Value::String("s".to_string()),
        ]),
    );
    let text = serde_json::to_string(&serde_json::Value::Object(m)).unwrap();
    let v = parse_json(text.as_bytes()).unwrap();
    let expected = obj(vec![(b"k", JsonValue::Arr(vec![
        JsonValue::Bool(true),
        JsonValue::Str(b"s".to_vec()),
    ]))]);
    assert_eq!(v, expected);
}
