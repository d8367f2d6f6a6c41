use ws_gateway::json::JsonValue;
use ws_gateway::message::{Connect, ConnectionId, ReplyHandle, TaskMessage, TaskPayload, WebsocketSystems};
use ws_gateway::python_repo::{GetFiles, PythonRepoSystem};
use ws_gateway::subsystem::WebsocketSubSystem;

fn payload_for(path: &[u8], id: Option<ConnectionId>) -> TaskPayload {
    TaskPayload {
        id,
        data: JsonValue::Obj(vec![(b"data".to_vec(), JsonValue::Str(path.to_vec()))]),
    }
}

fn task_for(name: &[u8], path: &[u8], id: ConnectionId) -> TaskMessage {
    TaskMessage { name: name.to_vec(), payload: payload_for(path, Some(id)) }
}

fn worker_with(entries: &[(u128, u64)]) -> PythonRepoSystem {
    let mut sys = PythonRepoSystem::default();
    for (id, addr) in entries {
        sys.handle_connect(Connect { id: ConnectionId(*id), addr: ReplyHandle(*addr) });
    }
    sys
}

#[test]
fn connect_is_idempotent_and_latest_handle_wins() {
    let mut sys = PythonRepoSystem::default();
    let id = ConnectionId(1);
    sys.handle_connect(Connect { id, addr: ReplyHandle(10) });
    sys.handle_connect(Connect { id, addr: ReplyHandle(20) });
    assert_eq!(sys.get_address(&id), Some(&ReplyHandle(20)));
}

#[test]
fn results_are_isolated_between_sessions() {
    let sys = worker_with(&[(1, 10), (2, 20)]);
    let r = sys.handle_task(task_for(b"get_files", b"tests/does_not_exist", ConnectionId(1)));
    let (handle, msg) = r.unwrap();
    assert_eq!(handle, ReplyHandle(10));
    assert_ne!(handle, ReplyHandle(20));
    assert_eq!(msg.system, Some(WebsocketSystems::PythonRepo));
    assert!(!msg.success);
}

#[test]
fn invalid_path_failure_names_the_rejected_path() {
    let sys = worker_with(&[(1, 10)]);
    let r = sys.handle_task(task_for(b"get_files", b"tests/does_not_exist", ConnectionId(1)));
    let (_, msg) = r.unwrap();
    assert!(!msg.success);
    assert_eq!(
        msg.payload,
        JsonValue::Str(b"Invalid path: tests/does_not_exist".to_vec())
    );
}

#[test]
fn existing_path_lists_files_successfully() {
    let sys = worker_with(&[(1, 10)]);
    let r = sys.handle_task(task_for(b"get_files", b"src", ConnectionId(1)));
    let (handle, msg) = r.unwrap();
    assert_eq!(handle, ReplyHandle(10));
    assert_eq!(msg.system, Some(WebsocketSystems::PythonRepo));
    assert!(msg.success, "listing an existing path must succeed");
    match msg.payload {
        JsonValue::Arr(files) => {
            for f in files {
                assert!(matches!(f, JsonValue::Str(_)));
            }
        },
        other => panic!("expected an array payload, got {:?}", other),
    }
}

#[test]
fn unknown_task_name_fails_without_running_anything() {
    let sys = worker_with(&[(1, 10)]);
    let r = sys.handle_task(task_for(b"delete_everything", b"src", ConnectionId(1)));
    let (_, msg) = r.unwrap();
    assert!(!msg.success);
    assert_eq!(
        msg.payload,
        JsonValue::Str(b"Unknown task: delete_everything".to_vec())
    );
}

#[test]
fn payload_without_path_string_fails_validation() {
    let sys = worker_with(&[(1, 10)]);
    let task = TaskMessage {
        name: b"get_files".to_vec(),
        payload: TaskPayload { id: Some(ConnectionId(1)), data: JsonValue::Null },
    };
    let (_, msg) = sys.handle_task(task).unwrap();
    assert!(!msg.success);
    assert_eq!(msg.payload, JsonValue::Str(b"No `path` found on payload.".to_vec()));
}

#[test]
fn task_without_identity_is_dropped() {
    let sys = worker_with(&[(1, 10)]);
    let task = TaskMessage { name: b"get_files".to_vec(), payload: payload_for(b"src", None) };
    assert!(sys.handle_task(task).is_none());
}

#[test]
fn result_for_unregistered_connection_is_dropped() {
    let sys = worker_with(&[(1, 10)]);
    let r = sys.handle_task(task_for(b"get_files", b"src", ConnectionId(99)));
    assert!(r.is_none());
}

#[test]
fn try_from_validates_payload_shape() {
    let ok = GetFiles::try_from(payload_for(b"somewhere", Some(ConnectionId(5)))).unwrap();
    assert_eq!(ok.id, ConnectionId(5));
    assert_eq!(ok.path, b"somewhere".to_vec());
    assert!(GetFiles::try_from(payload_for(b"somewhere", None)).is_err());
    let bad = TaskPayload { id: Some(ConnectionId(5)), data: JsonValue::Str(b"x".to_vec()) };
    assert!(GetFiles::try_from(bad).is_err());
}
