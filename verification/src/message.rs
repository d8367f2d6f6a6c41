//! Typed messages of the gateway: the command envelope read from clients,
//! the client message written back, and the identities that route replies.

use crate::error::WebsocketError;
use crate::json::{
    bytes_eq, obj_get, obj_lookup, obj_view, parse_json, parse_text, ser, serialize_json, wf,
    JsonVal, JsonValue,
};
use vstd::prelude::*;

verus! {

/// Identity of one client connection, unique for the process lifetime.
#[derive(Debug, Clone, Copy, PartialEq, Eq, Structural)]
pub struct ConnectionId(pub u128);

/// Relies on `uuid::Uuid::new_v4` for a fresh random 128-bit identifier.
#[verifier::external_body]
fn fresh_id_bits() -> u128 {
    uuid::Uuid::new_v4().as_u128()
}

impl ConnectionId {
    /// A fresh identifier for a new session.
    pub fn new() -> ConnectionId {
        ConnectionId(fresh_id_bits())
    }
}

/// Opaque, write-only destination for client messages: a token the shell
/// around the core resolves to the owning session's inbound queue.
#[derive(Debug, Clone, Copy, PartialEq, Eq, Structural)]
pub struct ReplyHandle(pub u64);

/// The closed set of addressable subsystems.
#[derive(Debug, Clone, Copy, PartialEq, Eq, Structural)]
pub enum WebsocketSystems {
    PythonRepo,
}

/// The wire name of a subsystem.
pub open spec fn system_name(s: WebsocketSystems) -> Seq<u8> {
    match s {
        WebsocketSystems::PythonRepo => seq![
            112u8,
            121u8,
            116u8,
            104u8,
            111u8,
            110u8,
            95u8,
            114u8,
            101u8,
            112u8,
            111u8,
        ],
    }
}

/// The subsystem a wire name denotes, if any.
pub open spec fn system_of_name(name: Seq<u8>) -> Option<WebsocketSystems> {
    if name == system_name(WebsocketSystems::PythonRepo) {
        Some(WebsocketSystems::PythonRepo)
    } else {
        None
    }
}

/// The wire name of a subsystem, `"python_repo"` for the one shipped.
pub fn system_name_bytes(s: WebsocketSystems) -> (r: Vec<u8>)
    ensures
        r@ == system_name(s),
{
    let r: Vec<u8> = vec![112u8, 121u8, 116u8, 104u8, 111u8, 110u8, 95u8, 114u8, 101u8, 112u8, 111u8];
    proof {
        assert(r@ =~= system_name(WebsocketSystems::PythonRepo));
    }
    r
}

/// The subsystem a wire name denotes, if any.
pub fn system_from_name(name: &[u8]) -> (r: Option<WebsocketSystems>)
    ensures
        r == system_of_name(name@),
{
    let expect = system_name_bytes(WebsocketSystems::PythonRepo);
    if bytes_eq(name, expect.as_slice()) {
        Some(WebsocketSystems::PythonRepo)
    } else {
        None
    }
}

/// The opaque payload of a task together with the connection it came from.
/// The identity is injected by the dispatcher, never read from the wire.
#[derive(Debug, PartialEq, Eq)]
pub struct TaskPayload {
    pub id: Option<ConnectionId>,
    pub data: JsonValue,
}

/// One task for a subsystem worker: a handler name and its payload.
#[derive(Debug, PartialEq, Eq)]
pub struct TaskMessage {
    pub name: Vec<u8>,
    pub payload: TaskPayload,
}

/// A parsed command envelope: the subsystem a task is addressed to.
#[derive(Debug, PartialEq, Eq)]
pub struct WebsocketMessage {
    pub system: WebsocketSystems,
    pub task: TaskMessage,
}

/// Registration of a session's reply destination with a subsystem worker.
#[derive(Debug, Clone, Copy, PartialEq, Eq, Structural)]
pub struct Connect {
    pub id: ConnectionId,
    pub addr: ReplyHandle,
}

// The member keys of the wire format.
pub open spec fn key_system() -> Seq<u8> {
    seq![115u8, 121u8, 115u8, 116u8, 101u8, 109u8]
}

pub open spec fn key_task() -> Seq<u8> {
    seq![116u8, 97u8, 115u8, 107u8]
}

pub open spec fn key_name() -> Seq<u8> {
    seq![110u8, 97u8, 109u8, 101u8]
}

pub open spec fn key_payload() -> Seq<u8> {
    seq![112u8, 97u8, 121u8, 108u8, 111u8, 97u8, 100u8]
}

pub open spec fn key_success() -> Seq<u8> {
    seq![115u8, 117u8, 99u8, 99u8, 101u8, 115u8, 115u8]
}

pub open spec fn key_data() -> Seq<u8> {
    seq![100u8, 97u8, 116u8, 97u8]
}

pub fn key_data_bytes() -> (r: Vec<u8>)
    ensures
        r@ == key_data(),
{
    let r: Vec<u8> = vec![100u8, 97u8, 116u8, 97u8];
    proof {
        assert(r@ =~= key_data());
    }
    r
}

fn key_system_bytes() -> (r: Vec<u8>)
    ensures
        r@ == key_system(),
{
    let r: Vec<u8> = vec![115u8, 121u8, 115u8, 116u8, 101u8, 109u8];
    proof {
        assert(r@ =~= key_system());
    }
    r
}

fn key_task_bytes() -> (r: Vec<u8>)
    ensures
        r@ == key_task(),
{
    let r: Vec<u8> = vec![116u8, 97u8, 115u8, 107u8];
    proof {
        assert(r@ =~= key_task());
    }
    r
}

fn key_name_bytes() -> (r: Vec<u8>)
    ensures
        r@ == key_name(),
{
    let r: Vec<u8> = vec![110u8, 97u8, 109u8, 101u8];
    proof {
        assert(r@ =~= key_name());
    }
    r
}

fn key_payload_bytes() -> (r: Vec<u8>)
    ensures
        r@ == key_payload(),
{
    let r: Vec<u8> = vec![112u8, 97u8, 121u8, 108u8, 111u8, 97u8, 100u8];
    proof {
        assert(r@ =~= key_payload());
    }
    r
}

fn key_success_bytes() -> (r: Vec<u8>)
    ensures
        r@ == key_success(),
{
    let r: Vec<u8> = vec![115u8, 117u8, 99u8, 99u8, 101u8, 115u8, 115u8];
    proof {
        assert(r@ =~= key_success());
    }
    r
}

/// The cause reported when an inbound text is not a well-formed envelope.
pub open spec fn parse_fail_cause() -> Seq<u8> {
    seq![
        70u8,
        97u8,
        105u8,
        108u8,
        101u8,
        100u8,
        32u8,
        116u8,
        111u8,
        32u8,
        100u8,
        101u8,
        115u8,
        101u8,
        114u8,
        105u8,
        97u8,
        108u8,
        105u8,
        122u8,
        101u8,
        32u8,
        109u8,
        101u8,
        115u8,
        115u8,
        97u8,
        103u8,
        101u8,
        46u8,
    ]
}

pub fn parse_fail_cause_bytes() -> (r: Vec<u8>)
    ensures
        r@ == parse_fail_cause(),
{
    let r: Vec<u8> = vec![
        70u8, 97u8, 105u8, 108u8, 101u8, 100u8, 32u8, 116u8, 111u8, 32u8, 100u8, 101u8, 115u8,
        101u8, 114u8, 105u8, 97u8, 108u8, 105u8, 122u8, 101u8, 32u8, 109u8, 101u8, 115u8, 115u8,
        97u8, 103u8, 101u8, 46u8,
    ];
    proof {
        assert(r@ =~= parse_fail_cause());
    }
    r
}

/// The typed envelope denoted by a JSON value of the documented shape:
/// an object with a recognized `system` name and a `task` object holding a
/// string `name` and any `payload`.
pub open spec fn envelope_of(v: JsonVal) -> Option<(WebsocketSystems, Seq<u8>, JsonVal)> {
    match v {
        JsonVal::Obj(fields) => match obj_lookup(fields, key_system()) {
            Some(JsonVal::Str(sysname)) => match system_of_name(sysname) {
                Some(sys) => match obj_lookup(fields, key_task()) {
                    Some(JsonVal::Obj(tf)) => match obj_lookup(tf, key_name()) {
                        Some(JsonVal::Str(task_name)) => match obj_lookup(tf, key_payload()) {
                            Some(payload) => Some((sys, task_name, payload)),
                            None => None,
                        },
                        _ => None,
                    },
                    _ => None,
                },
                None => None,
            },
            _ => None,
        },
        _ => None,
    }
}

/// The typed envelope denoted by an inbound text, if it parses as JSON of
/// the documented shape.
pub open spec fn parse_envelope(s: Seq<u8>) -> Option<(WebsocketSystems, Seq<u8>, JsonVal)> {
    match parse_text(s) {
        Some(j) => envelope_of(j),
        None => None,
    }
}

/// Removal of the first member with the given key, handing its value out.
/// Lookups of every other key are unaffected.
pub(crate) fn obj_take(fields: &mut Vec<(Vec<u8>, JsonValue)>, key: &[u8]) -> (r: Option<JsonValue>)
    ensures
        match r {
            Some(v) => obj_lookup(obj_view(old(fields)@), key@) == Some(v@) && forall|k2: Seq<u8>|
                k2 != key@ ==> obj_lookup(obj_view(final(fields)@), k2) == obj_lookup(
                    obj_view(old(fields)@),
                    k2,
                ),
            None => obj_lookup(obj_view(old(fields)@), key@) is None && *final(fields) == *old(
                fields,
            ),
        },
{
    proof {
        crate::json::lemma_obj_view(fields@);
        assert(obj_view(fields@).skip(0) =~= obj_view(fields@));
    }
    let n = fields.len();
    for i in 0..n
        invariant
            n == fields.len(),
            fields == old(fields),
            obj_lookup(obj_view(fields@), key@) == obj_lookup(
                obj_view(fields@).skip(i as int),
                key@,
            ),
            forall|k: int| 0 <= k < i ==> obj_view(fields@)[k].0 != key@,
    {
        proof {
            crate::json::lemma_obj_view(fields@);
            assert(obj_view(fields@).skip(i as int)[0] == obj_view(fields@)[i as int]);
            assert(obj_view(fields@).skip(i as int).skip(1) =~= obj_view(fields@).skip(i + 1));
        }
        if bytes_eq(fields[i].0.as_slice(), key) {
            let ghost pre = obj_view(fields@);
            let (_, v) = fields.remove(i);
            proof {
                crate::json::lemma_obj_view_remove(old(fields)@, i as int);
                assert(obj_view(fields@) == pre.remove(i as int));
                lemma_obj_lookup_remove_all(pre, i as int);
            }
            return Some(v);
        }
    }
    proof {
        assert(obj_view(fields@).skip(n as int).len() == 0);
    }
    None
}

/// Removing a member does not change the lookup of any other key, when every
/// earlier member has a different key than the removed one.
proof fn lemma_obj_lookup_remove_all(fs: Seq<(Seq<u8>, JsonVal)>, i: int)
    requires
        0 <= i < fs.len(),
    ensures
        forall|k2: Seq<u8>|
            k2 != fs[i].0 ==> obj_lookup(fs.remove(i), k2) == obj_lookup(fs, k2),
    decreases i,
{
    assert forall|k2: Seq<u8>| k2 != fs[i].0 implies obj_lookup(fs.remove(i), k2) == obj_lookup(
        fs,
        k2,
    ) by {
        lemma_obj_lookup_remove(fs, i, k2);
    }
}

proof fn lemma_obj_lookup_remove(fs: Seq<(Seq<u8>, JsonVal)>, i: int, k2: Seq<u8>)
    requires
        0 <= i < fs.len(),
        fs[i].0 != k2,
    ensures
        obj_lookup(fs.remove(i), k2) == obj_lookup(fs, k2),
    decreases i,
{
    if i == 0 {
        assert(fs.remove(0) =~= fs.skip(1));
    } else {
        assert(fs.remove(i)[0] == fs[0]);
        if fs[0].0 == k2 {
        } else {
            assert(fs.remove(i).skip(1) =~= fs.skip(1).remove(i - 1));
            assert(fs.skip(1)[i - 1] == fs[i]);
            lemma_obj_lookup_remove(fs.skip(1), i - 1, k2);
        }
    }
}

impl WebsocketMessage {
    /// The parse of an inbound text frame into a typed envelope, with the
    /// session's identity injected into the payload — never one the client
    /// supplied. It fails exactly when the text is not JSON of the
    /// documented envelope shape.
    pub fn parse(id: ConnectionId, message: &[u8]) -> (r: Result<WebsocketMessage, WebsocketError>)
        ensures
            match r {
                Ok(m) => parse_envelope(message@) == Some(
                    (m.system, m.task.name@, m.task.payload.data@),
                ) && m.task.payload.id == Some(id),
                Err(e) => parse_envelope(message@) is None && (e matches
                    WebsocketError::MessageParseError(c) && c@ == parse_fail_cause()),
            },
    {
        match Self::decode(message) {
            Ok(mut m) => {
                m.task.payload.id = Some(id);
                Ok(m)
            },
            Err(e) => Err(e),
        }
    }

    /// The decoding alone: the typed envelope an inbound text denotes, with
    /// no connection identity on it yet.
    pub fn decode(message: &[u8]) -> (r: Result<WebsocketMessage, WebsocketError>)
        ensures
            match r {
                Ok(m) => parse_envelope(message@) == Some(
                    (m.system, m.task.name@, m.task.payload.data@),
                ) && m.task.payload.id is None,
                Err(e) => parse_envelope(message@) is None && (e matches
                    WebsocketError::MessageParseError(c) && c@ == parse_fail_cause()),
            },
    {
        let parsed = parse_json(message);
        match parsed {
            Some(JsonValue::Obj(mut fields)) => {
                let sys = {
                    let ks = key_system_bytes();
                    match obj_get(&fields, ks.as_slice()) {
                        Some(JsonValue::Str(sysname)) => system_from_name(sysname.as_slice()),
                        _ => None,
                    }
                };
                match sys {
                    None => Err(WebsocketError::MessageParseError(parse_fail_cause_bytes())),
                    Some(system) => {
                        let kt = key_task_bytes();
                        match obj_take(&mut fields, kt.as_slice()) {
                            Some(JsonValue::Obj(mut tf)) => {
                                let kn = key_name_bytes();
                                let name = obj_take(&mut tf, kn.as_slice());
                                match name {
                                    Some(JsonValue::Str(task_name)) => {
                                        let kp = key_payload_bytes();
                                        match obj_take(&mut tf, kp.as_slice()) {
                                            Some(payload) => Ok(
                                                WebsocketMessage {
                                                    system,
                                                    task: TaskMessage {
                                                        name: task_name,
                                                        payload: TaskPayload {
                                                            id: None,
                                                            data: payload,
                                                        },
                                                    },
                                                },
                                            ),
                                            None => Err(
                                                WebsocketError::MessageParseError(
                                                    parse_fail_cause_bytes(),
                                                ),
                                            ),
                                        }
                                    },
                                    _ => Err(
                                        WebsocketError::MessageParseError(parse_fail_cause_bytes()),
                                    ),
                                }
                            },
                            _ => Err(WebsocketError::MessageParseError(parse_fail_cause_bytes())),
                        }
                    },
                }
            },
            _ => Err(WebsocketError::MessageParseError(parse_fail_cause_bytes())),
        }
    }
}

/// The JSON shape of one outbound client message.
pub open spec fn client_msg_json(
    system: Option<WebsocketSystems>,
    success: bool,
    payload: JsonVal,
) -> JsonVal {
    JsonVal::Obj(
        seq![
            (
                key_system(),
                match system {
                    Some(s) => JsonVal::Str(system_name(s)),
                    None => JsonVal::Null,
                },
            ),
            (key_success(), JsonVal::Bool(success)),
            (key_payload(), payload),
        ],
    )
}

/// One message to a client: which subsystem answered (none for session-level
/// failures), whether the task succeeded, and the payload.
#[derive(Debug, PartialEq, Eq)]
pub struct ClientMessage {
    pub system: Option<WebsocketSystems>,
    pub success: bool,
    pub payload: JsonValue,
}

impl ClientMessage {
    /// A message is well-formed when its payload is.
    pub open spec fn wf(&self) -> bool {
        wf(self.payload@)
    }

    /// The serialized text of this message: the documented JSON shape,
    /// compact form. Total: it never fails.
    pub fn serialize(self) -> (out: Vec<u8>)
        ensures
            out@ == ser(client_msg_json(self.system, self.success, self.payload@)),
    {
        let sysv = match self.system {
            Some(s) => JsonValue::Str(system_name_bytes(s)),
            None => JsonValue::Null,
        };
        let mut fields: Vec<(Vec<u8>, JsonValue)> = Vec::new();
        fields.push((key_system_bytes(), sysv));
        fields.push((key_success_bytes(), JsonValue::Bool(self.success)));
        fields.push((key_payload_bytes(), self.payload));
        let j = JsonValue::Obj(fields);
        proof {
            let fs = j->Obj_0@;
            crate::json::lemma_obj_view(fs);
            assert(fs.len() == 3);
            assert(obj_view(fs)[0] == (fs[0].0@, fs[0].1@));
            assert(obj_view(fs)[1] == (fs[1].0@, fs[1].1@));
            assert(obj_view(fs)[2] == (fs[2].0@, fs[2].1@));
            assert(obj_view(fs) =~= client_msg_json(
                self.system,
                self.success,
                self.payload@,
            )->Obj_0);
        }
        serialize_json(&j)
    }
}

/// Sources of a failure payload: an error that renders as its cause text.
pub trait ErrorCause {
    /// The cause text.
    spec fn cause_spec(&self) -> Seq<u8>;

    /// The cause text, as owned bytes.
    fn into_cause(self) -> (r: Vec<u8>) where Self: Sized
        ensures
            r@ == self.cause_spec(),
    ;
}

/// The subsystem a result of this kind reports under.
pub trait SubSystemPart {
    /// The reported subsystem.
    spec fn system_spec(&self) -> Option<WebsocketSystems>;

    fn system(&self) -> (r: Option<WebsocketSystems>)
        ensures
            r == self.system_spec(),
    ;
}

/// Translation of a subsystem result into one client message.
pub trait ClientMessager: SubSystemPart {
    /// Whether the result is a success.
    spec fn success_spec(&self) -> bool;

    /// The payload the client sees.
    spec fn payload_spec(&self) -> JsonVal;

    fn success(&self) -> (r: bool)
        ensures
            r == self.success_spec(),
    ;

    fn payload(self) -> (r: JsonValue) where Self: Sized
        ensures
            r@ == self.payload_spec(),
    ;

    /// The uniform translation into a client message.
    fn to_message(self) -> (r: ClientMessage) where Self: Sized
        ensures
            r.system == self.system_spec(),
            r.success == self.success_spec(),
            r.payload@ == self.payload_spec(),
    {
        let system = self.system();
        let success = self.success();
        let payload = self.payload();
        ClientMessage { system, success, payload }
    }
}

impl<E: ErrorCause> ClientMessager for Result<JsonValue, E> where Result<
    JsonValue,
    E,
>: SubSystemPart {
    open spec fn success_spec(&self) -> bool {
        self is Ok
    }

    open spec fn payload_spec(&self) -> JsonVal {
        match self {
            Ok(v) => v@,
            Err(e) => JsonVal::Str(e.cause_spec()),
        }
    }

    fn success(&self) -> (r: bool) {
        self.is_ok()
    }

    fn payload(self) -> (r: JsonValue) {
        match self {
            Ok(v) => v,
            Err(e) => JsonValue::Str(e.into_cause()),
        }
    }
}

/// Serializing a client message and reading the text back as generic JSON
/// yields exactly its `system`, `success` and `payload` fields. The payload
/// must fit inside the parser's depth limit; every payload this library
/// builds nests at most two containers deep.
pub proof fn lemma_client_message_round_trip(
    system: Option<WebsocketSystems>,
    success: bool,
    payload: JsonVal,
)
    requires
        wf(payload),
        crate::json::depth_le(payload, (crate::json::MAX_JSON_DEPTH - 1) as nat),
    ensures
        ({
            let j = client_msg_json(system, success, payload);
            &&& parse_text(ser(j)) == Some(j)
            &&& obj_lookup(j->Obj_0, key_system()) == Some(
                match system {
                    Some(s) => JsonVal::Str(system_name(s)),
                    None => JsonVal::Null,
                },
            )
            &&& obj_lookup(j->Obj_0, key_success()) == Some(JsonVal::Bool(success))
            &&& obj_lookup(j->Obj_0, key_payload()) == Some(payload)
        }),
{
    let j = client_msg_json(system, success, payload);
    let fields = j->Obj_0;
    assert(wf(j)) by {
        assert forall|i: int| 0 <= i < fields.len() implies wf(#[trigger] fields[i].1) by {
            if i == 0 {
                assert(wf(fields[0].1)) by {
                    match system {
                        Some(s) => {},
                        None => {},
                    }
                }
            }
        }
    }
    assert(crate::json::depth_le(j, crate::json::MAX_JSON_DEPTH as nat)) by {
        assert forall|i: int|
            0 <= i < fields.len() implies crate::json::depth_le(
            #[trigger] fields[i].1,
            (crate::json::MAX_JSON_DEPTH - 1) as nat,
        ) by {
            if i == 0 {
                assert(crate::json::depth_le(fields[0].1, (crate::json::MAX_JSON_DEPTH - 1) as nat))
                    by {
                    match system {
                        Some(s) => {},
                        None => {},
                    }
                }
            }
        }
    }
    crate::json::lemma_parse_text_ser(j);
    assert(parse_text(ser(j)) == Some(j));
    assert(fields[0].0 == key_system());
    assert(obj_lookup(fields, key_system()) == Some(fields[0].1));
    assert(key_success().len() != key_system().len());
    assert(key_payload()[0] == 112 && key_system()[0] == 115 && key_success()[0] == 115);
    assert(key_payload().len() == 7 && key_success().len() == 7 && key_payload() != key_success());
    assert(fields.skip(1) =~= seq![
        (key_success(), JsonVal::Bool(success)),
        (key_payload(), payload),
    ]);
    assert(fields.skip(1).skip(1) =~= seq![(key_payload(), payload)]);
    assert(obj_lookup(fields, key_success()) == obj_lookup(fields.skip(1), key_success()));
    assert(obj_lookup(fields.skip(1), key_success()) == Some(JsonVal::Bool(success)));
    assert(obj_lookup(fields, key_payload()) == obj_lookup(fields.skip(1), key_payload()));
    assert(obj_lookup(fields.skip(1), key_payload()) == obj_lookup(
        fields.skip(1).skip(1),
        key_payload(),
    ));
    assert(obj_lookup(fields.skip(1).skip(1), key_payload()) == Some(payload));
}

/// An envelope whose `system` member does not name a recognized subsystem
/// never parses into a typed envelope, so the session answers it directly
/// and nothing is ever dispatched to a worker for it — its registry never
/// sees the command.
pub proof fn lemma_unknown_subsystem(s: Seq<u8>, fields: Seq<(Seq<u8>, JsonVal)>, name: Seq<u8>)
    requires
        parse_text(s) == Some(JsonVal::Obj(fields)),
        obj_lookup(fields, key_system()) == Some(JsonVal::Str(name)),
        system_of_name(name) is None,
    ensures
        parse_envelope(s) is None,
        forall|id: ConnectionId, addr: ReplyHandle, r: crate::route::FrameResponse|
            #[trigger] crate::route::process_outcome(id, addr, s, r) ==> (r matches
            crate::route::FrameResponse::Reply(out) && out@ == crate::json::ser(
                client_msg_json(None, false, JsonVal::Str(parse_fail_cause())),
            )),
{
}

} // verus!
