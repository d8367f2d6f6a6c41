//! The session: one per client connection. It supervises liveness with the
//! heartbeat protocol, decodes inbound frames, hands parsed commands to the
//! dispatcher, and answers codec failures directly. The shell around the
//! core performs the returned actions on the socket.

use crate::error::WebsocketError;
use crate::json::{append_bytes, obj_view, ser, JsonVal, JsonValue};
use crate::message::{
    client_msg_json, key_data, key_data_bytes, parse_envelope, parse_fail_cause,
    system_from_name, system_of_name, ClientMessage, Connect, ConnectionId, ReplyHandle,
    TaskMessage, TaskPayload, WebsocketMessage, WebsocketSystems,
};
use vstd::prelude::*;

verus! {

/// The timing configuration a session runs under, in milliseconds. The
/// timeout must exceed the interval, so that at least one ping/pong round
/// trip fits before disconnection.
#[derive(Debug, Clone, Copy, PartialEq, Eq, Structural)]
pub struct WebsocketSettings {
    pub heartbeat_interval: u64,
    pub client_timeout: u64,
}

impl WebsocketSettings {
    /// The documented constraint on the configuration surface.
    pub open spec fn wf(&self) -> bool {
        self.client_timeout > self.heartbeat_interval
    }
}

/// The lifecycle of a session.
#[derive(Debug, Clone, Copy, PartialEq, Eq, Structural)]
pub enum SessionState {
    Starting,
    Active,
    Closing,
    Terminated,
}

/// Milliseconds between a liveness mark and now; a clock that moved
/// backwards counts as no time passed.
pub open spec fn elapsed(hb: u64, now: u64) -> int {
    if now >= hb {
        now - hb
    } else {
        0
    }
}

/// Whether a tick at `now` disconnects a session whose last liveness mark
/// is `hb`.
pub open spec fn tick_times_out(hb: u64, now: u64, timeout: u64) -> bool {
    elapsed(hb, now) > timeout
}

/// What a heartbeat tick decides.
#[derive(Debug, Clone, Copy, PartialEq, Eq, Structural)]
pub enum TickAction {
    Ping,
    Disconnect,
}

/// One inbound frame, as the socket layer hands it to the session.
#[derive(Debug, PartialEq, Eq)]
pub enum WsFrame {
    Ping(Vec<u8>),
    Pong,
    Text(Vec<u8>),
    Close,
    Other,
}

/// What the session asks the socket layer to do for one inbound item.
#[derive(Debug, PartialEq, Eq)]
pub enum FrameResponse {
    /// Answer a ping with a pong carrying the same payload.
    Pong(Vec<u8>),
    /// Nothing to send; a pong only reset the liveness clock.
    Noop,
    /// Answer directly with this serialized client message.
    Reply(Vec<u8>),
    /// Register with the addressed worker, then forward the task to it.
    Dispatch(WebsocketSystems, Connect, TaskMessage),
    /// Echo the close frame back, then terminate.
    CloseEcho,
    /// Stop without further output: protocol violation or broken stream.
    Stop,
}

/// One session; it owns the heartbeat state of its connection.
pub struct MainWebsocket {
    pub state: SessionState,
    pub hb: u64,
    pub settings: WebsocketSettings,
    pub id: ConnectionId,
    pub addr: ReplyHandle,
}

/// Stateless routing of one parsed envelope: the worker it addresses, the
/// idempotent registration to send first, and the task to forward. The
/// reply key is the session's own identity, never one the client supplied.
pub fn dispatch(msg: WebsocketMessage, addr: ReplyHandle) -> (r: (
    WebsocketSystems,
    Connect,
    TaskMessage,
))
    requires
        msg.task.payload.id is Some,
    ensures
        r.0 == msg.system,
        msg.task.payload.id matches Some(cid) ==> r.1 == (Connect { id: cid, addr }),
        r.2 == msg.task,
{
    let cid = match msg.task.payload.id {
        Some(c) => c,
        None => vstd::pervasive::unreached(),
    };
    (msg.system, Connect { id: cid, addr }, msg.task)
}

/// What the session does with one inbound text: a parsed command is
/// dispatched with the session's identity and reply handle; a text that is
/// no envelope is answered directly with a `success=false` message carrying
/// no subsystem, and reaches no worker.
pub open spec fn process_outcome(
    id: ConnectionId,
    addr: ReplyHandle,
    t: Seq<u8>,
    r: FrameResponse,
) -> bool {
    match parse_envelope(t) {
        Some((sys, name, payload)) => r matches FrameResponse::Dispatch(s2, c, task) && s2 == sys
            && c == (Connect { id, addr }) && task.name@ == name && task.payload.data@ == payload
            && task.payload.id == Some(id),
        None => r matches FrameResponse::Reply(out) && out@ == ser(
            client_msg_json(None, false, JsonVal::Str(parse_fail_cause())),
        ),
    }
}

impl MainWebsocket {
    /// A fresh session in its starting state, its liveness clock at `now`.
    /// The configured timeout must exceed the heartbeat interval, so that a
    /// ping/pong round trip fits before disconnection.
    pub fn new(settings: &WebsocketSettings, id: ConnectionId, addr: ReplyHandle, now: u64) -> (r:
        MainWebsocket)
        requires
            settings.wf(),
        ensures
            r == (MainWebsocket {
                state: SessionState::Starting,
                hb: now,
                settings: *settings,
                id,
                addr,
            }),
    {
        MainWebsocket { state: SessionState::Starting, hb: now, settings: *settings, id, addr }
    }

    /// Socket establishment: the session becomes active and its liveness
    /// clock starts at `now`.
    pub fn started(&mut self, now: u64)
        requires
            old(self).state is Starting,
        ensures
            *final(self) == (MainWebsocket { state: SessionState::Active, hb: now, ..*old(self) }),
    {
        self.state = SessionState::Active;
        self.hb = now;
    }

    /// One heartbeat tick: the session is disconnected exactly when the
    /// client has been silent for longer than the timeout — never earlier —
    /// and pinged otherwise.
    pub fn hb(&mut self, now: u64) -> (r: TickAction)
        requires
            old(self).state is Active,
        ensures
            (r is Disconnect) == tick_times_out(
                old(self).hb,
                now,
                old(self).settings.client_timeout,
            ),
            r is Disconnect ==> *final(self) == (MainWebsocket {
                state: SessionState::Closing,
                ..*old(self)
            }),
            r is Ping ==> *final(self) == *old(self),
    {
        let since: u64 = if now >= self.hb {
            now - self.hb
        } else {
            0
        };
        if since > self.settings.client_timeout {
            self.state = SessionState::Closing;
            TickAction::Disconnect
        } else {
            TickAction::Ping
        }
    }

    /// Decoding of one inbound text, and routing of the result.
    pub fn process_message(&self, text: &[u8]) -> (r: FrameResponse)
        ensures
            process_outcome(self.id, self.addr, text@, r),
    {
        match WebsocketMessage::parse(self.id, text) {
            Ok(m) => {
                let (sys, c, task) = dispatch(m, self.addr);
                FrameResponse::Dispatch(sys, c, task)
            },
            Err(e) => {
                let msg = ClientMessage::from(e);
                FrameResponse::Reply(msg.serialize())
            },
        }
    }

    /// One inbound item from the socket. A ping is answered and resets the
    /// liveness clock; a pong only resets it; a text is decoded and routed;
    /// a close is echoed back; any other frame kind, and a broken stream,
    /// close the session.
    pub fn handle(&mut self, item: Result<WsFrame, ()>, now: u64) -> (r: FrameResponse)
        requires
            old(self).state is Active,
        ensures
            match item {
                Err(_) => r is Stop && *final(self) == (MainWebsocket {
                    state: SessionState::Closing,
                    ..*old(self)
                }),
                Ok(frame) => match frame {
                    WsFrame::Ping(p) => (r matches FrameResponse::Pong(q) && q@ == p@)
                        && *final(self) == (MainWebsocket { hb: now, ..*old(self) }),
                    WsFrame::Pong => r is Noop && *final(self) == (MainWebsocket {
                        hb: now,
                        ..*old(self)
                    }),
                    WsFrame::Text(t) => process_outcome(old(self).id, old(self).addr, t@, r)
                        && *final(self) == *old(self),
                    WsFrame::Close => r is CloseEcho && *final(self) == (MainWebsocket {
                        state: SessionState::Closing,
                        ..*old(self)
                    }),
                    WsFrame::Other => r is Stop && *final(self) == (MainWebsocket {
                        state: SessionState::Closing,
                        ..*old(self)
                    }),
                },
            },
    {
        match item {
            Err(_) => {
                self.state = SessionState::Closing;
                FrameResponse::Stop
            },
            Ok(frame) => match frame {
                WsFrame::Ping(p) => {
                    self.hb = now;
                    FrameResponse::Pong(p)
                },
                WsFrame::Pong => {
                    self.hb = now;
                    FrameResponse::Noop
                },
                WsFrame::Text(t) => self.process_message(t.as_slice()),
                WsFrame::Close => {
                    self.state = SessionState::Closing;
                    FrameResponse::CloseEcho
                },
                WsFrame::Other => {
                    self.state = SessionState::Closing;
                    FrameResponse::Stop
                },
            },
        }
    }

    /// Delivery of a client message out over the socket: serialized while
    /// the session is active, silently dropped once it is closing or done.
    pub fn deliver(&self, msg: ClientMessage) -> (r: Option<Vec<u8>>)
        ensures
            match r {
                Some(out) => self.state is Active && out@ == ser(
                    client_msg_json(msg.system, msg.success, msg.payload@),
                ),
                None => !(self.state is Active),
            },
    {
        match self.state {
            SessionState::Active => Some(msg.serialize()),
            _ => None,
        }
    }
}

/// One liveness-relevant event in a session's life: a liveness-resetting
/// frame from the client (a ping or a pong), or a heartbeat tick, each at
/// its time in milliseconds.
pub enum HbEvent {
    Live(u64),
    Tick(u64),
}

/// The liveness clock after a run of events, starting from `init`: the time
/// of the last liveness frame, exactly as `handle` and `hb` maintain it.
pub open spec fn hb_after(init: u64, evs: Seq<HbEvent>) -> u64
    decreases evs.len(),
{
    if evs.len() == 0 {
        init
    } else {
        match evs.last() {
            HbEvent::Live(t) => t,
            HbEvent::Tick(_) => hb_after(init, evs.drop_last()),
        }
    }
}

/// Whether a session survives a run of events: no tick fires the timeout.
pub open spec fn survives(init: u64, evs: Seq<HbEvent>, timeout: u64) -> bool
    decreases evs.len(),
{
    if evs.len() == 0 {
        true
    } else {
        survives(init, evs.drop_last(), timeout) && (match evs.last() {
            HbEvent::Tick(t) => !tick_times_out(hb_after(init, evs.drop_last()), t, timeout),
            HbEvent::Live(_) => true,
        })
    }
}

/// A client that keeps answering is never disconnected: when every tick
/// comes no later than the timeout after the last liveness frame before it,
/// no tick in the run disconnects the session. Together with the `hb`
/// contract — a tick disconnects exactly when the timeout has passed since
/// the last liveness frame — this is the heartbeat liveness guarantee:
/// disconnection comes within the timeout of the last liveness-resetting
/// frame, and never earlier.
pub proof fn lemma_heartbeat_liveness(init: u64, evs: Seq<HbEvent>, timeout: u64)
    requires
        forall|k: int|
            0 <= k < evs.len() ==> (#[trigger] evs[k] matches HbEvent::Tick(t) ==> elapsed(
                hb_after(init, evs.take(k)),
                t,
            ) <= timeout),
    ensures
        survives(init, evs, timeout),
    decreases evs.len(),
{
    if evs.len() > 0 {
        assert forall|k: int|
            0 <= k < evs.drop_last().len() implies (#[trigger] evs.drop_last()[k] matches
        HbEvent::Tick(t) ==> elapsed(hb_after(init, evs.drop_last().take(k)), t) <= timeout) by {
            assert(evs.drop_last()[k] == evs[k]);
            assert(evs.drop_last().take(k) =~= evs.take(k));
        }
        lemma_heartbeat_liveness(init, evs.drop_last(), timeout);
        assert(evs[evs.len() - 1] == evs.last());
        assert(evs.take(evs.len() - 1) =~= evs.drop_last());
    }
}

/// The other face of the heartbeat guarantee: a client that stays silent
/// for longer than the timeout is disconnected. A run with a tick that
/// comes more than the timeout after the last liveness frame before it
/// does not survive.
pub proof fn lemma_heartbeat_timeout(init: u64, evs: Seq<HbEvent>, timeout: u64, k: int)
    requires
        0 <= k < evs.len(),
        evs[k] matches HbEvent::Tick(t) && elapsed(hb_after(init, evs.take(k)), t) > timeout,
    ensures
        !survives(init, evs, timeout),
    decreases evs.len(),
{
    if k == evs.len() - 1 {
        assert(evs.take(k) =~= evs.drop_last());
        assert(evs[k] == evs.last());
    } else {
        assert(evs.drop_last()[k] == evs[k]);
        assert(evs.drop_last().take(k) =~= evs.take(k));
        lemma_heartbeat_timeout(init, evs.drop_last(), timeout, k);
    }
}

/// One command in the legacy slash-delimited surface syntax.
#[derive(Debug, PartialEq, Eq)]
pub enum WSMessage {
    PythonRepo(PythonRepoMessage),
}

/// A python-repo command in the slash surface: a task name and the raw
/// text that becomes its data.
#[derive(Debug, PartialEq, Eq)]
pub struct PythonRepoMessage {
    pub name: Vec<u8>,
    pub data: Vec<u8>,
}

/// Index of the first separator at or after `from`.
pub open spec fn find_sep(s: Seq<u8>, from: int) -> Option<int>
    decreases s.len() - from,
{
    if from < 0 || from >= s.len() {
        None
    } else if s[from] == 47 {
        Some(from)
    } else {
        find_sep(s, from + 1)
    }
}

/// The parse of the slash surface `<system>/<task>/<data>`: the same typed
/// envelope as the structured form, with everything after the second
/// separator as the task's data text.
pub open spec fn parse_slash(s: Seq<u8>) -> Option<(WebsocketSystems, Seq<u8>, Seq<u8>)> {
    match find_sep(s, 0) {
        None => None,
        Some(i) => match system_of_name(s.take(i)) {
            None => None,
            Some(sys) => match find_sep(s, i + 1) {
                None => None,
                Some(j) => Some((sys, s.subrange(i + 1, j), s.skip(j + 1))),
            },
        },
    }
}

fn find_sep_x(s: &[u8], from: usize) -> (r: Option<usize>)
    requires
        from <= s@.len(),
    ensures
        match r {
            Some(i) => from <= i < s@.len() && find_sep(s@, from as int) == Some(i as int),
            None => find_sep(s@, from as int) is None,
        },
{
    let mut k = from;
    while k < s.len()
        invariant
            from <= k <= s@.len(),
            find_sep(s@, from as int) == find_sep(s@, k as int),
        decreases s@.len() - k,
    {
        if s[k] == 47 {
            return Some(k);
        }
        k += 1;
    }
    None
}

/// `"Incomplete message: "` followed by the whole rejected text, reported
/// when a slash-form command has too few separators.
pub open spec fn incomplete_cause(msg: Seq<u8>) -> Seq<u8> {
    seq![
        73u8,
        110u8,
        99u8,
        111u8,
        109u8,
        112u8,
        108u8,
        101u8,
        116u8,
        101u8,
        32u8,
        109u8,
        101u8,
        115u8,
        115u8,
        97u8,
        103u8,
        101u8,
        58u8,
        32u8,
    ] + msg
}

/// `"Invalid service: "` followed by the unrecognized service name.
pub open spec fn invalid_service_cause(name: Seq<u8>) -> Seq<u8> {
    seq![
        73u8,
        110u8,
        118u8,
        97u8,
        108u8,
        105u8,
        100u8,
        32u8,
        115u8,
        101u8,
        114u8,
        118u8,
        105u8,
        99u8,
        101u8,
        58u8,
        32u8,
    ] + name
}

fn incomplete_cause_bytes(msg: &[u8]) -> (r: Vec<u8>)
    ensures
        r@ == incomplete_cause(msg@),
{
    let mut r: Vec<u8> = vec![
        73u8, 110u8, 99u8, 111u8, 109u8, 112u8, 108u8, 101u8, 116u8, 101u8, 32u8, 109u8, 101u8,
        115u8, 115u8, 97u8, 103u8, 101u8, 58u8, 32u8,
    ];
    append_bytes(&mut r, msg);
    proof {
        assert(r@ =~= incomplete_cause(msg@));
    }
    r
}

fn invalid_service_cause_bytes(name: &[u8]) -> (r: Vec<u8>)
    ensures
        r@ == invalid_service_cause(name@),
{
    let mut r: Vec<u8> = vec![
        73u8, 110u8, 118u8, 97u8, 108u8, 105u8, 100u8, 32u8, 115u8, 101u8, 114u8, 118u8, 105u8,
        99u8, 101u8, 58u8, 32u8,
    ];
    append_bytes(&mut r, name);
    proof {
        assert(r@ =~= invalid_service_cause(name@));
    }
    r
}

impl WSMessage {
    /// The parse of one slash-form command text. It fails exactly when the
    /// text has too few separators or does not start with a recognized
    /// subsystem name, and the cause names the failure and the offending
    /// input.
    pub fn from_str(msg: &[u8]) -> (r: Result<WSMessage, WebsocketError>)
        ensures
            match r {
                Ok(w) => (w matches WSMessage::PythonRepo(m) && parse_slash(msg@) == Some(
                    (WebsocketSystems::PythonRepo, m.name@, m.data@),
                )),
                Err(e) => parse_slash(msg@) is None && (e matches
                    WebsocketError::MessageParseError(c) && (match find_sep(msg@, 0) {
                    None => c@ == incomplete_cause(msg@),
                    Some(fi) => match system_of_name(msg@.take(fi)) {
                        None => c@ == invalid_service_cause(msg@.take(fi)),
                        Some(_) => find_sep(msg@, fi + 1) is None && c@ == incomplete_cause(msg@),
                    },
                })),
            },
    {
        match find_sep_x(msg, 0) {
            None => Err(WebsocketError::MessageParseError(incomplete_cause_bytes(msg))),
            Some(i) => {
                let sysname = vstd::slice::slice_subrange(msg, 0, i);
                proof {
                    assert(sysname@ =~= msg@.take(i as int));
                }
                match system_from_name(sysname) {
                    None => Err(
                        WebsocketError::MessageParseError(invalid_service_cause_bytes(sysname)),
                    ),
                    Some(_sys) => match find_sep_x(msg, i + 1) {
                        None => Err(WebsocketError::MessageParseError(incomplete_cause_bytes(msg))),
                        Some(j) => {
                            let n = msg.len();
                            let name = vstd::slice::slice_to_vec(
                                vstd::slice::slice_subrange(msg, i + 1, j),
                            );
                            let data = vstd::slice::slice_to_vec(
                                vstd::slice::slice_subrange(msg, j + 1, n),
                            );
                            proof {
                                assert(data@ =~= msg@.skip(j + 1));
                            }
                            Ok(WSMessage::PythonRepo(PythonRepoMessage { name, data }))
                        },
                    },
                }
            },
        }
    }

    /// The identical typed envelope the structured surface would carry: the
    /// slash data becomes the payload object holding it under `data`.
    pub fn to_envelope(self, id: ConnectionId) -> (r: WebsocketMessage)
        ensures
            self matches WSMessage::PythonRepo(m) ==> r.system == WebsocketSystems::PythonRepo
                && r.task.name@ == m.name@ && r.task.payload.id == Some(id)
                && r.task.payload.data@ == JsonVal::Obj(
                seq![(key_data(), JsonVal::Str(m.data@))],
            ),
    {
        match self {
            WSMessage::PythonRepo(m) => {
                let mut fs: Vec<(Vec<u8>, JsonValue)> = Vec::new();
                fs.push((key_data_bytes(), JsonValue::Str(m.data)));
                let data = JsonValue::Obj(fs);
                proof {
                    crate::json::lemma_obj_view(data->Obj_0@);
                    assert(obj_view(data->Obj_0@) =~= seq![
                        (key_data(), JsonVal::Str(data->Obj_0@[0].1->Str_0@)),
                    ]);
                }
                WebsocketMessage {
                    system: WebsocketSystems::PythonRepo,
                    task: TaskMessage {
                        name: m.name,
                        payload: TaskPayload { id: Some(id), data },
                    },
                }
            },
        }
    }
}

} // verus!

