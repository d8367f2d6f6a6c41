//! The repository-file-listing subsystem: its registry of reply
//! destinations, its closed set of tasks, and the `get_files` capability
//! executed against the filesystem collaborator.

use crate::error::WebsocketError;
use crate::json::{append_bytes, arr_view, lemma_arr_view, JsonVal, JsonValue};
use crate::message::{
    ClientMessage, ClientMessager, Connect, ConnectionId, ErrorCause, ReplyHandle, SubSystemPart,
    TaskMessage, TaskPayload, WebsocketSystems,
};
use crate::subsystem::{delivery_target, WebsocketSubSystem};
use std::collections::HashMap;
use vstd::prelude::*;

verus! {

broadcast use vstd::std_specs::hash::group_hash_axioms;

/// Failure of a python-repo task, with the cause the client sees.
#[derive(Debug, PartialEq, Eq)]
pub enum PythonRepoError {
    InvalidPath(Vec<u8>),
    UnexpectedError(Vec<u8>),
}

/// `"Invalid path: "` followed by the rejected path itself.
pub open spec fn invalid_path_cause(path: Seq<u8>) -> Seq<u8> {
    seq![
        73u8,
        110u8,
        118u8,
        97u8,
        108u8,
        105u8,
        100u8,
        32u8,
        112u8,
        97u8,
        116u8,
        104u8,
        58u8,
        32u8,
    ] + path
}

/// The cause reported when a task name is not recognized: `"Unknown task: "`
/// followed by the name itself.
pub open spec fn unknown_task_cause(name: Seq<u8>) -> Seq<u8> {
    seq![85u8, 110u8, 107u8, 110u8, 111u8, 119u8, 110u8, 32u8, 116u8, 97u8, 115u8, 107u8, 58u8, 32u8]
        + name
}

/// The cause reported when a task payload carries no connection identity.
pub open spec fn no_id_cause() -> Seq<u8> {
    seq![
        78u8,
        111u8,
        32u8,
        96u8,
        105u8,
        100u8,
        96u8,
        32u8,
        102u8,
        111u8,
        117u8,
        110u8,
        100u8,
        32u8,
        111u8,
        110u8,
        32u8,
        112u8,
        97u8,
        121u8,
        108u8,
        111u8,
        97u8,
        100u8,
        46u8,
    ]
}

/// The cause reported when a `get_files` payload holds no path string.
pub open spec fn no_path_cause() -> Seq<u8> {
    seq![
        78u8,
        111u8,
        32u8,
        96u8,
        112u8,
        97u8,
        116u8,
        104u8,
        96u8,
        32u8,
        102u8,
        111u8,
        117u8,
        110u8,
        100u8,
        32u8,
        111u8,
        110u8,
        32u8,
        112u8,
        97u8,
        121u8,
        108u8,
        111u8,
        97u8,
        100u8,
        46u8,
    ]
}

/// The cause reported when the listing collaborator rejects the pattern.
pub open spec fn glob_fail_cause() -> Seq<u8> {
    seq![
        70u8,
        97u8,
        105u8,
        108u8,
        101u8,
        100u8,
        32u8,
        116u8,
        111u8,
        32u8,
        112u8,
        101u8,
        114u8,
        102u8,
        111u8,
        114u8,
        109u8,
        32u8,
        103u8,
        108u8,
        111u8,
        98u8,
        32u8,
        111u8,
        110u8,
        32u8,
        112u8,
        97u8,
        116u8,
        104u8,
        46u8,
    ]
}

fn unknown_task_cause_bytes(name: &[u8]) -> (r: Vec<u8>)
    ensures
        r@ == unknown_task_cause(name@),
{
    let mut r: Vec<u8> = vec![
        85u8, 110u8, 107u8, 110u8, 111u8, 119u8, 110u8, 32u8, 116u8, 97u8, 115u8, 107u8, 58u8,
        32u8,
    ];
    append_bytes(&mut r, name);
    proof {
        assert(r@ =~= unknown_task_cause(name@));
    }
    r
}

fn no_id_cause_bytes() -> (r: Vec<u8>)
    ensures
        r@ == no_id_cause(),
{
    let r: Vec<u8> = vec![
        78u8, 111u8, 32u8, 96u8, 105u8, 100u8, 96u8, 32u8, 102u8, 111u8, 117u8, 110u8, 100u8,
        32u8, 111u8, 110u8, 32u8, 112u8, 97u8, 121u8, 108u8, 111u8, 97u8, 100u8, 46u8,
    ];
    proof {
        assert(r@ =~= no_id_cause());
    }
    r
}

fn no_path_cause_bytes() -> (r: Vec<u8>)
    ensures
        r@ == no_path_cause(),
{
    let r: Vec<u8> = vec![
        78u8, 111u8, 32u8, 96u8, 112u8, 97u8, 116u8, 104u8, 96u8, 32u8, 102u8, 111u8, 117u8,
        110u8, 100u8, 32u8, 111u8, 110u8, 32u8, 112u8, 97u8, 121u8, 108u8, 111u8, 97u8, 100u8,
        46u8,
    ];
    proof {
        assert(r@ =~= no_path_cause());
    }
    r
}

fn glob_fail_cause_bytes() -> (r: Vec<u8>)
    ensures
        r@ == glob_fail_cause(),
{
    let r: Vec<u8> = vec![
        70u8, 97u8, 105u8, 108u8, 101u8, 100u8, 32u8, 116u8, 111u8, 32u8, 112u8, 101u8, 114u8,
        102u8, 111u8, 114u8, 109u8, 32u8, 103u8, 108u8, 111u8, 98u8, 32u8, 111u8, 110u8, 32u8,
        112u8, 97u8, 116u8, 104u8, 46u8,
    ];
    proof {
        assert(r@ =~= glob_fail_cause());
    }
    r
}

impl ErrorCause for PythonRepoError {
    open spec fn cause_spec(&self) -> Seq<u8> {
        match self {
            PythonRepoError::InvalidPath(p) => invalid_path_cause(p@),
            PythonRepoError::UnexpectedError(c) => c@,
        }
    }

    fn into_cause(self) -> (r: Vec<u8>) {
        match self {
            PythonRepoError::InvalidPath(p) => {
                let mut r: Vec<u8> = vec![
                    73u8, 110u8, 118u8, 97u8, 108u8, 105u8, 100u8, 32u8, 112u8, 97u8, 116u8,
                    104u8, 58u8, 32u8,
                ];
                let ghost prefix = r@;
                append_bytes(&mut r, p.as_slice());
                proof {
                    assert(prefix =~= invalid_path_cause(Seq::<u8>::empty()).take(14));
                    assert(r@ =~= invalid_path_cause(p@));
                }
                r
            },
            PythonRepoError::UnexpectedError(c) => c,
        }
    }
}

impl SubSystemPart for Result<JsonValue, PythonRepoError> {
    open spec fn system_spec(&self) -> Option<WebsocketSystems> {
        Some(WebsocketSystems::PythonRepo)
    }

    fn system(&self) -> (r: Option<WebsocketSystems>) {
        Some(WebsocketSystems::PythonRepo)
    }
}

/// The closed set of tasks this subsystem answers.
#[derive(Debug, Clone, Copy, PartialEq, Eq, Structural)]
pub enum Tasks {
    GetFiles,
}

/// The wire name of a task.
pub open spec fn task_name(t: Tasks) -> Seq<u8> {
    match t {
        Tasks::GetFiles => seq![103u8, 101u8, 116u8, 95u8, 102u8, 105u8, 108u8, 101u8, 115u8],
    }
}

/// The task a wire name denotes, if any.
pub open spec fn task_of_name(name: Seq<u8>) -> Option<Tasks> {
    if name == task_name(Tasks::GetFiles) {
        Some(Tasks::GetFiles)
    } else {
        None
    }
}

/// The task a wire name denotes, `"get_files"` for the one shipped.
pub fn task_from_name(name: &[u8]) -> (r: Option<Tasks>)
    ensures
        r == task_of_name(name@),
{
    let expect: Vec<u8> = vec![103u8, 101u8, 116u8, 95u8, 102u8, 105u8, 108u8, 101u8, 115u8];
    proof {
        assert(expect@ =~= task_name(Tasks::GetFiles));
    }
    if crate::json::bytes_eq(name, expect.as_slice()) {
        Some(Tasks::GetFiles)
    } else {
        None
    }
}

/// One validated `get_files` task: who asked, and for which path.
#[derive(Debug, PartialEq, Eq)]
pub struct GetFiles {
    pub id: ConnectionId,
    pub path: Vec<u8>,
}

/// The path a task payload names: the string under the payload object's
/// `data` member, if the payload has that shape.
pub open spec fn payload_path(payload: JsonVal) -> Option<Seq<u8>> {
    match payload {
        JsonVal::Obj(fs) => match crate::json::obj_lookup(fs, crate::message::key_data()) {
            Some(JsonVal::Str(p)) => Some(p),
            _ => None,
        },
        _ => None,
    }
}

impl GetFiles {
    /// Validation of a task payload: it must carry an injected connection
    /// identity and a string path under its `data` member.
    pub fn try_from(payload: TaskPayload) -> (r: Result<GetFiles, WebsocketError>)
        ensures
            match r {
                Ok(g) => payload.id == Some(g.id) && payload_path(payload.data@) == Some(g.path@),
                Err(e) => (e matches WebsocketError::MessageParseError(c) && ((payload.id is None
                    && c@ == no_id_cause()) || (payload.id is Some && payload_path(payload.data@)
                    is None && c@ == no_path_cause()))),
            },
    {
        match payload.id {
            None => Err(WebsocketError::MessageParseError(no_id_cause_bytes())),
            Some(id) => match payload.data {
                JsonValue::Obj(mut fs) => {
                    let kd = crate::message::key_data_bytes();
                    match crate::message::obj_take(&mut fs, kd.as_slice()) {
                        Some(JsonValue::Str(path)) => Ok(GetFiles { id, path }),
                        _ => Err(WebsocketError::MessageParseError(no_path_cause_bytes())),
                    }
                },
                _ => Err(WebsocketError::MessageParseError(no_path_cause_bytes())),
            },
        }
    }
}

/// An external iterator over filesystem matches.
#[verifier::external_type_specification]
#[verifier::external_body]
pub struct ExPaths(glob::Paths);

/// An external owned filesystem path, as the listing yields them.
#[verifier::external_type_specification]
#[verifier::external_body]
pub struct ExPathBuf(std::path::PathBuf);

/// An external error for one unreadable listing entry.
#[verifier::external_type_specification]
#[verifier::external_body]
pub struct ExGlobError(glob::GlobError);

/// Relies on `std::path::Path::exists`: whether the path names something on
/// the filesystem. The answer depends on the disk, so nothing is promised of
/// it; a path that is not valid UTF-8 counts as absent.
#[verifier::external_body]
fn path_exists(path: &[u8]) -> bool {
    match std::str::from_utf8(path) {
        Ok(p) => std::path::Path::new(p).exists(),
        Err(_) => false,
    }
}

/// Relies on `glob::glob`: the lazy iterator of paths matching the pattern,
/// or nothing when the pattern is rejected. What it yields depends on the
/// disk, so nothing is promised of it.
#[verifier::external_body]
fn glob_open(pattern: &[u8]) -> Option<glob::Paths> {
    match std::str::from_utf8(pattern) {
        Ok(p) => glob::glob(p).ok(),
        Err(_) => None,
    }
}

/// Relies on `glob::Paths::next`: the next match as its path bytes; an entry
/// whose read failed comes back as `Some(None)` so the caller can skip it,
/// and `None` ends the listing.
#[verifier::external_body]
fn paths_next(paths: &mut glob::Paths) -> Option<Option<Vec<u8>>> {
    match paths.next() {
        Some(Ok(p)) => Some(Some(p.to_string_lossy().into_owned().into_bytes())),
        Some(Err(_)) => Some(None),
        None => None,
    }
}

/// Every match the listing yields, in order, entries that failed to read
/// silently skipped. What comes back depends on the filesystem, so nothing
/// can be promised of it; the budget only bounds the loop.
fn collect_files(paths: &mut glob::Paths) -> Vec<Vec<u8>> {
    let mut out: Vec<Vec<u8>> = Vec::new();
    let mut budget: usize = usize::MAX;
    loop
        ensures
            true,
        decreases budget,
    {
        if budget == 0 {
            break ;
        }
        budget = budget - 1;
        match paths_next(paths) {
            Some(Some(p)) => out.push(p),
            Some(None) => {},
            None => {
                break ;
            },
        }
    }
    out
}

/// The fixed listing pattern: the path followed by `/**/*.py`.
pub open spec fn glob_pattern(path: Seq<u8>) -> Seq<u8> {
    path + seq![47u8, 42u8, 42u8, 47u8, 42u8, 46u8, 112u8, 121u8]
}

fn build_pattern(path: &[u8]) -> (r: Vec<u8>)
    ensures
        r@ == glob_pattern(path@),
{
    let mut r = vstd::slice::slice_to_vec(path);
    let suffix: Vec<u8> = vec![47u8, 42u8, 42u8, 47u8, 42u8, 46u8, 112u8, 121u8];
    append_bytes(&mut r, suffix.as_slice());
    proof {
        assert(r@ =~= glob_pattern(path@));
    }
    r
}

/// The views of a sequence of byte vectors.
pub open spec fn bytes_views(fs: Seq<Vec<u8>>) -> Seq<Seq<u8>> {
    Seq::new(fs.len(), |i: int| fs[i]@)
}

/// The success payload of a file listing: the matched paths in the order
/// the collaborator yields them, each as a JSON string. No sorting or
/// deduplication is imposed.
pub open spec fn files_payload(files: Seq<Seq<u8>>) -> JsonVal {
    JsonVal::Arr(Seq::new(files.len(), |i: int| JsonVal::Str(files[i])))
}

/// The executable form of the success payload.
pub fn files_to_payload(files: Vec<Vec<u8>>) -> (r: JsonValue)
    ensures
        r@ == files_payload(bytes_views(files@)),
{
    let ghost orig = files@;
    let mut arr: Vec<JsonValue> = Vec::new();
    let mut rest = files;
    loop
        invariant
            arr@.len() + rest@.len() == orig.len(),
            forall|i: int| 0 <= i < arr@.len() ==> #[trigger] arr@[i]@ == JsonVal::Str(orig[i]@),
            forall|i: int| 0 <= i < rest@.len() ==> #[trigger] rest@[i] == orig[arr@.len() + i],
        ensures
            arr@.len() == orig.len(),
            forall|i: int| 0 <= i < arr@.len() ==> #[trigger] arr@[i]@ == JsonVal::Str(orig[i]@),
        decreases rest@.len(),
    {
        if rest.len() == 0 {
            break ;
        }
        let ghost pre_rest = rest@;
        let ghost pre_arr = arr@;
        let f = rest.remove(0);
        arr.push(JsonValue::Str(f));
        proof {
            assert(rest@ =~= pre_rest.skip(1));
            assert(f == pre_rest[0]);
            assert(arr@[pre_arr.len() as int]@ == JsonVal::Str(orig[pre_arr.len() as int]@));
        }
    }
    let r = JsonValue::Arr(arr);
    proof {
        lemma_arr_view(r->Arr_0@);
        let vs = r->Arr_0@;
        assert forall|i: int|
            0 <= i < vs.len() implies arr_view(vs)[i] == files_payload(bytes_views(orig))->Arr_0[i]
            by {
            assert(arr_view(vs)[i] == vs[i]@);
            assert(vs[i]@ == JsonVal::Str(orig[i]@));
            assert(bytes_views(orig)[i] == orig[i]@);
        }
        assert(arr_view(vs) =~= files_payload(bytes_views(orig))->Arr_0);
    }
    r
}

/// The subsystem worker. It owns the registry of reply destinations; only
/// its own execution context ever touches it.
pub struct PythonRepoSystem {
    sessions: HashMap<u128, ReplyHandle>,
}

impl Default for PythonRepoSystem {
    /// A worker with an empty registry.
    fn default() -> (r: Self)
        ensures
            r.registry() == Map::<u128, ReplyHandle>::empty(),
    {
        PythonRepoSystem { sessions: HashMap::new() }
    }
}

impl WebsocketSubSystem for PythonRepoSystem {
    type Error = PythonRepoError;

    closed spec fn registry(&self) -> Map<u128, ReplyHandle> {
        self.sessions@
    }

    open spec fn system_spec(&self) -> WebsocketSystems {
        WebsocketSystems::PythonRepo
    }

    fn get_address(&self, id: &ConnectionId) -> (r: Option<&ReplyHandle>) {
        self.sessions.get(&id.0)
    }

    fn system(&self) -> (r: WebsocketSystems) {
        WebsocketSystems::PythonRepo
    }
}

impl PythonRepoSystem {
    /// Registration of a session's reply destination: insert, or overwrite
    /// an earlier registration of the same connection.
    pub fn handle_connect(&mut self, message: Connect)
        ensures
            final(self).registry() == old(self).registry().insert(message.id.0, message.addr),
    {
        self.sessions.insert(message.id.0, message.addr);
    }

    /// One task event. The handler the task names runs, and exactly one
    /// message is delivered for the task's connection — unless the payload
    /// carries no identity (nothing can be addressed), or the connection
    /// never registered (the result is dropped; not fatal).
    pub fn handle_task(&self, task: TaskMessage) -> (r: Option<(ReplyHandle, ClientMessage)>)
        ensures
            match task.payload.id {
                None => r is None,
                Some(cid) => {
                    &&& (r is Some <==> delivery_target(self.registry(), cid.0) is Some)
                    &&& match r {
                        Some((h, m)) => delivery_target(self.registry(), cid.0) == Some(h)
                            && m.system == Some(WebsocketSystems::PythonRepo) && match task_of_name(
                            task.name@,
                        ) {
                            None => m.success == false && m.payload@ == JsonVal::Str(
                                unknown_task_cause(task.name@),
                            ),
                            Some(Tasks::GetFiles) => match payload_path(task.payload.data@) {
                                Some(p) => get_files_outcome(p, m),
                                None => m.success == false && m.payload@ == JsonVal::Str(
                                    no_path_cause(),
                                ),
                            },
                        },
                        None => true,
                    }
                },
            },
    {
        let cid = match task.payload.id {
            Some(c) => c,
            None => {
                return None;
            },
        };
        match task_from_name(task.name.as_slice()) {
            None => self.send_message(
                cid,
                Err(PythonRepoError::UnexpectedError(unknown_task_cause_bytes(task.name.as_slice()))),
            ),
            Some(Tasks::GetFiles) => match GetFiles::try_from(task.payload) {
                Ok(g) => self.handle_get_files(g),
                Err(_) => self.send_message(
                    cid,
                    Err(PythonRepoError::UnexpectedError(no_path_cause_bytes())),
                ),
            },
        }
    }

    /// Execution of one `get_files` task against the filesystem
    /// collaborator: exactly one message for the task's connection, fixed by
    /// `get_files_result` as a function of the collaborator's answers.
    pub fn handle_get_files(&self, message: GetFiles) -> (r: Option<(ReplyHandle, ClientMessage)>)
        ensures
            r is Some <==> delivery_target(self.registry(), message.id.0) is Some,
            match r {
                Some((h, m)) => delivery_target(self.registry(), message.id.0) == Some(h)
                    && m.system == Some(WebsocketSystems::PythonRepo) && get_files_outcome(
                    message.path@,
                    m,
                ),
                None => true,
            },
    {
        let exists = path_exists(message.path.as_slice());
        let listing: Option<Vec<Vec<u8>>> = if exists {
            let pattern = build_pattern(message.path.as_slice());
            match glob_open(pattern.as_slice()) {
                None => None,
                Some(mut paths) => Some(collect_files(&mut paths)),
            }
        } else {
            None
        };
        let result = get_files_result(message.path, exists, listing);
        self.send_message(message.id, result)
    }
}

/// The result of one `get_files` task as a function of the collaborator's
/// answers — whether the path exists, and what the listing yielded if it was
/// opened. Each case is exact: the rejected path itself when the path is
/// absent, the listing failure cause when the collaborator refused the
/// pattern, and otherwise the matched files in order.
pub fn get_files_result(path: Vec<u8>, exists: bool, listing: Option<Vec<Vec<u8>>>) -> (r: Result<
    JsonValue,
    PythonRepoError,
>)
    ensures
        !exists ==> (r matches Err(e) && e matches PythonRepoError::InvalidPath(p) && p@
            == path@),
        (exists && listing is None) ==> (r matches Err(e) && e matches
            PythonRepoError::UnexpectedError(c) && c@ == glob_fail_cause()),
        exists ==> (listing matches Some(files) ==> (r matches Ok(v) && v@ == files_payload(
            bytes_views(files@),
        ))),
{
    if !exists {
        Err(PythonRepoError::InvalidPath(path))
    } else {
        match listing {
            None => Err(PythonRepoError::UnexpectedError(glob_fail_cause_bytes())),
            Some(files) => Ok(files_to_payload(files)),
        }
    }
}

/// What a `get_files` execution may report for a path, whatever the
/// filesystem held: the rejected path itself when the path does not exist,
/// the listing failure cause when the collaborator rejects the pattern, and
/// otherwise success with the matched paths as strings.
pub open spec fn get_files_outcome(path: Seq<u8>, m: ClientMessage) -> bool {
    ||| (m.success == false && (m.payload@ == JsonVal::Str(invalid_path_cause(path))
        || m.payload@ == JsonVal::Str(glob_fail_cause())))
    ||| (m.success == true && (m.payload@ matches JsonVal::Arr(els) && forall|i: int|
        0 <= i < els.len() ==> #[trigger] els[i] is Str))
}

/// Connecting twice under one identity leaves exactly one registry entry,
/// bound to the handle of the later registration.
pub proof fn lemma_idempotent_connect(
    reg: Map<u128, ReplyHandle>,
    id: u128,
    h1: ReplyHandle,
    h2: ReplyHandle,
)
    ensures
        reg.insert(id, h1).insert(id, h2) == reg.insert(id, h2),
        reg.insert(id, h1).insert(id, h2)[id] == h2,
        reg.insert(id, h1).insert(id, h2).dom() == reg.dom().insert(id),
        forall|k: u128|
            k != id ==> #[trigger] reg.insert(id, h1).insert(id, h2).contains_key(k)
                == reg.contains_key(k),
        forall|k: u128|
            k != id && reg.contains_key(k) ==> #[trigger] reg.insert(id, h1).insert(id, h2)[k]
                == reg[k],
{
    assert(reg.insert(id, h1).insert(id, h2) =~= reg.insert(id, h2));
    assert(reg.insert(id, h1).insert(id, h2).dom() =~= reg.dom().insert(id));
}

} // verus!
