//! The contract every subsystem worker meets: a privately owned registry of
//! reply destinations, and delivery of each result through the entry that
//! matches the originating connection.

use crate::json::JsonValue;
use crate::message::{
    ClientMessage, ClientMessager, ConnectionId, ReplyHandle, SubSystemPart, WebsocketSystems,
};
use vstd::prelude::*;

verus! {

/// The handle a delivery for `id` targets in registry `reg`: exactly the
/// handle registered under that identity, or nothing.
pub open spec fn delivery_target(reg: Map<u128, ReplyHandle>, id: u128) -> Option<ReplyHandle> {
    if reg.contains_key(id) {
        Some(reg[id])
    } else {
        None
    }
}

/// One subsystem worker: it owns a registry keyed by connection identity and
/// reports each result through the registry entry matching the originating
/// connection.
pub trait WebsocketSubSystem {
    type Error;

    /// The registry: connection identity to reply destination.
    spec fn registry(&self) -> Map<u128, ReplyHandle>;

    /// The subsystem this worker serves.
    spec fn system_spec(&self) -> WebsocketSystems;

    /// The registered reply destination of a connection, if any.
    fn get_address(&self, id: &ConnectionId) -> (r: Option<&ReplyHandle>)
        ensures
            match r {
                Some(h) => delivery_target(self.registry(), id.0) == Some(*h),
                None => delivery_target(self.registry(), id.0) is None,
            },
    ;

    fn system(&self) -> (r: WebsocketSystems)
        ensures
            r == self.system_spec(),
    ;

    /// Delivery of one result: the client message and the reply handle it
    /// goes to. Nothing comes back when the connection never registered; the
    /// result is then dropped, which is not fatal to the worker.
    fn send_message(&self, id: ConnectionId, msg: Result<JsonValue, Self::Error>) -> (r: Option<
        (ReplyHandle, ClientMessage),
    >) where Result<JsonValue, Self::Error>: ClientMessager
        ensures
            match r {
                Some((h, m)) => delivery_target(self.registry(), id.0) == Some(h) && m.system
                    == msg.system_spec() && m.success == msg.success_spec() && m.payload@
                    == msg.payload_spec(),
                None => delivery_target(self.registry(), id.0) is None,
            },
    {
        match self.get_address(&id) {
            Some(addr) => {
                let a = *addr;
                let message = msg.to_message();
                Some((a, message))
            },
            None => None,
        }
    }
}

/// Two concurrent connections receive only their own results: a delivery
/// for either identity targets exactly the handle registered under it, so
/// one session never observes a message addressed through the other's entry.
pub proof fn lemma_registry_isolation(reg: Map<u128, ReplyHandle>, a: u128, b: u128)
    requires
        a != b,
        reg.contains_key(a),
        reg.contains_key(b),
    ensures
        delivery_target(reg, a) == Some(reg[a]),
        delivery_target(reg, b) == Some(reg[b]),
        reg[a] != reg[b] ==> delivery_target(reg, a) != Some(reg[b]),
{
}

} // verus!
