//! What subscribers are told about servers: that one started or stopped,
//! that its readiness changed, and the details a new server is announced
//! with.

use vstd::prelude::*;

use crate::server::{Allocation, Server, State};
use crate::user::NameAndUuid;

verus! {

/// A server as it is announced to subscribers.
#[derive(Debug)]
pub struct ServerEvent {
    pub id: NameAndUuid,
    pub group: Option<String>,
    pub allocation: Allocation,
    pub token: String,
}

/// The name of the group a server belongs to, if any.
pub open spec fn group_name(s: Server) -> Option<Seq<char>> {
    match s.group {
        Some(g) => Some(g.group@),
        None => None,
    }
}

impl ServerEvent {
    /// The announcement of the server.
    pub fn from(server: &Server) -> (r: ServerEvent)
        ensures
            r.id.name == server.name,
            r.id.uuid == server.uuid,
            match r.group {
                Some(g) => group_name(*server) == Some(g@),
                None => group_name(*server) is None,
            },
            r.allocation.addresses@ == server.allocation.addresses@,
            r.allocation.resources == server.allocation.resources,
            r.allocation.deployment@ == server.allocation.deployment@,
            r.token == server.token,
    {
        let group = match &server.group {
            Some(g) => Some(g.group.clone()),
            None => None,
        };
        ServerEvent {
            id: NameAndUuid { name: server.name.clone(), uuid: server.uuid },
            group,
            allocation: server.allocation.duplicate(),
            token: server.token.clone(),
        }
    }
}

/// Whether a power event tells of a start or a stop.
#[derive(PartialEq, Eq, Structural, Clone, Copy, Debug)]
pub enum PowerState {
    Start,
    Stop,
}

/// A server started or stopped.
#[derive(Debug)]
pub struct PowerEvent {
    pub state: PowerState,
    pub name: String,
    pub node: String,
}

/// A server became ready or stopped being ready.
#[derive(Debug)]
pub struct ReadyEvent {
    pub ready: bool,
    pub name: String,
}

impl PowerEvent {
    /// The power event of a server: a start while it is starting, a stop
    /// otherwise.
    pub fn from(server: &Server) -> (r: PowerEvent)
        ensures
            r.state == (if server.state == State::Starting {
                PowerState::Start
            } else {
                PowerState::Stop
            }),
            r.name == server.name,
            r.node == server.node,
    {
        let state = if server.state == State::Starting {
            PowerState::Start
        } else {
            PowerState::Stop
        };
        PowerEvent { state, name: server.name.clone(), node: server.node.clone() }
    }
}

impl ReadyEvent {
    /// The readiness of a server.
    pub fn from(server: &Server) -> (r: ReadyEvent)
        ensures
            r.ready == server.ready,
            r.name == server.name,
    {
        ReadyEvent { ready: server.ready, name: server.name.clone() }
    }
}

} // verus!
