//! Moving users from one server to another.

use vstd::prelude::*;

use crate::event::alive;
use crate::group::{first_named, has_name, Group, GroupedServer, Groups};
use crate::server::{fallback_eligible, first_with, Server, Servers};
use crate::status::{refusal, Code, Status};
use crate::user::{id_of, CurrentServer, NameAndUuid, User, UserManager};

verus! {

/// Who makes a request: a server, or an administrating user.
#[derive(Debug)]
pub enum Authorization {
    Server(NameAndUuid),
    User(String),
}

impl Authorization {
    /// The server that makes the request, if a server makes it.
    pub fn get_server(&self) -> (r: Option<&NameAndUuid>)
        ensures
            match self {
                Authorization::Server(s) => r == Some(s),
                Authorization::User(_) => r is None,
            },
    {
        match self {
            Authorization::Server(s) => Some(s),
            Authorization::User(_) => None,
        }
    }
}

/// Where users are sent.
#[derive(Debug)]
pub enum TransferTarget {
    /// The server with this uuid.
    Server(u128),
    /// A free server of the group with this name.
    Group(String),
    /// The best server to fall back to.
    Fallback,
}

/// Why a transfer could not be resolved.
#[derive(Debug, PartialEq, Eq, Structural, Clone, Copy)]
pub enum ResolveError {
    UserNotFound,
    ServerNotFound,
    NotServerAvailable,
    GroupNotFound,
    AccessDenied,
}

/// The uuid of the server a transfer from `from` goes to, or why there is
/// none.
pub open spec fn resolved_target(
    target: TransferTarget,
    from: NameAndUuid,
    servers: Seq<Server>,
    groups: Seq<Group>,
) -> Result<u128, ResolveError> {
    match target {
        TransferTarget::Server(u) => if alive(servers, u) {
            Ok(u)
        } else {
            Err(ResolveError::ServerNotFound)
        },
        TransferTarget::Group(name) => if has_name(groups, name@) {
            let g = choose|i: int| first_named(groups, name@, i);
            match groups[g].first_active() {
                Some(u) => if alive(servers, u) {
                    Ok(u)
                } else {
                    Err(ResolveError::NotServerAvailable)
                },
                None => Err(ResolveError::NotServerAvailable),
            }
        } else {
            Err(ResolveError::GroupNotFound)
        },
        TransferTarget::Fallback => match Servers::fallback_of(servers, from.uuid) {
            Some(k) => Ok(servers[k].uuid),
            None => Err(ResolveError::NotServerAvailable),
        },
    }
}

/// The transfer `Transfer::resolve` finds, or why there is none.
pub open spec fn resolution(
    auth: Authorization,
    user: User,
    target: TransferTarget,
    servers: Seq<Server>,
    groups: Seq<Group>,
    now: u64,
) -> Result<Transfer, ResolveError> {
    if denied(auth, user) {
        Err(ResolveError::AccessDenied)
    } else {
        match user.server {
            CurrentServer::Transfering(_, _) => Err(ResolveError::UserNotFound),
            CurrentServer::Connected(from) => match resolved_target(target, from, servers, groups) {
                Ok(u) => {
                    let p = choose|p: int| first_with(servers, u, p);
                    Ok(Transfer { user: user.id.uuid, from: from, to: id_of(servers[p]), timestamp: now })
                },
                Err(e) => Err(e),
            },
        }
    }
}

impl ResolveError {
    /// The refusal reported for this error.
    pub fn to_status(self) -> (r: Status)
        ensures
            match self {
                ResolveError::UserNotFound => refusal(r, Code::NotFound, "User not found"@),
                ResolveError::ServerNotFound => refusal(r, Code::NotFound, "Server not found"@),
                ResolveError::NotServerAvailable => refusal(
                    r,
                    Code::Unavailable,
                    "Server not available"@,
                ),
                ResolveError::GroupNotFound => refusal(r, Code::NotFound, "Group not found"@),
                ResolveError::AccessDenied => refusal(
                    r,
                    Code::PermissionDenied,
                    "Missing permissions to transfer user"@,
                ),
            },
    {
        match self {
            ResolveError::UserNotFound => Status::new(Code::NotFound, "User not found"),
            ResolveError::ServerNotFound => Status::new(Code::NotFound, "Server not found"),
            ResolveError::NotServerAvailable => Status::new(
                Code::Unavailable,
                "Server not available",
            ),
            ResolveError::GroupNotFound => Status::new(Code::NotFound, "Group not found"),
            ResolveError::AccessDenied => Status::new(
                Code::PermissionDenied,
                "Missing permissions to transfer user",
            ),
        }
    }
}

/// A resolved transfer of a user.
#[derive(Debug)]
pub struct Transfer {
    pub user: u128,
    pub from: NameAndUuid,
    pub to: NameAndUuid,
    pub timestamp: u64,
}

/// What the server a user leaves is told: where to send the user.
#[derive(Debug)]
pub struct TransferMessage {
    pub user: u128,
    pub host: String,
    pub port: u16,
}

/// What a request to move users came to: the messages for the servers the
/// users leave, each with that server's uuid, and how many users were sent,
/// or the refusal the request stopped at. Users sent before a refusal stay
/// sent.
#[derive(Debug)]
pub struct TransferOutcome {
    pub messages: Vec<(u128, TransferMessage)>,
    pub result: Result<u32, Status>,
}

/// Some server of the list has this uuid and name.
pub open spec fn listed(s: Seq<Server>, id: NameAndUuid) -> bool {
    exists|i: int| 0 <= i < s.len() && s[i].uuid == id.uuid && s[i].name == id.name
}

/// No server of the list has this uuid.
pub open spec fn unlisted(s: Seq<Server>, uuid: u128) -> bool {
    forall|i: int| 0 <= i < s.len() ==> #[trigger] s[i].uuid != uuid
}

/// The server the request comes from may not move this user.
pub open spec fn denied(auth: Authorization, user: User) -> bool {
    match auth {
        Authorization::Server(s) => !(user.server matches CurrentServer::Connected(c) && c.uuid
            == s.uuid),
        Authorization::User(_) => false,
    }
}

impl Transfer {
    /// Finds where to send the user.
    ///
    /// A server may only move users connected to it. A user that is on the
    /// way already cannot be moved. The target is the given server, the first
    /// active server of the given group, or the fallback server for the
    /// server the user is on.
    pub fn resolve(
        auth: &Authorization,
        user: &User,
        target: &TransferTarget,
        servers: &Servers,
        groups: &Groups,
        now: u64,
    ) -> (r: Result<Transfer, ResolveError>)
        ensures
            r == resolution(*auth, *user, *target, servers.servers(), groups.groups(), now),
            denied(*auth, *user) ==> r == Err::<Transfer, ResolveError>(ResolveError::AccessDenied),
            !denied(*auth, *user) && user.server is Transfering ==> r == Err::<
                Transfer,
                ResolveError,
            >(ResolveError::UserNotFound),
            user.server matches CurrentServer::Connected(from) ==> !denied(*auth, *user) ==> match r {
                Ok(t) => {
                    &&& t.user == user.id.uuid
                    &&& t.from == from
                    &&& t.timestamp == now
                    &&& listed(servers.servers(), t.to)
                    &&& match *target {
                        TransferTarget::Server(u) => t.to.uuid == u,
                        TransferTarget::Group(name) => exists|g: int|
                            0 <= g < groups.groups().len() && groups.groups()[g]@.name == name@
                                && groups.groups()[g].first_active() == Some(t.to.uuid),
                        TransferTarget::Fallback => servers.is_fallback(t.to.uuid, from.uuid),
                    }
                },
                Err(e) => match *target {
                    TransferTarget::Server(u) => e == ResolveError::ServerNotFound && unlisted(
                        servers.servers(),
                        u,
                    ),
                    TransferTarget::Group(name) => (e == ResolveError::GroupNotFound && forall|
                        g: int,
                    |
                        0 <= g < groups.groups().len() ==> #[trigger] groups.groups()[g]@.name
                            != name@) || (e == ResolveError::NotServerAvailable && exists|g: int|
                        0 <= g < groups.groups().len() && groups.groups()[g]@.name == name@ && (
                        match groups.groups()[g].first_active() {
                            None => true,
                            Some(u) => unlisted(servers.servers(), u),
                        })),
                    TransferTarget::Fallback => e == ResolveError::NotServerAvailable && forall|
                        i: int,
                    |
                        0 <= i < servers.servers().len() ==> !fallback_eligible(
                            #[trigger] servers.servers()[i],
                            from.uuid,
                        ),
                },
            },
    {
        if let Some(server) = auth.get_server() {
            let allowed = match &user.server {
                CurrentServer::Connected(current) => current.uuid == server.uuid,
                CurrentServer::Transfering(_, _) => false,
            };
            if !allowed {
                return Err(ResolveError::AccessDenied);
            }
        }
        let from = match &user.server {
            CurrentServer::Connected(from) => from,
            CurrentServer::Transfering(_, _) => {
                return Err(ResolveError::UserNotFound);
            },
        };
        let to: &Server = match target {
            TransferTarget::Server(to) => match servers.get_server(*to) {
                Some(s) => s,
                None => {
                    return Err(ResolveError::ServerNotFound);
                },
            },
            TransferTarget::Group(name) => {
                let group = match groups.find_by_name(name.as_str()) {
                    Some(g) => g,
                    None => {
                        return Err(ResolveError::GroupNotFound);
                    },
                };
                match group.get_free_server() {
                    Some(u) => match servers.get_server(u) {
                        Some(s) => s,
                        None => {
                            return Err(ResolveError::NotServerAvailable);
                        },
                    },
                    None => {
                        return Err(ResolveError::NotServerAvailable);
                    },
                }
            },
            TransferTarget::Fallback => match servers.find_fallback_server(from.uuid) {
                Some(u) => match servers.get_server(u) {
                    Some(s) => s,
                    None => {
                        return Err(ResolveError::NotServerAvailable);
                    },
                },
                None => {
                    return Err(ResolveError::NotServerAvailable);
                },
            },
        };
        let r = Transfer {
            user: user.id.uuid,
            from: from.duplicate(),
            to: NameAndUuid { name: to.name.clone(), uuid: to.uuid },
            timestamp: now,
        };
        Ok(r)
    }

    /// Sends the user on the way: the user is marked as transfering to the
    /// target since the transfer's time, and the message for the server the
    /// user leaves carries the target's primary address. A target that is
    /// gone or has no address is refused with a message.
    pub fn transfer_user(&self, users: &mut UserManager, servers: &Servers) -> (r: Result<
        TransferMessage,
        String,
    >)
        requires
            old(users).wf(),
        ensures
            final(users).wf(),
            unlisted(servers.servers(), self.to.uuid) ==> (r matches Err(e) && e@
                == "Target server seems to have no network address"@) && final(users).users()
                == old(users).users(),
            forall|p: int| #[trigger]
                first_with(servers.servers(), self.to.uuid, p) ==> {
                    let s = servers.servers()[p];
                    if s.allocation.addresses@.len() > 0 {
                        &&& r matches Ok(m) && m == (TransferMessage {
                            user: self.user,
                            host: s.allocation.addresses@[0].host,
                            port: s.allocation.addresses@[0].port,
                        })
                        &&& match old(users).find(self.user) {
                            Some(i) => final(users).users() == old(users).users().update(
                                i,
                                User {
                                    server: CurrentServer::Transfering(self.timestamp, self.to),
                                    ..old(users).users()[i]
                                },
                            ),
                            None => final(users).users() == old(users).users(),
                        }
                    } else {
                        &&& r matches Err(e) && e@
                            == "Target server seems to have no network address"@
                        &&& final(users).users() == old(users).users()
                    }
                },
    {
        match servers.get_server(self.to.uuid) {
            Some(s) => {
                proof {
                    let k = choose|k: int|
                        #[trigger] first_with(servers.servers(), self.to.uuid, k)
                            && servers.servers()[k] == *s;
                    crate::server::lemma_first_with_unique(servers.servers(), self.to.uuid, k as int);
                }
                match s.allocation.primary_address() {
                Some(a) => {
                    let m = TransferMessage { user: self.user, host: a.host.clone(), port: a.port };
                    proof {
                        users.lemma_find(self.user);
                    }
                    users.set_transfering(self.user, self.timestamp, self.to.duplicate());
                    Ok(m)
                },
                None => {
                    Err("Target server seems to have no network address".to_owned())
                },
            }
            },
            None => Err("Target server seems to have no network address".to_owned()),
        }
    }
}

} // verus!
