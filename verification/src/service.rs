//! The decisions behind the requests that servers and users send to the
//! controller: who is making the request, whether the request can be
//! served, and what it changes. The transport itself lives outside the
//! library; it hands each request over as plain values and sends back what
//! comes out.

use vstd::prelude::*;

use crate::auth::{first_server_token, first_user_token, Auth};
use crate::controller::Controller;
use crate::event::{alive, bound_to_gone, ChannelMessage, EventKey, EventKeyView, RegisteredListener};
use crate::server::{
    after_checked_stop, after_heartbeat, after_mark_running, apply_to, first_with, Server, Servers,
};
use crate::status::{refusal, Code, Status};
use crate::group::{first_named, has_name};
use crate::transfer::{Authorization, Transfer, TransferMessage};
use crate::user::{id_of, ActionResult, CurrentServer, NameAndUuid, User};
use crate::uuids::{parse_uuid, parsed_uuid};

verus! {

/// The result is the refusal of the given kind with the given message.
pub open spec fn refused<T>(r: Result<T, Status>, code: Code, message: Seq<char>) -> bool {
    match r {
        Ok(_) => false,
        Err(e) => refusal(e, code, message),
    }
}

/// The message for a request of a server that is no longer known.
pub open spec fn gone_message() -> Seq<char> {
    "The authenticated server does not exist"@
}

/// Of the controller, only the servers changed, and of them not the queues.
pub open spec fn only_servers_changed(c0: Controller, c1: Controller) -> bool {
    &&& c1.groups == c0.groups
    &&& c1.users == c0.users
    &&& c1.auth == c0.auth
    &&& c1.events == c0.events
    &&& c1.channels == c0.channels
    &&& c1.timeouts == c0.timeouts
    &&& c1.servers.start_queue() == c0.servers.start_queue()
    &&& c1.servers.stop_queue() == c0.servers.stop_queue()
    &&& c1.servers.next_request_id() == c0.servers.next_request_id()
}

/// Every server with the uuid can count one more user (`up`), or one user
/// less.
pub open spec fn counts_fit(s: Seq<Server>, server: u128, up: bool) -> bool {
    forall|i: int|
        0 <= i < s.len() && #[trigger] s[i].uuid == server ==> if up {
            s[i].connected_users < u32::MAX
        } else {
            s[i].connected_users > 0
        }
}

/// `c1` is `c0` after the user connected to the first server with the uuid:
/// that server counts one more user, and the user is connected there; a
/// known user keeps its name, a new one is added last.
pub open spec fn connected(c0: Controller, c1: Controller, server: u128, id: NameAndUuid) -> bool {
    forall|p: int| #[trigger]
        first_with(c0.servers.servers(), server, p) ==> {
            let s0 = c0.servers.servers()[p];
            &&& c1.servers.servers() == c0.servers.servers().update(
                p,
                Server { connected_users: (s0.connected_users + 1) as u32, ..s0 },
            )
            &&& match c0.users.find(id.uuid) {
                Some(i) => c1.users.users() == c0.users.users().update(
                    i,
                    User { server: CurrentServer::Connected(id_of(s0)), ..c0.users.users()[i] },
                ),
                None => c1.users.users() == c0.users.users().push(
                    User { id: id, server: CurrentServer::Connected(id_of(s0)) },
                ),
            }
            &&& c1.servers.start_queue() == c0.servers.start_queue()
            &&& c1.servers.stop_queue() == c0.servers.stop_queue()
            &&& c1.servers.next_request_id() == c0.servers.next_request_id()
            &&& c1.groups == c0.groups
            &&& c1.auth == c0.auth
            &&& c1.events == c0.events
            &&& c1.channels == c0.channels
            &&& c1.timeouts == c0.timeouts
        }
}

/// `c1` is `c0` after the user with uuid `u` left the first server with
/// the uuid: that server counts one user less; a user connected to it is
/// removed, a user connected elsewhere stays and the request is refused.
pub open spec fn disconnected(
    c0: Controller,
    c1: Controller,
    server: u128,
    u: u128,
    r: Result<(), Status>,
) -> bool {
    forall|p: int| #[trigger]
        first_with(c0.servers.servers(), server, p) ==> {
            let s0 = c0.servers.servers()[p];
            &&& c1.servers.servers() == c0.servers.servers().update(
                p,
                Server { connected_users: (s0.connected_users - 1) as u32, ..s0 },
            )
            &&& match c0.users.find(u) {
                Some(i) => match c0.users.users()[i].server {
                    CurrentServer::Connected(at) => if at.uuid == server {
                        r is Ok && c1.users.users() == c0.users.users().remove(i)
                    } else {
                        refused(
                            r,
                            Code::PermissionDenied,
                            "You are not allowed to disconnect this user"@,
                        ) && c1.users.users() == c0.users.users()
                    },
                    CurrentServer::Transfering(_, _) => r is Ok && c1.users.users()
                        == c0.users.users(),
                },
                None => r is Ok && c1.users.users() == c0.users.users(),
            }
            &&& c1.servers.start_queue() == c0.servers.start_queue()
            &&& c1.servers.stop_queue() == c0.servers.stop_queue()
            &&& c1.servers.next_request_id() == c0.servers.next_request_id()
            &&& c1.groups == c0.groups
            &&& c1.auth == c0.auth
            &&& c1.events == c0.events
            &&& c1.channels == c0.channels
            &&& c1.timeouts == c0.timeouts
        }
}

/// A user who connects to a server and then leaves it is forgotten, and
/// the server counts as many users as before.
pub proof fn law_connect_then_disconnect(
    c0: Controller,
    c1: Controller,
    c2: Controller,
    server: u128,
    id: NameAndUuid,
    r: Result<(), Status>,
)
    requires
        c0.wf(),
        c1.wf(),
        alive(c0.servers.servers(), server),
        c0.users.find(id.uuid) is None,
        counts_fit(c0.servers.servers(), server, true),
        connected(c0, c1, server, id),
        disconnected(c1, c2, server, id.uuid, r),
    ensures
        r is Ok,
        c2.users.users() == c0.users.users(),
        c2.servers.servers() == c0.servers.servers(),
{
    let s0 = c0.servers.servers();
    let p = choose|p: int| 0 <= p < s0.len() && s0[p].uuid == server;
    assert(exists|f: int| #[trigger] first_with(s0, server, f)) by {
        lemma_first_with_exists(s0, server, p);
    }
    let f = choose|f: int| #[trigger] first_with(s0, server, f);
    let t0 = s0[f];
    let s1 = c1.servers.servers();
    assert(s1 == s0.update(f, Server { connected_users: (t0.connected_users + 1) as u32, ..t0 }));
    assert(first_with(s1, server, f)) by {
        assert forall|j: int| 0 <= j < f implies #[trigger] s1[j].uuid != server by {
            assert(s1[j] == s0[j]);
        }
    }
    assert(t0.connected_users < u32::MAX);
    c0.users.lemma_find(id.uuid);
    c1.users.lemma_find(id.uuid);
    let u0 = c0.users.users();
    let last = u0.len() as int;
    assert(c1.users.users() == u0.push(User { id: id, server: CurrentServer::Connected(id_of(t0)) }));
    assert(c1.users.users()[last].id.uuid == id.uuid);
    assert(c1.users.find(id.uuid) == Some(last));
    assert(c2.users.users() =~= u0);
    assert(c2.servers.servers() =~= s0);
}

/// There is a first server with a uuid that some server has.
pub proof fn lemma_first_with_exists(s: Seq<Server>, uuid: u128, p: int)
    requires
        0 <= p < s.len(),
        s[p].uuid == uuid,
    ensures
        exists|f: int| #[trigger] first_with(s, uuid, f),
    decreases p,
{
    if exists|j: int| 0 <= j < p && #[trigger] s[j].uuid == uuid {
        let j = choose|j: int| 0 <= j < p && #[trigger] s[j].uuid == uuid;
        lemma_first_with_exists(s, uuid, j);
    } else {
        assert(first_with(s, uuid, p));
    }
}

/// What a request to move a user names as its target.
#[derive(PartialEq, Eq, Structural, Clone, Copy, Debug)]
pub enum TargetKind {
    /// A server, by uuid.
    Server,
    /// A group, by name.
    Group,
}

/// The target of a request to move a user: what it names, and the name or
/// uuid as text.
#[derive(Debug)]
pub struct TransferRequestTarget {
    pub kind: TargetKind,
    pub target: String,
}

/// The server a request to move a user points to: the server with the given
/// uuid, or the first active server of the first group with the given name.
pub open spec fn pointed_server(c: Controller, kind: TargetKind, name: Seq<char>, uuid: u128) -> Option<
    u128,
> {
    match kind {
        TargetKind::Server => Some(uuid),
        TargetKind::Group => {
            let i = choose|i: int| first_named(c.groups.groups(), name, i);
            c.groups.groups()[i].first_active()
        },
    }
}

/// The transfer of a connected user, as of `now`, to the first server with
/// uuid `to`; nothing when the user is already on the way, no server is
/// named, or none has that uuid.
pub open spec fn transfer_for(c: Controller, user: User, to: Option<u128>, now: u64) -> Option<
    Transfer,
> {
    match user.server {
        CurrentServer::Connected(from) => match to {
            Some(u) => if alive(c.servers.servers(), u) {
                let p = choose|p: int| first_with(c.servers.servers(), u, p);
                Some(
                    Transfer {
                        user: user.id.uuid,
                        from: from,
                        to: id_of(c.servers.servers()[p]),
                        timestamp: now,
                    },
                )
            } else {
                None
            },
            None => None,
        },
        CurrentServer::Transfering(_, _) => None,
    }
}

/// `c1` is `c0` after the transfer was carried out: when the first server
/// with the target's uuid has an address, the user is on the way there and
/// the message for the server the user leaves carries that address;
/// otherwise nothing changed and there is no message.
pub open spec fn carried_out(
    c0: Controller,
    c1: Controller,
    t: Transfer,
    message: Option<TransferMessage>,
) -> bool {
    &&& c1.servers == c0.servers
    &&& c1.groups == c0.groups
    &&& c1.auth == c0.auth
    &&& c1.events == c0.events
    &&& c1.channels == c0.channels
    &&& c1.timeouts == c0.timeouts
    &&& forall|p: int| #[trigger]
        first_with(c0.servers.servers(), t.to.uuid, p) ==> {
            let s = c0.servers.servers()[p];
            if s.allocation.addresses@.len() > 0 {
                &&& message == Some(
                    TransferMessage {
                        user: t.user,
                        host: s.allocation.addresses@[0].host,
                        port: s.allocation.addresses@[0].port,
                    },
                )
                &&& match c0.users.find(t.user) {
                    Some(i) => c1.users.users() == c0.users.users().update(
                        i,
                        User {
                            server: CurrentServer::Transfering(t.timestamp, t.to),
                            ..c0.users.users()[i]
                        },
                    ),
                    None => c1.users.users() == c0.users.users(),
                }
            } else {
                message is None && c1.users.users() == c0.users.users()
            }
        }
}

/// The request of `server` changed its entry with `f`: the servers with
/// that uuid are changed and nothing else is; a server that is not known is
/// refused and nothing changes.
pub open spec fn servers_step(
    c0: Controller,
    c1: Controller,
    server: u128,
    r: Result<(), Status>,
    f: spec_fn(Server) -> Server,
) -> bool {
    &&& alive(c0.servers.servers(), server) ==> {
        &&& r is Ok
        &&& c1.servers.servers() == apply_to(c0.servers.servers(), server, f)
        &&& only_servers_changed(c0, c1)
    }
    &&& !alive(c0.servers.servers(), server) ==> refused(r, Code::NotFound, gone_message()) && c1
        == c0
}

/// Finds out who sends a request from the token it carries.
#[derive(Clone, Copy, Debug)]
pub struct AuthInterceptor;

impl AuthInterceptor {
    /// The token of a running server identifies that server; otherwise the
    /// token of a user identifies that user. A request without a token, or
    /// with one that identifies nobody, is refused.
    pub fn call(&self, auth: &Auth, servers: &Servers, token: Option<&str>) -> (r: Result<
        Authorization,
        Status,
    >)
        ensures
            token is None ==> refused(
                r,
                Code::Unauthenticated,
                "No authorization token provided"@,
            ),
            token matches Some(t) ==> {
                let by_server = exists|k: int|
                    #[trigger] first_server_token(auth.servers(), t@, k) && alive(
                        servers.servers(),
                        auth.servers()[k].server,
                    );
                let by_user = exists|k: int| #[trigger] first_user_token(auth.users(), t@, k);
                &&& by_server ==> (r matches Ok(Authorization::Server(id)) && exists|k: int, i: int|
                    #[trigger] first_server_token(auth.servers(), t@, k) && 0 <= i
                        < servers.servers().len() && #[trigger] servers.servers()[i].uuid
                        == auth.servers()[k].server && servers.servers()[i].uuid == id.uuid
                        && servers.servers()[i].name == id.name)
                &&& !by_server && by_user ==> (r matches Ok(Authorization::User(name)) && exists|
                    k: int,
                | #[trigger] first_user_token(auth.users(), t@, k) && auth.users()[k].username
                    == name)
                &&& !by_server && !by_user ==> refused(
                    r,
                    Code::Unauthenticated,
                    "Invalid authorization token provided"@,
                )
            },
    {
        let t = match token {
            Some(t) => t,
            None => {
                return Err(Status::new(Code::Unauthenticated, "No authorization token provided"));
            },
        };
        match auth.get_server(t) {
            Some(a) => {
                proof {
                    let k = choose|k: int|
                        #[trigger] first_server_token(auth.servers(), t@, k)
                            && auth.servers()[k] == *a;
                    assert forall|k2: int| #[trigger]
                        first_server_token(auth.servers(), t@, k2) implies k2 == k by {
                        if k2 < k {
                            assert(auth.servers()[k2].token@ != t@);
                        } else if k < k2 {
                            assert(auth.servers()[k].token@ != t@);
                        }
                    }
                }
                match servers.get_server(a.server) {
                    Some(s) => {
                        return Ok(Authorization::Server(NameAndUuid { name: s.name.clone(), uuid: s.uuid }));
                    },
                    None => {},
                }
            },
            None => {},
        }
        match auth.get_user(t) {
            Some(u) => Ok(Authorization::User(u.username.clone())),
            None => Err(Status::new(Code::Unauthenticated, "Invalid authorization token provided")),
        }
    }
}

/// The requests that servers send about themselves, their users and their
/// channels. Each is made by an authenticated server, named by its uuid; a
/// server that is no longer known is refused.
#[derive(Clone, Copy, Debug)]
pub struct ServerServiceImpl;

impl ServerServiceImpl {
    /// Refuses the request of a server that is no longer known.
    fn check_server(c: &Controller, server: u128) -> (r: Result<(), Status>)
        ensures
            r is Ok <==> alive(c.servers.servers(), server),
            r is Err ==> refused(r, Code::NotFound, gone_message()),
    {
        if c.servers.contains(server) {
            Ok(())
        } else {
            Err(Status::new(Code::NotFound, "The authenticated server does not exist"))
        }
    }

    /// The server checks in: its health is reset, and a starting or
    /// restarting server is now preparing.
    pub fn beat_heart(&self, c: &mut Controller, server: u128, now: u64) -> (r: Result<(), Status>)
        requires
            old(c).servers.beat_fits(server, now),
        ensures
            servers_step(*old(c), *final(c), server, r, |s: Server| after_heartbeat(s, now)),
    {
        Self::check_server(c, server)?;
        c.servers.handle_heart_beat(server, now);
        Ok(())
    }

    /// The server is ready for users.
    pub fn mark_ready(&self, c: &mut Controller, server: u128) -> (r: Result<(), Status>)
        ensures
            servers_step(*old(c), *final(c), server, r, |s: Server| Server { ready: true, ..s }),
    {
        Self::check_server(c, server)?;
        c.servers.mark_ready(server);
        Ok(())
    }

    /// The server no longer takes users.
    pub fn mark_not_ready(&self, c: &mut Controller, server: u128) -> (r: Result<(), Status>)
        ensures
            servers_step(*old(c), *final(c), server, r, |s: Server| Server { ready: false, ..s }),
    {
        Self::check_server(c, server)?;
        c.servers.mark_not_ready(server);
        Ok(())
    }

    /// The server has prepared and now runs.
    pub fn mark_running(&self, c: &mut Controller, server: u128) -> (r: Result<(), Status>)
        ensures
            servers_step(*old(c), *final(c), server, r, |s: Server| after_mark_running(s)),
    {
        Self::check_server(c, server)?;
        c.servers.mark_running(server);
        Ok(())
    }

    /// The server asks to be stopped: a running server is marked not ready
    /// and stopping, and queued to stop at the next tick.
    pub fn request_stop(&self, c: &mut Controller, server: u128) -> (r: Result<(), Status>)
        ensures
            alive(old(c).servers.servers(), server) ==> {
                &&& r is Ok
                &&& final(c).servers.servers() == apply_to(
                    old(c).servers.servers(),
                    server,
                    |s: Server| after_checked_stop(s),
                )
                &&& final(c).servers.stop_queue() == old(c).servers.stop_queue() + old(c).servers.servers().filter(
                    |s: Server| s.uuid == server && s.state == crate::server::State::Running,
                ).map_values(
                    |s: Server| crate::server::StopRequest { when: None, server: s.uuid },
                )
                &&& final(c).servers.start_queue() == old(c).servers.start_queue()
                &&& final(c).servers.next_request_id() == old(c).servers.next_request_id()
                &&& final(c).groups == old(c).groups
                &&& final(c).users == old(c).users
                &&& final(c).auth == old(c).auth
                &&& final(c).events == old(c).events
                &&& final(c).channels == old(c).channels
                &&& final(c).timeouts == old(c).timeouts
            },
            !alive(old(c).servers.servers(), server) ==> refused(r, Code::NotFound, gone_message())
                && *final(c) == *old(c),
    {
        Self::check_server(c, server)?;
        c.servers.checked_stop_server(server);
        Ok(())
    }

    /// The server wants to hear of the transfers of its users: a listener
    /// bound to it is registered, and its id returned.
    pub fn subscribe_to_transfers(&self, c: &mut Controller, server: u128) -> (r: Result<
        u64,
        Status,
    >)
        requires
            old(c).events.next_id() < u64::MAX,
        ensures
            alive(old(c).servers.servers(), server) ==> {
                &&& r == Ok::<u64, Status>(old(c).events.next_id())
                &&& final(c).events.next_id() == old(c).events.next_id() + 1
                &&& final(c).events.listeners() == old(c).events.listeners().push(
                    RegisteredListener {
                        key: EventKey::Transfer(server),
                        server: Some(server),
                        listener: old(c).events.next_id(),
                    },
                )
                &&& final(c).servers == old(c).servers
                &&& final(c).groups == old(c).groups
                &&& final(c).users == old(c).users
                &&& final(c).auth == old(c).auth
                &&& final(c).channels == old(c).channels
                &&& final(c).timeouts == old(c).timeouts
            },
            !alive(old(c).servers.servers(), server) ==> refused(r, Code::NotFound, gone_message())
                && *final(c) == *old(c),
    {
        Self::check_server(c, server)?;
        Ok(c.events.register_listener_with_server(EventKey::Transfer(server), server))
    }

    /// The server wants to hear of the messages on a channel: a listener
    /// bound to it is registered under the channel, and its id returned.
    pub fn subscribe_to_channel(&self, c: &mut Controller, server: u128, channel: String) -> (r:
        Result<u64, Status>)
        requires
            old(c).events.next_id() < u64::MAX,
        ensures
            alive(old(c).servers.servers(), server) ==> {
                &&& r == Ok::<u64, Status>(old(c).events.next_id())
                &&& final(c).events.next_id() == old(c).events.next_id() + 1
                &&& final(c).events.listeners() == old(c).events.listeners().push(
                    RegisteredListener {
                        key: EventKey::Channel(channel),
                        server: Some(server),
                        listener: old(c).events.next_id(),
                    },
                )
                &&& final(c).servers == old(c).servers
                &&& final(c).groups == old(c).groups
                &&& final(c).users == old(c).users
                &&& final(c).auth == old(c).auth
                &&& final(c).channels == old(c).channels
                &&& final(c).timeouts == old(c).timeouts
            },
            !alive(old(c).servers.servers(), server) ==> refused(r, Code::NotFound, gone_message())
                && *final(c) == *old(c),
    {
        Self::check_server(c, server)?;
        Ok(c.events.register_listener_with_server(EventKey::Channel(channel), server))
    }

    /// The server no longer wants to hear of a channel: its listeners under
    /// the channel, and those of servers that are gone, are removed.
    pub fn unsubscribe_from_channel(&self, c: &mut Controller, server: u128, channel: &str) -> (r:
        Result<(), Status>)
        ensures
            alive(old(c).servers.servers(), server) ==> {
                &&& r is Ok
                &&& final(c).events.next_id() == old(c).events.next_id()
                &&& final(c).events.listeners() == old(c).events.listeners().filter(
                    |l: RegisteredListener|
                        !(l.key@ == EventKeyView::Channel(channel@) && bound_to_gone(
                            l,
                            server,
                            old(c).servers.servers(),
                        )),
                )
                &&& final(c).servers == old(c).servers
                &&& final(c).groups == old(c).groups
                &&& final(c).users == old(c).users
                &&& final(c).auth == old(c).auth
                &&& final(c).channels == old(c).channels
                &&& final(c).timeouts == old(c).timeouts
            },
            !alive(old(c).servers.servers(), server) ==> refused(r, Code::NotFound, gone_message())
                && *final(c) == *old(c),
    {
        Self::check_server(c, server)?;
        let key = EventKey::Channel(channel.to_owned());
        c.events.unregister_listener(&key, server, &c.servers);
        proof {
            let p1 = |l: RegisteredListener|
                !(l.key@ == key@ && bound_to_gone(l, server, old(c).servers.servers()));
            let p2 = |l: RegisteredListener|
                !(l.key@ == EventKeyView::Channel(channel@) && bound_to_gone(
                    l,
                    server,
                    old(c).servers.servers(),
                ));
            assert(p1 =~= p2);
        }
        Ok(())
    }

    /// The server sends a message to a channel: the ids of the listeners
    /// of the channel, in the order they registered, each to be handed the
    /// message; their number is how many the message reached.
    pub fn send_message_to_channel(&self, c: &Controller, server: u128, message: &ChannelMessage) -> (r:
        Result<Vec<u64>, Status>)
        ensures
            alive(c.servers.servers(), server) ==> (r matches Ok(ids) && ids@
                == c.events.listeners().filter(
                |l: RegisteredListener| l.key@ == EventKeyView::Channel(message.channel@),
            ).map_values(|l: RegisteredListener| l.listener)),
            !alive(c.servers.servers(), server) ==> refused(r, Code::NotFound, gone_message()),
    {
        Self::check_server(c, server)?;
        Ok(c.events.post_channel_message(message.channel.as_str()))
    }

    /// The server leaves: every user on it is sent to the server users fall
    /// back to, and the messages for the server are returned.
    pub fn transfer_all_users(&self, c: &mut Controller, server: u128, now: u64) -> (r: Result<
        Vec<TransferMessage>,
        Status,
    >)
        requires
            old(c).wf(),
        ensures
            final(c).wf(),
            alive(old(c).servers.servers(), server) ==> (r matches Ok(moved)
                && Controller::all_sent(*old(c), *final(c), server, now, moved@)),
            !alive(old(c).servers.servers(), server) ==> refused(r, Code::NotFound, gone_message())
                && *final(c) == *old(c),
    {
        Self::check_server(c, server)?;
        Ok(c.transfer_all_users(server, now))
    }

    /// A user connected to the server: the server counts one more user, and
    /// the user is now connected there; a user that is known keeps its name.
    pub fn connect_user(&self, c: &mut Controller, server: u128, id: NameAndUuid) -> (r: Result<
        (),
        Status,
    >)
        requires
            old(c).wf(),
            counts_fit(old(c).servers.servers(), server, true),
        ensures
            final(c).wf(),
            !alive(old(c).servers.servers(), server) ==> refused(r, Code::NotFound, gone_message())
                && *final(c) == *old(c),
            alive(old(c).servers.servers(), server) ==> r is Ok && connected(
                *old(c),
                *final(c),
                server,
                id,
            ),
    {
        Self::check_server(c, server)?;
        let p = match c.servers.position(server) {
            Some(p) => p,
            None => {
                return Ok(());
            },
        };
        proof {
            crate::server::lemma_first_with_unique(old(c).servers.servers(), server, p as int);
        }
        let s = c.servers.get_server_mut(p);
        c.users.user_connected(s, id);
        Ok(())
    }

    /// A user connected to the server, as `connect_user`; the uuid comes as
    /// text and is refused when it does not parse.
    pub fn user_connected(&self, c: &mut Controller, server: u128, name: String, uuid: &str) -> (r:
        Result<(), Status>)
        requires
            old(c).wf(),
            counts_fit(old(c).servers.servers(), server, true),
        ensures
            final(c).wf(),
            !alive(old(c).servers.servers(), server) ==> refused(r, Code::NotFound, gone_message())
                && *final(c) == *old(c),
            alive(old(c).servers.servers(), server) ==> match parsed_uuid(uuid@) {
                Err(e) => refused(r, Code::InvalidArgument, "Failed to parse UUID: "@ + e)
                    && *final(c) == *old(c),
                Ok(u) => r is Ok && connected(
                    *old(c),
                    *final(c),
                    server,
                    NameAndUuid { name: name, uuid: u },
                ),
            },
    {
        Self::check_server(c, server)?;
        let u = match parse_uuid(uuid) {
            Ok(u) => u,
            Err(e) => {
                return Err(Status::with_detail(
                    Code::InvalidArgument,
                    "Failed to parse UUID: ",
                    e.as_str(),
                ));
            },
        };
        self.connect_user(c, server, NameAndUuid { name, uuid: u })
    }

    /// A user left the server: the server counts one user less, and a user
    /// connected to it is removed. A user connected to another server stays,
    /// and the request is refused.
    pub fn disconnect_user(&self, c: &mut Controller, server: u128, u: u128) -> (r: Result<
        (),
        Status,
    >)
        requires
            old(c).wf(),
            counts_fit(old(c).servers.servers(), server, false),
        ensures
            final(c).wf(),
            !alive(old(c).servers.servers(), server) ==> refused(r, Code::NotFound, gone_message())
                && *final(c) == *old(c),
            alive(old(c).servers.servers(), server) ==> disconnected(
                *old(c),
                *final(c),
                server,
                u,
                r,
            ),
    {
        Self::check_server(c, server)?;
        let p = match c.servers.position(server) {
            Some(p) => p,
            None => {
                return Ok(());
            },
        };
        proof {
            crate::server::lemma_first_with_unique(old(c).servers.servers(), server, p as int);
        }
        let s = c.servers.get_server_mut(p);
        match c.users.user_disconnected(s, u) {
            ActionResult::Allowed => Ok(()),
            ActionResult::Denied => Err(Status::new(
                Code::PermissionDenied,
                "You are not allowed to disconnect this user",
            )),
        }
    }

    /// A user left the server, as `disconnect_user`; the uuid comes as text
    /// and is refused when it does not parse.
    pub fn user_disconnected(&self, c: &mut Controller, server: u128, uuid: &str) -> (r: Result<
        (),
        Status,
    >)
        requires
            old(c).wf(),
            counts_fit(old(c).servers.servers(), server, false),
        ensures
            final(c).wf(),
            !alive(old(c).servers.servers(), server) ==> refused(r, Code::NotFound, gone_message())
                && *final(c) == *old(c),
            alive(old(c).servers.servers(), server) ==> match parsed_uuid(uuid@) {
                Err(e) => refused(r, Code::InvalidArgument, "Failed to parse UUID: "@ + e)
                    && *final(c) == *old(c),
                Ok(u) => disconnected(*old(c), *final(c), server, u, r),
            },
    {
        Self::check_server(c, server)?;
        let u = match parse_uuid(uuid) {
            Ok(u) => u,
            Err(e) => {
                return Err(Status::with_detail(
                    Code::InvalidArgument,
                    "Failed to parse UUID: ",
                    e.as_str(),
                ));
            },
        };
        self.disconnect_user(c, server, u)
    }

    /// The transfer of a connected user, as of `now`, to the first server
    /// with uuid `to`.
    fn resolve(c: &Controller, user: &User, to: Option<u128>, now: u64) -> (r: Option<Transfer>)
        ensures
            r == transfer_for(*c, *user, to, now),
    {
        match &user.server {
            CurrentServer::Connected(from) => match to {
                Some(u) => match c.servers.position(u) {
                    Some(p) => {
                        proof {
                            crate::server::lemma_first_with_unique(c.servers.servers(), u, p as int);
                            assert(first_with(c.servers.servers(), u, p as int));
                        }
                        let s = &c.servers.get_servers()[p];
                        Some(
                            Transfer {
                                user: user.id.uuid,
                                from: from.duplicate(),
                                to: NameAndUuid { name: s.name.clone(), uuid: s.uuid },
                                timestamp: now,
                            },
                        )
                    },
                    None => None,
                },
                None => None,
            },
            CurrentServer::Transfering(_, _) => None,
        }
    }

    /// The server asks to move one of the users to a server, or to a free
    /// server of a group. The user and the target come as text and are
    /// refused when missing or when they do not parse; the target is parsed
    /// as a uuid even when it names a group. Returns the message for the
    /// server the user leaves, or nothing when the target has no address.
    pub fn transfer_user(
        &self,
        c: &mut Controller,
        server: u128,
        user: Option<String>,
        target: Option<TransferRequestTarget>,
        now: u64,
    ) -> (r: Result<Option<TransferMessage>, Status>)
        requires
            old(c).wf(),
        ensures
            final(c).wf(),
            !alive(old(c).servers.servers(), server) ==> refused(r, Code::NotFound, gone_message())
                && *final(c) == *old(c),
            alive(old(c).servers.servers(), server) && user is None ==> refused(
                r,
                Code::InvalidArgument,
                "User must be provided"@,
            ) && *final(c) == *old(c),
            alive(old(c).servers.servers(), server) && user is Some && target is None ==> refused(
                r,
                Code::InvalidArgument,
                "Target must be provided"@,
            ) && *final(c) == *old(c),
            alive(old(c).servers.servers(), server) ==> (user matches Some(name) ==> (
            target matches Some(t) ==> match parsed_uuid(name@) {
                Err(e) => refused(r, Code::InvalidArgument, "Failed to parse user UUID: "@ + e)
                    && *final(c) == *old(c),
                Ok(uu) => match parsed_uuid(t.target@) {
                    Err(e) => refused(
                        r,
                        Code::InvalidArgument,
                        "Failed to parse target UUID: "@ + e,
                    ) && *final(c) == *old(c),
                    Ok(tu) => match old(c).users.find(uu) {
                        None => refused(
                            r,
                            Code::NotFound,
                            "User is not connected to this controller"@,
                        ) && *final(c) == *old(c),
                        Some(i) => if t.kind == TargetKind::Group && !has_name(
                            old(c).groups.groups(),
                            t.target@,
                        ) {
                            refused(r, Code::NotFound, "Group does not exist"@) && *final(c)
                                == *old(c)
                        } else if t.kind == TargetKind::Server && !alive(
                            old(c).servers.servers(),
                            tu,
                        ) {
                            refused(r, Code::NotFound, "Server does not exist"@) && *final(c)
                                == *old(c)
                        } else {
                            match transfer_for(
                                *old(c),
                                old(c).users.users()[i],
                                pointed_server(*old(c), t.kind, t.target@, tu),
                                now,
                            ) {
                                None => refused(r, Code::NotFound, "Failed to resolve transfer"@)
                                    && *final(c) == *old(c),
                                Some(tr) => (r matches Ok(m) && carried_out(
                                    *old(c),
                                    *final(c),
                                    tr,
                                    m,
                                )),
                            }
                        },
                    },
                },
            })),
    {
        Self::check_server(c, server)?;
        let name = match user {
            Some(u) => u,
            None => {
                return Err(Status::new(Code::InvalidArgument, "User must be provided"));
            },
        };
        let t = match target {
            Some(t) => t,
            None => {
                return Err(Status::new(Code::InvalidArgument, "Target must be provided"));
            },
        };
        let uu = match parse_uuid(name.as_str()) {
            Ok(u) => u,
            Err(e) => {
                return Err(Status::with_detail(
                    Code::InvalidArgument,
                    "Failed to parse user UUID: ",
                    e.as_str(),
                ));
            },
        };
        let tu = match parse_uuid(t.target.as_str()) {
            Ok(u) => u,
            Err(e) => {
                return Err(Status::with_detail(
                    Code::InvalidArgument,
                    "Failed to parse target UUID: ",
                    e.as_str(),
                ));
            },
        };
        let transfer = {
            let found = match c.users.get_user(uu) {
                Some(found) => found,
                None => {
                    return Err(Status::new(
                        Code::NotFound,
                        "User is not connected to this controller",
                    ));
                },
            };
            let to = match t.kind {
                TargetKind::Group => match c.groups.find_by_name(t.target.as_str()) {
                    Some(g) => {
                        proof {
                            let k = choose|k: int|
                                #[trigger] first_named(c.groups.groups(), t.target@, k)
                                    && c.groups.groups()[k] == *g;
                            assert forall|k2: int| #[trigger]
                                first_named(c.groups.groups(), t.target@, k2) implies k2 == k by {
                                if k2 < k {
                                    assert(c.groups.groups()[k2]@.name != t.target@);
                                } else if k < k2 {
                                    assert(c.groups.groups()[k]@.name != t.target@);
                                }
                            }
                        }
                        g.get_free_server()
                    },
                    None => {
                        return Err(Status::new(Code::NotFound, "Group does not exist"));
                    },
                },
                TargetKind::Server => match c.servers.get_server(tu) {
                    Some(_) => Some(tu),
                    None => {
                        return Err(Status::new(Code::NotFound, "Server does not exist"));
                    },
                },
            };
            match Self::resolve(c, found, to, now) {
                Some(tr) => tr,
                None => {
                    return Err(Status::new(Code::NotFound, "Failed to resolve transfer"));
                },
            }
        };
        match transfer.transfer_user(&mut c.users, &c.servers) {
            Ok(m) => Ok(Some(m)),
            Err(_) => Ok(None),
        }
    }
}

} // verus!
