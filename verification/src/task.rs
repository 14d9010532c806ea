//! The requests of servers and administrators, as tasks the controller
//! runs one at a time on its state. Each task holds what the request
//! carried and answers with a value or a refusal.

use vstd::prelude::*;

use crate::controller::Controller;
use crate::event::alive;
use crate::group::{
    first_named, has_name, CreationResult, GroupView, GroupedServer, Scaling, ScalingPolicy,
    ScalingRule,
};
use crate::text::copy_strings;
use crate::resource::CreateResourceError;
use crate::server::{after_heartbeat, after_mark_running, first_with, Deployment, Resources, Server};
use crate::service::{
    connected, counts_fit, disconnected, gone_message, refused, servers_step, ServerServiceImpl,
};
use crate::status::{refusal, Code, Status};
use crate::transfer::Authorization;
use crate::user::{CurrentServer, NameAndUuid, User};

verus! {

/// The message for a request that only a server may make.
pub open spec fn link_message() -> Seq<char> {
    "Only a server can make this request"@
}

/// The refusal of a request that only a server may make.
fn link_error() -> (r: Status)
    ensures
        refusal(r, Code::PermissionDenied, link_message()),
{
    Status::new(Code::PermissionDenied, "Only a server can make this request")
}

/// A server as it is listed.
#[derive(Debug)]
pub struct ServerShort {
    pub id: u128,
    pub name: String,
    /// The name of its group, if it belongs to one.
    pub group: Option<String>,
    pub node: String,
}

/// The listing of a server.
pub open spec fn short_of(s: Server, r: ServerShort) -> bool {
    &&& r.id == s.uuid
    &&& r.name == s.name
    &&& r.node == s.node
    &&& match s.group {
        Some(g) => r.group == Some(g.group),
        None => r.group is None,
    }
}

fn server_short(s: &Server) -> (r: ServerShort)
    ensures
        short_of(*s, r),
{
    let group = match &s.group {
        Some(g) => Some(g.group.clone()),
        None => None,
    };
    ServerShort { id: s.uuid, name: s.name.clone(), group, node: s.node.clone() }
}

/// A user as it is listed.
#[derive(Debug)]
pub struct UserItem {
    pub name: String,
    pub id: u128,
    /// The server the user is connected to; nothing while on the way.
    pub server: Option<u128>,
}

/// The listing of a user.
pub open spec fn item_of(u: User, r: UserItem) -> bool {
    &&& r.name == u.id.name
    &&& r.id == u.id.uuid
    &&& match u.server {
        CurrentServer::Connected(s) => r.server == Some(s.uuid),
        CurrentServer::Transfering(_, _) => r.server is None,
    }
}

fn user_item(u: &User) -> (r: UserItem)
    ensures
        item_of(*u, r),
{
    let server = match &u.server {
        CurrentServer::Connected(s) => Some(s.uuid),
        CurrentServer::Transfering(_, _) => None,
    };
    UserItem { name: u.id.name.clone(), id: u.id.uuid, server }
}

/// A group as it is listed.
#[derive(Debug)]
pub struct GroupShort {
    pub name: String,
}

/// The server checks in.
#[derive(Debug)]
pub struct BeatTask {
    pub auth: Authorization,
}

impl BeatTask {
    pub fn run(&self, c: &mut Controller, now: u64) -> (r: Result<(), Status>)
        requires
            self.auth matches Authorization::Server(id) ==> old(c).servers.beat_fits(id.uuid, now),
        ensures
            match self.auth {
                Authorization::Server(id) => servers_step(
                    *old(c),
                    *final(c),
                    id.uuid,
                    r,
                    |s: Server| after_heartbeat(s, now),
                ),
                Authorization::User(_) => refused(r, Code::PermissionDenied, link_message())
                    && *final(c) == *old(c),
            },
    {
        match self.auth.get_server() {
            Some(id) => ServerServiceImpl.beat_heart(c, id.uuid, now),
            None => Err(link_error()),
        }
    }
}

/// The server has prepared and now runs.
#[derive(Debug)]
pub struct SetRunningTask(pub Authorization);

impl SetRunningTask {
    pub fn run(&self, c: &mut Controller) -> (r: Result<(), Status>)
        ensures
            match self.0 {
                Authorization::Server(id) => servers_step(
                    *old(c),
                    *final(c),
                    id.uuid,
                    r,
                    |s: Server| after_mark_running(s),
                ),
                Authorization::User(_) => refused(r, Code::PermissionDenied, link_message())
                    && *final(c) == *old(c),
            },
    {
        match self.0.get_server() {
            Some(id) => ServerServiceImpl.mark_running(c, id.uuid),
            None => Err(link_error()),
        }
    }
}

/// The server becomes ready for users, or stops being ready.
#[derive(Debug)]
pub struct SetReadyTask {
    pub server: u128,
    pub ready: bool,
}

impl SetReadyTask {
    pub fn run(&self, c: &mut Controller) -> (r: Result<(), Status>)
        ensures
            servers_step(
                *old(c),
                *final(c),
                self.server,
                r,
                |s: Server| Server { ready: self.ready, ..s },
            ),
    {
        if self.ready {
            ServerServiceImpl.mark_ready(c, self.server)
        } else {
            ServerServiceImpl.mark_not_ready(c, self.server)
        }
    }
}

/// The server asks to be stopped.
#[derive(Debug)]
pub struct RequestStopTask(pub Authorization);

impl RequestStopTask {
    /// A known server is queued to stop at the next tick, at once.
    pub fn run(&self, c: &mut Controller) -> (r: Result<(), Status>)
        ensures
            match self.0 {
                Authorization::Server(id) => if alive(old(c).servers.servers(), id.uuid) {
                    &&& r is Ok
                    &&& final(c).servers.stop_queue() == old(c).servers.stop_queue().push(
                        crate::server::StopRequest { when: None, server: id.uuid },
                    )
                    &&& final(c).servers.servers() == old(c).servers.servers()
                    &&& final(c).servers.start_queue() == old(c).servers.start_queue()
                    &&& final(c).servers.next_request_id() == old(c).servers.next_request_id()
                    &&& final(c).groups == old(c).groups
                    &&& final(c).users == old(c).users
                    &&& final(c).auth == old(c).auth
                    &&& final(c).events == old(c).events
                    &&& final(c).channels == old(c).channels
                    &&& final(c).timeouts == old(c).timeouts
                } else {
                    refused(r, Code::PermissionDenied, link_message()) && *final(c) == *old(c)
                },
                Authorization::User(_) => refused(r, Code::PermissionDenied, link_message())
                    && *final(c) == *old(c),
            },
    {
        match self.0.get_server() {
            Some(id) => {
                if c.servers.contains(id.uuid) {
                    c.servers.stop_server_now(id.uuid);
                    Ok(())
                } else {
                    Err(link_error())
                }
            },
            None => Err(link_error()),
        }
    }
}

/// The server with the given uuid.
#[derive(Debug)]
pub struct GetServerTask(pub u128);

impl GetServerTask {
    pub fn run(&self, c: &Controller) -> (r: Result<ServerShort, Status>)
        ensures
            !alive(c.servers.servers(), self.0) ==> refused(r, Code::NotFound, "Server not found"@),
            forall|p: int| #[trigger]
                first_with(c.servers.servers(), self.0, p) ==> (r matches Ok(v) && short_of(
                    c.servers.servers()[p],
                    v,
                )),
    {
        match c.servers.get_server(self.0) {
            Some(s) => {
                proof {
                    let k = choose|k: int|
                        #[trigger] first_with(c.servers.servers(), self.0, k)
                            && c.servers.servers()[k] == *s;
                    crate::server::lemma_first_with_unique(c.servers.servers(), self.0, k as int);
                }
                Ok(server_short(s))
            },
            None => Err(Status::new(Code::NotFound, "Server not found")),
        }
    }
}

/// The first server with the given name.
#[derive(Debug)]
pub struct GetServerFromNameTask(pub String);

impl GetServerFromNameTask {
    pub fn run(&self, c: &Controller) -> (r: Result<ServerShort, Status>)
        ensures
            (forall|i: int|
                0 <= i < c.servers.servers().len() ==> #[trigger] c.servers.servers()[i].name@
                    != self.0@) ==> refused(r, Code::NotFound, "Server not found"@),
            forall|i: int|
                0 <= i < c.servers.servers().len() && #[trigger] c.servers.servers()[i].name@
                    == self.0@ && (forall|j: int|
                    0 <= j < i ==> c.servers.servers()[j].name@ != self.0@) ==> (r matches Ok(v)
                    && short_of(c.servers.servers()[i], v)),
    {
        match c.servers.get_server_from_name(self.0.as_str()) {
            Some(s) => {
                proof {
                    let k = choose|k: int|
                        0 <= k < c.servers.servers().len() && c.servers.servers()[k] == *s
                            && s.name@ == self.0@ && forall|j: int|
                            0 <= j < k ==> #[trigger] c.servers.servers()[j].name@ != self.0@;
                    assert forall|i: int|
                        0 <= i < c.servers.servers().len() && #[trigger] c.servers.servers()[i].name@
                            == self.0@ && (forall|j: int|
                            0 <= j < i ==> c.servers.servers()[j].name@ != self.0@) implies i
                        == k by {
                        if i < k {
                            assert(c.servers.servers()[i].name@ != self.0@);
                        } else if k < i {
                            assert(c.servers.servers()[k].name@ != self.0@);
                        }
                    }
                }
                Ok(server_short(s))
            },
            None => Err(Status::new(Code::NotFound, "Server not found")),
        }
    }
}

/// All servers.
#[derive(Debug)]
pub struct GetServersTask;

impl GetServersTask {
    pub fn run(&self, c: &Controller) -> (r: Vec<ServerShort>)
        ensures
            r@.len() == c.servers.servers().len(),
            forall|i: int| 0 <= i < r@.len() ==> short_of(c.servers.servers()[i], #[trigger] r@[i]),
    {
        let all = c.servers.get_servers();
        let mut r: Vec<ServerShort> = Vec::new();
        let mut i: usize = 0;
        while i < all.len()
            invariant
                0 <= i <= all@.len(),
                all@ == c.servers.servers(),
                r@.len() == i,
                forall|j: int| 0 <= j < i ==> short_of(all@[j], #[trigger] r@[j]),
            decreases all@.len() - i,
        {
            r.push(server_short(&all[i]));
            i = i + 1;
        }
        r
    }
}

/// The user with the given uuid.
#[derive(Debug)]
pub struct GetUserTask(pub u128);

impl GetUserTask {
    pub fn run(&self, c: &Controller) -> (r: Result<UserItem, Status>)
        requires
            c.wf(),
        ensures
            match c.users.find(self.0) {
                Some(i) => r matches Ok(v) && item_of(c.users.users()[i], v),
                None => refused(r, Code::NotFound, "User not found"@),
            },
    {
        match c.users.get_user(self.0) {
            Some(u) => Ok(user_item(u)),
            None => Err(Status::new(Code::NotFound, "User not found")),
        }
    }
}

/// The first user with the given name.
#[derive(Debug)]
pub struct GetUserFromNameTask(pub String);

impl GetUserFromNameTask {
    pub fn run(&self, c: &Controller) -> (r: Result<UserItem, Status>)
        ensures
            (forall|i: int|
                0 <= i < c.users.users().len() ==> #[trigger] c.users.users()[i].id.name@
                    != self.0@) ==> refused(r, Code::NotFound, "User not found"@),
            forall|i: int|
                0 <= i < c.users.users().len() && #[trigger] c.users.users()[i].id.name@ == self.0@
                    && (forall|j: int| 0 <= j < i ==> c.users.users()[j].id.name@ != self.0@)
                    ==> (r matches Ok(v) && item_of(c.users.users()[i], v)),
    {
        match c.users.get_user_from_name(self.0.as_str()) {
            Some(u) => {
                proof {
                    let k = choose|k: int|
                        0 <= k < c.users.users().len() && c.users.users()[k] == *u && u.id.name@
                            == self.0@ && (forall|j: int|
                            0 <= j < k ==> #[trigger] c.users.users()[j].id.name@ != self.0@);
                    assert forall|i: int|
                        0 <= i < c.users.users().len() && #[trigger] c.users.users()[i].id.name@
                            == self.0@ && (forall|j: int|
                            0 <= j < i ==> c.users.users()[j].id.name@ != self.0@) implies i
                        == k by {
                        if i < k {
                            assert(c.users.users()[i].id.name@ != self.0@);
                        } else if k < i {
                            assert(c.users.users()[k].id.name@ != self.0@);
                        }
                    }
                }
                Ok(user_item(u))
            },
            None => Err(Status::new(Code::NotFound, "User not found")),
        }
    }
}

/// All users.
#[derive(Debug)]
pub struct GetUsersTask;

impl GetUsersTask {
    pub fn run(&self, c: &Controller) -> (r: Vec<UserItem>)
        ensures
            r@.len() == c.users.users().len(),
            forall|i: int| 0 <= i < r@.len() ==> item_of(c.users.users()[i], #[trigger] r@[i]),
    {
        let all = c.users.get_users();
        let mut r: Vec<UserItem> = Vec::new();
        let mut i: usize = 0;
        while i < all.len()
            invariant
                0 <= i <= all@.len(),
                all@ == c.users.users(),
                r@.len() == i,
                forall|j: int| 0 <= j < i ==> item_of(all@[j], #[trigger] r@[j]),
            decreases all@.len() - i,
        {
            r.push(user_item(&all[i]));
            i = i + 1;
        }
        r
    }
}

/// How many users there are.
#[derive(Debug)]
pub struct UserCountTask;

impl UserCountTask {
    pub fn run(&self, c: &Controller) -> (r: usize)
        ensures
            r == c.users.users().len(),
    {
        c.users.get_user_count()
    }
}

/// The group with the given name.
#[derive(Debug)]
pub struct GetGroupTask(pub String);

impl GetGroupTask {
    pub fn run(&self, c: &Controller) -> (r: Result<GroupShort, Status>)
        ensures
            !has_name(c.groups.groups(), self.0@) ==> refused(r, Code::NotFound, "Group not found"@),
            has_name(c.groups.groups(), self.0@) ==> (r matches Ok(v) && v.name@ == self.0@),
    {
        match c.groups.find_by_name(self.0.as_str()) {
            Some(g) => Ok(GroupShort { name: g.get_name().clone() }),
            None => Err(Status::new(Code::NotFound, "Group not found")),
        }
    }
}

/// A group as the administrators see it: its name, nodes, scaling policy
/// as reported, limits, resources and the description of its servers.
#[derive(Debug)]
pub struct GroupDetail {
    pub name: String,
    pub nodes: Vec<String>,
    pub scaling: Scaling,
    pub constraints: ScalingPolicy,
    pub resources: Resources,
    pub specification: Deployment,
}

/// `v` shows the group `g` in full.
pub open spec fn detail_of(g: GroupView, v: GroupDetail) -> bool {
    &&& v.name@ == g.name
    &&& v.nodes@ == g.nodes
    &&& v.scaling == (Scaling {
        enabled: g.rule.enabled,
        start_threshold: g.rule.start_threshold,
        stop_empty: g.rule.stop_empty,
    })
    &&& v.constraints == g.scaling
    &&& v.resources == g.resources
    &&& v.specification@ == g.deployment
}

/// The group of the given name, in full, for an administrator.
#[derive(Debug)]
pub struct GetGroupDetailTask(pub String);

impl GetGroupDetailTask {
    pub fn run(&self, c: &Controller) -> (r: Result<GroupDetail, Status>)
        ensures
            !has_name(c.groups.groups(), self.0@) ==> refused(r, Code::NotFound, "Group not found"@),
            has_name(c.groups.groups(), self.0@) ==> (r matches Ok(v) && exists|i: int|
                #[trigger] first_named(c.groups.groups(), self.0@, i) && detail_of(
                    c.groups.groups()[i]@,
                    v,
                )),
    {
        match c.groups.find_by_name(self.0.as_str()) {
            Some(g) => Ok(
                GroupDetail {
                    name: g.get_name().clone(),
                    nodes: copy_strings(g.get_nodes()),
                    scaling: g.get_rule().to_grpc(),
                    constraints: g.get_scaling(),
                    resources: g.get_resources(),
                    specification: g.get_deployment().duplicate(),
                },
            ),
            None => Err(Status::new(Code::NotFound, "Group not found")),
        }
    }
}

/// All groups.
#[derive(Debug)]
pub struct GetGroupsTask;

impl GetGroupsTask {
    pub fn run(&self, c: &Controller) -> (r: Vec<GroupShort>)
        ensures
            r@.len() == c.groups.groups().len(),
            forall|i: int|
                0 <= i < r@.len() ==> (#[trigger] r@[i]).name@ == c.groups.groups()[i]@.name,
    {
        let all = c.groups.get_groups();
        let mut r: Vec<GroupShort> = Vec::new();
        let mut i: usize = 0;
        while i < all.len()
            invariant
                0 <= i <= all@.len(),
                all@ == c.groups.groups(),
                r@.len() == i,
                forall|j: int| 0 <= j < i ==> (#[trigger] r@[j]).name@ == all@[j]@.name,
            decreases all@.len() - i,
        {
            r.push(GroupShort { name: all[i].get_name().clone() });
            i = i + 1;
        }
        r
    }
}

/// A user connected to the server that sends the request.
#[derive(Debug)]
pub struct UserConnectedTask(pub Authorization, pub NameAndUuid);

impl UserConnectedTask {
    pub fn run(&self, c: &mut Controller) -> (r: Result<(), Status>)
        requires
            old(c).wf(),
            self.0 matches Authorization::Server(id) ==> counts_fit(
                old(c).servers.servers(),
                id.uuid,
                true,
            ),
        ensures
            final(c).wf(),
            match self.0 {
                Authorization::Server(id) => if alive(old(c).servers.servers(), id.uuid) {
                    r is Ok && connected(*old(c), *final(c), id.uuid, self.1)
                } else {
                    refused(r, Code::NotFound, gone_message()) && *final(c) == *old(c)
                },
                Authorization::User(_) => refused(r, Code::PermissionDenied, link_message())
                    && *final(c) == *old(c),
            },
    {
        match self.0.get_server() {
            Some(id) => ServerServiceImpl.connect_user(c, id.uuid, self.1.duplicate()),
            None => Err(link_error()),
        }
    }
}

/// A user left the server that sends the request.
#[derive(Debug)]
pub struct UserDisconnectedTask(pub Authorization, pub u128);

impl UserDisconnectedTask {
    pub fn run(&self, c: &mut Controller) -> (r: Result<(), Status>)
        requires
            old(c).wf(),
            self.0 matches Authorization::Server(id) ==> counts_fit(
                old(c).servers.servers(),
                id.uuid,
                false,
            ),
        ensures
            final(c).wf(),
            match self.0 {
                Authorization::Server(id) => if alive(old(c).servers.servers(), id.uuid) {
                    disconnected(*old(c), *final(c), id.uuid, self.1, r)
                } else {
                    refused(r, Code::NotFound, gone_message()) && *final(c) == *old(c)
                },
                Authorization::User(_) => refused(r, Code::PermissionDenied, link_message())
                    && *final(c) == *old(c),
            },
    {
        match self.0.get_server() {
            Some(id) => ServerServiceImpl.disconnect_user(c, id.uuid, self.1),
            None => Err(link_error()),
        }
    }
}

/// Creates a group: its name, how many servers it keeps, when it starts
/// more on demand, what each asks of a node, how each is deployed, and the
/// nodes they may run on.
#[derive(Debug)]
pub struct CreateGroupTask(
    pub String,
    pub ScalingPolicy,
    pub ScalingRule,
    pub Resources,
    pub Deployment,
    pub Vec<String>,
);

impl CreateGroupTask {
    /// A group with no nodes is refused with the reason; one whose name is
    /// taken is refused as existing already; otherwise the group is added,
    /// with no members yet.
    pub fn run(self, c: &mut Controller) -> (r: Result<(), Status>)
        requires
            old(c).wf(),
        ensures
            final(c).wf(),
            final(c).servers == old(c).servers,
            final(c).users == old(c).users,
            final(c).auth == old(c).auth,
            final(c).events == old(c).events,
            final(c).channels == old(c).channels,
            final(c).timeouts == old(c).timeouts,
            self.5@.len() == 0 ==> refused(r, Code::Internal, "Error: No nodes provided"@)
                && final(c).groups.groups() == old(c).groups.groups(),
            self.5@.len() > 0 && has_name(old(c).groups.groups(), self.0@) ==> refused(
                r,
                Code::AlreadyExists,
                "Resource already exists"@,
            ) && final(c).groups.groups() == old(c).groups.groups(),
            self.5@.len() > 0 && !has_name(old(c).groups.groups(), self.0@) ==> {
                &&& r is Ok
                &&& final(c).groups.groups() == old(c).groups.groups().push(
                    final(c).groups.groups().last(),
                )
                &&& final(c).groups.groups().last()@ == (GroupView {
                    name: self.0@,
                    nodes: self.5@,
                    scaling: self.1,
                    rule: self.2,
                    resources: self.3,
                    deployment: self.4@,
                    members: Seq::<GroupedServer>::empty(),
                    ids: final(c).groups.groups().last()@.ids,
                })
                &&& final(c).groups.groups().last()@.ids.next() == 1
                &&& final(c).groups.groups().last()@.ids.available() == Seq::<usize>::empty()
                &&& final(c).groups.groups().last()@.ids.active() == Set::<usize>::empty()
            },
    {
        let CreateGroupTask(name, scaling, rule, resources, deployment, nodes) = self;
        match c.groups.create_group(name.as_str(), nodes, scaling, rule, resources, deployment) {
            CreationResult::Created => Ok(()),
            CreationResult::AlreadyExists => Err(CreateResourceError::AlreadyExists.to_status()),
            CreationResult::Denied(reason) => {
                proof {
                    reveal_strlit("Error: ");
                    reveal_strlit("No nodes provided");
                    reveal_strlit("Error: No nodes provided");
                    assert("Error: "@ + "No nodes provided"@ =~= "Error: No nodes provided"@);
                }
                Err(CreateResourceError::Error(reason).to_status())
            },
        }
    }
}

} // verus!
