//! What administrators ask of the controller, checked and turned into the
//! tasks that carry it out. A request that lacks a part, or carries one that
//! does not parse, is refused with a message that names the part.

use vstd::prelude::*;

use crate::controller::Controller;
use crate::group::{given_deployment, given_nodes, has_name, updated, ScalingPolicy, ScalingRule};
use crate::server::{
    Deployment, DeploymentView, FallbackPolicy, GroupInfo, KeyValue, Resources, Retention,
    StartRequest,
};
use crate::service::refused;
use crate::status::{Code, Status};
use crate::task::{
    CreateGroupTask, GetServerTask, GetUserTask, UserConnectedTask, UserDisconnectedTask,
};
use crate::transfer::{
    resolution, Authorization, ResolveError, Transfer, TransferMessage, TransferOutcome,
    TransferTarget,
};
use crate::group::Group;
use crate::server::{first_with, Server};
use crate::user::{find_user, CurrentServer, NameAndUuid, User};
use crate::uuids::{parse_uuid, parsed_uuid};

verus! {

/// How a request describes the deployment of servers. The disk retention,
/// when given, comes as its number: zero is temporary, one permanent, and
/// no other number names a kind.
#[derive(Debug)]
pub struct DeploymentRequest {
    pub image: String,
    pub settings: Vec<KeyValue>,
    pub environment: Vec<KeyValue>,
    pub retention: Option<i32>,
    pub max_players: u32,
    /// The fallback priority, when the servers may be fallen back to.
    pub fallback: Option<i32>,
}

/// The deployment a request describes: temporary disks unless it says
/// otherwise, and fallback enabled with the given priority when one is
/// given, disabled otherwise.
pub open spec fn requested_deployment(r: DeploymentRequest) -> DeploymentView {
    DeploymentView {
        settings: r.settings@,
        environment: r.environment@,
        disk_retention: match r.retention {
            Some(1) => Retention::Permanent,
            _ => Retention::Temporary,
        },
        image: r.image@,
        max_players: r.max_players,
        fallback: match r.fallback {
            Some(p) => FallbackPolicy { enabled: true, priority: p },
            None => FallbackPolicy { enabled: false, priority: 0 },
        },
    }
}

/// A deployment made from a request keeps what the request lists, each in
/// its place: its settings as the settings, its environment as the
/// environment, its image and its player limit. Its disks are permanent
/// exactly when the retention is one, and it may be fallen back to exactly
/// when the request gives a priority, which it then has.
pub proof fn law_request_lists_in_place(r: DeploymentRequest)
    ensures
        requested_deployment(r).settings == r.settings@,
        requested_deployment(r).environment == r.environment@,
        requested_deployment(r).image == r.image@,
        requested_deployment(r).max_players == r.max_players,
        requested_deployment(r).disk_retention == (if r.retention == Some(1i32) {
            Retention::Permanent
        } else {
            Retention::Temporary
        }),
        requested_deployment(r).fallback.enabled == (r.fallback is Some),
        r.fallback matches Some(p) ==> requested_deployment(r).fallback.priority == p,
{
}

/// How a request to change a group, or to create a deployment, describes
/// when servers are started on demand: the start threshold (the bit pattern
/// of a 32-bit float) and whether empty servers are stopped. A policy given
/// this way is enabled.
#[derive(Clone, Copy, Debug, PartialEq, Eq, Structural)]
pub struct ScalingValue {
    pub start_threshold: u32,
    pub stop_empty: bool,
}

/// The enabled policy a request's scaling value describes.
pub open spec fn enabled_rule(v: ScalingValue) -> ScalingRule {
    ScalingRule { enabled: true, start_threshold: v.start_threshold, stop_empty: v.stop_empty }
}

/// The enabled policy a request's scaling value describes.
pub fn rule_from(v: ScalingValue) -> (r: ScalingRule)
    ensures
        r == enabled_rule(v),
{
    ScalingRule { enabled: true, start_threshold: v.start_threshold, stop_empty: v.stop_empty }
}

/// The retention of the request names a kind that is not known.
pub open spec fn bad_retention(r: DeploymentRequest) -> bool {
    r.retention matches Some(n) && n != 0 && n != 1
}

/// The deployment the request describes; a retention of an unknown kind is
/// refused.
pub fn deployment_from_request(request: DeploymentRequest) -> (r: Result<Deployment, Status>)
    ensures
        bad_retention(request) ==> refused(
            r,
            Code::InvalidArgument,
            "Invalid disk retention provided"@,
        ),
        !bad_retention(request) ==> (r matches Ok(d) && d@ == requested_deployment(request)),
        r matches Ok(d) ==> {
            &&& d.settings@ == request.settings@
            &&& d.environment@ == request.environment@
            &&& d.image@ == request.image@
            &&& d.max_players == request.max_players
            &&& d.disk_retention == (if request.retention == Some(1i32) {
                Retention::Permanent
            } else {
                Retention::Temporary
            })
            &&& d.fallback.enabled == (request.fallback is Some)
            &&& (request.fallback matches Some(p) ==> d.fallback.priority == p)
        },
{
    let disk_retention = match request.retention {
        None => Retention::default_retention(),
        Some(0) => Retention::Temporary,
        Some(1) => Retention::Permanent,
        Some(_) => {
            return Err(Status::new(Code::InvalidArgument, "Invalid disk retention provided"));
        },
    };
    let fallback = match request.fallback {
        Some(priority) => FallbackPolicy { enabled: true, priority },
        None => FallbackPolicy { enabled: false, priority: 0 },
    };
    Ok(
        Deployment {
            settings: request.settings,
            environment: request.environment,
            disk_retention,
            image: request.image,
            max_players: request.max_players,
            fallback,
        },
    )
}

/// The requests of administrators that change what the controller runs.
#[derive(Clone, Copy, Debug)]
pub struct ManageServiceImpl;

impl ManageServiceImpl {
    /// The task for a request to create a group. The parts are checked in
    /// order: the limits on the number of servers, the scaling policy, the
    /// resources and the deployment.
    pub fn create_group(
        &self,
        name: String,
        constraints: Option<ScalingPolicy>,
        scaling: Option<ScalingRule>,
        resources: Option<Resources>,
        deployment: Option<DeploymentRequest>,
        nodes: Vec<String>,
    ) -> (r: Result<CreateGroupTask, Status>)
        ensures
            constraints is None ==> refused(r, Code::InvalidArgument, "No constraints provided"@),
            constraints is Some && scaling is None ==> refused(
                r,
                Code::InvalidArgument,
                "No scaling policy provided"@,
            ),
            constraints is Some && scaling is Some && resources is None ==> refused(
                r,
                Code::InvalidArgument,
                "No resources provided"@,
            ),
            constraints is Some && scaling is Some && resources is Some && deployment is None
                ==> refused(r, Code::InvalidArgument, "No specification provided"@),
            constraints matches Some(c) ==> (scaling matches Some(rule) ==> (resources matches Some(res) ==> (
            deployment matches Some(d) ==> if bad_retention(d) {
                refused(r, Code::InvalidArgument, "Invalid disk retention provided"@)
            } else {
                r matches Ok(t) && t.0 == name && t.1 == c && t.2 == rule && t.3 == res && t.4@
                    == requested_deployment(d) && t.5 == nodes
            }))),
    {
        let limits = match constraints {
            Some(c) => c,
            None => {
                return Err(Status::new(Code::InvalidArgument, "No constraints provided"));
            },
        };
        let rule = match scaling {
            Some(s) => s,
            None => {
                return Err(Status::new(Code::InvalidArgument, "No scaling policy provided"));
            },
        };
        let resources = match resources {
            Some(r) => r,
            None => {
                return Err(Status::new(Code::InvalidArgument, "No resources provided"));
            },
        };
        let deployment = match deployment {
            Some(d) => deployment_from_request(d)?,
            None => {
                return Err(Status::new(Code::InvalidArgument, "No specification provided"));
            },
        };
        Ok(CreateGroupTask(name, limits, rule, resources, deployment, nodes))
    }

    /// The task for a request to change a group; only a deployment with a
    /// retention of an unknown kind is refused. A scaling policy that is
    /// given is enabled.
    pub fn update_group(
        &self,
        name: String,
        constraints: Option<ScalingPolicy>,
        scaling: Option<ScalingValue>,
        resources: Option<Resources>,
        deployment: Option<DeploymentRequest>,
        nodes: Option<Vec<String>>,
    ) -> (r: Result<UpdateGroupTask, Status>)
        ensures
            match deployment {
                Some(d) => if bad_retention(d) {
                    refused(r, Code::InvalidArgument, "Invalid disk retention provided"@)
                } else {
                    r matches Ok(t) && t.0 == name && t.1 == constraints && t.2 == (match scaling {
                        Some(v) => Some(enabled_rule(v)),
                        None => None,
                    }) && t.3 == resources && (t.4 matches Some(x) && x@ == requested_deployment(d))
                        && t.5 == nodes
                },
                None => r matches Ok(t) && t.0 == name && t.1 == constraints && t.2 == (match scaling {
                    Some(v) => Some(enabled_rule(v)),
                    None => None,
                }) && t.3 == resources && t.4 is None && t.5 == nodes,
            },
    {
        let deployment = match deployment {
            Some(d) => Some(deployment_from_request(d)?),
            None => None,
        };
        let rule = match scaling {
            Some(v) => Some(rule_from(v)),
            None => None,
        };
        Ok(UpdateGroupTask(name, constraints, rule, resources, deployment, nodes))
    }

    /// The task for a request to start a server; the resources and then
    /// the deployment must be given.
    pub fn schedule_server(
        &self,
        priority: i32,
        name: String,
        node: String,
        resources: Option<Resources>,
        deployment: Option<DeploymentRequest>,
    ) -> (r: Result<ScheduleServerTask, Status>)
        ensures
            resources is None ==> refused(r, Code::InvalidArgument, "No resources provided"@),
            resources is Some && deployment is None ==> refused(
                r,
                Code::InvalidArgument,
                "No spec provided"@,
            ),
            resources matches Some(res) ==> (deployment matches Some(d) ==> if bad_retention(d) {
                refused(r, Code::InvalidArgument, "Invalid disk retention provided"@)
            } else {
                r matches Ok(t) && t.0 == priority && t.1 == name && t.2 == node && t.3 == res
                    && t.4@ == requested_deployment(d)
            }),
    {
        let resources = match resources {
            Some(r) => r,
            None => {
                return Err(Status::new(Code::InvalidArgument, "No resources provided"));
            },
        };
        let deployment = match deployment {
            Some(d) => deployment_from_request(d)?,
            None => {
                return Err(Status::new(Code::InvalidArgument, "No spec provided"));
            },
        };
        Ok(ScheduleServerTask(priority, name, node, resources, deployment))
    }
}

/// Changes a group: each part that is given replaces the group's.
#[derive(Debug)]
pub struct UpdateGroupTask(
    pub String,
    pub Option<ScalingPolicy>,
    pub Option<ScalingRule>,
    pub Option<Resources>,
    pub Option<Deployment>,
    pub Option<Vec<String>>,
);

impl UpdateGroupTask {
    /// Puts each given part in place of the named group's own: limits,
    /// scaling policy, resources, deployment and nodes. A group that does
    /// not exist is refused.
    pub fn run(self, c: &mut Controller) -> (r: Result<(), Status>)
        requires
            old(c).wf(),
        ensures
            final(c).wf(),
            !has_name(old(c).groups.groups(), self.0@) ==> refused(
                r,
                Code::NotFound,
                "Group not found"@,
            ) && *final(c) == *old(c),
            has_name(old(c).groups.groups(), self.0@) ==> r is Ok,
            final(c).groups.groups().len() == old(c).groups.groups().len(),
            forall|i: int|
                #![trigger final(c).groups.groups()[i]]
                0 <= i < old(c).groups.groups().len() ==> if old(c).groups.groups()[i]@.name == self.0@ {
                    updated(
                        old(c).groups.groups()[i]@,
                        final(c).groups.groups()[i]@,
                        self.1,
                        self.2,
                        self.3,
                        given_deployment(self.4),
                        given_nodes(self.5),
                    )
                } else {
                    final(c).groups.groups()[i] == old(c).groups.groups()[i]
                },
            final(c).servers == old(c).servers,
            final(c).users == old(c).users,
            final(c).auth == old(c).auth,
            final(c).events == old(c).events,
            final(c).channels == old(c).channels,
            final(c).timeouts == old(c).timeouts,
    {
        if c.groups.position(self.0.as_str()).is_none() {
            return Err(Status::new(Code::NotFound, "Group not found"));
        }
        c.groups.update_group(self.0.as_str(), self.1, self.2, self.3, self.4, self.5);
        Ok(())
    }
}

/// Starts a server outside any group: its priority, name, node, resources
/// and deployment.
#[derive(Debug)]
pub struct ScheduleServerTask(pub i32, pub String, pub String, pub Resources, pub Deployment);

impl ScheduleServerTask {
    /// Queues the start of the server, on the given node only, at once;
    /// returns the id the request was given.
    pub fn run(self, c: &mut Controller) -> (id: u64)
        requires
            old(c).servers.next_request_id() < u64::MAX,
        ensures
            id == old(c).servers.next_request_id(),
            final(c).servers.next_request_id() == id + 1,
            final(c).servers.start_queue().len() == old(c).servers.start_queue().len() + 1,
            final(c).servers.start_queue().drop_last() == old(c).servers.start_queue(),
            ({
                let q = final(c).servers.start_queue().last();
                &&& q.id == id
                &&& q.when is None
                &&& q.priority == self.0
                &&& q.name == self.1
                &&& q.group is None
                &&& q.nodes@ == seq![self.2]
                &&& q.resources == self.3
                &&& q.deployment == self.4
            }),
            final(c).servers.servers() == old(c).servers.servers(),
            final(c).servers.stop_queue() == old(c).servers.stop_queue(),
            final(c).groups == old(c).groups,
            final(c).users == old(c).users,
            final(c).auth == old(c).auth,
            final(c).events == old(c).events,
            final(c).channels == old(c).channels,
            final(c).timeouts == old(c).timeouts,
    {
        let ScheduleServerTask(priority, name, node, resources, deployment) = self;
        let mut nodes: Vec<String> = Vec::new();
        nodes.push(node);
        let request = StartRequest {
            id: 0,
            when: None,
            name,
            group: None,
            nodes,
            resources,
            deployment,
            priority,
            canceled: false,
        };
        let id = c.servers.queue_server(request);
        proof {
            assert(final(c).servers.start_queue().drop_last() =~= old(c).servers.start_queue());
        }
        id
    }
}

/// What a request to move users names as its target.
#[derive(PartialEq, Eq, Structural, Clone, Copy, Debug)]
pub enum TargetType {
    Server,
    Group,
    Fallback,
}

/// The target of a request to move users: its type, absent when the
/// request names a type that is not known, and its name or uuid as text.
#[derive(Debug)]
pub struct TargetRequest {
    pub kind: Option<TargetType>,
    pub target: Option<String>,
}

/// Moves users to a target on behalf of whoever asked.
#[derive(Debug)]
pub struct TransferUsersTask(pub Authorization, pub Vec<u128>, pub TransferTarget);

/// The task, or the refusal, that a request to move the users named by
/// `ids` to `target` comes to for the requester `auth`: the target is
/// checked first, then every uuid.
pub open spec fn transfer_request(
    auth: Authorization,
    ids: Seq<String>,
    target: Option<TargetRequest>,
    r: Result<TransferUsersTask, Status>,
) -> bool {
    &&& target is None ==> refused(r, Code::InvalidArgument, "Missing target"@)
    &&& target matches Some(t) ==> {
        &&& t.kind is None ==> refused(
            r,
            Code::InvalidArgument,
            "Invalid target type provided"@,
        )
        &&& t.kind matches Some(k) ==> match (t.target, k) {
            (Some(_), TargetType::Group) | (None, TargetType::Fallback) => if some_unparsed(ids) {
                refused(r, Code::InvalidArgument, "Invalid UUID provided"@)
            } else {
                r matches Ok(task) && task.0 == auth && all_parsed(ids, task.1@) && (match (t.target, k) {
                    (Some(name), TargetType::Group) => task.2 == TransferTarget::Group(name),
                    _ => task.2 == TransferTarget::Fallback,
                })
            },
            (Some(text), TargetType::Server) => match parsed_uuid(text@) {
                Err(_) => refused(r, Code::InvalidArgument, "Invalid UUID provided"@),
                Ok(u) => if some_unparsed(ids) {
                    refused(r, Code::InvalidArgument, "Invalid UUID provided"@)
                } else {
                    r matches Ok(task) && task.0 == auth && all_parsed(ids, task.1@)
                        && task.2 == TransferTarget::Server(u)
                },
            },
            _ => refused(r, Code::InvalidArgument, "Invalid target type combination"@),
        }
    }
}

/// The uuids parse, each to the one at the same place.
pub open spec fn all_parsed(texts: Seq<String>, uuids: Seq<u128>) -> bool {
    &&& texts.len() == uuids.len()
    &&& forall|i: int| 0 <= i < texts.len() ==> parsed_uuid(#[trigger] texts[i]@) == Ok::<u128, Seq<char>>(uuids[i])
}

/// Some uuid does not parse.
pub open spec fn some_unparsed(texts: Seq<String>) -> bool {
    exists|i: int| 0 <= i < texts.len() && #[trigger] parsed_uuid(texts[i]@) is Err
}

/// The uuids the texts parse to, or nothing when one does not parse.
fn parse_all(ids: &Vec<String>) -> (r: Option<Vec<u128>>)
    ensures
        some_unparsed(ids@) ==> r is None,
        !some_unparsed(ids@) ==> (r matches Some(u) && all_parsed(ids@, u@)),
{
    let mut uuids: Vec<u128> = Vec::new();
    let mut i: usize = 0;
    while i < ids.len()
        invariant
            0 <= i <= ids@.len(),
            all_parsed(ids@.take(i as int), uuids@),
        decreases ids@.len() - i,
    {
        match parse_uuid(ids[i].as_str()) {
            Ok(u) => {
                uuids.push(u);
                proof {
                    assert(ids@.take(i + 1)[i as int] == ids@[i as int]);
                    assert forall|j: int| 0 <= j < i + 1 implies parsed_uuid(
                        #[trigger] ids@.take(i + 1)[j]@,
                    ) == Ok::<u128, Seq<char>>(uuids@[j]) by {
                        if j < i {
                            assert(ids@.take(i + 1)[j] == ids@.take(i as int)[j]);
                        }
                    }
                }
            },
            Err(_) => {
                proof {
                    assert(parsed_uuid(ids@[i as int]@) is Err);
                }
                return None;
            },
        }
        i = i + 1;
    }
    proof {
        assert(ids@.take(ids@.len() as int) =~= ids@);
        assert forall|j: int| 0 <= j < ids@.len() implies !(#[trigger] parsed_uuid(ids@[j]@) is Err) by {
            assert(ids@.take(ids@.len() as int)[j] == ids@[j]);
        }
    }
    Some(uuids)
}

impl ManageServiceImpl {
    /// The task for a request to move users. The target is checked first:
    /// it must be given and of a known type; a group or a server is named
    /// by text, the server's uuid must parse, and a fallback names nothing.
    /// Then every user's uuid must parse.
    pub fn transfer_users(
        &self,
        auth: Authorization,
        ids: Vec<String>,
        target: Option<TargetRequest>,
    ) -> (r: Result<TransferUsersTask, Status>)
        ensures
            transfer_request(auth, ids@, target, r),
    {
        let t = match target {
            Some(t) => t,
            None => {
                return Err(Status::new(Code::InvalidArgument, "Missing target"));
            },
        };
        let kind = match t.kind {
            Some(k) => k,
            None => {
                return Err(Status::new(Code::InvalidArgument, "Invalid target type provided"));
            },
        };
        let destination = match (t.target, kind) {
            (Some(name), TargetType::Group) => TransferTarget::Group(name),
            (Some(text), TargetType::Server) => match parse_uuid(text.as_str()) {
                Ok(u) => TransferTarget::Server(u),
                Err(_) => {
                    return Err(Status::new(Code::InvalidArgument, "Invalid UUID provided"));
                },
            },
            (None, TargetType::Fallback) => TransferTarget::Fallback,
            _ => {
                return Err(Status::new(Code::InvalidArgument, "Invalid target type combination"));
            },
        };
        let uuids = match parse_all(&ids) {
            Some(u) => u,
            None => {
                return Err(Status::new(Code::InvalidArgument, "Invalid UUID provided"));
            },
        };
        Ok(TransferUsersTask(auth, uuids, destination))
    }
}

/// The refusal reported for a transfer that could not be resolved.
pub open spec fn resolve_refusal(e: ResolveError) -> (Code, Seq<char>) {
    match e {
        ResolveError::UserNotFound => (Code::NotFound, "User not found"@),
        ResolveError::ServerNotFound => (Code::NotFound, "Server not found"@),
        ResolveError::NotServerAvailable => (Code::Unavailable, "Server not available"@),
        ResolveError::GroupNotFound => (Code::NotFound, "Group not found"@),
        ResolveError::AccessDenied => (
            Code::PermissionDenied,
            "Missing permissions to transfer user"@,
        ),
    }
}

/// What one user of a task to move users comes to.
pub enum TaskStep {
    /// The user is not known; it is passed over.
    Skip,
    /// The task stops here, refused with this code and message.
    Stop(Code, Seq<char>),
    /// The user is on the way: the users after, and the message for the
    /// server the user leaves, with that server's uuid.
    Moved(Seq<User>, (u128, TransferMessage)),
}

/// What the user with uuid `x` comes to, with the users `us`.
pub open spec fn task_step(
    us: Seq<User>,
    x: u128,
    auth: Authorization,
    target: TransferTarget,
    servers: Seq<Server>,
    groups: Seq<Group>,
    now: u64,
) -> TaskStep {
    match find_user(us, x) {
        None => TaskStep::Skip,
        Some(i) => match resolution(auth, us[i], target, servers, groups, now) {
            Err(e) => TaskStep::Stop(resolve_refusal(e).0, resolve_refusal(e).1),
            Ok(t) => {
                let p = choose|p: int| first_with(servers, t.to.uuid, p);
                let s = servers[p];
                if s.allocation.addresses@.len() > 0 {
                    TaskStep::Moved(
                        us.update(
                            i,
                            User { server: CurrentServer::Transfering(t.timestamp, t.to), ..us[i] },
                        ),
                        (
                            t.from.uuid,
                            TransferMessage {
                                user: t.user,
                                host: s.allocation.addresses@[0].host,
                                port: s.allocation.addresses@[0].port,
                            },
                        ),
                    )
                } else {
                    TaskStep::Stop(
                        Code::Unavailable,
                        "Target server seems to have no network address"@,
                    )
                }
            },
        },
    }
}

/// What the users with uuids `xs` come to, in order, from the users `us`:
/// the users after, the messages, and the refusal the task stopped at.
pub open spec fn task_run(
    us: Seq<User>,
    xs: Seq<u128>,
    auth: Authorization,
    target: TransferTarget,
    servers: Seq<Server>,
    groups: Seq<Group>,
    now: u64,
) -> (Seq<User>, Seq<(u128, TransferMessage)>, Option<(Code, Seq<char>)>)
    decreases xs.len(),
{
    if xs.len() == 0 {
        (us, Seq::empty(), None)
    } else {
        match task_step(us, xs[0], auth, target, servers, groups, now) {
            TaskStep::Skip => task_run(us, xs.drop_first(), auth, target, servers, groups, now),
            TaskStep::Stop(code, m) => (us, Seq::empty(), Some((code, m))),
            TaskStep::Moved(next, message) => {
                let rest = task_run(next, xs.drop_first(), auth, target, servers, groups, now);
                (rest.0, seq![message] + rest.1, rest.2)
            },
        }
    }
}

impl TransferUsersTask {
    /// What the user with uuid `x` comes to: see `task_step`.
    fn step(&self, c: &mut Controller, x: u128, now: u64) -> (r: Result<
        Option<(u128, TransferMessage)>,
        Status,
    >)
        requires
            old(c).wf(),
        ensures
            final(c).wf(),
            final(c).servers == old(c).servers,
            final(c).groups == old(c).groups,
            final(c).auth == old(c).auth,
            final(c).events == old(c).events,
            final(c).channels == old(c).channels,
            final(c).timeouts == old(c).timeouts,
            match task_step(
                old(c).users.users(),
                x,
                self.0,
                self.2,
                old(c).servers.servers(),
                old(c).groups.groups(),
                now,
            ) {
                TaskStep::Skip => r == Ok::<Option<(u128, TransferMessage)>, Status>(None)
                    && final(c).users.users() == old(c).users.users(),
                TaskStep::Stop(code, m) => refused(r, code, m) && final(c).users.users() == old(
                    c,
                ).users.users(),
                TaskStep::Moved(next, message) => r == Ok::<
                    Option<(u128, TransferMessage)>,
                    Status,
                >(Some(message)) && final(c).users.users() == next,
            },
    {
        proof {
            c.users.lemma_find(x);
        }
        let i = match c.users.position(x) {
            Some(i) => i,
            None => {
                return Ok(None);
            },
        };
        let transfer = match Transfer::resolve(
            &self.0,
            &c.users.get_users()[i],
            &self.2,
            &c.servers,
            &c.groups,
            now,
        ) {
            Ok(t) => t,
            Err(e) => {
                return Err(e.to_status());
            },
        };
        proof {
            let u = transfer.to.uuid;
            let k = choose|k: int|
                0 <= k < c.servers.servers().len() && c.servers.servers()[k].uuid == u
                    && c.servers.servers()[k].name == transfer.to.name;
            crate::service::lemma_first_with_exists(c.servers.servers(), u, k);
        }
        match transfer.transfer_user(&mut c.users, &c.servers) {
            Ok(m) => Ok(Some((transfer.from.uuid, m))),
            Err(message) => Err(Status { code: Code::Unavailable, message }),
        }
    }

    /// Moves each user, in order, to the target on behalf of whoever asked.
    /// Users that are not known are passed over. The task stops at the first
    /// user whose transfer cannot be resolved, or whose target has no
    /// address; users sent before stay sent, and their messages are kept.
    pub fn run(&self, c: &mut Controller, now: u64) -> (r: TransferOutcome)
        requires
            old(c).wf(),
            self.1@.len() <= u32::MAX,
        ensures
            final(c).wf(),
            final(c).servers == old(c).servers,
            final(c).groups == old(c).groups,
            final(c).auth == old(c).auth,
            final(c).events == old(c).events,
            final(c).channels == old(c).channels,
            final(c).timeouts == old(c).timeouts,
            ({
                let run = task_run(
                    old(c).users.users(),
                    self.1@,
                    self.0,
                    self.2,
                    old(c).servers.servers(),
                    old(c).groups.groups(),
                    now,
                );
                &&& final(c).users.users() == run.0
                &&& r.messages@ == run.1
                &&& match run.2 {
                    None => r.result == Ok::<u32, Status>(run.1.len() as u32),
                    Some((code, m)) => refused(r.result, code, m),
                }
            }),
    {
        let ghost c0 = *c;
        let ghost xs = self.1@;
        let ghost all = task_run(
            c0.users.users(),
            xs,
            self.0,
            self.2,
            c0.servers.servers(),
            c0.groups.groups(),
            now,
        );
        let mut messages: Vec<(u128, TransferMessage)> = Vec::new();
        let mut i: usize = 0;
        proof {
            assert(xs.skip(0) =~= xs);
            assert(messages@ + all.1 =~= all.1);
        }
        while i < self.1.len()
            invariant
                c.wf(),
                c0 == *old(c),
                0 <= i <= xs.len(),
                xs == self.1@,
                xs.len() <= u32::MAX,
                c.servers == c0.servers,
                c.groups == c0.groups,
                c.auth == c0.auth,
                c.events == c0.events,
                c.channels == c0.channels,
                c.timeouts == c0.timeouts,
                messages@.len() <= i,
                all == task_run(
                    c0.users.users(),
                    xs,
                    self.0,
                    self.2,
                    c0.servers.servers(),
                    c0.groups.groups(),
                    now,
                ),
                ({
                    let rest = task_run(
                        c.users.users(),
                        xs.skip(i as int),
                        self.0,
                        self.2,
                        c0.servers.servers(),
                        c0.groups.groups(),
                        now,
                    );
                    &&& all.0 == rest.0
                    &&& all.1 == messages@ + rest.1
                    &&& all.2 == rest.2
                }),
            decreases xs.len() - i,
        {
            let ghost ui = c.users.users();
            let ghost st = task_step(
                ui,
                xs[i as int],
                self.0,
                self.2,
                c0.servers.servers(),
                c0.groups.groups(),
                now,
            );
            proof {
                assert(xs.skip(i as int)[0] == xs[i as int]);
                assert(xs.skip(i as int).drop_first() =~= xs.skip(i + 1));
                assert(task_run(ui, xs.skip(i as int), self.0, self.2, c0.servers.servers(), c0.groups.groups(), now)
                    == match st {
                    TaskStep::Skip => task_run(ui, xs.skip(i + 1), self.0, self.2, c0.servers.servers(), c0.groups.groups(), now),
                    TaskStep::Stop(code, m) => (ui, Seq::<(u128, TransferMessage)>::empty(), Some((code, m))),
                    TaskStep::Moved(next, message) => {
                        let rest = task_run(next, xs.skip(i + 1), self.0, self.2, c0.servers.servers(), c0.groups.groups(), now);
                        (rest.0, seq![message] + rest.1, rest.2)
                    },
                });
            }
            match self.step(c, self.1[i], now) {
                Ok(Some(message)) => {
                    let ghost before = messages@;
                    messages.push(message);
                    proof {
                        let rest = task_run(
                            c.users.users(),
                            xs.skip(i + 1),
                            self.0,
                            self.2,
                            c0.servers.servers(),
                            c0.groups.groups(),
                            now,
                        );
                        assert(before + (seq![message] + rest.1) =~= messages@ + rest.1);
                    }
                },
                Ok(None) => {},
                Err(e) => {
                    proof {
                        assert(all.1 =~= messages@);
                    }
                    return TransferOutcome { messages, result: Err(e) };
                },
            }
            i = i + 1;
        }
        proof {
            assert(xs.skip(i as int) =~= Seq::<u128>::empty());
            assert(all.1 =~= messages@);
        }
        let count = messages.len() as u32;
        TransferOutcome { messages, result: Ok(count) }
    }
}

/// The requests servers send through the client service, each turned into
/// the task that carries it out; a uuid that does not parse is refused.
#[derive(Clone, Copy, Debug)]
pub struct ClientServiceImpl;

impl ClientServiceImpl {
    /// A server's request to move users: checked as an administrator's
    /// request to move users is (see `transfer_request`).
    pub fn transfer_users(
        &self,
        auth: Authorization,
        ids: Vec<String>,
        target: Option<TargetRequest>,
    ) -> (r: Result<TransferUsersTask, Status>)
        ensures
            transfer_request(auth, ids@, target, r),
    {
        ManageServiceImpl.transfer_users(auth, ids, target)
    }

    /// A user connected to the server that asks.
    pub fn user_connected(&self, auth: Authorization, name: String, id: &str) -> (r: Result<
        UserConnectedTask,
        Status,
    >)
        ensures
            match parsed_uuid(id@) {
                Ok(u) => r matches Ok(t) && t.0 == auth && t.1 == (NameAndUuid { name: name, uuid: u }),
                Err(_) => refused(r, Code::InvalidArgument, "Invalid UUID provided"@),
            },
    {
        match parse_uuid(id) {
            Ok(u) => Ok(UserConnectedTask(auth, NameAndUuid { name, uuid: u })),
            Err(_) => Err(Status::new(Code::InvalidArgument, "Invalid UUID provided")),
        }
    }

    /// A user left the server that asks.
    pub fn user_disconnected(&self, auth: Authorization, id: &str) -> (r: Result<
        UserDisconnectedTask,
        Status,
    >)
        ensures
            match parsed_uuid(id@) {
                Ok(u) => r matches Ok(t) && t.0 == auth && t.1 == u,
                Err(_) => refused(r, Code::InvalidArgument, "Invalid UUID provided"@),
            },
    {
        match parse_uuid(id) {
            Ok(u) => Ok(UserDisconnectedTask(auth, u)),
            Err(_) => Err(Status::new(Code::InvalidArgument, "Invalid UUID provided")),
        }
    }

    /// The user with the uuid.
    pub fn get_user(&self, id: &str) -> (r: Result<GetUserTask, Status>)
        ensures
            match parsed_uuid(id@) {
                Ok(u) => r matches Ok(t) && t.0 == u,
                Err(_) => refused(r, Code::InvalidArgument, "Invalid UUID provided"@),
            },
    {
        match parse_uuid(id) {
            Ok(u) => Ok(GetUserTask(u)),
            Err(_) => Err(Status::new(Code::InvalidArgument, "Invalid UUID provided")),
        }
    }

    /// The server with the uuid.
    pub fn get_server(&self, id: &str) -> (r: Result<GetServerTask, Status>)
        ensures
            match parsed_uuid(id@) {
                Ok(u) => r matches Ok(t) && t.0 == u,
                Err(_) => refused(r, Code::InvalidArgument, "Invalid UUID provided"@),
            },
    {
        match parse_uuid(id) {
            Ok(u) => Ok(GetServerTask(u)),
            Err(_) => Err(Status::new(Code::InvalidArgument, "Invalid UUID provided")),
        }
    }
}

} // verus!
