//! What administrators ask of the controller about deployments, units and
//! users. Deployments are the groups and units the servers; the cloudlets a
//! deployment runs on are the nodes of its group.

use vstd::prelude::*;

use crate::controller::Controller;
use crate::group::{has_name, CreationResult, GroupView, GroupedServer, ScalingPolicy, ScalingRule};
use crate::request::{enabled_rule, rule_from, ScalingValue};
use crate::server::{DeploymentView, FallbackPolicy, KeyValue, Resources, Retention};
use crate::server::{
    after_unit_stop, apply_to, first_with, Allocation, Deployment, Server, State, StopRequest,
};
use crate::event::alive;
use crate::group::first_named;
use crate::user::User;
use crate::uuids::{hyphenated, parse_uuid, parsed_uuid, push_hyphenated};
use crate::service::refused;
use crate::status::{Code, Status};
use crate::transfer::TransferOutcome;
use crate::text::{copy_strings, same_text};
use crate::unit_service::{UnitServiceImpl, UnitTransferTarget};

verus! {

/// How a request describes what the units of a deployment run. The disk
/// retention comes as its number: one is permanent, any other number
/// temporary.
#[derive(Debug)]
pub struct SpecValue {
    pub image: String,
    pub max_players: u32,
    pub settings: Vec<KeyValue>,
    pub environment: Vec<KeyValue>,
    pub disk_retention: Option<i32>,
    pub fallback: Option<FallbackPolicy>,
}

/// A request to create a deployment: its name, the cloudlets it may run
/// on, and the parts that are given.
#[derive(Debug)]
pub struct DeploymentValue {
    pub name: String,
    pub cloudlets: Vec<String>,
    pub constraints: Option<ScalingPolicy>,
    pub scaling: Option<ScalingValue>,
    pub resources: Option<Resources>,
    pub spec: Option<SpecValue>,
}

/// The retention a number stands for.
pub open spec fn retention_of(n: i32) -> Retention {
    if n == 1 {
        Retention::Permanent
    } else {
        Retention::Temporary
    }
}

/// The limits a deployment has when the request gives none.
pub open spec fn no_constraints() -> ScalingPolicy {
    ScalingPolicy { minimum: 0, maximum: 0, priority: 0 }
}

/// When a deployment starts units on demand: the enabled policy the request
/// describes, or none at all.
pub open spec fn rule_of(v: Option<ScalingValue>) -> ScalingRule {
    match v {
        Some(s) => enabled_rule(s),
        None => ScalingRule { enabled: false, start_threshold: 0, stop_empty: false },
    }
}

/// The resources a deployment has when the request gives none.
pub open spec fn no_resources() -> Resources {
    Resources { memory: 0, swap: 0, cpu: 0, io: 0, disk: 0, addresses: 0 }
}

/// What the units of a deployment run, as the request describes it: an
/// empty description unless it gives one, and within it temporary disks
/// and no fallback unless it says otherwise.
pub open spec fn spec_of(v: Option<SpecValue>) -> DeploymentView {
    match v {
        None => DeploymentView {
            settings: Seq::empty(),
            environment: Seq::empty(),
            disk_retention: Retention::Temporary,
            image: Seq::empty(),
            max_players: 0,
            fallback: FallbackPolicy { enabled: false, priority: 0 },
        },
        Some(s) => DeploymentView {
            settings: s.settings@,
            environment: s.environment@,
            disk_retention: match s.disk_retention {
                Some(n) => retention_of(n),
                None => Retention::Temporary,
            },
            image: s.image@,
            max_players: s.max_players,
            fallback: match s.fallback {
                Some(f) => f,
                None => FallbackPolicy { enabled: false, priority: 0 },
            },
        },
    }
}

/// A deployment described by a request runs what the request names: its
/// image, its player limit, its settings and its environment, each as given
/// and in place; its disks are permanent exactly when the retention number
/// is one, and it falls back only as the request says. Without a
/// description the deployment runs nothing: no image, no players, no
/// settings, no environment, temporary disks and no fallback.
pub proof fn law_spec_value_kept(s: SpecValue)
    ensures
        spec_of(Some(s)).image == s.image@,
        spec_of(Some(s)).max_players == s.max_players,
        spec_of(Some(s)).settings == s.settings@,
        spec_of(Some(s)).environment == s.environment@,
        spec_of(Some(s)).disk_retention == (if s.disk_retention == Some(1i32) {
            Retention::Permanent
        } else {
            Retention::Temporary
        }),
        s.fallback matches Some(f) ==> spec_of(Some(s)).fallback == f,
        s.fallback is None ==> !spec_of(Some(s)).fallback.enabled,
        spec_of(None).image.len() == 0,
        spec_of(None).max_players == 0,
        spec_of(None).settings.len() == 0,
        spec_of(None).environment.len() == 0,
        spec_of(None).disk_retention == Retention::Temporary,
        !spec_of(None).fallback.enabled,
{
}

/// Some name in `known` is `n`.
pub open spec fn known_name(known: Seq<String>, n: Seq<char>) -> bool {
    exists|j: int| 0 <= j < known.len() && #[trigger] known[j]@ == n
}

/// The `i`th cloudlet of `names` is the first one that is not known.
pub open spec fn first_unknown(names: Seq<String>, known: Seq<String>, i: int) -> bool {
    &&& 0 <= i < names.len()
    &&& !known_name(known, names[i]@)
    &&& forall|j: int| 0 <= j < i ==> known_name(known, #[trigger] names[j]@)
}

/// A unit as it is shown in full.
#[derive(Debug)]
pub struct UnitValue {
    pub name: String,
    pub uuid: String,
    /// The deployment the unit belongs to, if any.
    pub deployment: Option<String>,
    pub cloudlet: String,
    pub connected_users: u32,
    pub ready: bool,
    pub auth_token: String,
    pub allocation: Allocation,
    pub state: State,
}

/// `v` shows the server `s` in full.
pub open spec fn unit_value_of(s: Server, v: UnitValue) -> bool {
    &&& v.name == s.name
    &&& v.uuid@ == hyphenated(s.uuid)
    &&& match s.group {
        Some(g) => v.deployment matches Some(d) && d == g.group,
        None => v.deployment is None,
    }
    &&& v.cloudlet == s.node
    &&& v.connected_users == s.connected_users
    &&& v.ready == s.ready
    &&& v.auth_token == s.token
    &&& v.allocation.addresses@ == s.allocation.addresses@
    &&& v.allocation.resources == s.allocation.resources
    &&& v.allocation.deployment@ == s.allocation.deployment@
    &&& v.state == s.state
}

/// A unit as it is listed.
#[derive(Debug)]
pub struct SimpleUnitValue {
    pub name: String,
    pub uuid: String,
    pub deployment: Option<String>,
    pub cloudlet: String,
}

/// `v` lists the server `s`.
pub open spec fn simple_unit_of(s: Server, v: SimpleUnitValue) -> bool {
    &&& v.name == s.name
    &&& v.uuid@ == hyphenated(s.uuid)
    &&& match s.group {
        Some(g) => v.deployment matches Some(d) && d == g.group,
        None => v.deployment is None,
    }
    &&& v.cloudlet == s.node
}

/// A deployment as it is shown in full.
#[derive(Debug)]
pub struct DeploymentInfo {
    pub name: String,
    pub cloudlets: Vec<String>,
    pub constraints: ScalingPolicy,
    pub resources: Resources,
    pub spec: Deployment,
}

/// A user as it is listed: its name and uuid.
#[derive(Debug)]
pub struct UserValue {
    pub name: String,
    pub uuid: String,
}

/// The uuid as text.
fn uuid_text(u: u128) -> (r: String)
    ensures
        r@ == hyphenated(u),
{
    let mut r = String::new();
    push_hyphenated(&mut r, u);
    proof {
        assert(r@ =~= hyphenated(u));
    }
    r
}

/// The deployment a server belongs to, by name.
fn deployment_name(s: &Server) -> (r: Option<String>)
    ensures
        match s.group {
            Some(g) => r matches Some(d) && d == g.group,
            None => r is None,
        },
{
    match &s.group {
        Some(g) => Some(g.group.clone()),
        None => None,
    }
}

/// The administrators' requests.
#[derive(Clone, Copy, Debug)]
pub struct AdminServiceImpl;

impl AdminServiceImpl {
    /// The number a retention is given by.
    pub fn retention_from(n: i32) -> (r: Retention)
        ensures
            r == retention_of(n),
    {
        if n == 1 {
            Retention::Permanent
        } else {
            Retention::Temporary
        }
    }

    /// What the units of the deployment run, as the request describes it.
    pub fn spec_from(value: Option<SpecValue>) -> (r: Deployment)
        ensures
            r@ == spec_of(value),
            value matches Some(s) ==> {
                &&& r.image@ == s.image@
                &&& r.max_players == s.max_players
                &&& r.settings@ == s.settings@
                &&& r.environment@ == s.environment@
                &&& r.disk_retention == (if s.disk_retention == Some(1i32) {
                    Retention::Permanent
                } else {
                    Retention::Temporary
                })
                &&& r.fallback == (match s.fallback {
                    Some(f) => f,
                    None => FallbackPolicy { enabled: false, priority: 0 },
                })
            },
            value is None ==> {
                &&& r.image@.len() == 0
                &&& r.max_players == 0
                &&& r.settings@.len() == 0
                &&& r.environment@.len() == 0
                &&& r.disk_retention == Retention::Temporary
                &&& !r.fallback.enabled
            },
    {
        match value {
            None => Deployment {
                settings: Vec::new(),
                environment: Vec::new(),
                disk_retention: Retention::Temporary,
                image: String::new(),
                max_players: 0,
                fallback: FallbackPolicy { enabled: false, priority: 0 },
            },
            Some(s) => {
                let disk_retention = match s.disk_retention {
                    Some(n) => Self::retention_from(n),
                    None => Retention::Temporary,
                };
                let fallback = match s.fallback {
                    Some(f) => f,
                    None => FallbackPolicy { enabled: false, priority: 0 },
                };
                Deployment {
                    settings: s.settings,
                    environment: s.environment,
                    disk_retention,
                    image: s.image,
                    max_players: s.max_players,
                    fallback,
                }
            },
        }
    }

    /// The place in `names` of the first cloudlet that is not known.
    pub fn find_unknown(names: &Vec<String>, known: &Vec<String>) -> (r: Option<usize>)
        ensures
            r matches Some(i) ==> first_unknown(names@, known@, i as int),
            r is None ==> forall|j: int| 0 <= j < names@.len() ==> known_name(known@, #[trigger] names@[j]@),
    {
        let mut i: usize = 0;
        while i < names.len()
            invariant
                0 <= i <= names@.len(),
                forall|j: int| 0 <= j < i ==> known_name(known@, #[trigger] names@[j]@),
            decreases names@.len() - i,
        {
            let mut found = false;
            let mut k: usize = 0;
            while k < known.len()
                invariant
                    0 <= i < names@.len(),
                    0 <= k <= known@.len(),
                    found ==> known_name(known@, names@[i as int]@),
                    !found ==> forall|j: int| 0 <= j < k ==> #[trigger] known@[j]@ != names@[i as int]@,
                decreases known@.len() - k,
            {
                if same_text(&known[k], names[i].as_str()) {
                    found = true;
                }
                k = k + 1;
            }
            if !found {
                return Some(i);
            }
            i = i + 1;
        }
        None
    }

    /// The unit with the given uuid, in full.
    pub fn get_unit(&self, c: &Controller, id: &str) -> (r: Result<UnitValue, Status>)
        ensures
            forall|u: u128| #[trigger] hyphenated(u) == id@ ==> parsed_uuid(id@) == Ok::<
                u128,
                Seq<char>,
            >(u),
            match parsed_uuid(id@) {
                Err(e) => refused(r, Code::InvalidArgument, "Invalid unit UUID: "@ + e),
                Ok(u) => if alive(c.servers.servers(), u) {
                    r matches Ok(v) && exists|p: int| #[trigger]
                        first_with(c.servers.servers(), u, p) && unit_value_of(
                            c.servers.servers()[p],
                            v,
                        )
                } else {
                    refused(r, Code::NotFound, "Unit not found"@)
                },
            },
    {
        let u = match parse_uuid(id) {
            Ok(u) => u,
            Err(e) => {
                return Err(Status::with_detail(Code::InvalidArgument, "Invalid unit UUID: ", e.as_str()));
            },
        };
        let s = match c.servers.get_server(u) {
            Some(s) => s,
            None => {
                return Err(Status::new(Code::NotFound, "Unit not found"));
            },
        };
        Ok(
            UnitValue {
                name: s.name.clone(),
                uuid: uuid_text(s.uuid),
                deployment: deployment_name(s),
                cloudlet: s.node.clone(),
                connected_users: s.connected_users,
                ready: s.ready,
                auth_token: s.token.clone(),
                allocation: s.allocation.duplicate(),
                state: s.state,
            },
        )
    }

    /// The deployment of the given name, in full.
    pub fn get_deployment(&self, c: &Controller, name: &str) -> (r: Result<DeploymentInfo, Status>)
        ensures
            !has_name(c.groups.groups(), name@) ==> refused(
                r,
                Code::NotFound,
                "Deployment not found"@,
            ),
            has_name(c.groups.groups(), name@) ==> (r matches Ok(v) && exists|i: int|
                #[trigger] first_named(c.groups.groups(), name@, i) && {
                    let g = c.groups.groups()[i]@;
                    &&& v.name@ == g.name
                    &&& v.cloudlets@ == g.nodes
                    &&& v.constraints == g.scaling
                    &&& v.resources == g.resources
                    &&& v.spec@ == g.deployment
                }),
    {
        match c.groups.position(name) {
            None => Err(Status::new(Code::NotFound, "Deployment not found")),
            Some(i) => {
                let g = &c.groups.get_groups()[i];
                Ok(
                    DeploymentInfo {
                        name: g.get_name().clone(),
                        cloudlets: copy_strings(g.get_nodes()),
                        constraints: g.get_scaling(),
                        resources: g.get_resources(),
                        spec: g.get_deployment().duplicate(),
                    },
                )
            },
        }
    }

    /// All units, listed in order.
    pub fn get_units(&self, c: &Controller) -> (r: Vec<SimpleUnitValue>)
        ensures
            r@.len() == c.servers.servers().len(),
            forall|i: int|
                0 <= i < r@.len() ==> simple_unit_of(c.servers.servers()[i], #[trigger] r@[i]),
    {
        let servers = c.servers.get_servers();
        let mut r: Vec<SimpleUnitValue> = Vec::new();
        let mut i: usize = 0;
        while i < servers.len()
            invariant
                0 <= i <= servers@.len(),
                servers@ == c.servers.servers(),
                r@.len() == i,
                forall|j: int| 0 <= j < i ==> simple_unit_of(servers@[j], #[trigger] r@[j]),
            decreases servers@.len() - i,
        {
            let s = &servers[i];
            r.push(
                SimpleUnitValue {
                    name: s.name.clone(),
                    uuid: uuid_text(s.uuid),
                    deployment: deployment_name(s),
                    cloudlet: s.node.clone(),
                },
            );
            i = i + 1;
        }
        r
    }

    /// The names of all deployments, in order.
    pub fn get_deployments(&self, c: &Controller) -> (r: Vec<String>)
        ensures
            r@.len() == c.groups.groups().len(),
            forall|i: int| 0 <= i < r@.len() ==> #[trigger] r@[i]@ == c.groups.groups()[i]@.name,
    {
        let groups = c.groups.get_groups();
        let mut r: Vec<String> = Vec::new();
        let mut i: usize = 0;
        while i < groups.len()
            invariant
                0 <= i <= groups@.len(),
                groups@ == c.groups.groups(),
                r@.len() == i,
                forall|j: int| 0 <= j < i ==> #[trigger] r@[j]@ == groups@[j]@.name,
            decreases groups@.len() - i,
        {
            r.push(groups[i].get_name().clone());
            i = i + 1;
        }
        r
    }

    /// All users, listed in order by name and uuid.
    pub fn get_users(&self, c: &Controller) -> (r: Vec<UserValue>)
        ensures
            r@.len() == c.users.users().len(),
            forall|i: int|
                0 <= i < r@.len() ==> (#[trigger] r@[i]).name == c.users.users()[i].id.name
                    && r@[i].uuid@ == hyphenated(c.users.users()[i].id.uuid),
    {
        let users = c.users.get_users();
        let mut r: Vec<UserValue> = Vec::new();
        let mut i: usize = 0;
        while i < users.len()
            invariant
                0 <= i <= users@.len(),
                users@ == c.users.users(),
                r@.len() == i,
                forall|j: int|
                    0 <= j < i ==> (#[trigger] r@[j]).name == users@[j].id.name && r@[j].uuid@
                        == hyphenated(users@[j].id.uuid),
            decreases users@.len() - i,
        {
            let u: &User = &users[i];
            r.push(UserValue { name: u.id.name.clone(), uuid: uuid_text(u.id.uuid) });
            i = i + 1;
        }
        r
    }

    /// Deletes the deployment of the given name; there must be one.
    pub fn delete_deployment(&self, c: &mut Controller, name: &str) -> (r: Result<(), Status>)
        requires
            old(c).wf(),
        ensures
            final(c).wf(),
            has_name(old(c).groups.groups(), name@) ==> r is Ok,
            !has_name(old(c).groups.groups(), name@) ==> refused(
                r,
                Code::NotFound,
                "Deployment not found"@,
            ),
            final(c).groups.groups() == old(c).groups.groups(),
            final(c).servers == old(c).servers,
            final(c).users == old(c).users,
            final(c).auth == old(c).auth,
            final(c).events == old(c).events,
            final(c).channels == old(c).channels,
            final(c).timeouts == old(c).timeouts,
    {
        match c.groups.position(name) {
            None => Err(Status::new(Code::NotFound, "Deployment not found")),
            Some(_) => match c.groups.delete_group(name) {
                Ok(()) => Ok(()),
                Err(()) => Err(Status::new(Code::Internal, "Failed to delete deployment")),
            },
        }
    }

    /// Stops the unit with the given uuid: unless it is stopping already,
    /// it is marked not ready and stopping, and queued to stop at the next
    /// tick.
    pub fn delete_unit(&self, c: &mut Controller, id: &str) -> (r: Result<(), Status>)
        ensures
            match parsed_uuid(id@) {
                Err(e) => refused(r, Code::InvalidArgument, "Failed to parse UUID of the unit: "@ + e)
                    && *final(c) == *old(c),
                Ok(u) => if alive(old(c).servers.servers(), u) {
                    &&& r is Ok
                    &&& final(c).servers.servers() == apply_to(
                        old(c).servers.servers(),
                        u,
                        |s: Server| after_unit_stop(s),
                    )
                    &&& final(c).servers.stop_queue() == old(c).servers.stop_queue() + old(c).servers.servers().filter(
                        |s: Server| s.uuid == u && s.state != State::Stopping,
                    ).map_values(|s: Server| StopRequest { when: None, server: s.uuid })
                    &&& final(c).servers.start_queue() == old(c).servers.start_queue()
                    &&& final(c).servers.next_request_id() == old(c).servers.next_request_id()
                    &&& final(c).groups == old(c).groups
                    &&& final(c).users == old(c).users
                    &&& final(c).auth == old(c).auth
                    &&& final(c).events == old(c).events
                    &&& final(c).channels == old(c).channels
                    &&& final(c).timeouts == old(c).timeouts
                } else {
                    refused(r, Code::NotFound, "Unit not found"@) && *final(c) == *old(c)
                },
            },
    {
        let u = match parse_uuid(id) {
            Ok(u) => u,
            Err(e) => {
                return Err(Status::with_detail(
                    Code::InvalidArgument,
                    "Failed to parse UUID of the unit: ",
                    e.as_str(),
                ));
            },
        };
        if !c.servers.contains(u) {
            return Err(Status::new(Code::NotFound, "Unit not found"));
        }
        c.servers.checked_unit_stop(u);
        Ok(())
    }

    /// Moves users to the target on an administrator's request: as a
    /// unit's request does, but any connected user may be moved.
    pub fn transfer_users(
        &self,
        c: &mut Controller,
        target: Option<UnitTransferTarget>,
        user_uuids: Vec<String>,
        now: u64,
    ) -> (r: TransferOutcome)
        requires
            old(c).wf(),
            user_uuids@.len() <= u32::MAX,
        ensures
            final(c).wf(),
            UnitServiceImpl::transfers_done(*old(c), *final(c), target, user_uuids@, None, now, r),
    {
        UnitServiceImpl.run_transfers(c, target, user_uuids, None, now)
    }

    /// Creates a deployment on the named cloudlets; `known` are the names
    /// of the cloudlets there are. The limits, resources and description of
    /// what the units run take their defaults when not given. A cloudlet
    /// that is not known is refused, the first one in order; so are a
    /// deployment without cloudlets and one whose name is taken.
    pub fn create_deployment(
        &self,
        c: &mut Controller,
        known: &Vec<String>,
        value: DeploymentValue,
    ) -> (r: Result<(), Status>)
        requires
            old(c).wf(),
        ensures
            final(c).wf(),
            final(c).servers == old(c).servers,
            final(c).users == old(c).users,
            final(c).auth == old(c).auth,
            final(c).events == old(c).events,
            final(c).channels == old(c).channels,
            final(c).timeouts == old(c).timeouts,
            forall|i: int| #[trigger]
                first_unknown(value.cloudlets@, known@, i) ==> refused(
                    r,
                    Code::InvalidArgument,
                    "Cloudlet "@ + value.cloudlets@[i]@ + " does not exist"@,
                ) && final(c).groups == old(c).groups,
            (forall|j: int|
                0 <= j < value.cloudlets@.len() ==> known_name(known@, #[trigger] value.cloudlets@[j]@))
                ==> {
                &&& value.cloudlets@.len() == 0 ==> refused(
                    r,
                    Code::FailedPrecondition,
                    "No nodes provided"@,
                ) && final(c).groups.groups() == old(c).groups.groups()
                &&& value.cloudlets@.len() > 0 && has_name(old(c).groups.groups(), value.name@)
                    ==> refused(r, Code::AlreadyExists, "Deployment already exists"@)
                    && final(c).groups.groups() == old(c).groups.groups()
                &&& value.cloudlets@.len() > 0 && !has_name(old(c).groups.groups(), value.name@)
                    ==> {
                    &&& r is Ok
                    &&& final(c).groups.groups() == old(c).groups.groups().push(
                        final(c).groups.groups().last(),
                    )
                    &&& final(c).groups.groups().last()@ == (GroupView {
                        name: value.name@,
                        nodes: value.cloudlets@,
                        scaling: match value.constraints {
                            Some(k) => k,
                            None => no_constraints(),
                        },
                        rule: rule_of(value.scaling),
                        resources: match value.resources {
                            Some(x) => x,
                            None => no_resources(),
                        },
                        deployment: spec_of(value.spec),
                        members: Seq::<GroupedServer>::empty(),
                        ids: final(c).groups.groups().last()@.ids,
                    })
                    &&& final(c).groups.groups().last()@.ids.next() == 1
                    &&& final(c).groups.groups().last()@.ids.available() == Seq::<usize>::empty()
                    &&& final(c).groups.groups().last()@.ids.active() == Set::<usize>::empty()
                }
            },
    {
        let DeploymentValue { name, cloudlets, constraints, scaling, resources, spec } = value;
        let rule = match scaling {
            Some(s) => rule_from(s),
            None => ScalingRule { enabled: false, start_threshold: 0, stop_empty: false },
        };
        let constraints = match constraints {
            Some(k) => k,
            None => ScalingPolicy { minimum: 0, maximum: 0, priority: 0 },
        };
        let resources = match resources {
            Some(x) => x,
            None => Resources { memory: 0, swap: 0, cpu: 0, io: 0, disk: 0, addresses: 0 },
        };
        let spec = Self::spec_from(spec);
        match Self::find_unknown(&cloudlets, known) {
            Some(i) => {
                proof {
                    assert forall|i2: int| #[trigger]
                        first_unknown(cloudlets@, known@, i2) implies i2 == i by {
                        if i2 < i {
                            assert(known_name(known@, cloudlets@[i2]@));
                        } else if i < i2 {
                            assert(known_name(known@, cloudlets@[i as int]@));
                        }
                    }
                }
                let mut message = "Cloudlet ".to_owned();
                message.append(cloudlets[i].as_str());
                message.append(" does not exist");
                return Err(Status { code: Code::InvalidArgument, message });
            },
            None => {},
        }
        match c.groups.create_group(name.as_str(), cloudlets, constraints, rule, resources, spec) {
            CreationResult::Created => Ok(()),
            CreationResult::AlreadyExists => Err(
                Status::new(Code::AlreadyExists, "Deployment already exists"),
            ),
            CreationResult::Denied(reason) => Err(
                Status { code: Code::FailedPrecondition, message: reason },
            ),
        }
    }
}

} // verus!
