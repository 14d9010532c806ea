//! Groups of servers that share a deployment and are kept at a minimum size.

use vstd::prelude::*;

use crate::ids::IdAllocator;
use crate::server::{Deployment, DeploymentView, GroupInfo, Resources, Servers, StartRequest};
use crate::text::{copy_strings, decimal, push_decimal, same_text};

verus! {

/// How many servers a group keeps, at most how many, and with what
/// priority its servers are started.
#[derive(Clone, Copy, Debug, Default, PartialEq, Eq, Structural)]
pub struct ScalingPolicy {
    pub minimum: u32,
    pub maximum: u32,
    pub priority: i32,
}

/// A server of a group: still waiting to be started, or running.
#[derive(Clone, Copy, Debug, PartialEq, Eq, Structural)]
pub enum GroupedServer {
    /// The id of the start request.
    Queueing(u64),
    /// The uuid of the server.
    Active(u128),
}

/// When a group starts servers on demand: whether it does so, the share of
/// a server's players at which the next one is started (the bit pattern of
/// a 32-bit float, which the library only stores), and whether servers
/// left empty are stopped.
#[derive(Clone, Copy, Debug, Default, PartialEq, Eq, Structural)]
pub struct ScalingRule {
    pub enabled: bool,
    pub start_threshold: u32,
    pub stop_empty: bool,
}

/// How a scaling policy is reported: the same three parts.
#[derive(Clone, Copy, Debug, PartialEq, Eq, Structural)]
pub struct Scaling {
    pub enabled: bool,
    pub start_threshold: u32,
    pub stop_empty: bool,
}

impl ScalingRule {
    /// The policy as it is reported.
    pub fn to_grpc(&self) -> (r: Scaling)
        ensures
            r == (Scaling {
                enabled: self.enabled,
                start_threshold: self.start_threshold,
                stop_empty: self.stop_empty,
            }),
    {
        Scaling {
            enabled: self.enabled,
            start_threshold: self.start_threshold,
            stop_empty: self.stop_empty,
        }
    }
}

/// A group as it is stored on disk.
#[derive(Debug)]
pub struct StoredGroup {
    pub nodes: Vec<String>,
    pub scaling: ScalingPolicy,
    pub rule: ScalingRule,
    pub resources: Resources,
    pub deployment: Deployment,
}

/// The outcome of creating a resource.
#[derive(Debug, PartialEq, Eq)]
pub enum CreationResult {
    Created,
    AlreadyExists,
    /// The request was refused, for the reason given.
    Denied(String),
}

/// A group of servers.
#[derive(Debug)]
pub struct Group {
    pub name: String,
    pub nodes: Vec<String>,
    pub scaling: ScalingPolicy,
    pub rule: ScalingRule,
    pub resources: Resources,
    pub deployment: Deployment,
    id_allocator: IdAllocator,
    servers: Vec<GroupedServer>,
}

/// How many servers a tick queues when the group has `len` servers. The
/// count of missing servers is fixed first; each queued server then counts
/// twice against the maximum, once as queued and once as requested.
pub open spec fn tick_count(len: int, minimum: int, maximum: int) -> int {
    if len >= minimum || len >= maximum {
        0
    } else if minimum - len <= (maximum - len + 1) / 2 {
        minimum - len
    } else {
        (maximum - len + 1) / 2
    }
}

/// A tick never grows a group past its maximum, and a group that is below
/// both its minimum and its maximum gets at least one more server.
pub proof fn law_tick_within_maximum(len: int, minimum: int, maximum: int)
    requires
        0 <= len,
    ensures
        tick_count(len, minimum, maximum) >= 0,
        len <= maximum ==> len + tick_count(len, minimum, maximum) <= maximum,
        len < minimum && len < maximum ==> tick_count(len, minimum, maximum) >= 1,
        len >= minimum ==> tick_count(len, minimum, maximum) == 0,
{
}

/// The ids the allocator hands out next, `count` of them.
pub open spec fn next_ids(a: IdAllocator, count: int) -> Seq<usize> {
    Seq::new(
        count as nat,
        |j: int|
            if j < a.available().len() {
                a.available()[j]
            } else {
                (a.next() + j - a.available().len()) as usize
            },
    )
}

/// Whether a node of that name is loaded.
pub open spec fn is_loaded(loaded: Seq<String>, n: String) -> bool {
    exists|m: int| 0 <= m < loaded.len() && #[trigger] loaded[m]@ == n@
}

/// The stored group can be loaded: at least one of its nodes is.
pub open spec fn loadable(s: StoredGroup, loaded: Seq<String>) -> bool {
    s.nodes@.filter(|n: String| is_loaded(loaded, n)).len() > 0
}

/// `g` is what the stored group `s` of that name makes on the loaded
/// nodes: no members yet, and no id handed out.
pub open spec fn made_from(g: GroupView, name: Seq<char>, s: StoredGroup, loaded: Seq<String>) -> bool {
    &&& g.name == name
    &&& g.nodes == s.nodes@.filter(|n: String| is_loaded(loaded, n))
    &&& g.scaling == s.scaling
    &&& g.rule == s.rule
    &&& g.resources == s.resources
    &&& g.deployment == s.deployment@
    &&& g.members == Seq::<GroupedServer>::empty()
    &&& g.ids.next() == 1
    &&& g.ids.available() == Seq::<usize>::empty()
    &&& g.ids.active() == Set::<usize>::empty()
}

/// Among the first `end` stored groups, entry `i` is the last loadable one
/// of its name.
pub open spec fn last_loadable(
    all: Seq<(String, StoredGroup)>,
    loaded: Seq<String>,
    i: int,
    end: int,
) -> bool {
    &&& 0 <= i < end <= all.len()
    &&& loadable(all[i].1, loaded)
    &&& forall|j: int|
        i < j < end && #[trigger] all[j].0@ == all[i].0@ ==> !loadable(all[j].1, loaded)
}

/// `g` is what the last loadable stored group of its name, among the
/// first `end`, makes on the loaded nodes.
pub open spec fn loaded_group(
    all: Seq<(String, StoredGroup)>,
    loaded: Seq<String>,
    g: GroupView,
    end: int,
) -> bool {
    exists|q: int|
        #[trigger] last_loadable(all, loaded, q, end) && made_from(g, all[q].0@, all[q].1, loaded)
}

/// The first active member of the list.
pub open spec fn first_active_of(m: Seq<GroupedServer>) -> Option<u128>
    decreases m.len(),
{
    if m.len() == 0 {
        None
    } else {
        match m[0] {
            GroupedServer::Active(u) => Some(u),
            GroupedServer::Queueing(_) => first_active_of(m.drop_first()),
        }
    }
}

/// The name of the server with the given id in the group.
pub open spec fn server_name(group: Seq<char>, id: usize) -> Seq<char> {
    group + seq!['-'] + decimal(id as nat)
}

/// What a group is, seen from outside.
pub struct GroupView {
    pub name: Seq<char>,
    pub nodes: Seq<String>,
    pub scaling: ScalingPolicy,
    pub rule: ScalingRule,
    pub resources: Resources,
    pub deployment: DeploymentView,
    pub members: Seq<GroupedServer>,
    pub ids: IdAllocator,
}

impl View for Group {
    type V = GroupView;

    closed spec fn view(&self) -> GroupView {
        GroupView {
            name: self.name@,
            nodes: self.nodes@,
            scaling: self.scaling,
            rule: self.rule,
            resources: self.resources,
            deployment: self.deployment@,
            members: self.servers@,
            ids: self.id_allocator,
        }
    }
}

impl Group {
    pub closed spec fn wf(&self) -> bool {
        self.id_allocator.wf()
    }

    /// A group made from its stored form, with no servers yet.
    pub fn from(name: &str, stored: StoredGroup, nodes: Vec<String>) -> (r: Group)
        ensures
            r.wf(),
            r@.name == name@,
            r@.nodes == nodes@,
            r@.scaling == stored.scaling,
            r@.rule == stored.rule,
            r@.resources == stored.resources,
            r@.deployment == stored.deployment@,
            r@.members == Seq::<GroupedServer>::empty(),
            r@.ids.next() == 1,
            r@.ids.available() == Seq::<usize>::empty(),
            r@.ids.active() == Set::<usize>::empty(),
    {
        Group {
            name: name.to_owned(),
            nodes,
            scaling: stored.scaling,
            rule: stored.rule,
            resources: stored.resources,
            deployment: stored.deployment,
            id_allocator: IdAllocator::new(),
            servers: Vec::new(),
        }
    }

    /// A group made from its stored form, on the stored nodes that are
    /// loaded; none when no stored node is loaded.
    pub fn try_from(name: &str, stored: StoredGroup, loaded_nodes: &Vec<String>) -> (r: Option<
        Group,
    >)
        ensures
            stored.nodes@.filter(|n: String| is_loaded(loaded_nodes@, n)).len() == 0 ==> r is None,
            stored.nodes@.filter(|n: String| is_loaded(loaded_nodes@, n)).len() > 0 ==> (r matches Some(
                g,
            ) && g.wf() && g@.name == name@ && g@.nodes == stored.nodes@.filter(
                |n: String| is_loaded(loaded_nodes@, n),
            ) && g@.scaling == stored.scaling && g@.rule == stored.rule && g@.resources == stored.resources && g@.deployment
                == stored.deployment@ && g@.members == Seq::<GroupedServer>::empty() && g@.ids.next()
                == 1 && g@.ids.available() == Seq::<usize>::empty() && g@.ids.active() == Set::<
                usize,
            >::empty()),
    {
        let ghost pred = |n: String| is_loaded(loaded_nodes@, n);
        let mut nodes: Vec<String> = Vec::new();
        let mut i: usize = 0;
        while i < stored.nodes.len()
            invariant
                0 <= i <= stored.nodes@.len(),
                pred == (|n: String| is_loaded(loaded_nodes@, n)),
                nodes@ == stored.nodes@.take(i as int).filter(pred),
            decreases stored.nodes@.len() - i,
        {
            proof {
                crate::facts::lemma_filter_take_succ(stored.nodes@, pred, i as int);
            }
            let mut found = false;
            let mut k: usize = 0;
            while k < loaded_nodes.len()
                invariant
                    0 <= k <= loaded_nodes@.len(),
                    0 <= i < stored.nodes@.len(),
                    found == exists|m: int| 0 <= m < k && #[trigger] loaded_nodes@[m]@ == stored.nodes@[i as int]@,
                decreases loaded_nodes@.len() - k,
            {
                if loaded_nodes[k] == stored.nodes[i] {
                    found = true;
                }
                proof {
                    if loaded_nodes@[k as int]@ == stored.nodes@[i as int]@ {
                        assert(exists|m: int| 0 <= m < k + 1 && #[trigger] loaded_nodes@[m]@ == stored.nodes@[i as int]@);
                    }
                }
                k = k + 1;
            }
            if found {
                nodes.push(stored.nodes[i].clone());
            }
            i = i + 1;
        }
        proof {
            assert(stored.nodes@.take(stored.nodes@.len() as int) =~= stored.nodes@);
        }
        if nodes.len() == 0 {
            None
        } else {
            Some(Group::from(name, stored, nodes))
        }
    }

    /// Whether a tick can allocate every id and request id it may need.
    pub open spec fn tick_fits(&self, servers: &Servers) -> bool {
        &&& self@.ids.next() + self@.scaling.minimum <= usize::MAX
        &&& servers.next_request_id() + self@.scaling.minimum <= u64::MAX
    }

    /// What a tick of `g0` does, seen on the group `g1` after it and the
    /// servers `s0` and `s1` before and after it.
    pub open spec fn tick_post(g0: Group, g1: Group, s0: Servers, s1: Servers) -> bool {
        let k = tick_count(
            g0@.members.len() as int,
            g0@.scaling.minimum as int,
            g0@.scaling.maximum as int,
        );
        let ids = next_ids(g0@.ids, k);
        let first = s0.next_request_id();
        &&& g1.wf()
        &&& g1@.members == g0@.members + Seq::new(
            k as nat,
            |j: int| GroupedServer::Queueing((first + j) as u64),
        )
        &&& s1.next_request_id() == first + k
        &&& s1.start_queue().len() == s0.start_queue().len() + k
        &&& s1.start_queue().take(s0.start_queue().len() as int) == s0.start_queue()
        &&& forall|j: int|
            0 <= j < k ==> {
                let r = #[trigger] s1.start_queue()[s0.start_queue().len() + j];
                &&& r.id == first + j
                &&& r.when is None
                &&& r.name@ == server_name(g0@.name, ids[j])
                &&& r.group matches Some(g) && g.server_id == ids[j] && g.group@ == g0@.name
                &&& r.nodes@ == g0@.nodes
                &&& r.resources == g0@.resources
                &&& r.deployment@ == g0@.deployment
                &&& r.priority == g0@.scaling.priority
            }
        &&& g1@.ids.active() == g0@.ids.active().union(ids.to_set())
        &&& g1@.ids.next() == (if k <= g0@.ids.available().len() {
            g0@.ids.next() as int
        } else {
            g0@.ids.next() + k - g0@.ids.available().len()
        })
        &&& g1@.ids.available() == (if k <= g0@.ids.available().len() {
            g0@.ids.available().skip(k)
        } else {
            Seq::<usize>::empty()
        })
        &&& forall|j: int| 0 <= j < k ==> !g0@.ids.active().contains(#[trigger] ids[j])
        &&& s1.servers() == s0.servers()
        &&& s1.stop_queue() == s0.stop_queue()
        &&& g1@.name == g0@.name
        &&& g1@.nodes == g0@.nodes
        &&& g1@.scaling == g0@.scaling
        &&& g1@.rule == g0@.rule
        &&& g1@.resources == g0@.resources
        &&& g1@.deployment == g0@.deployment
    }

    /// Queues start requests for the servers the group is missing, named
    /// after the group and the ids they get, and counts them as queueing
    /// members of the group.
    pub fn tick(&mut self, servers: &mut Servers)
        requires
            old(self).wf(),
            old(self).tick_fits(old(servers)),
        ensures
            Self::tick_post(*old(self), *final(self), *old(servers), *final(servers)),
    {
        let len0 = self.servers.len();
        let minimum = self.scaling.minimum as usize;
        let maximum = self.scaling.maximum as usize;
        let missing = if minimum > len0 {
            minimum - len0
        } else {
            0
        };
        let ghost old_self = *self;
        let ghost old_servers = *servers;
        let ghost first = servers.next_request_id();
        let ghost k = tick_count(len0 as int, minimum as int, maximum as int);
        let ghost all_ids = next_ids(old_self@.ids, k);
        let mut requested: usize = 0;
        while requested < missing
            invariant
                0 <= requested <= missing,
                missing == (if minimum > len0 {
                    minimum - len0
                } else {
                    0
                }),
                minimum == old_self@.scaling.minimum,
                maximum == old_self@.scaling.maximum,
                len0 == old_self@.members.len(),
                requested <= k,
                requested > 0 ==> len0 + 2 * (requested - 1) < maximum,
                self.id_allocator.wf(),
                self@.name == old_self@.name,
                self@.nodes == old_self@.nodes,
                self@.scaling == old_self@.scaling,
                self@.rule == old_self@.rule,
                self@.resources == old_self@.resources,
                self@.deployment == old_self@.deployment,
                self.servers@ == old_self@.members + Seq::new(
                    requested as nat,
                    |j: int| GroupedServer::Queueing((first + j) as u64),
                ),
                old_self@.ids.wf(),
                old_self.tick_fits(&old_servers),
                first == old_servers.next_request_id(),
                servers.next_request_id() == first + requested,
                servers.servers() == old_servers.servers(),
                servers.stop_queue() == old_servers.stop_queue(),
                all_ids == next_ids(old_self@.ids, k),
                k == tick_count(len0 as int, minimum as int, maximum as int),
                self.id_allocator.next() == (if requested <= old_self@.ids.available().len() {
                    old_self@.ids.next() as int
                } else {
                    old_self@.ids.next() + requested - old_self@.ids.available().len()
                }),
                self.id_allocator.available() == (if requested
                    <= old_self@.ids.available().len() {
                    old_self@.ids.available().skip(requested as int)
                } else {
                    Seq::<usize>::empty()
                }),
                self.id_allocator.active() == old_self@.ids.active().union(
                    all_ids.take(requested as int).to_set(),
                ),
                servers.start_queue().len() == old_servers.start_queue().len() + requested,
                servers.start_queue().take(old_servers.start_queue().len() as int)
                    == old_servers.start_queue(),
                forall|j: int|
                    0 <= j < requested ==> {
                        let r = #[trigger] servers.start_queue()[old_servers.start_queue().len()
                            + j];
                        &&& r.id == first + j
                        &&& r.when is None
                        &&& r.name@ == server_name(old_self@.name, all_ids[j])
                        &&& r.group matches Some(g) && g.server_id == all_ids[j] && g.group@
                            == old_self@.name
                        &&& r.nodes@ == old_self@.nodes
                        &&& r.resources == old_self@.resources
                        &&& r.deployment@ == old_self@.deployment
                        &&& r.priority == old_self@.scaling.priority
                    },
                forall|j: int|
                    0 <= j < requested ==> !old_self@.ids.active().contains(#[trigger] all_ids[j]),
            ensures
                requested == k,
                self.servers@ == old_self@.members + Seq::new(
                    k as nat,
                    |j: int| GroupedServer::Queueing((first + j) as u64),
                ),
                self.id_allocator.wf(),
                self.id_allocator.active() == old_self@.ids.active().union(
                    all_ids.take(k).to_set(),
                ),
                self.id_allocator.next() == (if k <= old_self@.ids.available().len() {
                    old_self@.ids.next() as int
                } else {
                    old_self@.ids.next() + k - old_self@.ids.available().len()
                }),
                self.id_allocator.available() == (if k <= old_self@.ids.available().len() {
                    old_self@.ids.available().skip(k)
                } else {
                    Seq::<usize>::empty()
                }),
                self@.name == old_self@.name,
                self@.nodes == old_self@.nodes,
                self@.scaling == old_self@.scaling,
                self@.rule == old_self@.rule,
                self@.resources == old_self@.resources,
                self@.deployment == old_self@.deployment,
                servers.next_request_id() == first + k,
                servers.servers() == old_servers.servers(),
                servers.stop_queue() == old_servers.stop_queue(),
                servers.start_queue().len() == old_servers.start_queue().len() + k,
                servers.start_queue().take(old_servers.start_queue().len() as int)
                    == old_servers.start_queue(),
                forall|j: int|
                    0 <= j < k ==> {
                        let r = #[trigger] servers.start_queue()[old_servers.start_queue().len()
                            + j];
                        &&& r.id == first + j
                        &&& r.when is None
                        &&& r.name@ == server_name(old_self@.name, all_ids[j])
                        &&& r.group matches Some(g) && g.server_id == all_ids[j] && g.group@
                            == old_self@.name
                        &&& r.nodes@ == old_self@.nodes
                        &&& r.resources == old_self@.resources
                        &&& r.deployment@ == old_self@.deployment
                        &&& r.priority == old_self@.scaling.priority
                    },
                forall|j: int|
                    0 <= j < k ==> !old_self@.ids.active().contains(#[trigger] all_ids[j]),
            decreases missing - requested,
        {
            if self.servers.len() >= maximum || requested >= maximum - self.servers.len() {
                proof {
                    self.lemma_tick_count_stop(len0 as int, minimum as int, maximum as int, requested as int);
                }
                break;
            }
            proof {
                Self::lemma_tick_count_more(len0 as int, minimum as int, maximum as int, requested as int);
                self.id_allocator.lemma_wf();
            }
            let ghost before_ids = self.id_allocator;
            let server_id = self.id_allocator.get_id();
            proof {
                assert(server_id == all_ids[requested as int]);
            }
            let mut name = self.name.clone();
            name.append("-");
            push_decimal(&mut name, server_id);
            proof {
                reveal_strlit("-");
                assert(name@ =~= server_name(old_self@.name, all_ids[requested as int]));
            }
            let request = StartRequest {
                id: 0,
                when: None,
                name,
                group: Some(GroupInfo { server_id, group: self.name.clone() }),
                nodes: copy_strings(&self.nodes),
                resources: self.resources,
                deployment: self.deployment.duplicate(),
                priority: self.scaling.priority,
                canceled: false,
            };
            let ghost queue_before = servers.start_queue();
            let id = servers.queue_server(request);
            self.servers.push(GroupedServer::Queueing(id));
            proof {
                assert(self.servers@ =~= old_self@.members + Seq::new(
                    (requested + 1) as nat,
                    |j: int| GroupedServer::Queueing((first + j) as u64),
                ));
                assert(all_ids.take(requested + 1) =~= all_ids.take(requested as int).push(
                    server_id,
                ));
                crate::facts::lemma_push_to_set(all_ids.take(requested as int), server_id);
                assert(self.id_allocator.active() =~= old_self@.ids.active().union(
                    all_ids.take(requested + 1).to_set(),
                ));
                assert(servers.start_queue().take(old_servers.start_queue().len() as int)
                    =~= old_servers.start_queue());
            }
            requested = requested + 1;
        }
        proof {
            assert(all_ids.take(k) =~= all_ids);
        }
    }

    proof fn lemma_tick_count_stop(&self, len0: int, minimum: int, maximum: int, r: int)
        requires
            0 <= len0,
            0 <= r,
            r < minimum - len0,
            r > 0 ==> len0 + 2 * (r - 1) < maximum,
            len0 + r + r >= maximum,
        ensures
            r == tick_count(len0, minimum, maximum),
    {
    }

    proof fn lemma_tick_count_more(len0: int, minimum: int, maximum: int, r: int)
        requires
            0 <= len0,
            0 <= r,
            r < minimum - len0,
            len0 + r + r < maximum,
        ensures
            r < tick_count(len0, minimum, maximum),
    {
    }
}

/// What the given deployment holds, if one is given.
pub open spec fn given_deployment(d: Option<Deployment>) -> Option<DeploymentView> {
    match d {
        Some(x) => Some(x@),
        None => None,
    }
}

/// The given nodes, if they are given.
pub open spec fn given_nodes(n: Option<Vec<String>>) -> Option<Seq<String>> {
    match n {
        Some(x) => Some(x@),
        None => None,
    }
}

/// The part that is given, else the one there is.
pub open spec fn given_or<T>(given: Option<T>, there: T) -> T {
    match given {
        Some(x) => x,
        None => there,
    }
}

/// `g1` is `g0` with each given part in place of its own.
pub open spec fn updated(
    g0: GroupView,
    g1: GroupView,
    scaling: Option<ScalingPolicy>,
    rule: Option<ScalingRule>,
    resources: Option<Resources>,
    deployment: Option<DeploymentView>,
    nodes: Option<Seq<String>>,
) -> bool {
    g1 == GroupView {
        scaling: given_or(scaling, g0.scaling),
        rule: given_or(rule, g0.rule),
        resources: given_or(resources, g0.resources),
        deployment: given_or(deployment, g0.deployment),
        nodes: given_or(nodes, g0.nodes),
        ..g0
    }
}

impl Group {
    /// Puts each given part in place of the group's own.
    pub fn update(
        &mut self,
        scaling: Option<ScalingPolicy>,
        rule: Option<ScalingRule>,
        resources: Option<Resources>,
        deployment: Option<Deployment>,
        nodes: Option<Vec<String>>,
    )
        ensures
            final(self).wf() == old(self).wf(),
            updated(
                old(self)@,
                final(self)@,
                scaling,
                rule,
                resources,
                given_deployment(deployment),
                given_nodes(nodes),
            ),
    {
        if let Some(x) = scaling {
            self.scaling = x;
        }
        if let Some(x) = rule {
            self.rule = x;
        }
        if let Some(x) = resources {
            self.resources = x;
        }
        if let Some(x) = deployment {
            self.deployment = x;
        }
        if let Some(x) = nodes {
            self.nodes = x;
        }
    }

    /// The start request with the given id became the server `server`:
    /// the queueing member is dropped and the server joins as active.
    pub fn set_active(&mut self, server: u128, request: u64)
        ensures
            final(self).wf() == old(self).wf(),
            final(self)@ == (GroupView {
                members: old(self)@.members.filter(
                    |m: GroupedServer| m != GroupedServer::Queueing(request),
                ).push(GroupedServer::Active(server)),
                ..old(self)@
            }),
    {
        let ghost before = self.servers@;
        let ghost pred = |m: GroupedServer| m != GroupedServer::Queueing(request);
        let mut kept: Vec<GroupedServer> = Vec::new();
        let mut i: usize = 0;
        while i < self.servers.len()
            invariant
                self.servers@ == before,
                0 <= i <= before.len(),
                pred == (|m: GroupedServer| m != GroupedServer::Queueing(request)),
                kept@ == before.take(i as int).filter(pred),
            decreases before.len() - i,
        {
            proof {
                crate::facts::lemma_filter_take_succ(before, pred, i as int);
            }
            let m = self.servers[i];
            if m != GroupedServer::Queueing(request) {
                kept.push(m);
            }
            i = i + 1;
        }
        proof {
            assert(before.take(before.len() as int) =~= before);
        }
        kept.push(GroupedServer::Active(server));
        self.servers = kept;
    }

    /// The server left: it is no longer a member and its id is released.
    pub fn remove_server(&mut self, server: u128, server_id: usize)
        requires
            old(self).wf(),
        ensures
            final(self).wf(),
            final(self)@.members == old(self)@.members.filter(
                |m: GroupedServer| m != GroupedServer::Active(server),
            ),
            final(self)@.name == old(self)@.name,
            final(self)@.nodes == old(self)@.nodes,
            final(self)@.scaling == old(self)@.scaling,
            final(self)@.rule == old(self)@.rule,
            final(self)@.resources == old(self)@.resources,
            final(self)@.deployment == old(self)@.deployment,
            final(self)@.ids.next() == old(self)@.ids.next(),
            old(self)@.ids.active().contains(server_id) ==> {
                &&& final(self)@.ids.active() == old(self)@.ids.active().remove(server_id)
                &&& final(self)@.ids.available().to_set() == old(self)@.ids.available().to_set().insert(
                    server_id,
                )
            },
            !old(self)@.ids.active().contains(server_id) ==> final(self)@.ids.available() == old(self)@.ids.available() && final(self)@.ids.active() == old(self)@.ids.active(),
    {
        let ghost before = self.servers@;
        let ghost pred = |m: GroupedServer| m != GroupedServer::Active(server);
        let mut kept: Vec<GroupedServer> = Vec::new();
        let mut i: usize = 0;
        while i < self.servers.len()
            invariant
                self.servers@ == before,
                0 <= i <= before.len(),
                pred == (|m: GroupedServer| m != GroupedServer::Active(server)),
                kept@ == before.take(i as int).filter(pred),
            decreases before.len() - i,
        {
            proof {
                crate::facts::lemma_filter_take_succ(before, pred, i as int);
            }
            let m = self.servers[i];
            if m != GroupedServer::Active(server) {
                kept.push(m);
            }
            i = i + 1;
        }
        proof {
            assert(before.take(before.len() as int) =~= before);
        }
        self.servers = kept;
        self.id_allocator.release_id(server_id);
    }

    /// The first active server of the group.
    pub open spec fn first_active(&self) -> Option<u128> {
        first_active_of(self@.members)
    }

    /// The first active server of the group.
    pub fn get_free_server(&self) -> (r: Option<u128>)
        ensures
            r == self.first_active(),
    {
        proof {
            assert(self.servers@.skip(0) =~= self.servers@);
        }
        let mut i: usize = 0;
        while i < self.servers.len()
            invariant
                0 <= i <= self.servers@.len(),
                first_active_of(self.servers@) == first_active_of(self.servers@.skip(i as int)),
            decreases self.servers@.len() - i,
        {
            proof {
                assert(self.servers@.skip(i as int).drop_first() =~= self.servers@.skip(i + 1));
            }
            match self.servers[i] {
                GroupedServer::Active(u) => {
                    return Some(u);
                },
                GroupedServer::Queueing(_) => {},
            }
            i = i + 1;
        }
        None
    }

    /// How many servers the group keeps, at most how many, and with what
    /// priority.
    pub fn get_scaling(&self) -> (r: ScalingPolicy)
        ensures
            r == self@.scaling,
    {
        self.scaling
    }

    /// Whether a tick of the group can allocate every id it may need.
    pub fn fits(&self) -> (r: bool)
        ensures
            r == group_fits(*self),
    {
        let minimum = self.scaling.minimum as usize;
        let next = self.id_allocator.next_fresh();
        next <= usize::MAX - minimum
    }

    /// The name of the group.
    pub fn get_name(&self) -> (r: &String)
        ensures
            r@ == self@.name,
    {
        &self.name
    }

    /// The nodes the group's servers may run on.
    pub fn get_nodes(&self) -> (r: &Vec<String>)
        ensures
            r@ == self@.nodes,
    {
        &self.nodes
    }

    /// When the group starts servers on demand.
    pub fn get_rule(&self) -> (r: ScalingRule)
        ensures
            r == self@.rule,
    {
        self.rule
    }

    /// What each server of the group is given.
    pub fn get_resources(&self) -> (r: Resources)
        ensures
            r == self@.resources,
    {
        self.resources
    }

    /// What the group's servers run.
    pub fn get_deployment(&self) -> (r: &Deployment)
        ensures
            r@ == self@.deployment,
    {
        &self.deployment
    }

    /// The members of the group, in the order they joined it.
    pub fn get_members(&self) -> (r: &Vec<GroupedServer>)
        ensures
            r@ == self@.members,
    {
        &self.servers
    }
}

/// The group at place `i` is the first with the given name.
pub open spec fn first_named(g: Seq<Group>, name: Seq<char>, i: int) -> bool {
    &&& 0 <= i < g.len()
    &&& g[i]@.name == name
    &&& forall|j: int| 0 <= j < i ==> #[trigger] g[j]@.name != name
}

/// All groups, by name.
pub struct Groups {
    groups: Vec<Group>,
}

/// A tick of the group can allocate every id it may need.
pub open spec fn group_fits(g: Group) -> bool {
    &&& g@.ids.next() + g@.scaling.minimum <= usize::MAX
}

/// The sum of the minimum sizes of the groups.
pub open spec fn total_minimum(g: Seq<Group>) -> nat
    decreases g.len(),
{
    if g.len() == 0 {
        0
    } else {
        total_minimum(g.drop_last()) + g.last()@.scaling.minimum as nat
    }
}

/// Groups with the same minimum sizes need the same total.
pub proof fn lemma_total_minimum_same(a: Seq<Group>, b: Seq<Group>)
    requires
        a.len() == b.len(),
        forall|i: int| 0 <= i < a.len() ==> (#[trigger] a[i])@.scaling.minimum == b[i]@.scaling.minimum,
    ensures
        total_minimum(a) == total_minimum(b),
    decreases a.len(),
{
    if a.len() > 0 {
        assert forall|i: int| 0 <= i < a.drop_last().len() implies (#[trigger] a.drop_last()[i])@.scaling.minimum
            == b.drop_last()[i]@.scaling.minimum by {
            assert(a.drop_last()[i] == a[i]);
            assert(b.drop_last()[i] == b[i]);
        }
        lemma_total_minimum_same(a.drop_last(), b.drop_last());
    }
}

/// The groups of a prefix need no more than all groups.
pub proof fn lemma_total_minimum_prefix(g: Seq<Group>, i: int)
    requires
        0 <= i <= g.len(),
    ensures
        total_minimum(g.take(i)) <= total_minimum(g),
    decreases g.len(),
{
    if i < g.len() {
        assert(g.drop_last().take(i) =~= g.take(i));
        lemma_total_minimum_prefix(g.drop_last(), i);
    } else {
        assert(g.take(i) =~= g);
    }
}

/// Some group has the name.
pub open spec fn has_name(g: Seq<Group>, n: Seq<char>) -> bool {
    exists|k: int| 0 <= k < g.len() && g[k]@.name == n
}

/// The groups have distinct names.
pub open spec fn names_distinct(g: Seq<Group>) -> bool {
    forall|i: int, j: int| 0 <= i < j < g.len() ==> g[i]@.name != g[j]@.name
}

impl Groups {
    pub closed spec fn groups(&self) -> Seq<Group> {
        self.groups@
    }

    pub closed spec fn wf(&self) -> bool {
        &&& names_distinct(self.groups@)
        &&& forall|i: int| 0 <= i < self.groups@.len() ==> #[trigger] self.groups@[i].wf()
    }

    /// No groups.
    pub fn new() -> (r: Self)
        ensures
            r.wf(),
            r.groups() == Seq::<Group>::empty(),
    {
        Groups { groups: Vec::new() }
    }

    /// The groups made from the stored ones that run on at least one loaded
    /// node; a later group replaces an earlier one of the same name.
    pub fn load_all(stored: Vec<(String, StoredGroup)>, loaded_nodes: &Vec<String>) -> (r: Self)
        ensures
            r.wf(),
            forall|i: int|
                0 <= i < stored@.len() && loadable(stored@[i].1, loaded_nodes@) ==> has_name(
                    r.groups(),
                    #[trigger] stored@[i].0@,
                ),
            forall|j: int|
                0 <= j < r.groups().len() ==> loaded_group(
                    stored@,
                    loaded_nodes@,
                    #[trigger] r.groups()[j]@,
                    stored@.len() as int,
                ),
    {
        let mut groups = Groups::new();
        let ghost all = stored@;
        let mut rest = crate::facts::reversed(stored);
        let mut i: usize = 0;
        proof {
            assert(rest@ =~= all.skip(0).reverse());
            assert(all.len() == rest.len());
        }
        while rest.len() > 0
            invariant
                groups.wf(),
                rest@ == all.skip(i as int).reverse(),
                i + rest@.len() == all.len(),
                all.len() <= usize::MAX,
                forall|q: int|
                    0 <= q < i && loadable(all[q].1, loaded_nodes@) ==> has_name(
                        groups.groups(),
                        #[trigger] all[q].0@,
                    ),
                forall|j: int|
                    0 <= j < groups.groups().len() ==> loaded_group(
                        all,
                        loaded_nodes@,
                        #[trigger] groups.groups()[j]@,
                        i as int,
                    ),
            decreases rest@.len(),
        {
            let (name, stored_group) = rest.pop().unwrap();
            proof {
                assert((name, stored_group) == all[i as int]);
                assert(rest@ =~= all.skip(i + 1).reverse());
            }
            let ghost before = groups;
            match Group::try_from(name.as_str(), stored_group, loaded_nodes) {
                Some(group) => {
                    let ghost g = group;
                    groups.add_group(group);
                    proof {
                        assert forall|q: int|
                            0 <= q < i + 1 && loadable(all[q].1, loaded_nodes@) implies has_name(
                                groups.groups(),
                                #[trigger] all[q].0@,
                            ) by {
                            if q < i {
                                assert(has_name(before.groups(), all[q].0@));
                            }
                        }
                        assert(last_loadable(all, loaded_nodes@, i as int, i + 1));
                        assert forall|j: int| 0 <= j < groups.groups().len() implies loaded_group(
                            all,
                            loaded_nodes@,
                            #[trigger] groups.groups()[j]@,
                            i + 1,
                        ) by {
                            if groups.groups()[j] == g {
                                assert(made_from(g@, all[i as int].0@, all[i as int].1, loaded_nodes@));
                            } else {
                                let k = choose|k: int|
                                    0 <= k < before.groups().len() && before.groups()[k]
                                        == groups.groups()[j];
                                assert(loaded_group(all, loaded_nodes@, before.groups()[k]@, i as int));
                                let q = choose|q: int|
                                    #[trigger] last_loadable(all, loaded_nodes@, q, i as int) && made_from(
                                        before.groups()[k]@,
                                        all[q].0@,
                                        all[q].1,
                                        loaded_nodes@,
                                    );
                                assert(all[i as int].0@ != all[q].0@);
                                assert(last_loadable(all, loaded_nodes@, q, i + 1));
                            }
                        }
                    }
                },
                None => {
                    proof {
                        assert forall|j: int| 0 <= j < groups.groups().len() implies loaded_group(
                            all,
                            loaded_nodes@,
                            #[trigger] groups.groups()[j]@,
                            i + 1,
                        ) by {
                            assert(loaded_group(all, loaded_nodes@, groups.groups()[j]@, i as int));
                            let q = choose|q: int|
                                #[trigger] last_loadable(all, loaded_nodes@, q, i as int) && made_from(
                                    groups.groups()[j]@,
                                    all[q].0@,
                                    all[q].1,
                                    loaded_nodes@,
                                );
                            assert(last_loadable(all, loaded_nodes@, q, i + 1));
                        }
                    }
                },
            }
            i = i + 1;
        }
        groups
    }

    /// How many groups there are.
    pub fn get_amount(&self) -> (r: usize)
        ensures
            r == self.groups().len(),
    {
        self.groups.len()
    }

    /// All groups.
    pub fn get_groups(&self) -> (r: &Vec<Group>)
        ensures
            r@ == self.groups(),
    {
        &self.groups
    }

    /// The position of the group with the given name.
    pub fn position(&self, name: &str) -> (r: Option<usize>)
        ensures
            r is None ==> forall|i: int|
                0 <= i < self.groups().len() ==> #[trigger] self.groups()[i]@.name != name@,
            r matches Some(i) ==> first_named(self.groups(), name@, i as int),
    {
        let mut i: usize = 0;
        while i < self.groups.len()
            invariant
                0 <= i <= self.groups@.len(),
                forall|j: int| 0 <= j < i ==> #[trigger] self.groups@[j]@.name != name@,
            decreases self.groups@.len() - i,
        {
            if same_text(&self.groups[i].name, name) {
                proof {
                    assert(first_named(self.groups(), name@, i as int));
                }
                return Some(i);
            }
            i = i + 1;
        }
        None
    }

    /// The group with the given name.
    pub fn find_by_name(&self, name: &str) -> (r: Option<&Group>)
        ensures
            r is None ==> forall|i: int|
                0 <= i < self.groups().len() ==> #[trigger] self.groups()[i]@.name != name@,
            r matches Some(g) ==> exists|i: int|
                #[trigger] first_named(self.groups(), name@, i) && self.groups()[i] == *g,
    {
        match self.position(name) {
            Some(i) => Some(&self.groups[i]),
            None => None,
        }
    }

    /// Adds the group, replacing a group of the same name.
    pub fn add_group(&mut self, group: Group)
        requires
            old(self).wf(),
            group.wf(),
        ensures
            final(self).wf(),
            exists|j: int|
                0 <= j < final(self).groups().len() && final(self).groups()[j] == group,
            forall|n: Seq<char>| #[trigger]
                has_name(final(self).groups(), n) <==> (n == group@.name || has_name(
                    old(self).groups(),
                    n,
                )),
            forall|k: int|
                0 <= k < old(self).groups().len() && old(self).groups()[k]@.name != group@.name
                    ==> exists|j: int|
                    0 <= j < final(self).groups().len() && final(self).groups()[j] == old(self).groups()[k],
            forall|j: int|
                0 <= j < final(self).groups().len() ==> #[trigger] final(self).groups()[j] == group
                    || (final(self).groups()[j]@.name != group@.name && exists|k: int|
                    0 <= k < old(self).groups().len() && old(self).groups()[k] == final(self).groups()[j]),
    {
        match self.position(group.name.as_str()) {
            Some(i) => {
                let ghost before = self.groups@;
                self.groups.remove(i);
                self.groups.insert(i, group);
                proof {
                    assert(self.groups@ =~= before.update(i as int, group));
                    assert(self.groups()[i as int] == group);
                    assert forall|j: int| 0 <= j < self.groups().len() implies #[trigger] self.groups()[j]
                        == group || (self.groups()[j]@.name != group@.name && exists|k: int|
                        0 <= k < before.len() && before[k] == self.groups()[j]) by {
                        if j != i {
                            assert(before[j] == self.groups()[j]);
                            if j < i {
                                assert(before[j]@.name != before[i as int]@.name);
                            } else {
                                assert(before[i as int]@.name != before[j]@.name);
                            }
                        }
                    }
                    assert forall|k: int|
                        0 <= k < before.len() && before[k]@.name != group@.name implies exists|
                        j: int,
                    |
                        0 <= j < self.groups().len() && self.groups()[j] == before[k] by {
                        assert(self.groups()[k] == before[k]);
                    }
                    assert forall|n: Seq<char>| #[trigger]
                        has_name(self.groups@, n) <==> (n == group@.name || has_name(before, n)) by {
                        if exists|k: int| 0 <= k < before.len() && before[k]@.name == n {
                            let k = choose|k: int| 0 <= k < before.len() && before[k]@.name == n;
                            assert(self.groups@[k]@.name == n);
                        }
                        if n == group@.name {
                            assert(self.groups@[i as int]@.name == n);
                        }
                    }
                }
            },
            None => {
                let ghost before = self.groups@;
                self.groups.push(group);
                proof {
                    assert(self.groups()[before.len() as int] == group);
                    assert forall|j: int| 0 <= j < self.groups().len() implies #[trigger] self.groups()[j]
                        == group || (self.groups()[j]@.name != group@.name && exists|k: int|
                        0 <= k < before.len() && before[k] == self.groups()[j]) by {
                        if j < before.len() {
                            assert(before[j] == self.groups()[j]);
                        }
                    }
                    assert forall|k: int|
                        0 <= k < before.len() && before[k]@.name != group@.name implies exists|
                        j: int,
                    |
                        0 <= j < self.groups().len() && self.groups()[j] == before[k] by {
                        assert(self.groups()[k] == before[k]);
                    }
                    assert forall|n: Seq<char>| #[trigger]
                        has_name(self.groups@, n) <==> (n == group@.name || has_name(before, n)) by {
                        if exists|k: int| 0 <= k < before.len() && before[k]@.name == n {
                            let k = choose|k: int| 0 <= k < before.len() && before[k]@.name == n;
                            assert(self.groups@[k]@.name == n);
                        }
                        if n == group@.name {
                            assert(self.groups@[before.len() as int]@.name == n);
                        }
                    }
                }
            },
        }
    }

    /// Creates a group on the given nodes, unless no node is given or a
    /// group of that name exists.
    pub fn create_group(
        &mut self,
        name: &str,
        nodes: Vec<String>,
        scaling: ScalingPolicy,
        rule: ScalingRule,
        resources: Resources,
        deployment: Deployment,
    ) -> (r: CreationResult)
        requires
            old(self).wf(),
        ensures
            final(self).wf(),
            nodes@.len() == 0 ==> (r matches CreationResult::Denied(m) && m@ == "No nodes provided"@)
                && final(self).groups() == old(self).groups(),
            nodes@.len() > 0 && has_name(old(self).groups(), name@) ==> r
                == CreationResult::AlreadyExists && final(self).groups() == old(self).groups(),
            nodes@.len() > 0 && !has_name(old(self).groups(), name@) ==> {
                &&& r == CreationResult::Created
                &&& final(self).groups() == old(self).groups().push(final(self).groups().last())
                &&& final(self).groups().last()@ == (GroupView {
                    name: name@,
                    nodes: nodes@,
                    scaling,
                    rule,
                    resources,
                    deployment: deployment@,
                    members: Seq::empty(),
                    ids: final(self).groups().last()@.ids,
                })
                &&& final(self).groups().last().wf()
                &&& final(self).groups().last()@.ids.active() == Set::<usize>::empty()
                &&& final(self).groups().last()@.ids.next() == 1
                &&& final(self).groups().last()@.ids.available() == Seq::<usize>::empty()
            },
    {
        if nodes.len() == 0 {
            return CreationResult::Denied("No nodes provided".to_owned());
        }
        if let Some(_) = self.position(name) {
            return CreationResult::AlreadyExists;
        }
        let group = Group::from(name, StoredGroup { nodes: Vec::new(), scaling, rule, resources, deployment }, nodes);
        let ghost before = self.groups@;
        self.groups.push(group);
        proof {
            assert forall|i: int, j: int| 0 <= i < j < self.groups@.len() implies self.groups@[i]@.name
                != self.groups@[j]@.name by {
                if j == before.len() {
                    assert(before[i]@.name != name@);
                }
            }
            assert forall|i: int| 0 <= i < self.groups@.len() implies #[trigger] self.groups@[i].wf() by {
                if i < before.len() {
                    assert(self.groups@[i] == before[i]);
                }
            }
            assert(self.groups@ =~= before.push(self.groups@.last()));
        }
        CreationResult::Created
    }

    /// The start request of the named group became the server.
    pub fn set_server_active(&mut self, group: &str, server: u128, request: u64)
        requires
            old(self).wf(),
        ensures
            final(self).wf(),
            final(self).groups().len() == old(self).groups().len(),
            forall|i: int|
                0 <= i < old(self).groups().len() ==> if old(self).groups()[i]@.name == group@ {
                    #[trigger] final(self).groups()[i]@ == (GroupView {
                        members: old(self).groups()[i]@.members.filter(
                            |m: GroupedServer| m != GroupedServer::Queueing(request),
                        ).push(GroupedServer::Active(server)),
                        ..old(self).groups()[i]@
                    })
                } else {
                    final(self).groups()[i] == old(self).groups()[i]
                },
    {
        match self.position(group) {
            Some(i) => {
                let ghost before = self.groups@;
                self.groups[i].set_active(server, request);
                proof {
                    assert forall|a: int, b: int| 0 <= a < b < self.groups@.len() implies self.groups@[a]@.name
                        != self.groups@[b]@.name by {
                        assert(before[a]@.name != before[b]@.name);
                    }
                    assert forall|j: int| 0 <= j < self.groups@.len() implies #[trigger] self.groups@[j].wf() by {
                        assert(before[j].wf());
                    }
                    assert forall|j: int| 0 <= j < before.len() && j != i implies before[j]@.name != group@ by {
                        if j < i {
                            assert(before[j]@.name != before[i as int]@.name);
                        } else {
                            assert(before[i as int]@.name != before[j]@.name);
                        }
                    }
                }
            },
            None => {},
        }
    }

    /// Puts each given part in place of the named group's own; there must
    /// be a group of that name.
    pub fn update_group(
        &mut self,
        name: &str,
        scaling: Option<ScalingPolicy>,
        rule: Option<ScalingRule>,
        resources: Option<Resources>,
        deployment: Option<Deployment>,
        nodes: Option<Vec<String>>,
    ) -> (found: bool)
        requires
            old(self).wf(),
        ensures
            final(self).wf(),
            found == has_name(old(self).groups(), name@),
            final(self).groups().len() == old(self).groups().len(),
            forall|i: int|
                #![trigger final(self).groups()[i]]
                0 <= i < old(self).groups().len() ==> if old(self).groups()[i]@.name == name@ {
                    updated(
                        old(self).groups()[i]@,
                        final(self).groups()[i]@,
                        scaling,
                        rule,
                        resources,
                        given_deployment(deployment),
                        given_nodes(nodes),
                    )
                } else {
                    final(self).groups()[i] == old(self).groups()[i]
                },
    {
        match self.position(name) {
            Some(i) => {
                let ghost before = self.groups@;
                proof {
                    assert(before[i as int].wf());
                }
                self.groups[i].update(scaling, rule, resources, deployment, nodes);
                proof {
                    assert forall|a: int, b: int| 0 <= a < b < self.groups@.len() implies self.groups@[a]@.name
                        != self.groups@[b]@.name by {
                        assert(before[a]@.name != before[b]@.name);
                    }
                    assert forall|j: int| 0 <= j < self.groups@.len() implies #[trigger] self.groups@[j].wf() by {
                        assert(before[j].wf());
                    }
                    assert forall|j: int| 0 <= j < before.len() && j != i implies before[j]@.name != name@ by {
                        if j < i {
                            assert(before[j]@.name != before[i as int]@.name);
                        } else {
                            assert(before[i as int]@.name != before[j]@.name);
                        }
                    }
                }
                true
            },
            None => false,
        }
    }

    /// The server left the named group.
    pub fn remove_group_server(&mut self, group: &str, server: u128, server_id: usize)
        requires
            old(self).wf(),
        ensures
            final(self).wf(),
            final(self).groups().len() == old(self).groups().len(),
            forall|i: int|
                0 <= i < old(self).groups().len() ==> if old(self).groups()[i]@.name == group@ {
                    &&& #[trigger] final(self).groups()[i]@.members == old(self).groups()[i]@.members.filter(
                        |m: GroupedServer| m != GroupedServer::Active(server),
                    )
                    &&& final(self).groups()[i]@.name == old(self).groups()[i]@.name
                    &&& final(self).groups()[i]@.nodes == old(self).groups()[i]@.nodes
                    &&& final(self).groups()[i]@.scaling == old(self).groups()[i]@.scaling
                    &&& final(self).groups()[i]@.rule == old(self).groups()[i]@.rule
                    &&& final(self).groups()[i]@.resources == old(self).groups()[i]@.resources
                    &&& final(self).groups()[i]@.deployment == old(self).groups()[i]@.deployment
                    &&& final(self).groups()[i]@.ids.next() == old(self).groups()[i]@.ids.next()
                    &&& old(self).groups()[i]@.ids.active().contains(server_id) ==> final(self).groups()[i]@.ids.active() == old(self).groups()[i]@.ids.active().remove(
                        server_id,
                    )
                    &&& old(self).groups()[i]@.ids.active().contains(server_id) ==> final(self).groups()[i]@.ids.available().to_set() == old(self).groups()[i]@.ids.available().to_set().insert(
                        server_id,
                    )
                    &&& !old(self).groups()[i]@.ids.active().contains(server_id) ==> final(self).groups()[i]@.ids.active() == old(self).groups()[i]@.ids.active()
                    &&& !old(self).groups()[i]@.ids.active().contains(server_id) ==> final(self).groups()[i]@.ids.available() == old(self).groups()[i]@.ids.available()
                } else {
                    final(self).groups()[i] == old(self).groups()[i]
                },
    {
        match self.position(group) {
            Some(i) => {
                let ghost before = self.groups@;
                proof {
                    assert(before[i as int].wf());
                }
                self.groups[i].remove_server(server, server_id);
                proof {
                    assert forall|a: int, b: int| 0 <= a < b < self.groups@.len() implies self.groups@[a]@.name
                        != self.groups@[b]@.name by {
                        assert(before[a]@.name != before[b]@.name);
                    }
                    assert forall|j: int| 0 <= j < self.groups@.len() implies #[trigger] self.groups@[j].wf() by {
                        assert(before[j].wf());
                    }
                    assert forall|j: int| 0 <= j < before.len() && j != i implies before[j]@.name != group@ by {
                        if j < i {
                            assert(before[j]@.name != before[i as int]@.name);
                        } else {
                            assert(before[i as int]@.name != before[j]@.name);
                        }
                    }
                }
            },
            None => {},
        }
    }

    /// Ticks every group in turn; each group queues the servers it is
    /// missing, the later groups after the earlier ones.
    pub fn tick(&mut self, servers: &mut Servers)
        requires
            old(self).wf(),
            forall|i: int|
                0 <= i < old(self).groups().len() ==> group_fits(#[trigger] old(self).groups()[i]),
            old(servers).next_request_id() + total_minimum(old(self).groups()) <= u64::MAX,
        ensures
            final(self).wf(),
            final(self).groups().len() == old(self).groups().len(),
            final(servers).servers() == old(servers).servers(),
            exists|mid: Seq<Servers>|
                {
                    &&& mid.len() == old(self).groups().len() + 1
                    &&& mid[0] == *old(servers)
                    &&& mid.last() == *final(servers)
                    &&& forall|i: int|
                        0 <= i < old(self).groups().len() ==> Group::tick_post(
                            old(self).groups()[i],
                            #[trigger] final(self).groups()[i],
                            mid[i],
                            mid[i + 1],
                        )
                },
    {
        let ghost before = self.groups@;
        let ghost start = servers.next_request_id();
        let ghost mut mid: Seq<Servers> = seq![*servers];
        let mut i: usize = 0;
        while i < self.groups.len()
            invariant
                self.groups@.len() == before.len(),
                0 <= i <= before.len(),
                names_distinct(before),
                forall|j: int| 0 <= j < before.len() ==> group_fits(#[trigger] before[j]),
                forall|j: int| 0 <= j < before.len() ==> (#[trigger] before[j]).wf(),
                start + total_minimum(before) <= u64::MAX,
                servers.next_request_id() <= start + total_minimum(before.take(i as int)),
                mid.len() == i + 1,
                mid[0] == *old(servers),
                mid[i as int] == *servers,
                forall|j: int|
                    0 <= j < i ==> Group::tick_post(
                        before[j],
                        #[trigger] self.groups@[j],
                        mid[j],
                        mid[j + 1],
                    ),
                forall|j: int| i <= j < before.len() ==> #[trigger] self.groups@[j] == before[j],
                start == old(servers).next_request_id(),
                servers.servers() == old(servers).servers(),
            decreases before.len() - i,
        {
            proof {
                lemma_total_minimum_prefix(before, i as int);
                lemma_total_minimum_prefix(before, i + 1);
                assert(before.take(i + 1).drop_last() =~= before.take(i as int));
                assert(self.groups@[i as int] == before[i as int]);
            }
            self.groups[i].tick(servers);
            proof {
                mid = mid.push(*servers);
            }
            i = i + 1;
        }
        proof {
            assert forall|a: int, b: int| 0 <= a < b < self.groups@.len() implies self.groups@[a]@.name
                != self.groups@[b]@.name by {
                assert(Group::tick_post(before[a], self.groups@[a], mid[a], mid[a + 1]));
                assert(Group::tick_post(before[b], self.groups@[b], mid[b], mid[b + 1]));
            }
            assert forall|j: int| 0 <= j < self.groups@.len() implies #[trigger] self.groups@[j].wf() by {
                assert(Group::tick_post(before[j], self.groups@[j], mid[j], mid[j + 1]));
            }
            assert(mid.last() == *servers);
        }
    }

    /// Deleting a group is accepted and changes nothing.
    pub fn delete_group(&mut self, _name: &str) -> (r: Result<(), ()>)
        ensures
            r is Ok,
            *final(self) == *old(self),
    {
        Ok(())
    }
}

} // verus!
