//! The servers that this controller runs: their life cycle, their health,
//! and the queues of requests to start and stop them.
//!
//! Time is counted in milliseconds of a monotonic clock; the caller passes the
//! current time in.

use vstd::prelude::*;

use crate::facts::{lemma_filter_take_succ, reversed};
use crate::text::same_text;
pub use crate::health::Health;

verus! {

/// Where a server stands in its life cycle.
#[derive(PartialEq, Eq, Structural, Clone, Copy, Debug)]
pub enum State {
    Starting,
    Preparing,
    Restarting,
    Running,
    Stopping,
}

/// Resources that a server asks of a node.
#[derive(Clone, Copy, Debug, Default, PartialEq, Eq, Structural)]
pub struct Resources {
    pub memory: u32,
    pub swap: u32,
    pub cpu: u32,
    pub io: u32,
    pub disk: u32,
    pub addresses: u32,
}

/// Whether a server's disk survives it.
#[derive(PartialEq, Eq, Structural, Clone, Copy, Debug)]
pub enum Retention {
    Temporary,
    Permanent,
}

impl Retention {
    /// The retention a deployment has unless it says otherwise.
    pub fn default_retention() -> (r: Retention)
        ensures
            r == Retention::Temporary,
    {
        Retention::Temporary
    }
}

/// Whether users may fall back to a server, and with what preference.
#[derive(PartialEq, Eq, Structural, Clone, Copy, Debug, Default)]
pub struct FallbackPolicy {
    pub enabled: bool,
    pub priority: i32,
}

/// How a fallback policy is reported over the network: present only when
/// the policy is enabled.
#[derive(PartialEq, Eq, Structural, Clone, Copy, Debug)]
pub struct Fallback {
    pub priority: i32,
}

impl FallbackPolicy {
    /// The report of this policy: its priority when it is enabled, nothing
    /// otherwise.
    pub fn to_grpc(&self) -> (r: Option<Fallback>)
        ensures
            self.enabled ==> r == Some(Fallback { priority: self.priority }),
            !self.enabled ==> r is None,
    {
        if self.enabled {
            Some(Fallback { priority: self.priority })
        } else {
            None
        }
    }
}

/// A setting or environment variable handed to a server.
#[derive(Debug)]
pub struct KeyValue {
    pub key: String,
    pub value: String,
}

impl KeyValue {
    /// A copy of this pair.
    pub fn duplicate(&self) -> (r: Self)
        ensures
            r == *self,
    {
        KeyValue { key: self.key.clone(), value: self.value.clone() }
    }
}

/// A copy of a list of pairs.
pub fn copy_key_values(v: &Vec<KeyValue>) -> (r: Vec<KeyValue>)
    ensures
        r@ == v@,
{
    let mut r: Vec<KeyValue> = Vec::new();
    let mut i: usize = 0;
    while i < v.len()
        invariant
            0 <= i <= v@.len(),
            r@ == v@.take(i as int),
        decreases v@.len() - i,
    {
        r.push(v[i].duplicate());
        proof {
            assert(r@ =~= v@.take(i + 1));
        }
        i = i + 1;
    }
    proof {
        assert(v@.take(v@.len() as int) =~= v@);
    }
    r
}

/// How a server is deployed.
#[derive(Debug)]
pub struct Deployment {
    pub settings: Vec<KeyValue>,
    pub environment: Vec<KeyValue>,
    pub disk_retention: Retention,
    pub image: String,
    /// How many players a server takes at most.
    pub max_players: u32,
    pub fallback: FallbackPolicy,
}

/// What a deployment holds.
pub struct DeploymentView {
    pub settings: Seq<KeyValue>,
    pub environment: Seq<KeyValue>,
    pub disk_retention: Retention,
    pub image: Seq<char>,
    pub max_players: u32,
    pub fallback: FallbackPolicy,
}

impl View for Deployment {
    type V = DeploymentView;

    open spec fn view(&self) -> DeploymentView {
        DeploymentView {
            settings: self.settings@,
            environment: self.environment@,
            disk_retention: self.disk_retention,
            image: self.image@,
            max_players: self.max_players,
            fallback: self.fallback,
        }
    }
}

impl Deployment {
    /// A copy of this deployment.
    pub fn duplicate(&self) -> (r: Self)
        ensures
            r@ == self@,
    {
        Deployment {
            settings: copy_key_values(&self.settings),
            environment: copy_key_values(&self.environment),
            disk_retention: self.disk_retention,
            image: self.image.clone(),
            max_players: self.max_players,
            fallback: self.fallback,
        }
    }
}

/// A network address of a server.
#[derive(Debug)]
pub struct Address {
    pub host: String,
    pub port: u16,
}

/// What a node granted a server.
#[derive(Debug)]
pub struct Allocation {
    pub addresses: Vec<Address>,
    pub resources: Resources,
    pub deployment: Deployment,
}

impl Address {
    /// A copy of this address.
    pub fn duplicate(&self) -> (r: Self)
        ensures
            r == *self,
    {
        Address { host: self.host.clone(), port: self.port }
    }
}

impl Allocation {
    /// A copy of this allocation.
    pub fn duplicate(&self) -> (r: Self)
        ensures
            r.addresses@ == self.addresses@,
            r.resources == self.resources,
            r.deployment@ == self.deployment@,
    {
        let mut addresses: Vec<Address> = Vec::new();
        let mut i: usize = 0;
        while i < self.addresses.len()
            invariant
                0 <= i <= self.addresses@.len(),
                addresses@ == self.addresses@.take(i as int),
            decreases self.addresses@.len() - i,
        {
            addresses.push(self.addresses[i].duplicate());
            proof {
                assert(addresses@ =~= self.addresses@.take(i + 1));
            }
            i = i + 1;
        }
        proof {
            assert(self.addresses@.take(self.addresses@.len() as int) =~= self.addresses@);
        }
        Allocation {
            addresses,
            resources: self.resources,
            deployment: self.deployment.duplicate(),
        }
    }

    /// The address users are sent to, the first one granted.
    pub fn primary_address(&self) -> (r: Option<&Address>)
        ensures
            self.addresses@.len() == 0 ==> r is None,
            self.addresses@.len() > 0 ==> r == Some(&self.addresses@[0]),
    {
        if self.addresses.len() == 0 {
            None
        } else {
            Some(&self.addresses[0])
        }
    }
}

/// The place of a server in its group.
#[derive(Debug)]
pub struct GroupInfo {
    pub server_id: usize,
    pub group: String,
}

/// A request to start a server.
#[derive(Debug)]
pub struct StartRequest {
    /// Tells apart the requests that a manager has queued.
    pub id: u64,
    /// Not before this time, if set.
    pub when: Option<u64>,
    pub name: String,
    pub group: Option<GroupInfo>,
    /// The nodes the server may run on, in order of preference.
    pub nodes: Vec<String>,
    pub resources: Resources,
    pub deployment: Deployment,
    pub priority: i32,
    /// The request was withdrawn; the next tick drops it.
    pub canceled: bool,
}

/// A request to stop a server.
#[derive(Clone, Copy, Debug)]
pub struct StopRequest {
    /// Not before this time, if set.
    pub when: Option<u64>,
    pub server: u128,
}

/// A server started by this controller.
#[derive(Debug)]
pub struct Server {
    pub name: String,
    pub uuid: u128,
    pub group: Option<GroupInfo>,
    pub node: String,
    pub allocation: Allocation,
    /// The token the server authenticates with.
    pub token: String,
    pub health: Health,
    pub state: State,
    pub ready: bool,
    pub connected_users: u32,
}

/// A request is due when it has no time or its time has come.
pub open spec fn start_due(r: StartRequest, now: u64) -> bool {
    match r.when {
        None => true,
        Some(t) => t <= now,
    }
}

/// A request the tick hands out at `now`: not withdrawn, and due.
pub open spec fn start_taken(r: StartRequest, now: u64) -> bool {
    !r.canceled && start_due(r, now)
}

/// A request that stays queued at `now`: not withdrawn, and not yet due.
pub open spec fn start_waiting(r: StartRequest, now: u64) -> bool {
    !r.canceled && !start_due(r, now)
}

/// A request is due when it has no time or its time has come.
pub open spec fn stop_due(r: StopRequest, now: u64) -> bool {
    match r.when {
        None => true,
        Some(t) => t <= now,
    }
}

/// Applies `f` to every server with the given uuid.
pub open spec fn apply_to(s: Seq<Server>, uuid: u128, f: spec_fn(Server) -> Server) -> Seq<Server> {
    s.map_values(|x: Server| if x.uuid == uuid { f(x) } else { x })
}

/// A heartbeat resets the health and moves a starting server on.
pub open spec fn after_heartbeat(s: Server, now: u64) -> Server {
    Server {
        health: s.health.reset_spec(now),
        state: if s.state == State::Starting || s.state == State::Restarting {
            State::Preparing
        } else {
            s.state
        },
        ..s
    }
}

/// A restart gives the server a fresh grace period.
pub open spec fn after_restart(s: Server, now: u64, restart: u64, heartbeat: u64) -> Server {
    Server { state: State::Restarting, health: Health::new_spec(now, restart, heartbeat), ..s }
}

/// A preparing server becomes running.
pub open spec fn after_mark_running(s: Server) -> Server {
    Server {
        state: if s.state == State::Preparing {
            State::Running
        } else {
            s.state
        },
        ..s
    }
}

/// A running server that asks to stop is marked not ready and stopping.
pub open spec fn after_checked_stop(s: Server) -> Server {
    if s.state == State::Running {
        Server { state: State::Stopping, ready: false, ..s }
    } else {
        s
    }
}

/// A unit asked to stop is marked not ready and stopping, unless it is
/// stopping already.
pub open spec fn after_unit_stop(s: Server) -> Server {
    if s.state != State::Stopping {
        Server { state: State::Stopping, ready: false, ..s }
    } else {
        s
    }
}

/// Asking a unit to stop a second time is asking once: no server changes
/// and nothing more is queued to stop.
pub proof fn law_unit_stop_once(s: Seq<Server>, uuid: u128)
    ensures
        apply_to(apply_to(s, uuid, |x: Server| after_unit_stop(x)), uuid, |x: Server| after_unit_stop(x))
            == apply_to(s, uuid, |x: Server| after_unit_stop(x)),
        apply_to(s, uuid, |x: Server| after_unit_stop(x)).filter(
            |x: Server| x.uuid == uuid && x.state != State::Stopping,
        ).len() == 0,
{
    let once = apply_to(s, uuid, |x: Server| after_unit_stop(x));
    assert(apply_to(once, uuid, |x: Server| after_unit_stop(x)) =~= once);
    let p = |x: Server| x.uuid == uuid && x.state != State::Stopping;
    if once.filter(p).len() > 0 {
        let y = once.filter(p)[0];
        assert(once.filter(p).contains(y));
        crate::facts::lemma_filter_contains_iff(once, p, y);
        let k = choose|k: int| 0 <= k < once.len() && once[k] == y;
        assert(once[k].uuid == uuid ==> once[k].state == State::Stopping);
    }
}

/// A unit asked twice to stop: the second request changes no server and
/// queues no second stop.
pub proof fn law_second_stop_changes_nothing(s0: Servers, s1: Servers, s2: Servers, uuid: u128)
    requires
        s1.servers() == apply_to(s0.servers(), uuid, |x: Server| after_unit_stop(x)),
        s1.stop_queue() == s0.stop_queue() + s0.servers().filter(
            |x: Server| x.uuid == uuid && x.state != State::Stopping,
        ).map_values(|x: Server| StopRequest { when: None, server: x.uuid }),
        s2.servers() == apply_to(s1.servers(), uuid, |x: Server| after_unit_stop(x)),
        s2.stop_queue() == s1.stop_queue() + s1.servers().filter(
            |x: Server| x.uuid == uuid && x.state != State::Stopping,
        ).map_values(|x: Server| StopRequest { when: None, server: x.uuid }),
    ensures
        s2.servers() == s1.servers(),
        s2.stop_queue() == s1.stop_queue(),
{
    law_unit_stop_once(s0.servers(), uuid);
    let extra = s1.servers().filter(|x: Server| x.uuid == uuid && x.state != State::Stopping);
    assert(extra.len() == 0);
    assert(s2.stop_queue() =~= s1.stop_queue());
}

/// A server that users may fall back to when leaving `excluded`.
pub open spec fn fallback_eligible(s: Server, excluded: u128) -> bool {
    &&& s.uuid != excluded
    &&& s.allocation.deployment.fallback.enabled
    &&& s.state == State::Running
}

/// How strongly users are sent to a server when they fall back.
pub open spec fn fallback_priority(s: Server) -> i32 {
    s.allocation.deployment.fallback.priority
}

/// The life cycle of a server: a heartbeat moves a starting or restarting
/// server to preparing and leaves every other state alone; only a
/// preparing server becomes running; a request to stop takes only a
/// running server to stopping, and it is no longer ready then.
pub proof fn law_life_cycle(s: Server, now: u64)
    ensures
        after_heartbeat(s, now).state == (if s.state == State::Starting || s.state
            == State::Restarting {
            State::Preparing
        } else {
            s.state
        }),
        after_mark_running(s).state == State::Running ==> s.state == State::Preparing
            || s.state == State::Running,
        after_checked_stop(s).state == State::Stopping ==> s.state == State::Running
            || s.state == State::Stopping,
        s.state == State::Running ==> !after_checked_stop(s).ready,
{
}

/// The server at place `k` of `s` is the one users leaving `excluded` fall
/// back to: it is eligible, no eligible server has a higher priority, and
/// every later eligible server has a lower one.
pub open spec fn fallback_at_in(s: Seq<Server>, k: int, excluded: u128) -> bool {
    &&& 0 <= k < s.len()
    &&& fallback_eligible(s[k], excluded)
    &&& forall|j: int|
        0 <= j < s.len() && fallback_eligible(#[trigger] s[j], excluded) ==> fallback_priority(s[j])
            <= fallback_priority(s[k]) && (j > k ==> fallback_priority(s[j]) < fallback_priority(
            s[k],
        ))
}

/// The server users fall back to is a running server with fallback
/// enabled, other than the one they leave, and no other such server has a
/// higher fallback priority than it.
pub proof fn law_fallback_is_highest(s: Seq<Server>, k: int, excluded: u128)
    requires
        fallback_at_in(s, k, excluded),
    ensures
        0 <= k < s.len(),
        s[k].uuid != excluded,
        s[k].allocation.deployment.fallback.enabled,
        s[k].state == State::Running,
        forall|j: int|
            #![trigger s[j]]
            0 <= j < s.len() && s[j].uuid != excluded && s[j].allocation.deployment.fallback.enabled
                && s[j].state == State::Running ==> s[j].allocation.deployment.fallback.priority
                <= s[k].allocation.deployment.fallback.priority,
{
    assert forall|j: int|
        #![trigger s[j]]
        0 <= j < s.len() && s[j].uuid != excluded && s[j].allocation.deployment.fallback.enabled
            && s[j].state == State::Running implies s[j].allocation.deployment.fallback.priority
        <= s[k].allocation.deployment.fallback.priority by {
        assert(fallback_eligible(s[j], excluded));
    }
}

/// The server at place `p` is the first with the given uuid.
pub open spec fn first_with(s: Seq<Server>, uuid: u128, p: int) -> bool {
    &&& 0 <= p < s.len()
    &&& s[p].uuid == uuid
    &&& forall|j: int| 0 <= j < p ==> #[trigger] s[j].uuid != uuid
}

/// No two servers share a uuid.
pub open spec fn uuids_apart(s: Seq<Server>) -> bool {
    forall|i: int, j: int| 0 <= i < j < s.len() ==> #[trigger] s[i].uuid != #[trigger] s[j].uuid
}

/// Servers with the same uuids, place by place, are as far apart.
pub proof fn lemma_apart_same_uuids(s: Seq<Server>, t: Seq<Server>)
    requires
        uuids_apart(s),
        t.len() == s.len(),
        forall|i: int| 0 <= i < s.len() ==> #[trigger] t[i].uuid == s[i].uuid,
    ensures
        uuids_apart(t),
{
    assert forall|i: int, j: int| 0 <= i < j < t.len() implies #[trigger] t[i].uuid
        != #[trigger] t[j].uuid by {
        assert(s[i].uuid != s[j].uuid);
    }
}

/// Dropping servers keeps the rest apart.
pub proof fn lemma_apart_filter(s: Seq<Server>, p: spec_fn(Server) -> bool)
    requires
        uuids_apart(s),
    ensures
        uuids_apart(s.filter(p)),
    decreases s.len(),
{
    reveal(Seq::filter);
    if s.len() > 0 {
        let t = s.drop_last();
        assert forall|i: int, j: int| 0 <= i < j < t.len() implies #[trigger] t[i].uuid
            != #[trigger] t[j].uuid by {
            assert(t[i] == s[i] && t[j] == s[j]);
        }
        lemma_apart_filter(t, p);
        crate::facts::lemma_filter_subset(t, p);
        let f = t.filter(p);
        if p(s.last()) {
            let g = f.push(s.last());
            assert forall|i: int, j: int| 0 <= i < j < g.len() implies #[trigger] g[i].uuid
                != #[trigger] g[j].uuid by {
                if j == f.len() {
                    let k = choose|k: int| 0 <= k < t.len() && t[k] == #[trigger] f[i];
                    assert(s[k] == t[k]);
                    assert(g[i] == f[i]);
                } else {
                    assert(g[i] == f[i] && g[j] == f[j]);
                }
            }
            assert(s.filter(p) == g);
        }
    }
}

/// A server with a uuid none of the others has keeps them apart.
pub proof fn lemma_apart_push(s: Seq<Server>, x: Server)
    requires
        uuids_apart(s),
        forall|i: int| 0 <= i < s.len() ==> #[trigger] s[i].uuid != x.uuid,
    ensures
        uuids_apart(s.push(x)),
{
    let t = s.push(x);
    assert forall|i: int, j: int| 0 <= i < j < t.len() implies #[trigger] t[i].uuid
        != #[trigger] t[j].uuid by {
        assert(t[i] == s[i]);
        if j < s.len() {
            assert(t[j] == s[j]);
        }
    }
}

/// There is only one first server with a uuid.
pub proof fn lemma_first_with_unique(s: Seq<Server>, uuid: u128, p: int)
    requires
        first_with(s, uuid, p),
    ensures
        forall|q: int| #[trigger] first_with(s, uuid, q) ==> q == p,
{
    assert forall|q: int| #[trigger] first_with(s, uuid, q) implies q == p by {
        if q < p {
            assert(s[q].uuid != uuid);
        } else if p < q {
            assert(s[p].uuid != uuid);
        }
    }
}

/// Start requests with the higher priority first.
pub open spec fn by_priority_desc(s: Seq<StartRequest>) -> bool {
    forall|i: int, j: int| 0 <= i < j < s.len() ==> s[i].priority >= s[j].priority
}

/// The servers of this controller and what is to be started or stopped next.
pub struct Servers {
    servers: Vec<Server>,
    start_requests: Vec<StartRequest>,
    stop_requests: Vec<StopRequest>,
    next_request: u64,
}

impl Servers {
    pub closed spec fn servers(&self) -> Seq<Server> {
        self.servers@
    }

    pub closed spec fn start_queue(&self) -> Seq<StartRequest> {
        self.start_requests@
    }

    pub closed spec fn stop_queue(&self) -> Seq<StopRequest> {
        self.stop_requests@
    }

    /// The id the next queued start request receives.
    pub closed spec fn next_request_id(&self) -> u64 {
        self.next_request
    }

    /// A manager with no servers and no requests.
    pub fn new() -> (r: Self)
        ensures
            r.servers() == Seq::<Server>::empty(),
            r.start_queue() == Seq::<StartRequest>::empty(),
            r.stop_queue() == Seq::<StopRequest>::empty(),
            r.next_request_id() == 0,
    {
        Servers {
            servers: Vec::new(),
            start_requests: Vec::new(),
            stop_requests: Vec::new(),
            next_request: 0,
        }
    }

    /// The id the next queued start request receives.
    pub fn next_request(&self) -> (r: u64)
        ensures
            r == self.next_request_id(),
    {
        self.next_request
    }

    /// All servers, in the order they were started.
    pub fn get_servers(&self) -> (r: &Vec<Server>)
        ensures
            r@ == self.servers(),
    {
        &self.servers
    }

    /// The start requests that wait, in queue order.
    pub fn get_start_requests(&self) -> (r: &Vec<StartRequest>)
        ensures
            r@ == self.start_queue(),
    {
        &self.start_requests
    }

    /// The stop requests that wait, in queue order.
    pub fn get_stop_requests(&self) -> (r: &Vec<StopRequest>)
        ensures
            r@ == self.stop_queue(),
    {
        &self.stop_requests
    }

    /// The first server with the given uuid.
    pub fn get_server(&self, uuid: u128) -> (r: Option<&Server>)
        ensures
            r is None ==> forall|i: int|
                0 <= i < self.servers().len() ==> #[trigger] self.servers()[i].uuid != uuid,
            r matches Some(s) ==> exists|i: int|
                #[trigger] first_with(self.servers(), uuid, i) && self.servers()[i] == *s,
    {
        let mut i: usize = 0;
        while i < self.servers.len()
            invariant
                0 <= i <= self.servers@.len(),
                forall|j: int| 0 <= j < i ==> #[trigger] self.servers@[j].uuid != uuid,
            decreases self.servers@.len() - i,
        {
            if self.servers[i].uuid == uuid {
                proof {
                    assert(first_with(self.servers(), uuid, i as int));
                }
                return Some(&self.servers[i]);
            }
            i = i + 1;
        }
        None
    }

    /// The place of the first server with the given uuid.
    pub fn position(&self, uuid: u128) -> (r: Option<usize>)
        ensures
            match r {
                Some(i) => i < self.servers().len() && self.servers()[i as int].uuid == uuid
                    && forall|j: int| 0 <= j < i ==> #[trigger] self.servers()[j].uuid != uuid,
                None => forall|j: int|
                    0 <= j < self.servers().len() ==> #[trigger] self.servers()[j].uuid != uuid,
            },
    {
        let mut i: usize = 0;
        while i < self.servers.len()
            invariant
                0 <= i <= self.servers@.len(),
                forall|j: int| 0 <= j < i ==> #[trigger] self.servers@[j].uuid != uuid,
            decreases self.servers@.len() - i,
        {
            if self.servers[i].uuid == uuid {
                return Some(i);
            }
            i = i + 1;
        }
        None
    }

    /// The server at the given place, to be changed in place.
    pub fn get_server_mut(&mut self, index: usize) -> (r: &mut Server)
        requires
            index < old(self).servers().len(),
        ensures
            *r == old(self).servers()[index as int],
            final(self).servers() == old(self).servers().update(index as int, *final(r)),
            final(self).start_queue() == old(self).start_queue(),
            final(self).stop_queue() == old(self).stop_queue(),
            final(self).next_request_id() == old(self).next_request_id(),
    {
        &mut self.servers[index]
    }

    /// The first server with the given name.
    pub fn get_server_from_name(&self, name: &str) -> (r: Option<&Server>)
        ensures
            r is None ==> forall|i: int|
                0 <= i < self.servers().len() ==> #[trigger] self.servers()[i].name@ != name@,
            r matches Some(s) ==> exists|i: int|
                0 <= i < self.servers().len() && self.servers()[i] == *s && s.name@ == name@
                    && forall|j: int| 0 <= j < i ==> #[trigger] self.servers()[j].name@ != name@,
    {
        let mut i: usize = 0;
        while i < self.servers.len()
            invariant
                0 <= i <= self.servers@.len(),
                forall|j: int| 0 <= j < i ==> #[trigger] self.servers@[j].name@ != name@,
            decreases self.servers@.len() - i,
        {
            if crate::text::same_text(&self.servers[i].name, name) {
                return Some(&self.servers[i]);
            }
            i = i + 1;
        }
        None
    }

    /// Whether a server with the given uuid runs.
    pub fn contains(&self, uuid: u128) -> (r: bool)
        ensures
            r == exists|i: int| 0 <= i < self.servers().len() && self.servers()[i].uuid == uuid,
    {
        match self.get_server(uuid) {
            Some(_) => true,
            None => false,
        }
    }

    /// Queues a request to start a server and returns the id it was given.
    pub fn queue_server(&mut self, request: StartRequest) -> (id: u64)
        requires
            old(self).next_request_id() < u64::MAX,
        ensures
            id == old(self).next_request_id(),
            final(self).next_request_id() == id + 1,
            final(self).start_queue() == old(self).start_queue().push(
                StartRequest { id, ..request },
            ),
            final(self).servers() == old(self).servers(),
            final(self).stop_queue() == old(self).stop_queue(),
    {
        let id = self.next_request;
        self.next_request = self.next_request + 1;
        let mut request = request;
        request.id = id;
        self.start_requests.push(request);
        id
    }

    /// Puts a request that could not be served back into the queue.
    pub fn requeue_start(&mut self, request: StartRequest)
        ensures
            final(self).start_queue() == old(self).start_queue().push(request),
            final(self).servers() == old(self).servers(),
            final(self).stop_queue() == old(self).stop_queue(),
            final(self).next_request_id() == old(self).next_request_id(),
    {
        self.start_requests.push(request);
    }

    /// Withdraws the queued start request with the given id: the next tick
    /// drops it instead of handing it out.
    pub fn cancel_start(&mut self, id: u64)
        ensures
            final(self).start_queue() == old(self).start_queue().map_values(
                |r: StartRequest| if r.id == id {
                    StartRequest { canceled: true, ..r }
                } else {
                    r
                },
            ),
            final(self).servers() == old(self).servers(),
            final(self).stop_queue() == old(self).stop_queue(),
            final(self).next_request_id() == old(self).next_request_id(),
    {
        let ghost before = self.start_requests@;
        let mut i: usize = 0;
        while i < self.start_requests.len()
            invariant
                self.start_requests@.len() == before.len(),
                0 <= i <= before.len(),
                forall|j: int|
                    0 <= j < i ==> #[trigger] self.start_requests@[j] == (if before[j].id == id {
                        StartRequest { canceled: true, ..before[j] }
                    } else {
                        before[j]
                    }),
                forall|j: int| i <= j < before.len() ==> #[trigger] self.start_requests@[j] == before[j],
                self.servers@ == old(self).servers@,
                self.stop_requests@ == old(self).stop_requests@,
                self.next_request == old(self).next_request,
            decreases before.len() - i,
        {
            if self.start_requests[i].id == id {
                self.start_requests[i].canceled = true;
            }
            i = i + 1;
        }
        proof {
            assert(self.start_requests@ =~= before.map_values(
                |r: StartRequest| if r.id == id {
                    StartRequest { canceled: true, ..r }
                } else {
                    r
                },
            ));
        }
    }

    /// Asks to stop a server at the next tick.
    pub fn stop_server_now(&mut self, server: u128)
        ensures
            final(self).stop_queue() == old(self).stop_queue().push(
                StopRequest { when: None, server },
            ),
            final(self).servers() == old(self).servers(),
            final(self).start_queue() == old(self).start_queue(),
            final(self).next_request_id() == old(self).next_request_id(),
    {
        self.stop_requests.push(StopRequest { when: None, server });
    }

    /// Asks to stop every server on the node at the next tick, in order.
    pub fn stop_all_on_node(&mut self, node: &str)
        ensures
            final(self).stop_queue() == old(self).stop_queue() + old(self).servers().filter(
                |s: Server| s.node@ == node@,
            ).map_values(|s: Server| StopRequest { when: None, server: s.uuid }),
            final(self).servers() == old(self).servers(),
            final(self).start_queue() == old(self).start_queue(),
            final(self).next_request_id() == old(self).next_request_id(),
    {
        let ghost before_stops = self.stop_requests@;
        let ghost pred = |s: Server| s.node@ == node@;
        let ghost to_req = |s: Server| StopRequest { when: None, server: s.uuid };
        let mut i: usize = 0;
        while i < self.servers.len()
            invariant
                0 <= i <= self.servers@.len(),
                self.servers@ == old(self).servers@,
                pred == (|s: Server| s.node@ == node@),
                to_req == (|s: Server| StopRequest { when: None, server: s.uuid }),
                self.stop_requests@ == before_stops + self.servers@.take(i as int).filter(
                    pred,
                ).map_values(to_req),
                self.start_requests@ == old(self).start_requests@,
                self.next_request == old(self).next_request,
            decreases self.servers@.len() - i,
        {
            proof {
                lemma_filter_take_succ(self.servers@, pred, i as int);
            }
            if same_text(&self.servers[i].node, node) {
                let uuid = self.servers[i].uuid;
                self.stop_requests.push(StopRequest { when: None, server: uuid });
                proof {
                    assert(self.stop_requests@ =~= before_stops + self.servers@.take(i + 1).filter(
                        pred,
                    ).map_values(to_req));
                }
            }
            i = i + 1;
        }
        proof {
            assert(self.servers@.take(self.servers@.len() as int) =~= self.servers@);
        }
    }

    /// Asks to stop a server once the given time has come.
    pub fn _stop_server(&mut self, when: u64, server: u128)
        ensures
            final(self).stop_queue() == old(self).stop_queue().push(
                StopRequest { when: Some(when), server },
            ),
            final(self).servers() == old(self).servers(),
            final(self).start_queue() == old(self).start_queue(),
            final(self).next_request_id() == old(self).next_request_id(),
    {
        self.stop_requests.push(StopRequest { when: Some(when), server });
    }

    /// Whether a heartbeat at `now` can be recorded for every server with the
    /// given uuid without the clock overflowing.
    pub open spec fn beat_fits(&self, uuid: u128, now: u64) -> bool {
        forall|i: int|
            0 <= i < self.servers().len() && #[trigger] self.servers()[i].uuid == uuid ==> now
                + self.servers()[i].health.timeout <= u64::MAX
    }

    /// Records a heartbeat: the health is reset, and a starting or
    /// restarting server is now preparing.
    pub fn handle_heart_beat(&mut self, uuid: u128, now: u64)
        requires
            old(self).beat_fits(uuid, now),
        ensures
            final(self).servers() == apply_to(
                old(self).servers(),
                uuid,
                |s: Server| after_heartbeat(s, now),
            ),
            final(self).start_queue() == old(self).start_queue(),
            final(self).stop_queue() == old(self).stop_queue(),
            final(self).next_request_id() == old(self).next_request_id(),
    {
        let ghost before = self.servers@;
        let mut i: usize = 0;
        while i < self.servers.len()
            invariant
                self.servers@.len() == before.len(),
                0 <= i <= before.len(),
                forall|j: int|
                    0 <= j < before.len() && #[trigger] before[j].uuid == uuid ==> now
                        + before[j].health.timeout <= u64::MAX,
                forall|j: int|
                    0 <= j < i ==> #[trigger] self.servers@[j] == (if before[j].uuid == uuid {
                        after_heartbeat(before[j], now)
                    } else {
                        before[j]
                    }),
                forall|j: int| i <= j < before.len() ==> #[trigger] self.servers@[j] == before[j],
                self.start_requests@ == old(self).start_requests@,
                self.stop_requests@ == old(self).stop_requests@,
                self.next_request == old(self).next_request,
            decreases before.len() - i,
        {
            if self.servers[i].uuid == uuid {
                assert(before[i as int].uuid == uuid);
                self.servers[i].health.reset(now);
                if self.servers[i].state == State::Starting || self.servers[i].state
                    == State::Restarting {
                    self.servers[i].state = State::Preparing;
                }
            }
            i = i + 1;
        }
        proof {
            assert(self.servers@ =~= apply_to(before, uuid, |s: Server| after_heartbeat(s, now)));
        }
    }

    /// Marks the server ready.
    pub fn mark_ready(&mut self, uuid: u128)
        ensures
            final(self).servers() == apply_to(
                old(self).servers(),
                uuid,
                |s: Server| Server { ready: true, ..s },
            ),
            final(self).start_queue() == old(self).start_queue(),
            final(self).stop_queue() == old(self).stop_queue(),
            final(self).next_request_id() == old(self).next_request_id(),
    {
        self.set_ready(uuid, true);
    }

    /// Marks the server not ready.
    pub fn mark_not_ready(&mut self, uuid: u128)
        ensures
            final(self).servers() == apply_to(
                old(self).servers(),
                uuid,
                |s: Server| Server { ready: false, ..s },
            ),
            final(self).start_queue() == old(self).start_queue(),
            final(self).stop_queue() == old(self).stop_queue(),
            final(self).next_request_id() == old(self).next_request_id(),
    {
        self.set_ready(uuid, false);
    }

    fn set_ready(&mut self, uuid: u128, ready: bool)
        ensures
            final(self).servers() == apply_to(
                old(self).servers(),
                uuid,
                |s: Server| Server { ready: ready, ..s },
            ),
            final(self).start_queue() == old(self).start_queue(),
            final(self).stop_queue() == old(self).stop_queue(),
            final(self).next_request_id() == old(self).next_request_id(),
    {
        let ghost before = self.servers@;
        let mut i: usize = 0;
        while i < self.servers.len()
            invariant
                self.servers@.len() == before.len(),
                0 <= i <= before.len(),
                forall|j: int|
                    0 <= j < i ==> #[trigger] self.servers@[j] == (if before[j].uuid == uuid {
                        Server { ready: ready, ..before[j] }
                    } else {
                        before[j]
                    }),
                forall|j: int| i <= j < before.len() ==> #[trigger] self.servers@[j] == before[j],
                self.start_requests@ == old(self).start_requests@,
                self.stop_requests@ == old(self).stop_requests@,
                self.next_request == old(self).next_request,
            decreases before.len() - i,
        {
            if self.servers[i].uuid == uuid {
                self.servers[i].ready = ready;
            }
            i = i + 1;
        }
        proof {
            assert(self.servers@ =~= apply_to(
                before,
                uuid,
                |s: Server| Server { ready: ready, ..s },
            ));
        }
    }

    /// A preparing server is now running.
    pub fn mark_running(&mut self, uuid: u128)
        ensures
            final(self).servers() == apply_to(
                old(self).servers(),
                uuid,
                |s: Server| after_mark_running(s),
            ),
            final(self).start_queue() == old(self).start_queue(),
            final(self).stop_queue() == old(self).stop_queue(),
            final(self).next_request_id() == old(self).next_request_id(),
    {
        let ghost before = self.servers@;
        let mut i: usize = 0;
        while i < self.servers.len()
            invariant
                self.servers@.len() == before.len(),
                0 <= i <= before.len(),
                forall|j: int|
                    0 <= j < i ==> #[trigger] self.servers@[j] == (if before[j].uuid == uuid {
                        after_mark_running(before[j])
                    } else {
                        before[j]
                    }),
                forall|j: int| i <= j < before.len() ==> #[trigger] self.servers@[j] == before[j],
                self.start_requests@ == old(self).start_requests@,
                self.stop_requests@ == old(self).stop_requests@,
                self.next_request == old(self).next_request,
            decreases before.len() - i,
        {
            if self.servers[i].uuid == uuid && self.servers[i].state == State::Preparing {
                self.servers[i].state = State::Running;
            }
            i = i + 1;
        }
        proof {
            assert(self.servers@ =~= apply_to(before, uuid, |s: Server| after_mark_running(s)));
        }
    }

    /// A running server that asks to stop is marked not ready, set to
    /// stopping and queued to be stopped at the next tick. Servers in any
    /// other state are left alone.
    pub fn checked_stop_server(&mut self, uuid: u128)
        ensures
            final(self).servers() == apply_to(
                old(self).servers(),
                uuid,
                |s: Server| after_checked_stop(s),
            ),
            final(self).stop_queue() == old(self).stop_queue() + old(self).servers().filter(
                |s: Server| s.uuid == uuid && s.state == State::Running,
            ).map_values(|s: Server| StopRequest { when: None, server: s.uuid }),
            final(self).start_queue() == old(self).start_queue(),
            final(self).next_request_id() == old(self).next_request_id(),
    {
        let ghost before = self.servers@;
        let ghost before_stops = self.stop_requests@;
        let ghost pred = |s: Server| s.uuid == uuid && s.state == State::Running;
        let ghost to_req = |s: Server| StopRequest { when: None, server: s.uuid };
        let mut i: usize = 0;
        while i < self.servers.len()
            invariant
                self.servers@.len() == before.len(),
                0 <= i <= before.len(),
                pred == (|s: Server| s.uuid == uuid && s.state == State::Running),
                to_req == (|s: Server| StopRequest { when: None, server: s.uuid }),
                forall|j: int|
                    0 <= j < i ==> #[trigger] self.servers@[j] == (if before[j].uuid == uuid {
                        after_checked_stop(before[j])
                    } else {
                        before[j]
                    }),
                forall|j: int| i <= j < before.len() ==> #[trigger] self.servers@[j] == before[j],
                self.stop_requests@ == before_stops + before.take(i as int).filter(
                    pred,
                ).map_values(to_req),
                self.start_requests@ == old(self).start_requests@,
                self.next_request == old(self).next_request,
            decreases before.len() - i,
        {
            proof {
                lemma_filter_take_succ(before, pred, i as int);
            }
            if self.servers[i].uuid == uuid && self.servers[i].state == State::Running {
                self.servers[i].ready = false;
                self.servers[i].state = State::Stopping;
                self.stop_requests.push(StopRequest { when: None, server: uuid });
                proof {
                    assert(self.stop_requests@ =~= before_stops + before.take(i + 1).filter(
                        pred,
                    ).map_values(to_req));
                }
            }
            i = i + 1;
        }
        proof {
            assert(before.take(before.len() as int) =~= before);
            assert(self.servers@ =~= apply_to(before, uuid, |s: Server| after_checked_stop(s)));
        }
    }

    /// A unit that is asked to stop is marked not ready, set to stopping and
    /// queued to be stopped at the next tick, unless it is stopping already.
    pub fn checked_unit_stop(&mut self, uuid: u128)
        ensures
            final(self).servers() == apply_to(
                old(self).servers(),
                uuid,
                |s: Server| after_unit_stop(s),
            ),
            final(self).stop_queue() == old(self).stop_queue() + old(self).servers().filter(
                |s: Server| s.uuid == uuid && s.state != State::Stopping,
            ).map_values(|s: Server| StopRequest { when: None, server: s.uuid }),
            final(self).start_queue() == old(self).start_queue(),
            final(self).next_request_id() == old(self).next_request_id(),
    {
        let ghost before = self.servers@;
        let ghost before_stops = self.stop_requests@;
        let ghost pred = |s: Server| s.uuid == uuid && s.state != State::Stopping;
        let ghost to_req = |s: Server| StopRequest { when: None, server: s.uuid };
        let mut i: usize = 0;
        while i < self.servers.len()
            invariant
                self.servers@.len() == before.len(),
                0 <= i <= before.len(),
                pred == (|s: Server| s.uuid == uuid && s.state != State::Stopping),
                to_req == (|s: Server| StopRequest { when: None, server: s.uuid }),
                forall|j: int|
                    0 <= j < i ==> #[trigger] self.servers@[j] == (if before[j].uuid == uuid {
                        after_unit_stop(before[j])
                    } else {
                        before[j]
                    }),
                forall|j: int| i <= j < before.len() ==> #[trigger] self.servers@[j] == before[j],
                self.stop_requests@ == before_stops + before.take(i as int).filter(
                    pred,
                ).map_values(to_req),
                self.start_requests@ == old(self).start_requests@,
                self.next_request == old(self).next_request,
            decreases before.len() - i,
        {
            proof {
                lemma_filter_take_succ(before, pred, i as int);
            }
            if self.servers[i].uuid == uuid && self.servers[i].state != State::Stopping {
                self.servers[i].ready = false;
                self.servers[i].state = State::Stopping;
                self.stop_requests.push(StopRequest { when: None, server: uuid });
                proof {
                    assert(self.stop_requests@ =~= before_stops + before.take(i + 1).filter(
                        pred,
                    ).map_values(to_req));
                }
            }
            i = i + 1;
        }
        proof {
            assert(before.take(before.len() as int) =~= before);
            assert(self.servers@ =~= apply_to(before, uuid, |s: Server| after_unit_stop(s)));
        }
    }

    /// Whether restarting every server that is dead at `now` can set its
    /// new deadline without the clock overflowing.
    pub open spec fn restart_fits(now: u64, restart: u64) -> bool {
        now + restart <= u64::MAX
    }

    /// Restarts the server: it is set to restarting and gets `restart`
    /// milliseconds to check in again, then `heartbeat` between beats.
    pub fn restart_server(&mut self, uuid: u128, now: u64, restart: u64, heartbeat: u64)
        requires
            Self::restart_fits(now, restart),
        ensures
            final(self).servers() == apply_to(
                old(self).servers(),
                uuid,
                |s: Server| after_restart(s, now, restart, heartbeat),
            ),
            final(self).start_queue() == old(self).start_queue(),
            final(self).stop_queue() == old(self).stop_queue(),
            final(self).next_request_id() == old(self).next_request_id(),
    {
        let ghost before = self.servers@;
        let mut i: usize = 0;
        while i < self.servers.len()
            invariant
                self.servers@.len() == before.len(),
                0 <= i <= before.len(),
                now + restart <= u64::MAX,
                forall|j: int|
                    0 <= j < i ==> #[trigger] self.servers@[j] == (if before[j].uuid == uuid {
                        after_restart(before[j], now, restart, heartbeat)
                    } else {
                        before[j]
                    }),
                forall|j: int| i <= j < before.len() ==> #[trigger] self.servers@[j] == before[j],
                self.start_requests@ == old(self).start_requests@,
                self.stop_requests@ == old(self).stop_requests@,
                self.next_request == old(self).next_request,
            decreases before.len() - i,
        {
            if self.servers[i].uuid == uuid {
                self.servers[i].state = State::Restarting;
                self.servers[i].health = Health::new(now, restart, heartbeat);
            }
            i = i + 1;
        }
        proof {
            assert(self.servers@ =~= apply_to(
                before,
                uuid,
                |s: Server| after_restart(s, now, restart, heartbeat),
            ));
        }
    }

    /// Restarts every server that has not checked in in time and returns
    /// their uuids, in server order.
    pub fn restart_dead_servers(&mut self, now: u64, restart: u64, heartbeat: u64) -> (dead: Vec<
        u128,
    >)
        requires
            Self::restart_fits(now, restart),
        ensures
            dead@ == old(self).servers().filter(|s: Server| s.health.is_dead_spec(now)).map_values(
                |s: Server| s.uuid,
            ),
            final(self).servers() == old(self).servers().map_values(
                |s: Server|
                    if s.health.is_dead_spec(now) {
                        after_restart(s, now, restart, heartbeat)
                    } else {
                        s
                    },
            ),
            final(self).start_queue() == old(self).start_queue(),
            final(self).stop_queue() == old(self).stop_queue(),
            final(self).next_request_id() == old(self).next_request_id(),
    {
        let ghost before = self.servers@;
        let ghost pred = |s: Server| s.health.is_dead_spec(now);
        let ghost to_uuid = |s: Server| s.uuid;
        let mut dead: Vec<u128> = Vec::new();
        let mut i: usize = 0;
        while i < self.servers.len()
            invariant
                self.servers@.len() == before.len(),
                0 <= i <= before.len(),
                now + restart <= u64::MAX,
                pred == (|s: Server| s.health.is_dead_spec(now)),
                to_uuid == (|s: Server| s.uuid),
                dead@ == before.take(i as int).filter(pred).map_values(to_uuid),
                forall|j: int|
                    0 <= j < i ==> #[trigger] self.servers@[j] == (if before[j].health.is_dead_spec(
                        now,
                    ) {
                        after_restart(before[j], now, restart, heartbeat)
                    } else {
                        before[j]
                    }),
                forall|j: int| i <= j < before.len() ==> #[trigger] self.servers@[j] == before[j],
                self.start_requests@ == old(self).start_requests@,
                self.stop_requests@ == old(self).stop_requests@,
                self.next_request == old(self).next_request,
            decreases before.len() - i,
        {
            proof {
                lemma_filter_take_succ(before, pred, i as int);
            }
            if self.servers[i].health.is_dead(now) {
                let uuid = self.servers[i].uuid;
                dead.push(uuid);
                self.servers[i].state = State::Restarting;
                self.servers[i].health = Health::new(now, restart, heartbeat);
                proof {
                    assert(dead@ =~= before.take(i + 1).filter(pred).map_values(to_uuid));
                }
            }
            i = i + 1;
        }
        proof {
            assert(before.take(before.len() as int) =~= before);
            assert(self.servers@ =~= before.map_values(
                |s: Server|
                    if s.health.is_dead_spec(now) {
                        after_restart(s, now, restart, heartbeat)
                    } else {
                        s
                    },
            ));
        }
        dead
    }

    /// Takes the stop requests whose time has come, in queue order; the
    /// others stay queued in their order.
    pub fn take_due_stops(&mut self, now: u64) -> (due: Vec<StopRequest>)
        ensures
            due@ == old(self).stop_queue().filter(|r: StopRequest| stop_due(r, now)),
            final(self).stop_queue() == old(self).stop_queue().filter(
                |r: StopRequest| !stop_due(r, now),
            ),
            final(self).servers() == old(self).servers(),
            final(self).start_queue() == old(self).start_queue(),
            final(self).next_request_id() == old(self).next_request_id(),
    {
        let ghost before = self.stop_requests@;
        let ghost is_due = |r: StopRequest| stop_due(r, now);
        let ghost not_due = |r: StopRequest| !stop_due(r, now);
        let mut due: Vec<StopRequest> = Vec::new();
        let mut kept: Vec<StopRequest> = Vec::new();
        let mut i: usize = 0;
        while i < self.stop_requests.len()
            invariant
                self.stop_requests@ == before,
                0 <= i <= before.len(),
                is_due == (|r: StopRequest| stop_due(r, now)),
                not_due == (|r: StopRequest| !stop_due(r, now)),
                due@ == before.take(i as int).filter(is_due),
                kept@ == before.take(i as int).filter(not_due),
            decreases before.len() - i,
        {
            proof {
                lemma_filter_take_succ(before, is_due, i as int);
                lemma_filter_take_succ(before, not_due, i as int);
            }
            let r = self.stop_requests[i];
            let is_now = match r.when {
                None => true,
                Some(t) => t <= now,
            };
            if is_now {
                due.push(r);
            } else {
                kept.push(r);
            }
            i = i + 1;
        }
        proof {
            assert(before.take(before.len() as int) =~= before);
        }
        self.stop_requests = kept;
        due
    }

    /// Removes every server with the given uuid and returns them.
    pub fn remove_server(&mut self, uuid: u128) -> (removed: Vec<Server>)
        ensures
            removed@ == old(self).servers().filter(|s: Server| s.uuid == uuid),
            final(self).servers() == old(self).servers().filter(|s: Server| s.uuid != uuid),
            final(self).start_queue() == old(self).start_queue(),
            final(self).stop_queue() == old(self).stop_queue(),
            final(self).next_request_id() == old(self).next_request_id(),
    {
        let ghost before = self.servers@;
        let ghost is_it = |s: Server| s.uuid == uuid;
        let ghost not_it = |s: Server| s.uuid != uuid;
        let mut all = Vec::new();
        std::mem::swap(&mut all, &mut self.servers);
        let mut removed: Vec<Server> = Vec::new();
        let mut kept: Vec<Server> = Vec::new();
        // Move the servers out one by one from the front.
        let mut rest = reversed(all);
        let mut i: usize = 0;
        proof {
            assert(rest@ =~= before.skip(0).reverse());
            assert(before.len() == rest.len());
        }
        while rest.len() > 0
            invariant
                rest@ == before.skip(i as int).reverse(),
                i + rest@.len() == before.len(),
                before.len() <= usize::MAX,
                is_it == (|s: Server| s.uuid == uuid),
                not_it == (|s: Server| s.uuid != uuid),
                removed@ == before.take(i as int).filter(is_it),
                kept@ == before.take(i as int).filter(not_it),
                self.start_requests@ == old(self).start_requests@,
                self.stop_requests@ == old(self).stop_requests@,
                self.next_request == old(self).next_request,
            decreases rest@.len(),
        {
            let s = rest.pop().unwrap();
            proof {
                assert(s == before[i as int]);
                lemma_filter_take_succ(before, is_it, i as int);
                lemma_filter_take_succ(before, not_it, i as int);
                assert(rest@ =~= before.skip(i + 1).reverse());
            }
            if s.uuid == uuid {
                removed.push(s);
            } else {
                kept.push(s);
            }
            i = i + 1;
        }
        proof {
            assert(before.take(before.len() as int) =~= before);
        }
        self.servers = kept;
        removed
    }

    /// Sorts the start queue so that higher priorities come first.
    pub fn sort_start_requests(&mut self)
        ensures
            by_priority_desc(final(self).start_queue()),
            final(self).start_queue().to_multiset() == old(self).start_queue().to_multiset(),
            final(self).servers() == old(self).servers(),
            final(self).stop_queue() == old(self).stop_queue(),
            final(self).next_request_id() == old(self).next_request_id(),
    {
        let mut all = Vec::new();
        std::mem::swap(&mut all, &mut self.start_requests);
        let ghost before = all@;
        let mut sorted: Vec<StartRequest> = Vec::new();
        proof {
            broadcast use vstd::seq_lib::group_to_multiset_ensures;
            broadcast use vstd::multiset::group_multiset_axioms;
            assert(sorted@.to_multiset().add(all@.to_multiset()) =~= before.to_multiset());
        }
        while all.len() > 0
            invariant
                by_priority_desc(sorted@),
                sorted@.to_multiset().add(all@.to_multiset()) == before.to_multiset(),
                self.stop_requests@ == old(self).stop_requests@,
                self.servers@ == old(self).servers@,
                self.next_request == old(self).next_request,
            decreases all@.len(),
        {
            let ghost all_before = all@;
            let r = all.pop().unwrap();
            // Find the first place whose priority is lower than the new one.
            let mut p: usize = 0;
            while p < sorted.len()
                invariant
                    0 <= p <= sorted@.len(),
                    forall|k: int| 0 <= k < p ==> sorted@[k].priority >= r.priority,
                ensures
                    0 <= p <= sorted@.len(),
                    forall|k: int| 0 <= k < p ==> sorted@[k].priority >= r.priority,
                    p < sorted@.len() ==> sorted@[p as int].priority < r.priority,
                decreases sorted@.len() - p,
            {
                if sorted[p].priority < r.priority {
                    break;
                }
                p = p + 1;
            }
            let ghost sorted_before = sorted@;
            sorted.insert(p, r);
            proof {
                broadcast use vstd::seq_lib::group_to_multiset_ensures;
                broadcast use vstd::multiset::group_multiset_axioms;
                assert(all_before =~= all@.push(r));
                vstd::seq_lib::to_multiset_build(all@, r);
                vstd::seq_lib::to_multiset_insert(sorted_before, p as int, r);
                assert(sorted@.to_multiset().add(all@.to_multiset()) =~= before.to_multiset());
                let ns = sorted@;
                assert forall|a: int, b: int| 0 <= a < b < ns.len() implies ns[a].priority
                    >= ns[b].priority by {
                    if b < p {
                        assert(ns[a] == sorted_before[a] && ns[b] == sorted_before[b]);
                    } else if b == p {
                        assert(ns[a] == sorted_before[a]);
                    } else if a == p {
                        assert(ns[b] == sorted_before[b - 1]);
                        if p < b - 1 {
                            assert(sorted_before[p as int].priority >= sorted_before[b
                                - 1].priority);
                        }
                    } else if a < p {
                        assert(ns[a] == sorted_before[a] && ns[b] == sorted_before[b - 1]);
                    } else {
                        assert(ns[a] == sorted_before[a - 1] && ns[b] == sorted_before[b - 1]);
                    }
                }
            }
        }
        proof {
            broadcast use vstd::seq_lib::group_to_multiset_ensures;
            broadcast use vstd::multiset::group_multiset_axioms;
            assert(all@ =~= Seq::<StartRequest>::empty());
            assert(sorted@.to_multiset() =~= before.to_multiset());
        }
        self.start_requests = sorted;
    }

    /// Takes the start requests whose time has come, in queue order; the
    /// others stay queued in their order.
    pub fn take_due_starts(&mut self, now: u64) -> (due: Vec<StartRequest>)
        ensures
            due@ == old(self).start_queue().filter(|r: StartRequest| start_taken(r, now)),
            final(self).start_queue() == old(self).start_queue().filter(
                |r: StartRequest| start_waiting(r, now),
            ),
            final(self).servers() == old(self).servers(),
            final(self).stop_queue() == old(self).stop_queue(),
            final(self).next_request_id() == old(self).next_request_id(),
    {
        let mut all = Vec::new();
        std::mem::swap(&mut all, &mut self.start_requests);
        let ghost before = all@;
        let ghost is_due = |r: StartRequest| start_taken(r, now);
        let ghost not_due = |r: StartRequest| start_waiting(r, now);
        let mut due: Vec<StartRequest> = Vec::new();
        let mut kept: Vec<StartRequest> = Vec::new();
        let mut all = reversed(all);
        let mut i: usize = 0;
        proof {
            assert(all@ =~= before.skip(0).reverse());
            assert(before.len() == all.len());
        }
        while all.len() > 0
            invariant
                all@ == before.skip(i as int).reverse(),
                i + all@.len() == before.len(),
                before.len() <= usize::MAX,
                is_due == (|r: StartRequest| start_taken(r, now)),
                not_due == (|r: StartRequest| start_waiting(r, now)),
                due@ == before.take(i as int).filter(is_due),
                kept@ == before.take(i as int).filter(not_due),
                self.stop_requests@ == old(self).stop_requests@,
                self.servers@ == old(self).servers@,
                self.next_request == old(self).next_request,
            decreases all@.len(),
        {
            let r = all.pop().unwrap();
            proof {
                assert(r == before[i as int]);
                lemma_filter_take_succ(before, is_due, i as int);
                lemma_filter_take_succ(before, not_due, i as int);
                assert(all@ =~= before.skip(i + 1).reverse());
            }
            let is_now = match r.when {
                None => true,
                Some(t) => t <= now,
            };
            if r.canceled {
            } else if is_now {
                due.push(r);
            } else {
                kept.push(r);
            }
            i = i + 1;
        }
        proof {
            assert(before.take(before.len() as int) =~= before);
        }
        self.start_requests = kept;
        due
    }

    /// Whether a server can be started at `now` with the given startup grace
    /// without the clock overflowing.
    pub open spec fn start_fits(now: u64, startup: u64) -> bool {
        now + startup <= u64::MAX
    }

    /// Adds the server that a node accepted for `request`: it is starting,
    /// not ready, has no users, and has `startup` milliseconds to check in.
    pub fn start_server(
        &mut self,
        request: StartRequest,
        uuid: u128,
        node: String,
        allocation: Allocation,
        token: String,
        now: u64,
        startup: u64,
        heartbeat: u64,
    )
        requires
            Self::start_fits(now, startup),
        ensures
            final(self).servers() == old(self).servers().filter(|s: Server| s.uuid != uuid).push(
                Server {
                    name: request.name,
                    uuid,
                    group: request.group,
                    node,
                    allocation,
                    token,
                    health: Health::new_spec(now, startup, heartbeat),
                    state: State::Starting,
                    ready: false,
                    connected_users: 0,
                },
            ),
            final(self).start_queue() == old(self).start_queue(),
            final(self).stop_queue() == old(self).stop_queue(),
            final(self).next_request_id() == old(self).next_request_id(),
    {
        let server = Server {
            name: request.name,
            uuid,
            group: request.group,
            node,
            allocation,
            token,
            health: Health::new(now, startup, heartbeat),
            state: State::Starting,
            ready: false,
            connected_users: 0,
        };
        self.remove_server(uuid);
        self.servers.push(server);
    }

    /// Takes every server to stop it at once, last started first.
    pub fn stop_all(&mut self) -> (stopped: Vec<Server>)
        ensures
            stopped@ == old(self).servers().reverse(),
            final(self).servers() == Seq::<Server>::empty(),
            final(self).start_queue() == old(self).start_queue(),
            final(self).stop_queue() == old(self).stop_queue(),
            final(self).next_request_id() == old(self).next_request_id(),
    {
        let mut all = Vec::new();
        std::mem::swap(&mut all, &mut self.servers);
        reversed(all)
    }

    /// The server at place `k` is the one users leaving `excluded` fall
    /// back to: it is eligible, no eligible server has a higher priority,
    /// and every later eligible server has a lower one.
    pub open spec fn fallback_at(&self, k: int, excluded: u128) -> bool {
        fallback_at_in(self.servers(), k, excluded)
    }

    /// The place of the first server with the uuid, if there is one.
    pub open spec fn first_of(servers: Seq<Server>, uuid: u128) -> Option<int> {
        if exists|p: int| #[trigger] first_with(servers, uuid, p) {
            Some(choose|p: int| #[trigger] first_with(servers, uuid, p))
        } else {
            None
        }
    }

    /// The place of the server users leaving `excluded` fall back to, if
    /// there is one.
    pub open spec fn fallback_of(servers: Seq<Server>, excluded: u128) -> Option<int> {
        if exists|k: int| #[trigger] fallback_at_in(servers, k, excluded) {
            Some(choose|k: int| #[trigger] fallback_at_in(servers, k, excluded))
        } else {
            None
        }
    }

    /// `u` is the uuid of the server users leaving `excluded` fall back to.
    pub open spec fn is_fallback(&self, u: u128, excluded: u128) -> bool {
        exists|k: int| #[trigger] self.fallback_at(k, excluded) && self.servers()[k].uuid == u
    }

    /// At most one place holds the fallback server.
    pub proof fn lemma_fallback_unique(&self, a: int, b: int, excluded: u128)
        requires
            self.fallback_at(a, excluded),
            self.fallback_at(b, excluded),
        ensures
            a == b,
    {
        if a < b {
            assert(fallback_eligible(self.servers()[b], excluded));
        } else if b < a {
            assert(fallback_eligible(self.servers()[a], excluded));
        }
    }

    /// The place of the server users leaving `excluded` fall back to: among
    /// the running servers with fallback enabled, other than `excluded`, one
    /// with the highest fallback priority, the last such one on a tie.
    pub fn find_fallback_index(&self, excluded: u128) -> (r: Option<usize>)
        ensures
            r is None ==> forall|i: int|
                0 <= i < self.servers().len() ==> !fallback_eligible(
                    #[trigger] self.servers()[i],
                    excluded,
                ),
            r matches Some(k) ==> self.fallback_at(k as int, excluded),
            r matches Some(k) ==> {
                &&& k < self.servers().len()
                &&& self.servers()[k as int].uuid != excluded
                &&& self.servers()[k as int].allocation.deployment.fallback.enabled
                &&& self.servers()[k as int].state == State::Running
                &&& forall|j: int|
                    #![trigger self.servers()[j]]
                    0 <= j < self.servers().len() && self.servers()[j].uuid != excluded
                        && self.servers()[j].allocation.deployment.fallback.enabled
                        && self.servers()[j].state == State::Running
                        ==> self.servers()[j].allocation.deployment.fallback.priority
                        <= self.servers()[k as int].allocation.deployment.fallback.priority
            },
    {
        let s = &self.servers;
        let mut best: Option<usize> = None;
        let mut i: usize = 0;
        while i < s.len()
            invariant
                0 <= i <= s@.len(),
                best is None ==> forall|j: int|
                    0 <= j < i ==> !fallback_eligible(#[trigger] s@[j], excluded),
                best matches Some(b) ==> b < i && fallback_eligible(s@[b as int], excluded) && (
                forall|j: int|
                    0 <= j < i && fallback_eligible(#[trigger] s@[j], excluded)
                        ==> fallback_priority(s@[j]) <= fallback_priority(s@[b as int]) && (j > b
                        ==> fallback_priority(s@[j]) < fallback_priority(s@[b as int]))),
            decreases s@.len() - i,
        {
            let c = &s[i];
            if c.uuid != excluded && c.allocation.deployment.fallback.enabled && c.state
                == State::Running {
                match best {
                    None => {
                        best = Some(i);
                    },
                    Some(b) => {
                        if c.allocation.deployment.fallback.priority
                            >= s[b].allocation.deployment.fallback.priority {
                            best = Some(i);
                        }
                    },
                }
            }
            i = i + 1;
        }
        proof {
            if let Some(k) = best {
                law_fallback_is_highest(self.servers(), k as int, excluded);
            }
        }
        best
    }

    /// The server users leaving `excluded` fall back to: among the running
    /// servers with fallback enabled, other than `excluded`, one with the
    /// highest fallback priority, the last such one on a tie.
    pub fn find_fallback_server(&self, excluded: u128) -> (r: Option<u128>)
        ensures
            r is None ==> forall|i: int|
                0 <= i < self.servers().len() ==> !fallback_eligible(
                    #[trigger] self.servers()[i],
                    excluded,
                ),
            r matches Some(u) ==> self.is_fallback(u, excluded),
    {
        match self.find_fallback_index(excluded) {
            None => None,
            Some(k) => {
                proof {
                    assert(self.fallback_at(k as int, excluded));
                }
                Some(self.servers[k].uuid)
            },
        }
    }
}

} // verus!
