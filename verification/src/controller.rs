//! The controller: its servers, groups, users, tokens, listeners and
//! channels, and the steps that touch several of them at once.

use vstd::prelude::*;

use crate::auth::{Auth, AuthServer};
use crate::channel::Channels;
use crate::event::{alive, bound_to_gone, EventBus, RegisteredListener};
use crate::group::{group_fits, total_minimum, Group, GroupView, GroupedServer, Groups};
use crate::server::{
    uuids_apart,
    after_restart, by_priority_desc, fallback_eligible, start_taken, start_waiting, stop_due, Allocation, Server,
    Servers, StartRequest, StopRequest,
};
use crate::transfer::TransferMessage;
use crate::uuids::random_uuid;
use crate::user::{
    connected_to, id_of, on_gone, sent_away, transfer_timed_out, CurrentServer, NameAndUuid, User,
    UserManager,
};

verus! {

/// What became of a due start request offered to its nodes.
#[derive(Debug)]
pub enum Placement {
    /// A node took it: the new server's uuid, the node and the server's
    /// token.
    Started(u128, String, String),
    /// No node took it; it waits in the queue again.
    Requeued,
}

/// Of the first `nodes` answers, the one at place `k` is the first that
/// offers an allocation.
pub open spec fn first_accepting(answers: Seq<Option<Allocation>>, nodes: int, k: int) -> bool {
    &&& 0 <= k < nodes
    &&& k < answers.len()
    &&& answers[k] is Some
    &&& forall|j: int| 0 <= j < k ==> (#[trigger] answers[j]) is None
}

/// None of the first `nodes` answers offers an allocation.
pub open spec fn none_accepting(answers: Seq<Option<Allocation>>, nodes: int) -> bool {
    forall|j: int| 0 <= j < nodes && j < answers.len() ==> (#[trigger] answers[j]) is None
}


/// The time limits of the controller, in milliseconds.
#[derive(Clone, Copy, Debug, PartialEq, Eq, Structural)]
pub struct Timeouts {
    /// How long a new server has to check in for the first time.
    pub startup: u64,
    /// How long a restarted server has to check in again.
    pub restart: u64,
    /// How long a server may go between two check-ins.
    pub heartbeat: u64,
    /// How long a user may take to arrive after a transfer.
    pub transfer: u64,
    /// How long a server may stay empty.
    pub empty_server: u64,
}

/// Some due request asks to stop the server with this uuid.
pub open spec fn stopping(due: Seq<StopRequest>, uuid: u128) -> bool {
    exists|j: int| 0 <= j < due.len() && #[trigger] due[j].server == uuid
}

/// The ids that the stopped servers of the group with this name had there.
pub open spec fn released_ids(stopped: Seq<Server>, name: Seq<char>) -> Set<usize> {
    Set::new(
        |id: usize|
            exists|k: int|
                0 <= k < stopped.len() && (#[trigger] stopped[k].group matches Some(g) && g.group@
                    == name && g.server_id == id),
    )
}

/// The member is one of the stopped servers, under the group with this
/// name.
pub open spec fn stopped_member(stopped: Seq<Server>, name: Seq<char>, m: GroupedServer) -> bool {
    m matches GroupedServer::Active(u) && exists|j: int|
        0 <= j < stopped.len() && stopped[j].uuid == u && (#[trigger] stopped[j].group matches Some(g)
            && g.group@ == name)
}

/// `g1` is the group `g0` once the stopped servers have left it.
pub open spec fn group_after_stops(g0: GroupView, g1: GroupView, stopped: Seq<Server>) -> bool {
    &&& g1.members == g0.members.filter(|m: GroupedServer| !stopped_member(stopped, g0.name, m))
    &&& g1.name == g0.name
    &&& g1.nodes == g0.nodes
    &&& g1.scaling == g0.scaling
    &&& g1.rule == g0.rule
    &&& g1.resources == g0.resources
    &&& g1.deployment == g0.deployment
    &&& g1.ids.next() == g0.ids.next()
    &&& g1.ids.active() == g0.ids.active().difference(released_ids(stopped, g0.name))
    &&& g1.ids.available().to_set() == g0.ids.available().to_set().union(
        released_ids(stopped, g0.name).intersect(g0.ids.active()),
    )
}

/// The ids released by two runs of stops are those of either.
proof fn lemma_released_append(st: Seq<Server>, rm: Seq<Server>, name: Seq<char>)
    ensures
        released_ids(st + rm, name) == released_ids(st, name).union(released_ids(rm, name)),
        !named_by(rm, name) ==> released_ids(rm, name) == Set::<usize>::empty(),
{
    let s2 = st + rm;
    assert forall|id: usize| #[trigger] released_ids(s2, name).contains(id) <==> released_ids(
        st,
        name,
    ).contains(id) || released_ids(rm, name).contains(id) by {
        if released_ids(s2, name).contains(id) {
            let j = choose|j: int|
                0 <= j < s2.len() && (#[trigger] s2[j].group matches Some(g) && g.group@ == name
                    && g.server_id == id);
            if j < st.len() {
                assert(st[j] == s2[j]);
            } else {
                assert(rm[j - st.len()] == s2[j]);
            }
        }
        if released_ids(st, name).contains(id) {
            let j = choose|j: int|
                0 <= j < st.len() && (#[trigger] st[j].group matches Some(g) && g.group@ == name
                    && g.server_id == id);
            assert(s2[j] == st[j]);
        }
        if released_ids(rm, name).contains(id) {
            let j = choose|j: int|
                0 <= j < rm.len() && (#[trigger] rm[j].group matches Some(g) && g.group@ == name
                    && g.server_id == id);
            assert(s2[st.len() + j] == rm[j]);
        }
    }
    assert(released_ids(s2, name) =~= released_ids(st, name).union(released_ids(rm, name)));
    if !named_by(rm, name) {
        assert forall|id: usize| !(#[trigger] released_ids(rm, name).contains(id)) by {
            if released_ids(rm, name).contains(id) {
                let j = choose|j: int|
                    0 <= j < rm.len() && (#[trigger] rm[j].group matches Some(g) && g.group@
                        == name && g.server_id == id);
                assert(named_by(rm, name));
            }
        }
        assert(released_ids(rm, name) =~= Set::<usize>::empty());
    }
}

/// Stopping more servers, all with the uuid `x`: a member is a stopped one
/// when it was before, or it is `x` and one of the new ones belonged to
/// the group.
proof fn lemma_stopped_member_append(
    st: Seq<Server>,
    removed: Seq<Server>,
    x: u128,
    name: Seq<char>,
    m: GroupedServer,
)
    requires
        forall|j: int| 0 <= j < removed.len() ==> #[trigger] removed[j].uuid == x,
    ensures
        stopped_member(st + removed, name, m) <==> stopped_member(st, name, m) || (m
            == GroupedServer::Active(x) && named_by(removed, name)),
{
    let s2 = st + removed;
    if let GroupedServer::Active(u) = m {
        if stopped_member(s2, name, m) {
            let j = choose|j: int|
                0 <= j < s2.len() && s2[j].uuid == u && (#[trigger] s2[j].group matches Some(g)
                    && g.group@ == name);
            if j < st.len() {
                assert(st[j] == s2[j]);
            } else {
                assert(removed[j - st.len()] == s2[j]);
            }
        }
        if stopped_member(st, name, m) {
            let j = choose|j: int|
                0 <= j < st.len() && st[j].uuid == u && (#[trigger] st[j].group matches Some(g)
                    && g.group@ == name);
            assert(s2[j] == st[j]);
        }
        if m == GroupedServer::Active(x) && named_by(removed, name) {
            let q = choose|q: int|
                0 <= q < removed.len() && (#[trigger] removed[q].group matches Some(g) && g.group@
                    == name);
            assert(s2[st.len() + q] == removed[q]);
        }
    }
}

/// Some stopped server belonged to the group with this name.
pub open spec fn named_by(stopped: Seq<Server>, name: Seq<char>) -> bool {
    exists|k: int| 0 <= k < stopped.len() && (#[trigger] stopped[k].group matches Some(g) && g.group@ == name)
}

/// What a tick did: the servers restarted because they missed their
/// check-in, the servers stopped, and the start requests that are due, the
/// highest priority first, for nodes to be found for them.
#[derive(Debug)]
pub struct TickResult {
    pub restarted: Vec<u128>,
    pub stopped: Vec<Server>,
    pub starts: Vec<StartRequest>,
}

/// The state of the controller.
pub struct Controller {
    pub timeouts: Timeouts,
    pub servers: Servers,
    pub groups: Groups,
    pub users: UserManager,
    pub auth: Auth,
    pub events: EventBus,
    pub channels: Channels,
}

impl Controller {
    pub open spec fn wf(&self) -> bool {
        &&& uuids_apart(self.servers.servers())
        &&& self.groups.wf()
        &&& self.users.wf()
        &&& self.auth.wf()
        &&& self.channels.wf()
    }

    /// A controller with the given groups and users, and nothing running.
    pub fn new(timeouts: Timeouts, groups: Groups, auth: Auth) -> (r: Self)
        requires
            groups.wf(),
            auth.wf(),
        ensures
            r.wf(),
            r.timeouts == timeouts,
            r.groups == groups,
            r.auth == auth,
            r.servers.servers() == Seq::<Server>::empty(),
            r.servers.start_queue() == Seq::<StartRequest>::empty(),
            r.users.users() == Seq::<User>::empty(),
            r.events.listeners() == Seq::<RegisteredListener>::empty(),
    {
        Controller {
            timeouts,
            servers: Servers::new(),
            groups,
            users: UserManager::init(),
            auth,
            events: EventBus::new(),
            channels: Channels::new(),
        }
    }

    /// Stops the server at once: it leaves the servers, its group, the
    /// tokens, the users on it leave, and the listeners bound to it (or to a
    /// server that is gone) are dropped. The servers that were removed are
    /// returned, for their nodes to let them go.
    pub fn stop_server(&mut self, uuid: u128) -> (stopped: Vec<Server>)
        requires
            old(self).wf(),
            old(self).users.users().len() <= u32::MAX,
        ensures
            final(self).wf(),
            stopped@ == old(self).servers.servers().filter(|s: Server| s.uuid == uuid),
            final(self).servers.servers() == old(self).servers.servers().filter(
                |s: Server| s.uuid != uuid,
            ),
            final(self).servers.start_queue() == old(self).servers.start_queue(),
            final(self).servers.stop_queue() == old(self).servers.stop_queue(),
            final(self).servers.next_request_id() == old(self).servers.next_request_id(),
            final(self).auth.servers() == old(self).auth.servers().filter(
                |a: AuthServer| a.server != uuid,
            ),
            final(self).auth.users() == old(self).auth.users(),
            final(self).users.users() == old(self).users.users().filter(
                |u: User| !on_gone(u, final(self).servers.servers()),
            ),
            final(self).events.listeners() == old(self).events.listeners().filter(
                |l: RegisteredListener| !bound_to_gone(l, uuid, final(self).servers.servers()),
            ),
            final(self).events.next_id() == old(self).events.next_id(),
            final(self).groups.groups().len() == old(self).groups.groups().len(),
            forall|i: int|
                #![trigger final(self).groups.groups()[i]]
                0 <= i < old(self).groups.groups().len() ==> if named_by(
                    stopped@,
                    old(self).groups.groups()[i]@.name,
                ) {
                    &&& final(self).groups.groups()[i]@.members == old(self).groups.groups()[i]@.members.filter(
                        |m: GroupedServer| m != GroupedServer::Active(uuid),
                    )
                    &&& final(self).groups.groups()[i]@.name == old(self).groups.groups()[i]@.name
                    &&& final(self).groups.groups()[i]@.nodes == old(self).groups.groups()[i]@.nodes
                    &&& final(self).groups.groups()[i]@.scaling == old(self).groups.groups()[i]@.scaling
                    &&& final(self).groups.groups()[i]@.rule == old(self).groups.groups()[i]@.rule
                    &&& final(self).groups.groups()[i]@.resources == old(self).groups.groups()[i]@.resources
                    &&& final(self).groups.groups()[i]@.deployment == old(self).groups.groups()[i]@.deployment
                    &&& final(self).groups.groups()[i]@.ids.next() == old(self).groups.groups()[i]@.ids.next()
                    &&& final(self).groups.groups()[i]@.ids.active() == old(self).groups.groups()[i]@.ids.active().difference(
                        released_ids(stopped@, old(self).groups.groups()[i]@.name),
                    )
                    &&& final(self).groups.groups()[i]@.ids.available().to_set() == old(self).groups.groups()[i]@.ids.available().to_set().union(
                        released_ids(stopped@, old(self).groups.groups()[i]@.name).intersect(
                            old(self).groups.groups()[i]@.ids.active(),
                        ),
                    )
                } else {
                    final(self).groups.groups()[i] == old(self).groups.groups()[i]
                },
            final(self).channels == old(self).channels,
            final(self).timeouts == old(self).timeouts,
    {
        let removed = self.servers.remove_server(uuid);
        proof {
            crate::server::lemma_apart_filter(old(self).servers.servers(), |s: Server| s.uuid != uuid);
        }
        let ghost mid = *self;
        let ghost g0 = self.groups.groups();
        let ghost not_it = |m: GroupedServer| m != GroupedServer::Active(uuid);
        let mut k: usize = 0;
        while k < removed.len()
            invariant
                self.groups.wf(),
                self.servers == mid.servers,
                self.auth == mid.auth,
                self.users == mid.users,
                self.events == mid.events,
                self.channels == mid.channels,
                self.timeouts == mid.timeouts,
                mid.wf(),
                mid.users.users().len() <= u32::MAX,
                0 <= k <= removed@.len(),
                not_it == (|m: GroupedServer| m != GroupedServer::Active(uuid)),
                self.groups.groups().len() == g0.len(),
                forall|i: int|
                    #![trigger self.groups.groups()[i]]
                    0 <= i < g0.len() ==> if named_by(removed@.take(k as int), g0[i]@.name) {
                        &&& self.groups.groups()[i]@.members == g0[i]@.members.filter(
                            not_it,
                        )
                        &&& self.groups.groups()[i]@.name == g0[i]@.name
                        &&& self.groups.groups()[i]@.nodes == g0[i]@.nodes
                        &&& self.groups.groups()[i]@.scaling == g0[i]@.scaling
                        &&& self.groups.groups()[i]@.rule == g0[i]@.rule
                        &&& self.groups.groups()[i]@.resources == g0[i]@.resources
                        &&& self.groups.groups()[i]@.deployment == g0[i]@.deployment
                        &&& self.groups.groups()[i]@.ids.next() == g0[i]@.ids.next()
                        &&& self.groups.groups()[i]@.ids.active() == g0[i]@.ids.active().difference(
                            released_ids(removed@.take(k as int), g0[i]@.name),
                        )
                        &&& self.groups.groups()[i]@.ids.available().to_set() == g0[i]@.ids.available().to_set().union(
                            released_ids(removed@.take(k as int), g0[i]@.name).intersect(g0[i]@.ids.active()),
                        )
                    } else {
                        self.groups.groups()[i] == g0[i]
                    },
            decreases removed@.len() - k,
        {
            let ghost g1 = self.groups.groups();
            let ghost touched: Option<Seq<char>> = match removed@[k as int].group {
                Some(info) => Some(info.group@),
                None => None,
            };
            match &removed[k] {
                Server { group: Some(info), .. } => {
                    self.groups.remove_group_server(info.group.as_str(), uuid, info.server_id);
                },
                _ => {},
            }
            proof {
                assert forall|i: int| #![trigger self.groups.groups()[i]] 0 <= i < g0.len() implies if named_by(
                    removed@.take(k + 1),
                    g0[i]@.name,
                ) {
                    &&& self.groups.groups()[i]@.members == g0[i]@.members.filter(
                        not_it,
                    )
                    &&& self.groups.groups()[i]@.name == g0[i]@.name
                    &&& self.groups.groups()[i]@.nodes == g0[i]@.nodes
                    &&& self.groups.groups()[i]@.scaling == g0[i]@.scaling
                    &&& self.groups.groups()[i]@.rule == g0[i]@.rule
                    &&& self.groups.groups()[i]@.resources == g0[i]@.resources
                    &&& self.groups.groups()[i]@.deployment == g0[i]@.deployment
                    &&& self.groups.groups()[i]@.ids.next() == g0[i]@.ids.next()
                    &&& self.groups.groups()[i]@.ids.active() == g0[i]@.ids.active().difference(
                        released_ids(removed@.take(k + 1), g0[i]@.name),
                    )
                    &&& self.groups.groups()[i]@.ids.available().to_set() == g0[i]@.ids.available().to_set().union(
                        released_ids(removed@.take(k + 1), g0[i]@.name).intersect(g0[i]@.ids.active()),
                    )
                } else {
                    self.groups.groups()[i] == g0[i]
                } by {
                    let t0 = removed@.take(k as int);
                    let t1 = removed@.take(k + 1);
                    assert(t1 =~= t0.push(removed@[k as int]));
                    let name = g0[i]@.name;
                    let here = touched == Some(name);
                    assert(g1[i]@.members == g1[i]@.members);
                    assert(self.groups.groups()[i]@.members == self.groups.groups()[i]@.members);
                    let before_named = named_by(t0, name);
                    if before_named {
                        assert(g1[i]@.name == name);
                    } else {
                        assert(g1[i] == g0[i]);
                    }
                    match touched {
                        Some(nm) => {
                            if nm == name {
                                assert(self.groups.groups()[i]@.members == g1[i]@.members.filter(not_it));
                            } else {
                                assert(self.groups.groups()[i] == g1[i]);
                            }
                        },
                        None => {
                            assert(self.groups.groups() == g1);
                        },
                    }
                    if before_named {
                        let q = choose|q: int|
                            0 <= q < t0.len() && (#[trigger] t0[q].group matches Some(g) && g.group@ == name);
                        assert(t1[q] == t0[q]);
                        if here {
                            crate::facts::lemma_filter_filter(g0[i]@.members, not_it, not_it);
                            assert((|x: GroupedServer| not_it(x) && not_it(x)) =~= not_it);
                        }
                    } else if here {
                        assert(t1[k as int] == removed@[k as int]);
                        assert(named_by(t1, name));
                    } else {
                        if named_by(t1, name) {
                            let q = choose|q: int|
                                0 <= q < t1.len() && (#[trigger] t1[q].group matches Some(g)
                                    && g.group@ == name);
                            if q < k {
                                assert(t0[q] == t1[q]);
                            }
                        }
                    }
                    let r0 = released_ids(t0, name);
                    let r1 = released_ids(t1, name);
                    assert forall|id: usize| r0.contains(id) implies #[trigger] r1.contains(id) by {
                        let q = choose|q: int|
                            0 <= q < t0.len() && (#[trigger] t0[q].group matches Some(g) && g.group@
                                == name && g.server_id == id);
                        assert(t1[q] == t0[q]);
                    }
                    if here {
                        let id = removed@[k as int].group->0.server_id;
                        assert(t1[k as int] == removed@[k as int]);
                        assert forall|x: usize| #[trigger] r1.contains(x) <==> r0.contains(x) || x == id by {
                            if r1.contains(x) {
                                let q = choose|q: int|
                                    0 <= q < t1.len() && (#[trigger] t1[q].group matches Some(g)
                                        && g.group@ == name && g.server_id == x);
                                if q < k {
                                    assert(t0[q] == t1[q]);
                                }
                            }
                        }
                        assert(r1 =~= r0.insert(id));
                        let a0 = g0[i]@.ids.active();
                        let v0 = g0[i]@.ids.available().to_set();
                        let a1 = g1[i]@.ids.active();
                        let v1 = g1[i]@.ids.available().to_set();
                        if !before_named {
                            assert forall|x: usize| !(#[trigger] r0.contains(x)) by {
                                if r0.contains(x) {
                                    let q = choose|q: int|
                                        0 <= q < t0.len() && (#[trigger] t0[q].group matches Some(g)
                                            && g.group@ == name && g.server_id == x);
                                    assert(named_by(t0, name));
                                }
                            }
                            assert(g1[i] == g0[i]);
                            assert(a0.difference(r0) =~= a0);
                            assert(v0.union(r0.intersect(a0)) =~= v0);
                        }
                        assert(a1 == a0.difference(r0));
                        assert(v1 == v0.union(r0.intersect(a0)));
                        if a1.contains(id) {
                            assert(a0.difference(r1) =~= a1.remove(id));
                            assert(v0.union(r1.intersect(a0)) =~= v1.insert(id));
                            assert(self.groups.groups()[i]@.ids.available().to_set() == v1.insert(id));
                        } else {
                            assert(a0.difference(r1) =~= a1);
                            assert(v0.union(r1.intersect(a0)) =~= v1);
                            assert(self.groups.groups()[i]@.ids.available().to_set() == v1);
                        }
                    } else {
                        assert forall|x: usize| #[trigger] r1.contains(x) implies r0.contains(x) by {
                            let q = choose|q: int|
                                0 <= q < t1.len() && (#[trigger] t1[q].group matches Some(g)
                                    && g.group@ == name && g.server_id == x);
                            if q < k {
                                assert(t0[q] == t1[q]);
                            } else {
                                assert(t1[q] == removed@[k as int]);
                            }
                        }
                        assert(r1 =~= r0);
                        if before_named {
                            assert(self.groups.groups()[i] == g1[i]);
                            assert(g1[i]@.ids.available().to_set() == g0[i]@.ids.available().to_set().union(
                                r0.intersect(g0[i]@.ids.active())));
                        }
                    }
                }
            }
            k = k + 1;
        }
        proof {
            assert(removed@.take(removed@.len() as int) =~= removed@);
        }
        self.auth.unregister_server(uuid);
        self.users.cleanup_users(&self.servers);
        self.events.cleanup_server(uuid, &self.servers);
        removed
    }

    /// `c1` is `c0` after every user connected to `server` was sent, as of
    /// `now`, to the server users fall back to from it, and `moved` is what
    /// the server the users leave is told, one message per user, in order.
    /// Nobody moves when there is no such server or it has no address.
    pub open spec fn all_sent(
        c0: Controller,
        c1: Controller,
        server: u128,
        now: u64,
        moved: Seq<TransferMessage>,
    ) -> bool {
        &&& c1.servers == c0.servers
        &&& c1.groups == c0.groups
        &&& c1.auth == c0.auth
        &&& c1.events == c0.events
        &&& c1.channels == c0.channels
        &&& c1.timeouts == c0.timeouts
        &&& (forall|i: int|
            0 <= i < c0.servers.servers().len() ==> !fallback_eligible(
                #[trigger] c0.servers.servers()[i],
                server,
            )) ==> moved.len() == 0 && c1.users.users() == c0.users.users()
        &&& forall|k: int|
            #[trigger] c0.servers.fallback_at(k, server) ==> {
                let t = c0.servers.servers()[k];
                if t.allocation.addresses@.len() == 0 {
                    moved.len() == 0 && c1.users.users() == c0.users.users()
                } else {
                    &&& c1.users.users() == c0.users.users().map_values(
                        |u: User| sent_away(u, server, id_of(t), now),
                    )
                    &&& moved == c0.users.users().filter(|u: User| connected_to(u, server)).map_values(
                        |u: User|
                            TransferMessage {
                                user: u.id.uuid,
                                host: t.allocation.addresses@[0].host,
                                port: t.allocation.addresses@[0].port,
                            },
                    )
                }
            }
    }

    /// Sends every user connected to `server` to the server users fall back
    /// to from it, as of `now`. Nobody moves when there is no such server or
    /// it has no address. Returns what the server the users leave is told,
    /// one message per user, in order.
    pub fn transfer_all_users(&mut self, server: u128, now: u64) -> (moved: Vec<TransferMessage>)
        requires
            old(self).wf(),
        ensures
            final(self).wf(),
            Self::all_sent(*old(self), *final(self), server, now, moved@),
    {
        let k = match self.servers.find_fallback_index(server) {
            Some(k) => k,
            None => {
                return Vec::new();
            },
        };
        proof {
            assert forall|k2: int| #[trigger] old(self).servers.fallback_at(k2, server) implies k2
                == k by {
                old(self).servers.lemma_fallback_unique(k2, k as int, server);
            }
        }
        let target = self.servers.get_servers();
        let to = NameAndUuid { name: target[k].name.clone(), uuid: target[k].uuid };
        let (host, port) = match target[k].allocation.primary_address() {
            Some(a) => (a.host.clone(), a.port),
            None => {
                return Vec::new();
            },
        };
        let ghost t = self.servers.servers()[k as int];
        let ghost on = |u: User| connected_to(u, server);
        let ghost before = self.users.users();
        let uuids = self.users.send_away_all(server, &to, now);
        let mut moved: Vec<TransferMessage> = Vec::new();
        let mut i: usize = 0;
        while i < uuids.len()
            invariant
                0 <= i <= uuids@.len(),
                moved@.len() == i,
                forall|j: int|
                    0 <= j < i ==> #[trigger] moved@[j] == (TransferMessage {
                        user: uuids@[j],
                        host: host,
                        port: port,
                    }),
            decreases uuids@.len() - i,
        {
            moved.push(TransferMessage { user: uuids[i], host: host.clone(), port });
            i = i + 1;
        }
        proof {
            assert(to == id_of(t));
            assert(moved@ =~= before.filter(on).map_values(
                |u: User|
                    TransferMessage {
                        user: u.id.uuid,
                        host: t.allocation.addresses@[0].host,
                        port: t.allocation.addresses@[0].port,
                    },
            ));
        }
        moved
    }

    /// Once all users are sent away from a server that has somewhere to
    /// send them, no user is connected to it, and the server users fall
    /// back to is never the one they leave.
    pub proof fn law_all_users_leave(
        c0: Controller,
        c1: Controller,
        server: u128,
        now: u64,
        moved: Seq<TransferMessage>,
        k: int,
    )
        requires
            Self::all_sent(c0, c1, server, now, moved),
            c0.servers.fallback_at(k, server),
            c0.servers.servers()[k].allocation.addresses@.len() > 0,
        ensures
            c0.servers.servers()[k].uuid != server,
            forall|i: int|
                0 <= i < c1.users.users().len() ==> !connected_to(#[trigger] c1.users.users()[i], server),
    {
        let t = c0.servers.servers()[k];
        assert forall|i: int| 0 <= i < c1.users.users().len() implies !connected_to(
            #[trigger] c1.users.users()[i],
            server,
        ) by {
            assert(c1.users.users()[i] == sent_away(c0.users.users()[i], server, id_of(t), now));
        }
    }

    /// A stopped server leaves no trace: no server with its uuid runs, no
    /// token names it, no user is connected to it, and no listener is bound
    /// to it or to any other server that is gone.
    pub proof fn law_stopped_server_leaves_no_trace(c0: Controller, c1: Controller, uuid: u128)
        requires
            c1.servers.servers() == c0.servers.servers().filter(|s: Server| s.uuid != uuid),
            c1.auth.servers() == c0.auth.servers().filter(|a: AuthServer| a.server != uuid),
            c1.users.users() == c0.users.users().filter(|u: User| !on_gone(u, c1.servers.servers())),
            c1.events.listeners() == c0.events.listeners().filter(
                |l: RegisteredListener| !bound_to_gone(l, uuid, c1.servers.servers()),
            ),
        ensures
            !alive(c1.servers.servers(), uuid),
            forall|k: int| 0 <= k < c1.auth.servers().len() ==> #[trigger] c1.auth.servers()[k].server
                != uuid,
            forall|i: int|
                0 <= i < c1.users.users().len() ==> !connected_to(#[trigger] c1.users.users()[i], uuid),
            forall|i: int|
                0 <= i < c1.events.listeners().len() ==> match #[trigger] c1.events.listeners()[i].server {
                    Some(s) => s != uuid && alive(c1.servers.servers(), s),
                    None => true,
                },
    {
        assert forall|i: int| 0 <= i < c1.servers.servers().len() implies #[trigger]
            c1.servers.servers()[i].uuid != uuid by {
            c0.servers.servers().lemma_filter_pred(|s: Server| s.uuid != uuid, i);
        }
        assert forall|k: int| 0 <= k < c1.auth.servers().len() implies #[trigger]
            c1.auth.servers()[k].server != uuid by {
            c0.auth.servers().lemma_filter_pred(|a: AuthServer| a.server != uuid, k);
        }
        assert forall|i: int| 0 <= i < c1.users.users().len() implies !connected_to(
            #[trigger] c1.users.users()[i],
            uuid,
        ) by {
            c0.users.users().lemma_filter_pred(|u: User| !on_gone(u, c1.servers.servers()), i);
        }
        assert forall|i: int| 0 <= i < c1.events.listeners().len() implies match #[trigger]
            c1.events.listeners()[i].server {
            Some(s) => s != uuid && alive(c1.servers.servers(), s),
            None => true,
        } by {
            c0.events.listeners().lemma_filter_pred(
                |l: RegisteredListener| !bound_to_gone(l, uuid, c1.servers.servers()),
                i,
            );
        }
    }

    /// `c1` is `c0` after the stop requests due at `now` were carried out,
    /// in the order they were made, each as `stop_server` does; `stopped`
    /// are the servers removed.
    pub open spec fn stops_done(c0: Controller, c1: Controller, now: u64, stopped: Seq<Server>) -> bool {
        let due = c0.servers.stop_queue().filter(|r: StopRequest| stop_due(r, now));
        &&& c1.wf()
        &&& c1.servers.stop_queue() == c0.servers.stop_queue().filter(
            |r: StopRequest| !stop_due(r, now),
        )
        &&& c1.servers.servers() == c0.servers.servers().filter(|s: Server| !stopping(due, s.uuid))
        &&& c1.auth.servers() == c0.auth.servers().filter(|a: AuthServer| !stopping(due, a.server))
        &&& c1.users.users() == if due.len() == 0 {
            c0.users.users()
        } else {
            c0.users.users().filter(|u: User| !on_gone(u, c1.servers.servers()))
        }
        &&& forall|i: int|
            0 <= i < c1.events.listeners().len() ==> match #[trigger] c1.events.listeners()[i].server {
                Some(s) => !stopping(due, s),
                None => true,
            }
        &&& forall|x: Server|
            #[trigger] stopped.contains(x) <==> c0.servers.servers().contains(x) && stopping(
                due,
                x.uuid,
            )
        &&& c1.servers.start_queue() == c0.servers.start_queue()
        &&& c1.servers.next_request_id() == c0.servers.next_request_id()
        &&& c1.auth.users() == c0.auth.users()
        &&& c1.groups.groups().len() == c0.groups.groups().len()
        &&& forall|i: int|
            0 <= i < c0.groups.groups().len() ==> group_after_stops(
                c0.groups.groups()[i]@,
                (#[trigger] c1.groups.groups()[i])@,
                stopped,
            )
        &&& c1.channels == c0.channels
        &&& c1.timeouts == c0.timeouts
    }

    /// Carries out the stop requests that are due at `now`, in the order
    /// they were made: each server asked for is stopped as `stop_server`
    /// does. The requests that are not due stay queued. Returns the servers
    /// that were removed, for their nodes to let them go.
    pub fn process_stops(&mut self, now: u64) -> (stopped: Vec<Server>)
        requires
            old(self).wf(),
            old(self).users.users().len() <= u32::MAX,
        ensures
            Self::stops_done(*old(self), *final(self), now, stopped@),
    {
        let due = self.servers.take_due_stops(now);
        let ghost c0 = *old(self);
        let ghost d = due@;
        let mut stopped: Vec<Server> = Vec::new();
        let mut k: usize = 0;
        proof {
            assert(d.take(0) =~= Seq::<StopRequest>::empty());
            assert(c0.servers.servers().filter(|s: Server| !stopping(d.take(0), s.uuid)) =~= c0.servers.servers()) by {
                crate::facts::lemma_filter_all(c0.servers.servers(), |s: Server| !stopping(d.take(0), s.uuid));
            }
            assert forall|i: int| 0 <= i < c0.groups.groups().len() implies group_after_stops(
                c0.groups.groups()[i]@,
                (#[trigger] c0.groups.groups()[i])@,
                stopped@,
            ) by {
                let g = c0.groups.groups()[i]@;
                crate::facts::lemma_filter_all(
                    g.members,
                    |m: GroupedServer| !stopped_member(stopped@, g.name, m),
                );
                assert(released_ids(stopped@, g.name) =~= Set::<usize>::empty());
                assert(g.ids.active().difference(released_ids(stopped@, g.name)) =~= g.ids.active());
                assert(g.ids.available().to_set().union(
                    released_ids(stopped@, g.name).intersect(g.ids.active()),
                ) =~= g.ids.available().to_set());
            }
            assert(c0.auth.servers().filter(|a: AuthServer| !stopping(d.take(0), a.server)) =~= c0.auth.servers()) by {
                crate::facts::lemma_filter_all(c0.auth.servers(), |a: AuthServer| !stopping(d.take(0), a.server));
            }
        }
        while k < due.len()
            invariant
                self.wf(),
                0 <= k <= d.len(),
                d == due@,
                d == c0.servers.stop_queue().filter(|r: StopRequest| stop_due(r, now)),
                self.servers.stop_queue() == c0.servers.stop_queue().filter(
                    |r: StopRequest| !stop_due(r, now),
                ),
                self.servers.servers() == c0.servers.servers().filter(
                    |s: Server| !stopping(d.take(k as int), s.uuid),
                ),
                self.auth.servers() == c0.auth.servers().filter(
                    |a: AuthServer| !stopping(d.take(k as int), a.server),
                ),
                self.users.users() == if k == 0 {
                    c0.users.users()
                } else {
                    c0.users.users().filter(|u: User| !on_gone(u, self.servers.servers()))
                },
                self.users.users().len() <= c0.users.users().len(),
                c0.users.users().len() <= u32::MAX,
                forall|i: int|
                    0 <= i < self.events.listeners().len() ==> match #[trigger] self.events.listeners()[i].server {
                        Some(s) => !stopping(d.take(k as int), s),
                        None => true,
                    },
                forall|x: Server|
                    #[trigger] stopped@.contains(x) <==> c0.servers.servers().contains(x)
                        && stopping(d.take(k as int), x.uuid),
                self.servers.start_queue() == c0.servers.start_queue(),
                self.servers.next_request_id() == c0.servers.next_request_id(),
                self.auth.users() == c0.auth.users(),
                self.groups.groups().len() == c0.groups.groups().len(),
                forall|i: int|
                    0 <= i < c0.groups.groups().len() ==> group_after_stops(
                        c0.groups.groups()[i]@,
                        (#[trigger] self.groups.groups()[i])@,
                        stopped@,
                    ),
                self.channels == c0.channels,
                self.timeouts == c0.timeouts,
            decreases d.len() - k,
        {
            let x = due[k].server;
            let ghost before = *self;
            let ghost dk = d.take(k as int);
            let ghost dk1 = d.take(k + 1);
            proof {
                assert(dk1 =~= dk.push(d[k as int]));
                crate::facts::lemma_filter_len_le(c0.users.users(), |u: User| !on_gone(u, before.servers.servers()));
            }
            let mut removed = self.stop_server(x);
            proof {
                broadcast use vstd::seq_lib::group_filter_ensures;

                assert forall|y: u128| stopping(dk1, y) <==> stopping(dk, y) || y == x by {
                    if stopping(dk1, y) {
                        let j = choose|j: int| 0 <= j < dk1.len() && dk1[j].server == y;
                        if j < k {
                            assert(dk[j] == dk1[j]);
                        }
                    }
                    if stopping(dk, y) {
                        let j = choose|j: int| 0 <= j < dk.len() && dk[j].server == y;
                        assert(dk1[j] == dk[j]);
                    }
                    if y == x {
                        assert(dk1[k as int].server == x);
                    }
                }
                let ps0 = |s: Server| !stopping(dk, s.uuid);
                let ps1 = |s: Server| s.uuid != x;
                crate::facts::lemma_filter_filter(c0.servers.servers(), ps0, ps1);
                assert((|s: Server| ps0(s) && ps1(s)) =~= (|s: Server| !stopping(dk1, s.uuid)));
                let pa0 = |a: AuthServer| !stopping(dk, a.server);
                let pa1 = |a: AuthServer| a.server != x;
                crate::facts::lemma_filter_filter(c0.auth.servers(), pa0, pa1);
                assert((|a: AuthServer| pa0(a) && pa1(a)) =~= (|a: AuthServer| !stopping(dk1, a.server)));
                let pu1 = |u: User| !on_gone(u, self.servers.servers());
                if k > 0 {
                    let pu0 = |u: User| !on_gone(u, before.servers.servers());
                    crate::facts::lemma_filter_filter(c0.users.users(), pu0, pu1);
                    assert forall|u: User| #[trigger] pu1(u) implies pu0(u) by {
                        if let CurrentServer::Connected(c) = u.server {
                            if alive(self.servers.servers(), c.uuid) {
                                let j = choose|j: int| 0 <= j < self.servers.servers().len()
                                    && self.servers.servers()[j].uuid == c.uuid;
                                let y = self.servers.servers()[j];
                                assert(self.servers.servers().contains(y));
                                crate::facts::lemma_filter_contains_iff(
                                    before.servers.servers(),
                                    |s: Server| s.uuid != x,
                                    y,
                                );
                            }
                        }
                    }
                    assert((|u: User| pu0(u) && pu1(u)) =~= pu1);
                }
                crate::facts::lemma_filter_len_le(before.users.users(), pu1);
                assert forall|i: int|
                    0 <= i < self.events.listeners().len() implies match #[trigger] self.events.listeners()[i].server {
                        Some(s) => !stopping(dk1, s),
                        None => true,
                    } by {
                    let l = self.events.listeners()[i];
                    let pl = |l: RegisteredListener| !bound_to_gone(l, x, self.servers.servers());
                    before.events.listeners().lemma_filter_pred(pl, i);
                    assert(before.events.listeners().filter(pl).contains(l));
                    before.events.listeners().lemma_filter_contains_rev(pl, l);
                    let m = choose|m: int| 0 <= m < before.events.listeners().len() && before.events.listeners()[m] == l;
                    assert(match before.events.listeners()[m].server {
                        Some(s) => !stopping(dk, s),
                        None => true,
                    });
                }
            }
            let ghost st = stopped@;
            let ghost rm = removed@;
            stopped.append(&mut removed);
            proof {
                assert(stopped@ =~= st + rm);
                assert forall|j: int| 0 <= j < rm.len() implies #[trigger] rm[j].uuid == x by {
                    before.servers.servers().lemma_filter_pred(|s: Server| s.uuid == x, j);
                }
                assert forall|i: int| 0 <= i < c0.groups.groups().len() implies group_after_stops(
                    c0.groups.groups()[i]@,
                    (#[trigger] self.groups.groups()[i])@,
                    stopped@,
                ) by {
                    let g0 = c0.groups.groups()[i]@;
                    let gp = before.groups.groups()[i]@;
                    let gn = self.groups.groups()[i]@;
                    let p0 = |m: GroupedServer| !stopped_member(st, g0.name, m);
                    let p1 = |m: GroupedServer| !stopped_member(stopped@, g0.name, m);
                    let not_it = |m: GroupedServer| m != GroupedServer::Active(x);
                    assert(group_after_stops(g0, gp, st));
                    assert forall|m: GroupedServer| #[trigger] p1(m) == (p0(m) && (named_by(
                        rm,
                        g0.name,
                    ) ==> not_it(m))) by {
                        lemma_stopped_member_append(st, rm, x, g0.name, m);
                    }
                    if named_by(rm, g0.name) {
                        crate::facts::lemma_filter_filter(g0.members, p0, not_it);
                        assert((|m: GroupedServer| p0(m) && not_it(m)) =~= p1);
                    } else {
                        assert(p0 =~= p1);
                    }
                    lemma_released_append(st, rm, g0.name);
                    let r0 = released_ids(st, g0.name);
                    let rr = released_ids(rm, g0.name);
                    let a0 = g0.ids.active();
                    let v0 = g0.ids.available().to_set();
                    if named_by(rm, g0.name) {
                        assert(a0.difference(r0).difference(rr) =~= a0.difference(r0.union(rr)));
                        assert(v0.union(r0.intersect(a0)).union(rr.intersect(a0.difference(r0)))
                            =~= v0.union(r0.union(rr).intersect(a0)));
                    } else {
                        assert(r0.union(rr) =~= r0);
                    }
                }
                assert forall|y: Server| #[trigger] stopped@.contains(y) <==> c0.servers.servers().contains(y)
                    && stopping(dk1, y.uuid) by {
                    let rm = before.servers.servers().filter(|s: Server| s.uuid == x);
                    assert(stopped@ =~= st + rm);
                    crate::facts::lemma_filter_contains_iff(before.servers.servers(), |s: Server| s.uuid == x, y);
                    crate::facts::lemma_filter_contains_iff(c0.servers.servers(), |s: Server| !stopping(dk, s.uuid), y);
                    if stopped@.contains(y) {
                        let j = choose|j: int| 0 <= j < stopped@.len() && stopped@[j] == y;
                        if j >= st.len() {
                            assert(rm[j - st.len()] == y);
                            assert(rm.contains(y));
                        } else {
                            assert(st[j] == y);
                            assert(st.contains(y));
                        }
                    }
                    if c0.servers.servers().contains(y) && stopping(dk1, y.uuid) {
                        if stopping(dk, y.uuid) {
                            assert(st.contains(y));
                            let j = choose|j: int| 0 <= j < st.len() && st[j] == y;
                            assert(stopped@[j] == y);
                        } else {
                            assert(rm.contains(y));
                            let j = choose|j: int| 0 <= j < rm.len() && rm[j] == y;
                            assert(stopped@[st.len() + j] == y);
                        }
                    }
                }
            }
            k = k + 1;
        }
        proof {
            assert(d.take(d.len() as int) =~= d);
        }
        stopped
    }

    /// `c1` is `c0` after every server that missed its check-in at `now` was
    /// restarted; `dead` are their uuids, in order.
    pub open spec fn restarted(c0: Controller, c1: Controller, now: u64, dead: Seq<u128>) -> bool {
        &&& dead == c0.servers.servers().filter(|s: Server| s.health.is_dead_spec(now)).map_values(
            |s: Server| s.uuid,
        )
        &&& c1.servers.servers() == c0.servers.servers().map_values(
            |s: Server|
                if s.health.is_dead_spec(now) {
                    after_restart(s, now, c0.timeouts.restart, c0.timeouts.heartbeat)
                } else {
                    s
                },
        )
        &&& c1.servers.start_queue() == c0.servers.start_queue()
        &&& c1.servers.stop_queue() == c0.servers.stop_queue()
        &&& c1.servers.next_request_id() == c0.servers.next_request_id()
        &&& c1.groups == c0.groups
        &&& c1.users == c0.users
        &&& c1.auth == c0.auth
        &&& c1.events == c0.events
        &&& c1.channels == c0.channels
        &&& c1.timeouts == c0.timeouts
    }

    /// `c1` is `c0` after every group queued the servers it misses, the
    /// later groups after the earlier ones.
    pub open spec fn grouped(c0: Controller, c1: Controller) -> bool {
        &&& c1.groups.wf()
        &&& c1.groups.groups().len() == c0.groups.groups().len()
        &&& exists|mid: Seq<Servers>|
            {
                &&& mid.len() == c0.groups.groups().len() + 1
                &&& mid[0] == c0.servers
                &&& mid.last() == c1.servers
                &&& forall|i: int|
                    0 <= i < c0.groups.groups().len() ==> Group::tick_post(
                        c0.groups.groups()[i],
                        #[trigger] c1.groups.groups()[i],
                        mid[i],
                        mid[i + 1],
                    )
            }
        &&& c1.users == c0.users
        &&& c1.auth == c0.auth
        &&& c1.events == c0.events
        &&& c1.channels == c0.channels
        &&& c1.timeouts == c0.timeouts
    }

    /// `c1` is `c0` without the users whose transfer has taken the transfer
    /// timeout by `now`.
    pub open spec fn users_ticked(c0: Controller, c1: Controller, now: u64) -> bool {
        &&& c1.users.wf()
        &&& c1.users.users() == c0.users.users().filter(
            |u: User| !transfer_timed_out(u, now, c0.timeouts.transfer),
        )
        &&& c1.servers == c0.servers
        &&& c1.groups == c0.groups
        &&& c1.auth == c0.auth
        &&& c1.events == c0.events
        &&& c1.channels == c0.channels
        &&& c1.timeouts == c0.timeouts
    }

    /// `c1` is `c0` after the start requests were put in order of priority,
    /// highest first, and those due at `now` were taken out as `starts`.
    pub open spec fn starts_taken(c0: Controller, c1: Controller, now: u64, starts: Seq<StartRequest>) -> bool {
        &&& exists|sorted: Seq<StartRequest>|
            {
                &&& by_priority_desc(sorted)
                &&& sorted.to_multiset() == c0.servers.start_queue().to_multiset()
                &&& starts == sorted.filter(|r: StartRequest| start_taken(r, now))
                &&& c1.servers.start_queue() == sorted.filter(|r: StartRequest| start_waiting(r, now))
            }
        &&& c1.servers.servers() == c0.servers.servers()
        &&& c1.servers.stop_queue() == c0.servers.stop_queue()
        &&& c1.servers.next_request_id() == c0.servers.next_request_id()
        &&& c1.groups == c0.groups
        &&& c1.users == c0.users
        &&& c1.auth == c0.auth
        &&& c1.events == c0.events
        &&& c1.channels == c0.channels
        &&& c1.timeouts == c0.timeouts
    }

    /// The stages of a tick at `now`, from `c0` to `c5`.
    pub open spec fn tick_stages(
        c0: Controller,
        c1: Controller,
        c2: Controller,
        c3: Controller,
        c4: Controller,
        c5: Controller,
        now: u64,
        r: TickResult,
    ) -> bool {
        &&& Self::restarted(c0, c1, now, r.restarted@)
        &&& Self::stops_done(c1, c2, now, r.stopped@)
        &&& Self::grouped(c2, c3)
        &&& Self::users_ticked(c3, c4, now)
        &&& Self::starts_taken(c4, c5, now, r.starts@)
    }

    /// Whether a tick at `now` can run without a counter or the clock
    /// overflowing.
    pub open spec fn tick_fits(&self, now: u64) -> bool {
        &&& Servers::restart_fits(now, self.timeouts.restart)
        &&& self.users.users().len() <= u32::MAX
        &&& forall|i: int|
            0 <= i < self.groups.groups().len() ==> group_fits(#[trigger] self.groups.groups()[i])
        &&& self.servers.next_request_id() + total_minimum(self.groups.groups()) <= u64::MAX
    }

    /// Whether a tick at `now` can run without a counter or the clock
    /// overflowing.
    pub fn can_tick(&self, now: u64) -> (r: bool)
        ensures
            r == self.tick_fits(now),
    {
        if now > u64::MAX - self.timeouts.restart {
            return false;
        }
        if self.users.get_user_count() > 4294967295 {
            return false;
        }
        let groups = self.groups.get_groups();
        let mut total: u64 = 0;
        let mut i: usize = 0;
        while i < groups.len()
            invariant
                0 <= i <= groups@.len(),
                groups@ == self.groups.groups(),
                total == total_minimum(groups@.take(i as int)),
                forall|j: int| 0 <= j < i ==> group_fits(#[trigger] groups@[j]),
            decreases groups@.len() - i,
        {
            proof {
                assert(groups@.take(i + 1).drop_last() =~= groups@.take(i as int));
            }
            if !groups[i].fits() {
                return false;
            }
            let minimum = groups[i].get_scaling().minimum as u64;
            if total > u64::MAX - minimum {
                proof {
                    crate::group::lemma_total_minimum_prefix(groups@, i + 1);
                }
                return false;
            }
            total = total + minimum;
            i = i + 1;
        }
        proof {
            assert(groups@.take(groups@.len() as int) =~= groups@);
        }
        self.servers.next_request() <= u64::MAX - total
    }

    /// One tick of the controller at `now`. The servers that missed their
    /// check-in are restarted; the stop requests that are due are carried
    /// out; every group queues the servers it misses; the users whose
    /// transfer timed out are dropped; and the start requests are put in
    /// order of priority, highest first, and those due are handed out for
    /// nodes to be found for them.
    pub fn tick(&mut self, now: u64) -> (r: TickResult)
        requires
            old(self).wf(),
            old(self).tick_fits(now),
        ensures
            final(self).wf(),
            exists|c1: Controller, c2: Controller, c3: Controller, c4: Controller|
                #[trigger] Self::tick_stages(*old(self), c1, c2, c3, c4, *final(self), now, r),
    {
        let ghost c0 = *self;
        let restart = self.timeouts.restart;
        let heartbeat = self.timeouts.heartbeat;
        let restarted = self.servers.restart_dead_servers(now, restart, heartbeat);
        let ghost c1 = *self;
        proof {
            assert forall|i: int| 0 <= i < c0.servers.servers().len() implies
                #[trigger] c1.servers.servers()[i].uuid == c0.servers.servers()[i].uuid by {}
            crate::server::lemma_apart_same_uuids(c0.servers.servers(), c1.servers.servers());
        }
        let stopped = self.process_stops(now);
        let ghost c2 = *self;
        proof {
            assert forall|i: int| 0 <= i < c2.groups.groups().len() implies group_fits(
                #[trigger] c2.groups.groups()[i],
            ) by {
                assert(c1.groups.groups()[i] == c0.groups.groups()[i]);
                assert(group_fits(c0.groups.groups()[i]));
            }
            crate::group::lemma_total_minimum_same(c2.groups.groups(), c0.groups.groups());
        }
        self.groups.tick(&mut self.servers);
        let ghost c3 = *self;
        let transfer = self.timeouts.transfer;
        self.users.tick(now, transfer);
        let ghost c4 = *self;
        self.servers.sort_start_requests();
        let ghost sorted = self.servers.start_queue();
        let starts = self.servers.take_due_starts(now);
        let r = TickResult { restarted, stopped, starts };
        proof {
            assert(Self::starts_taken(c4, *self, now, r.starts@));
            assert(Self::tick_stages(c0, c1, c2, c3, c4, *self, now, r));
        }
        r
    }

    /// Whether a server can be started now without the clock overflowing.
    pub open spec fn start_fits(&self, now: u64) -> bool {
        Servers::start_fits(now, self.timeouts.startup)
    }

    /// `c1` is `c0` after the server `uuid` was started for `request` on
    /// `node` with `allocation` at `now`, under the token `token`: the token
    /// is registered, the server joins as starting in place of any server
    /// that had the uuid, and a group that asked for it counts it active in
    /// place of the request.
    pub open spec fn started(
        c0: Controller,
        c1: Controller,
        request: StartRequest,
        uuid: u128,
        node: String,
        allocation: Allocation,
        now: u64,
        token: String,
    ) -> bool {
        &&& c1.wf()
        &&& crate::auth::is_token(token@)
        &&& c1.auth.servers() == c0.auth.servers().filter(|a: AuthServer| a.token@ != token@).push(
            AuthServer { server: uuid, token },
        )
        &&& c1.auth.users() == c0.auth.users()
        &&& c1.servers.servers().len() == c0.servers.servers().filter(|s: Server| s.uuid != uuid).len()
            + 1
        &&& c1.servers.servers().drop_last() == c0.servers.servers().filter(|s: Server| s.uuid != uuid)
        &&& ({
            let s = c1.servers.servers().last();
            &&& s.uuid == uuid
            &&& s.name == request.name
            &&& s.group == request.group
            &&& s.node == node
            &&& s.allocation == allocation
            &&& s.token@ == token@
            &&& s.state == crate::server::State::Starting
            &&& !s.ready
            &&& s.connected_users == 0
            &&& s.health == crate::health::Health::new_spec(
                now,
                c0.timeouts.startup,
                c0.timeouts.heartbeat,
            )
        })
        &&& c1.servers.start_queue() == c0.servers.start_queue()
        &&& c1.servers.stop_queue() == c0.servers.stop_queue()
        &&& c1.groups.groups().len() == c0.groups.groups().len()
        &&& forall|i: int|
            #![trigger c1.groups.groups()[i]]
            0 <= i < c0.groups.groups().len() ==> if (request.group matches Some(g) && g.group@
                == c0.groups.groups()[i]@.name) {
                c1.groups.groups()[i]@.members == c0.groups.groups()[i]@.members.filter(
                    |m: GroupedServer| m != GroupedServer::Queueing(request.id),
                ).push(GroupedServer::Active(uuid))
            } else {
                c1.groups.groups()[i] == c0.groups.groups()[i]
            }
        &&& c1.users == c0.users
        &&& c1.events == c0.events
        &&& c1.channels == c0.channels
        &&& c1.timeouts == c0.timeouts
    }

    /// Starts the server a node accepted for the request: it gets a token,
    /// joins the servers as starting (in place of a server that had the
    /// same uuid), and, when the request came from a group, it becomes an
    /// active member of that group in place of the request. Returns the
    /// token.
    pub fn start_server(
        &mut self,
        request: StartRequest,
        uuid: u128,
        node: String,
        allocation: Allocation,
        now: u64,
    ) -> (token: String)
        requires
            old(self).wf(),
            old(self).start_fits(now),
        ensures
            final(self).wf(),
            Self::started(*old(self), *final(self), request, uuid, node, allocation, now, token),
    {
        let token = self.auth.register_server(uuid);
        let request_id = request.id;
        match &request.group {
            Some(info) => {
                self.groups.set_server_active(info.group.as_str(), uuid, request_id);
            },
            None => {},
        }
        let server_token = token.clone();
        let startup = self.timeouts.startup;
        let heartbeat = self.timeouts.heartbeat;
        self.servers.start_server(request, uuid, node, allocation, server_token, now, startup, heartbeat);
        proof {
            let all = self.servers.servers();
            let kept = old(self).servers.servers().filter(|s: Server| s.uuid != uuid);
            assert(all.drop_last() =~= kept);
            assert(all =~= kept.push(all.last()));
            crate::server::lemma_apart_filter(old(self).servers.servers(), |s: Server| s.uuid != uuid);
            assert forall|i: int| 0 <= i < kept.len() implies #[trigger] kept[i].uuid != all.last().uuid by {
                old(self).servers.servers().lemma_filter_pred(|s: Server| s.uuid != uuid, i);
            }
            crate::server::lemma_apart_push(kept, all.last());
        }
        token
    }

    /// Offers a due start request to its nodes, in order: `answers[k]` is
    /// what the `k`th node answered, an allocation or a refusal. The first
    /// node that offers an allocation gets the server, under the uuid
    /// `uuid`; when none does, the request goes back into the queue.
    pub fn place_start_with(
        &mut self,
        request: StartRequest,
        answers: Vec<Option<Allocation>>,
        uuid: u128,
        now: u64,
    ) -> (r: Placement)
        requires
            old(self).wf(),
            old(self).start_fits(now),
        ensures
            final(self).wf(),
            none_accepting(answers@, request.nodes@.len() as int) ==> Self::requeued(
                *old(self),
                *final(self),
                request,
                r,
            ),
            forall|k: int| #[trigger]
                first_accepting(answers@, request.nodes@.len() as int, k) ==> (r matches Placement::Started(
                    u,
                    node,
                    token,
                ) && u == uuid && node == request.nodes@[k] && Self::started(
                    *old(self),
                    *final(self),
                    request,
                    uuid,
                    node,
                    answers@[k]->0,
                    now,
                    token,
                )),
    {
        let mut answers = answers;
        let ghost all = answers@;
        let mut k: usize = 0;
        while k < answers.len() && k < request.nodes.len()
            invariant
                answers@ == all,
                0 <= k <= answers@.len(),
                forall|j: int| 0 <= j < k ==> (#[trigger] all[j]) is None,
            ensures
                answers@ == all,
                0 <= k <= answers@.len(),
                forall|j: int| 0 <= j < k ==> (#[trigger] all[j]) is None,
                k < answers@.len() && k < request.nodes@.len() ==> all[k as int] is Some,
            decreases answers@.len() - k,
        {
            if answers[k].is_some() {
                break;
            }
            k = k + 1;
        }
        if k < answers.len() && k < request.nodes.len() {
            proof {
                assert(first_accepting(all, request.nodes@.len() as int, k as int));
                assert forall|k2: int| #[trigger]
                    first_accepting(all, request.nodes@.len() as int, k2) implies k2 == k by {
                    if k < k2 {
                        assert(all[k as int] is Some);
                    }
                }
            }
            let chosen = answers.remove(k);
            match chosen {
                Some(allocation) => {
                    let node = request.nodes[k].clone();
                    let given = node.clone();
                    let token = self.start_server(request, uuid, given, allocation, now);
                    Placement::Started(uuid, node, token)
                },
                None => {
                    self.servers.requeue_start(request);
                    Placement::Requeued
                },
            }
        } else {
            self.servers.requeue_start(request);
            Placement::Requeued
        }
    }

    /// `r` and `c1` are what putting `request` back into the queue of `c0`
    /// comes to: nothing else changes.
    pub open spec fn requeued(c0: Controller, c1: Controller, request: StartRequest, r: Placement) -> bool {
        &&& r is Requeued
        &&& c1.servers.start_queue() == c0.servers.start_queue().push(request)
        &&& c1.servers.servers() == c0.servers.servers()
        &&& c1.servers.stop_queue() == c0.servers.stop_queue()
        &&& c1.servers.next_request_id() == c0.servers.next_request_id()
        &&& c1.groups == c0.groups
        &&& c1.users == c0.users
        &&& c1.auth == c0.auth
        &&& c1.events == c0.events
        &&& c1.channels == c0.channels
        &&& c1.timeouts == c0.timeouts
    }

    /// Offers a due start request to its nodes, as `place_start_with`, under
    /// a new random uuid: the server starts on the first node that offers an
    /// allocation, in place of a server that had that uuid.
    pub fn place_start(&mut self, request: StartRequest, answers: Vec<Option<Allocation>>, now: u64) -> (r:
        Placement)
        requires
            old(self).wf(),
            old(self).start_fits(now),
        ensures
            final(self).wf(),
            none_accepting(answers@, request.nodes@.len() as int) ==> Self::requeued(
                *old(self),
                *final(self),
                request,
                r,
            ),
            forall|k: int| #[trigger]
                first_accepting(answers@, request.nodes@.len() as int, k) ==> (r matches Placement::Started(
                    uuid,
                    node,
                    token,
                ) && node == request.nodes@[k] && Self::started(
                    *old(self),
                    *final(self),
                    request,
                    uuid,
                    node,
                    answers@[k]->0,
                    now,
                    token,
                )),
    {
        let uuid = random_uuid();
        self.place_start_with(request, answers, uuid, now)
    }
}

} // verus!
