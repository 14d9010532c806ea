//! The users connected to the servers of this controller, and their
//! transfers between servers.

use vstd::prelude::*;

use crate::server::{Server, Servers};

verus! {

/// A name with the uuid that identifies its owner.
#[derive(Debug)]
pub struct NameAndUuid {
    pub name: String,
    pub uuid: u128,
}

impl NameAndUuid {
    pub fn new(name: String, uuid: u128) -> (r: Self)
        ensures
            r.name == name,
            r.uuid == uuid,
    {
        NameAndUuid { name, uuid }
    }

    /// A copy of this name and uuid.
    pub fn duplicate(&self) -> (r: Self)
        ensures
            r == *self,
    {
        NameAndUuid { name: self.name.clone(), uuid: self.uuid }
    }
}

/// Where a user is.
#[derive(Debug)]
pub enum CurrentServer {
    /// On this server.
    Connected(NameAndUuid),
    /// On the way, since the given time, to this server.
    Transfering(u64, NameAndUuid),
}

/// A user on one of the servers.
#[derive(Debug)]
pub struct User {
    pub id: NameAndUuid,
    pub server: CurrentServer,
}

/// Whether a request was allowed.
#[derive(Debug, PartialEq, Eq, Structural, Clone, Copy)]
pub enum ActionResult {
    Allowed,
    Denied,
}

/// The user counts of a server, seen as its name and uuid.
pub open spec fn id_of(s: Server) -> NameAndUuid {
    NameAndUuid { name: s.name, uuid: s.uuid }
}

/// The user is connected to the server with the given uuid.
pub open spec fn connected_to(u: User, server: u128) -> bool {
    u.server matches CurrentServer::Connected(c) && c.uuid == server
}

/// The user is connected to a server that is not among `s`.
pub open spec fn on_gone(u: User, s: Seq<Server>) -> bool {
    match u.server {
        CurrentServer::Connected(c) => !crate::event::alive(s, c.uuid),
        CurrentServer::Transfering(_, _) => false,
    }
}

/// How long ago `since` was at `now`; nothing if it lies ahead.
pub open spec fn elapsed(since: u64, now: u64) -> int {
    if now >= since {
        now - since
    } else {
        0
    }
}

/// A transfer that has taken at least `timeout`.
pub open spec fn transfer_timed_out(u: User, now: u64, timeout: u64) -> bool {
    u.server matches CurrentServer::Transfering(since, _) && elapsed(since, now) >= timeout
}

/// A transfer times out once the time passed since it began reaches the
/// timeout. The time passed is never less than nothing: a transfer that
/// began after `now` has taken no time, so it times out only when the
/// timeout is zero. A connected user never times out.
pub proof fn law_transfer_times_out(u: User, now: u64, timeout: u64)
    ensures
        transfer_timed_out(u, now, timeout) <==> match u.server {
            CurrentServer::Transfering(since, _) => if now >= since {
                now - since >= timeout
            } else {
                timeout == 0
            },
            CurrentServer::Connected(_) => false,
        },
        timeout > 0 ==> (transfer_timed_out(u, now, timeout) <==> (u.server matches CurrentServer::Transfering(since, _)
            && now >= since && now - since >= timeout)),
{
}

/// A user of `server` is on the way to `to` since `now`; other users stay.
pub open spec fn sent_away(u: User, server: u128, to: NameAndUuid, now: u64) -> User {
    if connected_to(u, server) {
        User { server: CurrentServer::Transfering(now, to), ..u }
    } else {
        u
    }
}

/// The place of a user with the given uuid, if there is one.
pub open spec fn find_user(users: Seq<User>, uuid: u128) -> Option<int> {
    if exists|i: int| 0 <= i < users.len() && users[i].id.uuid == uuid {
        Some(choose|i: int| 0 <= i < users.len() && users[i].id.uuid == uuid)
    } else {
        None
    }
}

/// The users have distinct uuids.
pub open spec fn uuids_distinct(s: Seq<User>) -> bool {
    forall|i: int, j: int| 0 <= i < j < s.len() ==> s[i].id.uuid != s[j].id.uuid
}

/// The users of this controller.
pub struct UserManager {
    users: Vec<User>,
}

impl UserManager {
    pub closed spec fn users(&self) -> Seq<User> {
        self.users@
    }

    pub closed spec fn wf(&self) -> bool {
        uuids_distinct(self.users@)
    }

    /// No users.
    pub fn init() -> (r: Self)
        ensures
            r.wf(),
            r.users() == Seq::<User>::empty(),
    {
        UserManager { users: Vec::new() }
    }

    /// The position of the user with the given uuid.
    pub fn position(&self, uuid: u128) -> (r: Option<usize>)
        ensures
            r is None ==> forall|i: int|
                0 <= i < self.users().len() ==> #[trigger] self.users()[i].id.uuid != uuid,
            r matches Some(i) ==> i < self.users().len() && self.users()[i as int].id.uuid == uuid,
    {
        let mut i: usize = 0;
        while i < self.users.len()
            invariant
                0 <= i <= self.users@.len(),
                forall|j: int| 0 <= j < i ==> #[trigger] self.users@[j].id.uuid != uuid,
            decreases self.users@.len() - i,
        {
            if self.users[i].id.uuid == uuid {
                return Some(i);
            }
            i = i + 1;
        }
        None
    }

    /// Removes the users connected to the server and counts them.
    pub fn remove_users_on_server(&mut self, server: u128) -> (amount: u32)
        requires
            old(self).wf(),
            old(self).users().len() <= u32::MAX,
        ensures
            final(self).wf(),
            final(self).users() == old(self).users().filter(|u: User| !connected_to(u, server)),
            amount == old(self).users().filter(|u: User| connected_to(u, server)).len(),
    {
        let ghost before = self.users@;
        let ghost gone = |u: User| connected_to(u, server);
        let ghost stays = |u: User| !connected_to(u, server);
        let mut all = Vec::new();
        std::mem::swap(&mut all, &mut self.users);
        let mut rest = crate::facts::reversed(all);
        let mut kept: Vec<User> = Vec::new();
        let mut amount: u32 = 0;
        let mut i: usize = 0;
        proof {
            assert(rest@ =~= before.skip(0).reverse());
            assert(before.len() == rest.len());
            assert(before.take(0).filter(gone) =~= Seq::<User>::empty()) by {
                reveal(Seq::filter);
            }
        }
        while rest.len() > 0
            invariant
                rest@ == before.skip(i as int).reverse(),
                i + rest@.len() == before.len(),
                before.len() <= u32::MAX,
                gone == (|u: User| connected_to(u, server)),
                stays == (|u: User| !connected_to(u, server)),
                kept@ == before.take(i as int).filter(stays),
                amount == before.take(i as int).filter(gone).len(),
                amount <= i,
            decreases rest@.len(),
        {
            let user = rest.pop().unwrap();
            proof {
                assert(user == before[i as int]);
                crate::facts::lemma_filter_take_succ(before, gone, i as int);
                crate::facts::lemma_filter_take_succ(before, stays, i as int);
                assert(rest@ =~= before.skip(i + 1).reverse());
            }
            let on_server = match &user.server {
                CurrentServer::Connected(current) => current.uuid == server,
                CurrentServer::Transfering(_, _) => false,
            };
            if on_server {
                amount = amount + 1;
            } else {
                kept.push(user);
            }
            i = i + 1;
        }
        proof {
            assert(before.take(before.len() as int) =~= before);
            crate::facts::lemma_filter_keeps_distinct(before, stays);
        }
        self.users = kept;
        amount
    }

    /// Removes the users connected to a server that is not among `servers`
    /// any more, and counts them.
    pub fn cleanup_users(&mut self, servers: &Servers) -> (amount: u32)
        requires
            old(self).wf(),
            old(self).users().len() <= u32::MAX,
        ensures
            final(self).wf(),
            final(self).users() == old(self).users().filter(
                |u: User| !on_gone(u, servers.servers()),
            ),
            amount == old(self).users().filter(|u: User| on_gone(u, servers.servers())).len(),
    {
        let ghost before = self.users@;
        let ghost gone = |u: User| on_gone(u, servers.servers());
        let ghost stays = |u: User| !on_gone(u, servers.servers());
        let mut all = Vec::new();
        std::mem::swap(&mut all, &mut self.users);
        let mut rest = crate::facts::reversed(all);
        let mut kept: Vec<User> = Vec::new();
        let mut amount: u32 = 0;
        let mut i: usize = 0;
        proof {
            assert(rest@ =~= before.skip(0).reverse());
            assert(before.len() == rest.len());
            assert(before.take(0).filter(gone) =~= Seq::<User>::empty()) by {
                reveal(Seq::filter);
            }
        }
        while rest.len() > 0
            invariant
                rest@ == before.skip(i as int).reverse(),
                i + rest@.len() == before.len(),
                before.len() <= u32::MAX,
                gone == (|u: User| on_gone(u, servers.servers())),
                stays == (|u: User| !on_gone(u, servers.servers())),
                kept@ == before.take(i as int).filter(stays),
                amount == before.take(i as int).filter(gone).len(),
                amount <= i,
            decreases rest@.len(),
        {
            let user = rest.pop().unwrap();
            proof {
                assert(user == before[i as int]);
                crate::facts::lemma_filter_take_succ(before, gone, i as int);
                crate::facts::lemma_filter_take_succ(before, stays, i as int);
                assert(rest@ =~= before.skip(i + 1).reverse());
            }
            let left = match &user.server {
                CurrentServer::Connected(current) => !servers.contains(current.uuid),
                CurrentServer::Transfering(_, _) => false,
            };
            if left {
                amount = amount + 1;
            } else {
                kept.push(user);
            }
            i = i + 1;
        }
        proof {
            assert(before.take(before.len() as int) =~= before);
            crate::facts::lemma_filter_keeps_distinct(before, stays);
        }
        self.users = kept;
        amount
    }

    /// Whether a connection to the server can be counted.
    pub open spec fn connect_fits(server: &Server) -> bool {
        server.connected_users < u32::MAX
    }

    /// A user connected to the server: the server counts one more user, and
    /// the user is now connected there. A user that is known keeps its name.
    pub fn user_connected(&mut self, server: &mut Server, id: NameAndUuid)
        requires
            old(self).wf(),
            Self::connect_fits(old(server)),
        ensures
            final(self).wf(),
            *final(server) == (Server {
                connected_users: (old(server).connected_users + 1) as u32,
                ..*old(server)
            }),
            match old(self).find(id.uuid) {
                Some(i) => final(self).users() == old(self).users().update(
                    i,
                    User {
                        server: CurrentServer::Connected(id_of(*old(server))),
                        ..old(self).users()[i]
                    },
                ),
                None => final(self).users() == old(self).users().push(
                    User { id, server: CurrentServer::Connected(id_of(*old(server))) },
                ),
            },
    {
        server.connected_users = server.connected_users + 1;
        let here = NameAndUuid { name: server.name.clone(), uuid: server.uuid };
        match self.position(id.uuid) {
            Some(i) => {
                self.users[i].server = CurrentServer::Connected(here);
                proof {
                    assert(old(self).find(id.uuid) == Some(i as int));
                }
            },
            None => {
                let ghost before = self.users@;
                self.users.push(User { id, server: CurrentServer::Connected(here) });
                proof {
                    assert(old(self).find(id.uuid) is None);
                    assert forall|a: int, b: int| 0 <= a < b < self.users@.len() implies self.users@[a].id.uuid
                        != self.users@[b].id.uuid by {
                        if b == before.len() {
                            assert(before[a].id.uuid != self.users@[b].id.uuid);
                        }
                    }
                }
            },
        }
    }

    /// The index of the user with the given uuid.
    pub open spec fn find(&self, uuid: u128) -> Option<int> {
        find_user(self.users(), uuid)
    }

    /// `find` names the user with the uuid, the only one when the users are
    /// well formed.
    pub proof fn lemma_find(&self, uuid: u128)
        requires
            self.wf(),
        ensures
            self.find(uuid) is None ==> forall|i: int|
                0 <= i < self.users().len() ==> #[trigger] self.users()[i].id.uuid != uuid,
            self.find(uuid) matches Some(i) ==> 0 <= i < self.users().len()
                && self.users()[i].id.uuid == uuid && forall|j: int|
                0 <= j < self.users().len() && #[trigger] self.users()[j].id.uuid == uuid ==> j
                    == i,
    {
    }

    /// Whether a disconnection from the server can be counted.
    pub open spec fn disconnect_fits(server: &Server) -> bool {
        server.connected_users > 0
    }

    /// A user left the server: the server counts one user less. A user
    /// connected to another server is not removed, and the request is
    /// denied; otherwise a user connected to this server is removed.
    pub fn user_disconnected(&mut self, server: &mut Server, uuid: u128) -> (r: ActionResult)
        requires
            old(self).wf(),
            Self::disconnect_fits(old(server)),
        ensures
            final(self).wf(),
            *final(server) == (Server {
                connected_users: (old(server).connected_users - 1) as u32,
                ..*old(server)
            }),
            match old(self).find(uuid) {
                Some(i) => match old(self).users()[i].server {
                    CurrentServer::Connected(c) => if c.uuid == old(server).uuid {
                        r == ActionResult::Allowed && final(self).users() == old(self).users().remove(i)
                    } else {
                        r == ActionResult::Denied && final(self).users() == old(self).users()
                    },
                    CurrentServer::Transfering(_, _) => r == ActionResult::Allowed && final(self).users() == old(self).users(),
                },
                None => r == ActionResult::Allowed && final(self).users() == old(self).users(),
            },
    {
        server.connected_users = server.connected_users - 1;
        proof {
            self.lemma_find(uuid);
        }
        match self.position(uuid) {
            Some(i) => {
                let here = match &self.users[i].server {
                    CurrentServer::Connected(current) => Some(current.uuid == server.uuid),
                    CurrentServer::Transfering(_, _) => None,
                };
                match here {
                    Some(true) => {
                        let ghost before = self.users@;
                        self.users.remove(i);
                        proof {
                            assert forall|a: int, b: int|
                                0 <= a < b < self.users@.len() implies self.users@[a].id.uuid
                                != self.users@[b].id.uuid by {
                                let oa = if a < i { a } else { a + 1 };
                                let ob = if b < i { b } else { b + 1 };
                                assert(self.users@[a] == before[oa]);
                                assert(self.users@[b] == before[ob]);
                            }
                        }
                        ActionResult::Allowed
                    },
                    Some(false) => ActionResult::Denied,
                    None => ActionResult::Allowed,
                }
            },
            None => ActionResult::Allowed,
        }
    }

    /// All users.
    pub fn get_users(&self) -> (r: &Vec<User>)
        ensures
            r@ == self.users(),
    {
        &self.users
    }

    /// How many users there are.
    pub fn get_user_count(&self) -> (r: usize)
        ensures
            r == self.users().len(),
    {
        self.users.len()
    }

    /// The user with the given uuid.
    pub fn get_user(&self, uuid: u128) -> (r: Option<&User>)
        requires
            self.wf(),
        ensures
            match self.find(uuid) {
                Some(i) => r == Some(&self.users()[i]),
                None => r is None,
            },
    {
        proof {
            self.lemma_find(uuid);
        }
        match self.position(uuid) {
            Some(i) => Some(&self.users[i]),
            None => None,
        }
    }

    /// The first user with the given name.
    pub fn get_user_from_name(&self, name: &str) -> (r: Option<&User>)
        ensures
            r is None ==> forall|i: int|
                0 <= i < self.users().len() ==> #[trigger] self.users()[i].id.name@ != name@,
            r matches Some(u) ==> exists|i: int|
                0 <= i < self.users().len() && self.users()[i] == *u && u.id.name@ == name@ && (
                forall|j: int| 0 <= j < i ==> #[trigger] self.users()[j].id.name@ != name@),
    {
        let mut i: usize = 0;
        while i < self.users.len()
            invariant
                0 <= i <= self.users@.len(),
                forall|j: int| 0 <= j < i ==> #[trigger] self.users@[j].id.name@ != name@,
            decreases self.users@.len() - i,
        {
            if crate::text::same_text(&self.users[i].id.name, name) {
                proof {
                    assert(self.users()[i as int] == self.users@[i as int]);
                }
                return Some(&self.users[i]);
            }
            i = i + 1;
        }
        None
    }

    /// Drops the users whose transfer has taken at least `timeout` by `now`.
    pub fn tick(&mut self, now: u64, timeout: u64)
        requires
            old(self).wf(),
        ensures
            final(self).wf(),
            final(self).users() == old(self).users().filter(
                |u: User| !transfer_timed_out(u, now, timeout),
            ),
            forall|i: int|
                0 <= i < final(self).users().len() ==> !(#[trigger] final(self).users()[i].server matches CurrentServer::Transfering(
                    since,
                    _,
                ) && now >= since && now - since >= timeout),
    {
        let ghost before = self.users@;
        let ghost stays = |u: User| !transfer_timed_out(u, now, timeout);
        let mut all = Vec::new();
        std::mem::swap(&mut all, &mut self.users);
        let mut rest = crate::facts::reversed(all);
        let mut kept: Vec<User> = Vec::new();
        let mut i: usize = 0;
        proof {
            assert(rest@ =~= before.skip(0).reverse());
            assert(before.len() == rest.len());
        }
        while rest.len() > 0
            invariant
                rest@ == before.skip(i as int).reverse(),
                i + rest@.len() == before.len(),
                before.len() <= usize::MAX,
                stays == (|u: User| !transfer_timed_out(u, now, timeout)),
                kept@ == before.take(i as int).filter(stays),
            decreases rest@.len(),
        {
            let user = rest.pop().unwrap();
            proof {
                assert(user == before[i as int]);
                crate::facts::lemma_filter_take_succ(before, stays, i as int);
                assert(rest@ =~= before.skip(i + 1).reverse());
            }
            let timed_out = match &user.server {
                CurrentServer::Transfering(since, _) => {
                    let waited = if now >= *since {
                        now - *since
                    } else {
                        0
                    };
                    waited >= timeout
                },
                CurrentServer::Connected(_) => false,
            };
            if !timed_out {
                kept.push(user);
            }
            i = i + 1;
        }
        proof {
            assert(before.take(before.len() as int) =~= before);
            crate::facts::lemma_filter_keeps_distinct(before, stays);
            assert forall|j: int| 0 <= j < kept@.len() implies !transfer_timed_out(
                #[trigger] kept@[j],
                now,
                timeout,
            ) by {
                before.lemma_filter_pred(stays, j);
            }
        }
        self.users = kept;
    }

    /// Marks the user as on the way to `to` since `since`.
    pub fn set_transfering(&mut self, uuid: u128, since: u64, to: NameAndUuid)
        requires
            old(self).wf(),
        ensures
            final(self).wf(),
            match old(self).find(uuid) {
                Some(i) => final(self).users() == old(self).users().update(
                    i,
                    User { server: CurrentServer::Transfering(since, to), ..old(self).users()[i] },
                ),
                None => final(self).users() == old(self).users(),
            },
    {
        proof {
            self.lemma_find(uuid);
        }
        match self.position(uuid) {
            Some(i) => {
                self.users[i].server = CurrentServer::Transfering(since, to);
            },
            None => {},
        }
    }

    /// Puts every user connected to `server` on the way to `to` since `now`,
    /// and returns their uuids, in order.
    pub fn send_away_all(&mut self, server: u128, to: &NameAndUuid, now: u64) -> (moved: Vec<u128>)
        requires
            old(self).wf(),
        ensures
            final(self).wf(),
            final(self).users() == old(self).users().map_values(
                |u: User| sent_away(u, server, *to, now),
            ),
            moved@ == old(self).users().filter(|u: User| connected_to(u, server)).map_values(
                |u: User| u.id.uuid,
            ),
    {
        let ghost before = self.users@;
        let ghost on = |u: User| connected_to(u, server);
        let ghost id = |u: User| u.id.uuid;
        let mut moved: Vec<u128> = Vec::new();
        let mut i: usize = 0;
        while i < self.users.len()
            invariant
                self.users@.len() == before.len(),
                0 <= i <= before.len(),
                on == (|u: User| connected_to(u, server)),
                id == (|u: User| u.id.uuid),
                forall|j: int|
                    0 <= j < i ==> #[trigger] self.users@[j] == sent_away(before[j], server, *to, now),
                forall|j: int| i <= j < before.len() ==> #[trigger] self.users@[j] == before[j],
                moved@ == before.take(i as int).filter(on).map_values(id),
            decreases before.len() - i,
        {
            proof {
                crate::facts::lemma_filter_take_succ(before, on, i as int);
            }
            let here = match &self.users[i].server {
                CurrentServer::Connected(c) => c.uuid == server,
                CurrentServer::Transfering(_, _) => false,
            };
            if here {
                let uuid = self.users[i].id.uuid;
                self.users[i].server = CurrentServer::Transfering(now, to.duplicate());
                moved.push(uuid);
                proof {
                    assert(moved@ =~= before.take(i + 1).filter(on).map_values(id));
                }
            }
            i = i + 1;
        }
        proof {
            assert(before.take(before.len() as int) =~= before);
            assert(self.users@ =~= before.map_values(|u: User| sent_away(u, server, *to, now)));
            assert forall|a: int, b: int| 0 <= a < b < self.users@.len() implies self.users@[a].id.uuid
                != self.users@[b].id.uuid by {
                assert(self.users@[a].id == before[a].id);
                assert(self.users@[b].id == before[b].id);
            }
        }
        moved
    }

    /// Shutting down keeps nothing to be done.
    pub fn shutdown(&mut self) -> (r: Result<(), ()>)
        ensures
            r is Ok,
            final(self).users() == old(self).users(),
    {
        Ok(())
    }
}

} // verus!
