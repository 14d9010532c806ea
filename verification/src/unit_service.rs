//! The requests that units (the servers a deployment runs) send about the
//! users on them. Deployments are the groups; units are the servers.

use vstd::prelude::*;

use crate::controller::Controller;
use crate::event::{alive, bound_to_gone, ChannelMessage, EventKey, EventKeyView, RegisteredListener};
use crate::group::{first_named, has_name, Group};
use crate::server::{
    after_heartbeat, after_mark_running, after_unit_stop, apply_to, first_with, Server, State,
    StopRequest,
};
use crate::service::{
    connected, counts_fit, disconnected, refused, servers_step, ServerServiceImpl,
};
use crate::status::{refusal, Code, Status};
use crate::transfer::{Transfer, TransferMessage, TransferOutcome};
use crate::user::{find_user, id_of, CurrentServer, NameAndUuid, User};
use crate::uuids::{hyphenated, parse_uuid, parsed_uuid, push_hyphenated};

verus! {

/// The message for a request of a unit that is no longer known.
pub open spec fn unit_gone() -> Seq<char> {
    "The authenticated unit does not exist"@
}

/// What a request to move users names as its target.
#[derive(PartialEq, Eq, Structural, Clone, Copy, Debug)]
pub enum UnitTargetType {
    Deployment,
    Unit,
    Fallback,
}

/// The target of a request to move users: its type, or the error of a type
/// that is not known, and its name or uuid as text.
#[derive(Debug)]
pub struct UnitTransferTarget {
    pub kind: Result<UnitTargetType, String>,
    pub target: Option<String>,
}

/// Where users are sent: a free unit of the deployment at the given place,
/// the given unit, or the unit each user falls back to.
#[derive(PartialEq, Eq, Structural, Clone, Copy, Debug)]
pub enum Destination {
    Group(usize),
    Server(u128),
    Fallback,
}

/// The destination a request names, or its refusal.
pub open spec fn destination_of(c: Controller, t: Option<UnitTransferTarget>) -> Result<
    Destination,
    (Code, Seq<char>),
> {
    match t {
        None => Err((Code::InvalidArgument, "Target must be provided"@)),
        Some(t) => match t.kind {
            Err(e) => Err((Code::InvalidArgument, e@)),
            Ok(UnitTargetType::Deployment) => match t.target {
                None => Err((Code::InvalidArgument, "Target must be provided"@)),
                Some(name) => if has_name(c.groups.groups(), name@) {
                    Ok(
                        Destination::Group(
                            (choose|i: int| first_named(c.groups.groups(), name@, i)) as usize,
                        ),
                    )
                } else {
                    Err((Code::NotFound, "Deployment does not exist"@))
                },
            },
            Ok(UnitTargetType::Unit) => match t.target {
                None => Err((Code::InvalidArgument, "Target must be provided"@)),
                Some(text) => match parsed_uuid(text@) {
                    Err(e) => Err((Code::InvalidArgument, "Failed to parse target UUID: "@ + e)),
                    Ok(u) => if alive(c.servers.servers(), u) {
                        Ok(Destination::Server(u))
                    } else {
                        Err((Code::NotFound, "Unit does not exist"@))
                    },
                },
            },
            Ok(UnitTargetType::Fallback) => Ok(Destination::Fallback),
        },
    }
}

/// The uuid of the unit a connected user is sent to, if there is one.
pub open spec fn target_uuid(
    from: NameAndUuid,
    d: Destination,
    servers: Seq<Server>,
    groups: Seq<Group>,
) -> Option<u128> {
    match d {
        Destination::Server(u) => Some(u),
        Destination::Group(g) => groups[g as int].first_active(),
        Destination::Fallback => {
            let s = crate::server::Servers::fallback_of(servers, from.uuid);
            match s {
                Some(k) => Some(servers[k].uuid),
                None => None,
            }
        },
    }
}

/// The transfer of the user, as of `now`, to the unit the destination
/// names; nothing when the user is on the way already or no known unit is
/// named.
pub open spec fn unit_transfer(
    user: User,
    d: Destination,
    servers: Seq<Server>,
    groups: Seq<Group>,
    now: u64,
) -> Option<Transfer> {
    match user.server {
        CurrentServer::Connected(from) => match target_uuid(from, d, servers, groups) {
            Some(u) => if alive(servers, u) {
                let p = choose|p: int| first_with(servers, u, p);
                Some(Transfer { user: user.id.uuid, from: from, to: id_of(servers[p]), timestamp: now })
            } else {
                None
            },
            None => None,
        },
        CurrentServer::Transfering(_, _) => None,
    }
}

/// What one user of the request comes to.
pub enum UnitStep {
    /// The request stops here, refused with this code and message.
    Stop(Code, Seq<char>),
    /// The user is on the way: the users after, and the message for the unit
    /// the user leaves, with that unit's uuid.
    Moved(Seq<User>, (u128, TransferMessage)),
    /// The target had no address; the user stays.
    Unmoved,
}

/// What the user named by `text` comes to, with the users `us`, when the
/// unit `requester` asks (it may only move its own users), or an
/// administrator (`None`).
pub open spec fn unit_step(
    us: Seq<User>,
    text: Seq<char>,
    requester: Option<u128>,
    d: Destination,
    servers: Seq<Server>,
    groups: Seq<Group>,
    now: u64,
) -> UnitStep {
    match parsed_uuid(text) {
        Err(e) => UnitStep::Stop(Code::InvalidArgument, "Failed to parse user UUID: "@ + e),
        Ok(u) => match find_user(us, u) {
            None => UnitStep::Stop(
                Code::NotFound,
                match requester {
                    Some(_) => "User "@ + hyphenated(u) + " is not connected to this controller"@,
                    None => "User is not connected to this controller"@,
                },
            ),
            Some(i) => {
                let user = us[i];
                let permitted = match requester {
                    None => true,
                    Some(unit) => match user.server {
                        CurrentServer::Connected(at) => at.uuid == unit || !alive(servers, at.uuid),
                        CurrentServer::Transfering(_, _) => false,
                    },
                };
                if !permitted {
                    UnitStep::Stop(
                        Code::PermissionDenied,
                        "User "@ + hyphenated(u) + " is not connected to the requesting unit"@,
                    )
                } else {
                    match unit_transfer(user, d, servers, groups, now) {
                        None => UnitStep::Stop(Code::NotFound, "Failed to resolve transfer"@),
                        Some(t) => {
                            let p = choose|p: int| first_with(servers, t.to.uuid, p);
                            let s = servers[p];
                            if s.allocation.addresses@.len() > 0 {
                                UnitStep::Moved(
                                    us.update(
                                        i,
                                        User {
                                            server: CurrentServer::Transfering(t.timestamp, t.to),
                                            ..user
                                        },
                                    ),
                                    (
                                        t.from.uuid,
                                        TransferMessage {
                                            user: t.user,
                                            host: s.allocation.addresses@[0].host,
                                            port: s.allocation.addresses@[0].port,
                                        },
                                    ),
                                )
                            } else {
                                UnitStep::Unmoved
                            }
                        },
                    }
                }
            },
        },
    }
}

/// What the users named by `texts` come to, in order, from the users `us`:
/// the users after, the messages, and the refusal the request stopped at.
pub open spec fn unit_run(
    us: Seq<User>,
    texts: Seq<String>,
    requester: Option<u128>,
    d: Destination,
    servers: Seq<Server>,
    groups: Seq<Group>,
    now: u64,
) -> (Seq<User>, Seq<(u128, TransferMessage)>, Option<(Code, Seq<char>)>)
    decreases texts.len(),
{
    if texts.len() == 0 {
        (us, Seq::empty(), None)
    } else {
        match unit_step(us, texts[0]@, requester, d, servers, groups, now) {
            UnitStep::Stop(code, m) => (us, Seq::empty(), Some((code, m))),
            UnitStep::Moved(next, message) => {
                let rest = unit_run(next, texts.drop_first(), requester, d, servers, groups, now);
                (rest.0, seq![message] + rest.1, rest.2)
            },
            UnitStep::Unmoved => unit_run(us, texts.drop_first(), requester, d, servers, groups, now),
        }
    }
}

/// The requests of units.
#[derive(Clone, Copy, Debug)]
pub struct UnitServiceImpl;

impl UnitServiceImpl {
    /// The destination the request names, or its refusal.
    fn destination(&self, c: &Controller, target: Option<UnitTransferTarget>) -> (r: Result<
        Destination,
        Status,
    >)
        ensures
            match destination_of(*c, target) {
                Ok(d) => r == Ok::<Destination, Status>(d),
                Err((code, m)) => refused(r, code, m),
            },
            r matches Ok(Destination::Group(g)) ==> g < c.groups.groups().len(),
    {
        let t = match target {
            Some(t) => t,
            None => {
                return Err(Status::new(Code::InvalidArgument, "Target must be provided"));
            },
        };
        let kind = match t.kind {
            Ok(k) => k,
            Err(e) => {
                return Err(Status::new(Code::InvalidArgument, e.as_str()));
            },
        };
        match kind {
            UnitTargetType::Deployment => {
                let name = match t.target {
                    Some(n) => n,
                    None => {
                        return Err(Status::new(Code::InvalidArgument, "Target must be provided"));
                    },
                };
                match c.groups.position(name.as_str()) {
                    Some(i) => {
                        proof {
                            assert forall|k2: int| #[trigger]
                                first_named(c.groups.groups(), name@, k2) implies k2 == i by {
                                if k2 < i {
                                    assert(c.groups.groups()[k2]@.name != name@);
                                } else if i < k2 {
                                    assert(c.groups.groups()[i as int]@.name != name@);
                                }
                            }
                        }
                        Ok(Destination::Group(i))
                    },
                    None => Err(Status::new(Code::NotFound, "Deployment does not exist")),
                }
            },
            UnitTargetType::Unit => {
                let text = match t.target {
                    Some(n) => n,
                    None => {
                        return Err(Status::new(Code::InvalidArgument, "Target must be provided"));
                    },
                };
                match parse_uuid(text.as_str()) {
                    Ok(u) => if c.servers.contains(u) {
                        Ok(Destination::Server(u))
                    } else {
                        Err(Status::new(Code::NotFound, "Unit does not exist"))
                    },
                    Err(e) => Err(Status::with_detail(
                        Code::InvalidArgument,
                        "Failed to parse target UUID: ",
                        e.as_str(),
                    )),
                }
            },
            UnitTargetType::Fallback => Ok(Destination::Fallback),
        }
    }

    /// The transfer of the user, as of `now`, to the unit the destination
    /// names.
    fn transfer_of(c: &Controller, user: &User, d: Destination, now: u64) -> (r: Option<Transfer>)
        requires
            d matches Destination::Group(g) ==> g < c.groups.groups().len(),
        ensures
            r == unit_transfer(*user, d, c.servers.servers(), c.groups.groups(), now),
            match r {
                Some(t) => crate::server::Servers::first_of(c.servers.servers(), t.to.uuid) is Some,
                None => true,
            },
    {
        let from = match &user.server {
            CurrentServer::Connected(from) => from,
            CurrentServer::Transfering(_, _) => {
                return None;
            },
        };
        let to = match d {
            Destination::Server(u) => Some(u),
            Destination::Group(g) => c.groups.get_groups()[g].get_free_server(),
            Destination::Fallback => match c.servers.find_fallback_index(from.uuid) {
                Some(k) => {
                    proof {
                        assert forall|k2: int| #[trigger]
                            crate::server::fallback_at_in(c.servers.servers(), k2, from.uuid) implies k2
                            == k by {
                            c.servers.lemma_fallback_unique(k2, k as int, from.uuid);
                        }
                        assert(crate::server::fallback_at_in(c.servers.servers(), k as int, from.uuid));
                    }
                    Some(c.servers.get_servers()[k].uuid)
                },
                None => {
                    proof {
                        assert forall|k2: int|
                            !#[trigger] crate::server::fallback_at_in(
                                c.servers.servers(),
                                k2,
                                from.uuid,
                            ) by {
                            if 0 <= k2 < c.servers.servers().len() {
                                assert(!crate::server::fallback_eligible(
                                    c.servers.servers()[k2],
                                    from.uuid,
                                ));
                            }
                        }
                    }
                    None
                },
            },
        };
        let u = match to {
            Some(u) => u,
            None => {
                return None;
            },
        };
        match c.servers.position(u) {
            Some(p) => {
                proof {
                    crate::server::lemma_first_with_unique(c.servers.servers(), u, p as int);
                    assert(first_with(c.servers.servers(), u, p as int));
                }
                let s = &c.servers.get_servers()[p];
                let tr = Transfer {
                    user: user.id.uuid,
                    from: from.duplicate(),
                    to: NameAndUuid { name: s.name.clone(), uuid: s.uuid },
                    timestamp: now,
                };
                proof {
                    assert(tr.to.uuid == u);
                    assert(first_with(c.servers.servers(), tr.to.uuid, p as int));
                }
                Some(tr)
            },
            None => None,
        }
    }

    /// The refusal `User <uuid><rest>`.
    fn user_refusal(code: Code, u: u128, rest: &str) -> (r: Status)
        ensures
            refusal(r, code, "User "@ + hyphenated(u) + rest@),
    {
        let mut message = "User ".to_owned();
        push_hyphenated(&mut message, u);
        message.append(rest);
        Status { code, message }
    }

    /// What the user named by `text` comes to: see `unit_step`.
    fn step(
        &self,
        c: &mut Controller,
        text: &String,
        requester: Option<u128>,
        d: Destination,
        now: u64,
    ) -> (r:
        Result<Option<(u128, TransferMessage)>, Status>)
        requires
            old(c).wf(),
            d matches Destination::Group(g) ==> g < old(c).groups.groups().len(),
        ensures
            final(c).wf(),
            final(c).servers == old(c).servers,
            final(c).groups == old(c).groups,
            final(c).auth == old(c).auth,
            final(c).events == old(c).events,
            final(c).channels == old(c).channels,
            final(c).timeouts == old(c).timeouts,
            match unit_step(
                old(c).users.users(),
                text@,
                requester,
                d,
                old(c).servers.servers(),
                old(c).groups.groups(),
                now,
            ) {
                UnitStep::Stop(code, m) => refused(r, code, m) && final(c).users.users() == old(
                    c,
                ).users.users(),
                UnitStep::Moved(next, message) => r == Ok::<
                    Option<(u128, TransferMessage)>,
                    Status,
                >(Some(message)) && final(c).users.users() == next,
                UnitStep::Unmoved => r == Ok::<Option<(u128, TransferMessage)>, Status>(None)
                    && final(c).users.users() == old(c).users.users(),
            },
    {
        let u = match parse_uuid(text.as_str()) {
            Ok(u) => u,
            Err(e) => {
                return Err(Status::with_detail(
                    Code::InvalidArgument,
                    "Failed to parse user UUID: ",
                    e.as_str(),
                ));
            },
        };
        proof {
            c.users.lemma_find(u);
        }
        let i = match c.users.position(u) {
            Some(i) => i,
            None => {
                return match requester {
                    Some(_) => Err(
                        Self::user_refusal(Code::NotFound, u, " is not connected to this controller"),
                    ),
                    None => Err(
                        Status::new(Code::NotFound, "User is not connected to this controller"),
                    ),
                };
            },
        };
        let transfer = {
            let user = &c.users.get_users()[i];
            let permitted = match requester {
                None => true,
                Some(unit) => match &user.server {
                    CurrentServer::Connected(at) => at.uuid == unit || !c.servers.contains(at.uuid),
                    CurrentServer::Transfering(_, _) => false,
                },
            };
            if !permitted {
                return Err(Self::user_refusal(
                    Code::PermissionDenied,
                    u,
                    " is not connected to the requesting unit",
                ));
            }
            match Self::transfer_of(c, user, d, now) {
                Some(t) => t,
                None => {
                    return Err(Status::new(Code::NotFound, "Failed to resolve transfer"));
                },
            }
        };
        let ghost t = transfer;
        match transfer.transfer_user(&mut c.users, &c.servers) {
            Ok(m) => Ok(Some((transfer.from.uuid, m))),
            Err(_) => Ok(None),
        }
    }

    /// The unit asks to move users to a target: each user, in order, must
    /// be connected to the controller and to the requesting unit (or to a
    /// unit that is gone), and is sent to the target. The request stops at
    /// the first user that does not qualify or cannot be sent; users sent
    /// before stay sent, and their messages are kept. A target without an
    /// address leaves its user where it is, uncounted.
    pub fn transfer_users(
        &self,
        c: &mut Controller,
        unit: u128,
        target: Option<UnitTransferTarget>,
        user_uuids: Vec<String>,
        now: u64,
    ) -> (r: TransferOutcome)
        requires
            old(c).wf(),
            user_uuids@.len() <= u32::MAX,
        ensures
            final(c).wf(),
            !alive(old(c).servers.servers(), unit) ==> refused(
                r.result,
                Code::NotFound,
                "The authenticated unit does not exist"@,
            ) && r.messages@.len() == 0 && *final(c) == *old(c),
            alive(old(c).servers.servers(), unit) ==> Self::transfers_done(
                *old(c),
                *final(c),
                target,
                user_uuids@,
                Some(unit),
                now,
                r,
            ),
    {
        if !c.servers.contains(unit) {
            return TransferOutcome {
                messages: Vec::new(),
                result: Err(Status::new(Code::NotFound, "The authenticated unit does not exist")),
            };
        }
        self.run_transfers(c, target, user_uuids, Some(unit), now)
    }

    /// `c1` and `r` are what moving the users named by `texts` to the target
    /// came to, from `c0`, for the `requester`: see `unit_run`.
    pub open spec fn transfers_done(
        c0: Controller,
        c1: Controller,
        target: Option<UnitTransferTarget>,
        texts: Seq<String>,
        requester: Option<u128>,
        now: u64,
        r: TransferOutcome,
    ) -> bool {
        &&& c1.servers == c0.servers
        &&& c1.groups == c0.groups
        &&& c1.auth == c0.auth
        &&& c1.events == c0.events
        &&& c1.channels == c0.channels
        &&& c1.timeouts == c0.timeouts
        &&& match destination_of(c0, target) {
            Err((code, m)) => refused(r.result, code, m) && r.messages@.len() == 0 && c1.users
                == c0.users,
            Ok(d) => {
                let run = unit_run(
                    c0.users.users(),
                    texts,
                    requester,
                    d,
                    c0.servers.servers(),
                    c0.groups.groups(),
                    now,
                );
                &&& c1.users.users() == run.0
                &&& r.messages@ == run.1
                &&& match run.2 {
                    None => r.result == Ok::<u32, Status>(run.1.len() as u32),
                    Some((code, m)) => refused(r.result, code, m),
                }
            },
        }
    }

    /// Moves the users named by the texts, in order: see `unit_run`.
    pub(crate) fn run_transfers(
        &self,
        c: &mut Controller,
        target: Option<UnitTransferTarget>,
        user_uuids: Vec<String>,
        requester: Option<u128>,
        now: u64,
    ) -> (r: TransferOutcome)
        requires
            old(c).wf(),
            user_uuids@.len() <= u32::MAX,
        ensures
            final(c).wf(),
            Self::transfers_done(*old(c), *final(c), target, user_uuids@, requester, now, r),
    {
        let ghost tgt = target;
        let d = match self.destination(c, target) {
            Ok(d) => d,
            Err(e) => {
                return TransferOutcome { messages: Vec::new(), result: Err(e) };
            },
        };
        let ghost c0 = *c;
        let ghost texts = user_uuids@;
        let ghost all = unit_run(
            c0.users.users(),
            texts,
            requester,
            d,
            c0.servers.servers(),
            c0.groups.groups(),
            now,
        );
        let mut messages: Vec<(u128, TransferMessage)> = Vec::new();
        let mut i: usize = 0;
        proof {
            assert(texts.skip(0) =~= texts);
            assert(messages@ + all.1 =~= all.1);
        }
        while i < user_uuids.len()
            invariant
                c.wf(),
                c0 == *old(c),
                destination_of(c0, tgt) == Ok::<Destination, (Code, Seq<char>)>(d),
                tgt == target,
                0 <= i <= texts.len(),
                texts == user_uuids@,
                texts.len() <= u32::MAX,
                d matches Destination::Group(g) ==> g < c0.groups.groups().len(),
                c.servers == c0.servers,
                c.groups == c0.groups,
                c.auth == c0.auth,
                c.events == c0.events,
                c.channels == c0.channels,
                c.timeouts == c0.timeouts,
                messages@.len() <= i,
                all == unit_run(
                    c0.users.users(),
                    texts,
                    requester,
                    d,
                    c0.servers.servers(),
                    c0.groups.groups(),
                    now,
                ),
                ({
                    let rest = unit_run(
                        c.users.users(),
                        texts.skip(i as int),
                        requester,
                        d,
                        c0.servers.servers(),
                        c0.groups.groups(),
                        now,
                    );
                    &&& all.0 == rest.0
                    &&& all.1 == messages@ + rest.1
                    &&& all.2 == rest.2
                }),
            decreases texts.len() - i,
        {
            let ghost ui = c.users.users();
            let ghost st = unit_step(
                ui,
                texts[i as int]@,
                requester,
                d,
                c0.servers.servers(),
                c0.groups.groups(),
                now,
            );
            proof {
                assert(texts.skip(i as int)[0] == texts[i as int]);
                assert(texts.skip(i as int).drop_first() =~= texts.skip(i + 1));
                assert(unit_run(ui, texts.skip(i as int), requester, d, c0.servers.servers(), c0.groups.groups(), now)
                    == match st {
                    UnitStep::Stop(code, m) => (ui, Seq::<(u128, TransferMessage)>::empty(), Some((code, m))),
                    UnitStep::Moved(next, message) => {
                        let rest = unit_run(next, texts.skip(i + 1), requester, d, c0.servers.servers(), c0.groups.groups(), now);
                        (rest.0, seq![message] + rest.1, rest.2)
                    },
                    UnitStep::Unmoved => unit_run(ui, texts.skip(i + 1), requester, d, c0.servers.servers(), c0.groups.groups(), now),
                });
            }
            match self.step(c, &user_uuids[i], requester, d, now) {
                Ok(Some(message)) => {
                    let ghost before = messages@;
                    messages.push(message);
                    proof {
                        assert(messages@ == before.push(message));
                        let rest = unit_run(
                            c.users.users(),
                            texts.skip(i + 1),
                            requester,
                            d,
                            c0.servers.servers(),
                            c0.groups.groups(),
                            now,
                        );
                        assert(before + (seq![message] + rest.1) =~= messages@ + rest.1);
                    }
                },
                Ok(None) => {},
                Err(e) => {
                    proof {
                        assert(all.1 =~= messages@);
                    }
                    return TransferOutcome { messages, result: Err(e) };
                },
            }
            i = i + 1;
        }
        proof {
            assert(texts.skip(i as int) =~= Seq::<String>::empty());
            assert(all.1 =~= messages@);
        }
        let count = messages.len() as u32;
        TransferOutcome { messages, result: Ok(count) }
    }

    /// Refuses the request of a unit that is no longer known.
    fn check_unit(c: &Controller, unit: u128) -> (r: Result<(), Status>)
        ensures
            r is Ok <==> alive(c.servers.servers(), unit),
            r is Err ==> refused(r, Code::NotFound, unit_gone()),
    {
        if c.servers.contains(unit) {
            Ok(())
        } else {
            Err(Status::new(Code::NotFound, "The authenticated unit does not exist"))
        }
    }

    /// The unit checks in: its health is reset, and a starting or
    /// restarting unit is now preparing.
    pub fn beat_heart(&self, c: &mut Controller, unit: u128, now: u64) -> (r: Result<(), Status>)
        requires
            old(c).servers.beat_fits(unit, now),
        ensures
            !alive(old(c).servers.servers(), unit) ==> refused(r, Code::NotFound, unit_gone())
                && *final(c) == *old(c),
            alive(old(c).servers.servers(), unit) ==> servers_step(
                *old(c),
                *final(c),
                unit,
                r,
                |s: Server| after_heartbeat(s, now),
            ),
    {
        Self::check_unit(c, unit)?;
        ServerServiceImpl.beat_heart(c, unit, now)
    }

    /// The unit is ready for users.
    pub fn mark_ready(&self, c: &mut Controller, unit: u128) -> (r: Result<(), Status>)
        ensures
            !alive(old(c).servers.servers(), unit) ==> refused(r, Code::NotFound, unit_gone())
                && *final(c) == *old(c),
            alive(old(c).servers.servers(), unit) ==> servers_step(
                *old(c),
                *final(c),
                unit,
                r,
                |s: Server| Server { ready: true, ..s },
            ),
    {
        Self::check_unit(c, unit)?;
        ServerServiceImpl.mark_ready(c, unit)
    }

    /// The unit no longer takes users.
    pub fn mark_not_ready(&self, c: &mut Controller, unit: u128) -> (r: Result<(), Status>)
        ensures
            !alive(old(c).servers.servers(), unit) ==> refused(r, Code::NotFound, unit_gone())
                && *final(c) == *old(c),
            alive(old(c).servers.servers(), unit) ==> servers_step(
                *old(c),
                *final(c),
                unit,
                r,
                |s: Server| Server { ready: false, ..s },
            ),
    {
        Self::check_unit(c, unit)?;
        ServerServiceImpl.mark_not_ready(c, unit)
    }

    /// The unit has prepared and now runs.
    pub fn mark_running(&self, c: &mut Controller, unit: u128) -> (r: Result<(), Status>)
        ensures
            !alive(old(c).servers.servers(), unit) ==> refused(r, Code::NotFound, unit_gone())
                && *final(c) == *old(c),
            alive(old(c).servers.servers(), unit) ==> servers_step(
                *old(c),
                *final(c),
                unit,
                r,
                |s: Server| after_mark_running(s),
            ),
    {
        Self::check_unit(c, unit)?;
        ServerServiceImpl.mark_running(c, unit)
    }

    /// The unit asks to be stopped: unless it is stopping already, it is
    /// marked not ready and stopping, and queued to stop at the next tick.
    pub fn request_stop(&self, c: &mut Controller, unit: u128) -> (r: Result<(), Status>)
        ensures
            !alive(old(c).servers.servers(), unit) ==> refused(r, Code::NotFound, unit_gone())
                && *final(c) == *old(c),
            alive(old(c).servers.servers(), unit) ==> {
                &&& r is Ok
                &&& final(c).servers.servers() == apply_to(
                    old(c).servers.servers(),
                    unit,
                    |s: Server| after_unit_stop(s),
                )
                &&& final(c).servers.stop_queue() == old(c).servers.stop_queue() + old(c).servers.servers().filter(
                    |s: Server| s.uuid == unit && s.state != State::Stopping,
                ).map_values(|s: Server| StopRequest { when: None, server: s.uuid })
                &&& final(c).servers.start_queue() == old(c).servers.start_queue()
                &&& final(c).servers.next_request_id() == old(c).servers.next_request_id()
                &&& final(c).groups == old(c).groups
                &&& final(c).users == old(c).users
                &&& final(c).auth == old(c).auth
                &&& final(c).events == old(c).events
                &&& final(c).channels == old(c).channels
                &&& final(c).timeouts == old(c).timeouts
            },
    {
        Self::check_unit(c, unit)?;
        c.servers.checked_unit_stop(unit);
        Ok(())
    }

    /// A user connected to the unit: the unit counts one more user, and the
    /// user is now connected there; the uuid comes as text and is refused
    /// when it does not parse.
    pub fn user_connected(&self, c: &mut Controller, unit: u128, name: String, uuid: &str) -> (r:
        Result<(), Status>)
        requires
            old(c).wf(),
            counts_fit(old(c).servers.servers(), unit, true),
        ensures
            final(c).wf(),
            !alive(old(c).servers.servers(), unit) ==> refused(r, Code::NotFound, unit_gone())
                && *final(c) == *old(c),
            alive(old(c).servers.servers(), unit) ==> match parsed_uuid(uuid@) {
                Err(e) => refused(r, Code::InvalidArgument, "Failed to parse UUID: "@ + e)
                    && *final(c) == *old(c),
                Ok(u) => r is Ok && connected(
                    *old(c),
                    *final(c),
                    unit,
                    NameAndUuid { name: name, uuid: u },
                ),
            },
    {
        Self::check_unit(c, unit)?;
        ServerServiceImpl.user_connected(c, unit, name, uuid)
    }

    /// A user left the unit: the unit counts one user less, and a user
    /// connected to it is removed; the uuid comes as text and is refused
    /// when it does not parse.
    pub fn user_disconnected(&self, c: &mut Controller, unit: u128, uuid: &str) -> (r: Result<
        (),
        Status,
    >)
        requires
            old(c).wf(),
            counts_fit(old(c).servers.servers(), unit, false),
        ensures
            final(c).wf(),
            !alive(old(c).servers.servers(), unit) ==> refused(r, Code::NotFound, unit_gone())
                && *final(c) == *old(c),
            alive(old(c).servers.servers(), unit) ==> match parsed_uuid(uuid@) {
                Err(e) => refused(r, Code::InvalidArgument, "Failed to parse UUID: "@ + e)
                    && *final(c) == *old(c),
                Ok(u) => disconnected(*old(c), *final(c), unit, u, r),
            },
    {
        Self::check_unit(c, unit)?;
        ServerServiceImpl.user_disconnected(c, unit, uuid)
    }

    /// The unit wants to hear of the transfers of its users: a listener
    /// bound to it is registered, and its id returned.
    pub fn subscribe_to_transfers(&self, c: &mut Controller, unit: u128) -> (r: Result<
        u64,
        Status,
    >)
        requires
            old(c).events.next_id() < u64::MAX,
        ensures
            !alive(old(c).servers.servers(), unit) ==> refused(r, Code::NotFound, unit_gone())
                && *final(c) == *old(c),
            alive(old(c).servers.servers(), unit) ==> {
                &&& r == Ok::<u64, Status>(old(c).events.next_id())
                &&& final(c).events.next_id() == old(c).events.next_id() + 1
                &&& final(c).events.listeners() == old(c).events.listeners().push(
                    RegisteredListener {
                        key: EventKey::Transfer(unit),
                        server: Some(unit),
                        listener: old(c).events.next_id(),
                    },
                )
                &&& final(c).servers == old(c).servers
                &&& final(c).groups == old(c).groups
                &&& final(c).users == old(c).users
                &&& final(c).auth == old(c).auth
                &&& final(c).channels == old(c).channels
                &&& final(c).timeouts == old(c).timeouts
            },
    {
        Self::check_unit(c, unit)?;
        ServerServiceImpl.subscribe_to_transfers(c, unit)
    }

    /// The unit wants to hear of the messages on a channel: a listener bound
    /// to it is registered under the channel, and its id returned.
    pub fn subscribe_to_channel(&self, c: &mut Controller, unit: u128, channel: String) -> (r:
        Result<u64, Status>)
        requires
            old(c).events.next_id() < u64::MAX,
        ensures
            !alive(old(c).servers.servers(), unit) ==> refused(r, Code::NotFound, unit_gone())
                && *final(c) == *old(c),
            alive(old(c).servers.servers(), unit) ==> {
                &&& r == Ok::<u64, Status>(old(c).events.next_id())
                &&& final(c).events.next_id() == old(c).events.next_id() + 1
                &&& final(c).events.listeners() == old(c).events.listeners().push(
                    RegisteredListener {
                        key: EventKey::Channel(channel),
                        server: Some(unit),
                        listener: old(c).events.next_id(),
                    },
                )
                &&& final(c).servers == old(c).servers
                &&& final(c).groups == old(c).groups
                &&& final(c).users == old(c).users
                &&& final(c).auth == old(c).auth
                &&& final(c).channels == old(c).channels
                &&& final(c).timeouts == old(c).timeouts
            },
    {
        Self::check_unit(c, unit)?;
        ServerServiceImpl.subscribe_to_channel(c, unit, channel)
    }

    /// The unit no longer wants to hear of a channel: its listeners under
    /// the channel, and those of units that are gone, are removed.
    pub fn unsubscribe_from_channel(&self, c: &mut Controller, unit: u128, channel: &str) -> (r:
        Result<(), Status>)
        ensures
            !alive(old(c).servers.servers(), unit) ==> refused(r, Code::NotFound, unit_gone())
                && *final(c) == *old(c),
            alive(old(c).servers.servers(), unit) ==> {
                &&& r is Ok
                &&& final(c).events.next_id() == old(c).events.next_id()
                &&& final(c).events.listeners() == old(c).events.listeners().filter(
                    |l: RegisteredListener|
                        !(l.key@ == EventKeyView::Channel(channel@) && bound_to_gone(
                            l,
                            unit,
                            old(c).servers.servers(),
                        )),
                )
                &&& final(c).servers == old(c).servers
                &&& final(c).groups == old(c).groups
                &&& final(c).users == old(c).users
                &&& final(c).auth == old(c).auth
                &&& final(c).channels == old(c).channels
                &&& final(c).timeouts == old(c).timeouts
            },
    {
        Self::check_unit(c, unit)?;
        ServerServiceImpl.unsubscribe_from_channel(c, unit, channel)
    }

    /// The unit sends a message to a channel: the ids of the listeners of
    /// the channel, in the order they registered, each to be handed the
    /// message; their number is how many the message reached.
    pub fn send_message_to_channel(&self, c: &Controller, unit: u128, message: &ChannelMessage) -> (r:
        Result<Vec<u64>, Status>)
        ensures
            !alive(c.servers.servers(), unit) ==> refused(r, Code::NotFound, unit_gone()),
            alive(c.servers.servers(), unit) ==> (r matches Ok(ids) && ids@
                == c.events.listeners().filter(
                |l: RegisteredListener| l.key@ == EventKeyView::Channel(message.channel@),
            ).map_values(|l: RegisteredListener| l.listener)),
    {
        Self::check_unit(c, unit)?;
        ServerServiceImpl.send_message_to_channel(c, unit, message)
    }

    /// The unit starts over: its listeners, and those of units that are
    /// gone, are removed.
    pub fn reset(&self, c: &mut Controller, unit: u128) -> (r: Result<(), Status>)
        ensures
            !alive(old(c).servers.servers(), unit) ==> refused(
                r,
                Code::NotFound,
                "The authenticated unit does not exist"@,
            ) && *final(c) == *old(c),
            alive(old(c).servers.servers(), unit) ==> {
                &&& r is Ok
                &&& final(c).events.listeners() == old(c).events.listeners().filter(
                    |l: RegisteredListener| !bound_to_gone(l, unit, old(c).servers.servers()),
                )
                &&& final(c).events.next_id() == old(c).events.next_id()
                &&& final(c).servers == old(c).servers
                &&& final(c).groups == old(c).groups
                &&& final(c).users == old(c).users
                &&& final(c).auth == old(c).auth
                &&& final(c).channels == old(c).channels
                &&& final(c).timeouts == old(c).timeouts
            },
    {
        if !c.servers.contains(unit) {
            return Err(Status::new(Code::NotFound, "The authenticated unit does not exist"));
        }
        c.events.cleanup_server(unit, &c.servers);
        Ok(())
    }
}

} // verus!
