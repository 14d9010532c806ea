//! Listeners for events, each registered under a key and possibly bound to
//! a server. The listeners themselves are kept by the caller under the ids
//! handed out here; posting an event names the listeners to call.

use vstd::prelude::*;

use crate::server::{Server, Servers};
use crate::text::same_text;
use crate::transfer::Transfer;

verus! {

/// What a listener listens to.
#[derive(Debug)]
pub enum EventKey {
    /// Messages on the channel with this name.
    Channel(String),
    /// Events of the kind with this number.
    Custom(u64),
    /// Transfers away from the server with this uuid.
    Transfer(u128),
}

/// An event key, seen as values.
pub enum EventKeyView {
    Channel(Seq<char>),
    Custom(u64),
    Transfer(u128),
}

impl View for EventKey {
    type V = EventKeyView;

    open spec fn view(&self) -> EventKeyView {
        match self {
            EventKey::Channel(name) => EventKeyView::Channel(name@),
            EventKey::Custom(kind) => EventKeyView::Custom(*kind),
            EventKey::Transfer(server) => EventKeyView::Transfer(*server),
        }
    }
}

impl EventKey {
    /// Whether the keys are the same.
    pub fn same(&self, other: &EventKey) -> (r: bool)
        ensures
            r == (self@ == other@),
    {
        match (self, other) {
            (EventKey::Channel(a), EventKey::Channel(b)) => same_text(a, b.as_str()),
            (EventKey::Custom(a), EventKey::Custom(b)) => *a == *b,
            (EventKey::Transfer(a), EventKey::Transfer(b)) => *a == *b,
            _ => false,
        }
    }

    /// A copy of the key.
    pub fn duplicate(&self) -> (r: EventKey)
        ensures
            r@ == self@,
    {
        match self {
            EventKey::Channel(name) => EventKey::Channel(name.clone()),
            EventKey::Custom(kind) => EventKey::Custom(*kind),
            EventKey::Transfer(server) => EventKey::Transfer(*server),
        }
    }
}

/// Something that happened and that listeners under its key are told of.
pub trait Event {
    /// The key of the listeners that hear of the event.
    fn key(&self) -> EventKey;
}

/// A message sent to a channel.
#[derive(Debug)]
pub struct ChannelMessage {
    pub channel: String,
    pub data: String,
}

/// A message was sent to a channel.
#[derive(Debug)]
pub struct ChannelMessageSended {
    pub message: ChannelMessage,
}

impl Event for ChannelMessageSended {
    /// The listeners of the channel hear of it.
    fn key(&self) -> (k: EventKey)
        ensures
            k@ == EventKeyView::Channel(self.message.channel@),
    {
        EventKey::Channel(self.message.channel.clone())
    }
}

/// A user is to be moved away from a server.
#[derive(Debug)]
pub struct UserTransferRequested {
    pub transfer: Transfer,
}

impl Event for UserTransferRequested {
    /// The listeners for transfers away from the server the user leaves
    /// hear of it.
    fn key(&self) -> (k: EventKey)
        ensures
            k@ == EventKeyView::Transfer(self.transfer.from.uuid),
    {
        EventKey::Transfer(self.transfer.from.uuid)
    }
}

/// A listener as the bus knows it.
#[derive(Debug)]
pub struct RegisteredListener {
    pub key: EventKey,
    /// The server the listener belongs to, if any.
    pub server: Option<u128>,
    /// The id the caller keeps the listener under.
    pub listener: u64,
}

/// Some server of the list has this uuid.
pub open spec fn alive(s: Seq<Server>, uuid: u128) -> bool {
    exists|i: int| 0 <= i < s.len() && s[i].uuid == uuid
}

/// A listener that goes when the server leaves: it belongs to that server or
/// to a server that is gone.
pub open spec fn bound_to_gone(l: RegisteredListener, server: u128, live: Seq<Server>) -> bool {
    l.server matches Some(s) && (s == server || !alive(live, s))
}

/// The listeners that stay when those of `server` (and of servers that are
/// gone) leave, under the key if one is given.
pub open spec fn keeps(key: Option<EventKeyView>, server: u128, live: Seq<Server>) -> spec_fn(
    RegisteredListener,
) -> bool {
    |l: RegisteredListener|
        !(match key {
            Some(k) => l.key@ == k,
            None => true,
        } && bound_to_gone(l, server, live))
}

/// A listener hears the events posted under its key: after it registered,
/// the listeners posted to under that key include it.
pub proof fn law_registered_listener_hears(
    l0: Seq<RegisteredListener>,
    l1: Seq<RegisteredListener>,
    key: EventKey,
    server: Option<u128>,
    id: u64,
)
    requires
        l1 == l0.push(RegisteredListener { key, server, listener: id }),
    ensures
        l1.filter(|l: RegisteredListener| l.key@ == key@).map_values(
            |l: RegisteredListener| l.listener,
        ).contains(id),
{
    let p = |l: RegisteredListener| l.key@ == key@;
    crate::facts::lemma_filter_push(l0, p, RegisteredListener { key, server, listener: id });
    let f = l1.filter(p);
    let m = f.map_values(|l: RegisteredListener| l.listener);
    assert(f.len() > 0 && f.last().listener == id);
    assert(m[f.len() - 1] == id);
}

/// The listeners, in the order they registered.
pub struct EventBus {
    listeners: Vec<RegisteredListener>,
    next_listener: u64,
}

impl EventBus {
    pub closed spec fn listeners(&self) -> Seq<RegisteredListener> {
        self.listeners@
    }

    /// The id the next listener receives.
    pub closed spec fn next_id(&self) -> u64 {
        self.next_listener
    }

    /// No listeners.
    pub fn new() -> (r: Self)
        ensures
            r.listeners() == Seq::<RegisteredListener>::empty(),
            r.next_id() == 0,
    {
        EventBus { listeners: Vec::new(), next_listener: 0 }
    }

    /// Registers a listener under the key and returns its id.
    pub fn register_listener(&mut self, key: EventKey) -> (id: u64)
        requires
            old(self).next_id() < u64::MAX,
        ensures
            id == old(self).next_id(),
            final(self).next_id() == id + 1,
            final(self).listeners() == old(self).listeners().push(
                RegisteredListener { key, server: None, listener: id },
            ),
    {
        let id = self.next_listener;
        self.next_listener = self.next_listener + 1;
        self.listeners.push(RegisteredListener { key, server: None, listener: id });
        id
    }

    /// Registers a listener of the server under the key and returns its id.
    pub fn register_listener_with_server(&mut self, key: EventKey, server: u128) -> (id: u64)
        requires
            old(self).next_id() < u64::MAX,
        ensures
            id == old(self).next_id(),
            final(self).next_id() == id + 1,
            final(self).listeners() == old(self).listeners().push(
                RegisteredListener { key, server: Some(server), listener: id },
            ),
    {
        let id = self.next_listener;
        self.next_listener = self.next_listener + 1;
        self.listeners.push(RegisteredListener { key, server: Some(server), listener: id });
        id
    }

    /// Removes, under the key, the listeners of the server and of servers
    /// that are gone.
    pub fn unregister_listener(&mut self, key: &EventKey, server: u128, servers: &Servers)
        ensures
            final(self).next_id() == old(self).next_id(),
            final(self).listeners() == old(self).listeners().filter(
                |l: RegisteredListener|
                    !(l.key@ == key@ && bound_to_gone(l, server, servers.servers())),
            ),
    {
        self.retain_listeners(Some(key), server, servers);
        proof {
            let p2 = |l: RegisteredListener|
                !(l.key@ == key@ && bound_to_gone(l, server, servers.servers()));
            assert(keeps(Some(key@), server, servers.servers()) =~= p2);
        }
    }

    /// Removes the listeners of the server and of servers that are gone.
    pub fn cleanup_server(&mut self, server: u128, servers: &Servers)
        ensures
            final(self).next_id() == old(self).next_id(),
            final(self).listeners() == old(self).listeners().filter(
                |l: RegisteredListener| !bound_to_gone(l, server, servers.servers()),
            ),
    {
        self.retain_listeners(None, server, servers);
        proof {
            let p2 = |l: RegisteredListener| !bound_to_gone(l, server, servers.servers());
            assert(keeps(None, server, servers.servers()) =~= p2);
        }
    }

    fn retain_listeners(&mut self, key: Option<&EventKey>, server: u128, servers: &Servers)
        ensures
            final(self).next_id() == old(self).next_id(),
            final(self).listeners() == old(self).listeners().filter(
                keeps(
                    match key {
                        Some(k) => Some(k@),
                        None => None,
                    },
                    server,
                    servers.servers(),
                ),
            ),
    {
        let ghost before = self.listeners@;
        let ghost pred = keeps(
            match key {
                Some(k) => Some(k@),
                None => None,
            },
            server,
            servers.servers(),
        );
        let mut all = Vec::new();
        std::mem::swap(&mut all, &mut self.listeners);
        let mut rest = crate::facts::reversed(all);
        let mut kept: Vec<RegisteredListener> = Vec::new();
        let mut i: usize = 0;
        proof {
            assert(rest@ =~= before.skip(0).reverse());
            assert(before.len() == rest.len());
        }
        while rest.len() > 0
            invariant
                rest@ == before.skip(i as int).reverse(),
                i + rest@.len() == before.len(),
                before.len() <= usize::MAX,
                pred == keeps(
                    match key {
                        Some(k) => Some(k@),
                        None => None,
                    },
                    server,
                    servers.servers(),
                ),
                kept@ == before.take(i as int).filter(pred),
                self.next_listener == old(self).next_listener,
            decreases rest@.len(),
        {
            let l = rest.pop().unwrap();
            proof {
                assert(l == before[i as int]);
                crate::facts::lemma_filter_take_succ(before, pred, i as int);
                assert(rest@ =~= before.skip(i + 1).reverse());
            }
            let key_matches = match key {
                Some(k) => l.key.same(k),
                None => true,
            };
            let gone = match l.server {
                Some(s) => s == server || !servers.contains(s),
                None => false,
            };
            if !(key_matches && gone) {
                kept.push(l);
            }
            i = i + 1;
        }
        proof {
            assert(before.take(before.len() as int) =~= before);
        }
        self.listeners = kept;
    }

    /// The ids of the listeners registered under the key, in the order they
    /// registered; posting an event calls each of them, and their number is
    /// the count the event reached.
    pub fn post(&self, key: &EventKey) -> (ids: Vec<u64>)
        ensures
            ids@ == self.listeners().filter(|l: RegisteredListener| l.key@ == key@).map_values(
                |l: RegisteredListener| l.listener,
            ),
    {
        let ghost pred = |l: RegisteredListener| l.key@ == key@;
        let ghost to_id = |l: RegisteredListener| l.listener;
        let mut ids: Vec<u64> = Vec::new();
        let mut i: usize = 0;
        while i < self.listeners.len()
            invariant
                0 <= i <= self.listeners@.len(),
                pred == (|l: RegisteredListener| l.key@ == key@),
                to_id == (|l: RegisteredListener| l.listener),
                ids@ == self.listeners@.take(i as int).filter(pred).map_values(to_id),
            decreases self.listeners@.len() - i,
        {
            proof {
                crate::facts::lemma_filter_take_succ(self.listeners@, pred, i as int);
            }
            if self.listeners[i].key.same(key) {
                ids.push(self.listeners[i].listener);
                proof {
                    assert(ids@ =~= self.listeners@.take(i + 1).filter(pred).map_values(to_id));
                }
            }
            i = i + 1;
        }
        proof {
            assert(self.listeners@.take(self.listeners@.len() as int) =~= self.listeners@);
        }
        ids
    }

    /// The ids of the listeners of the channel the message is sent on.
    pub fn post_channel_message(&self, channel: &str) -> (ids: Vec<u64>)
        ensures
            ids@ == self.listeners().filter(
                |l: RegisteredListener| l.key@ == EventKeyView::Channel(channel@),
            ).map_values(|l: RegisteredListener| l.listener),
    {
        let key = EventKey::Channel(channel.to_owned());
        proof {
            let p1 = |l: RegisteredListener| l.key@ == key@;
            let p2 = |l: RegisteredListener| l.key@ == EventKeyView::Channel(channel@);
            assert(p1 =~= p2);
        }
        self.post(&key)
    }
}

} // verus!
