//! Named channels that servers subscribe to. The senders that reach the
//! subscribers are kept by the caller under the ids stored here.

use vstd::prelude::*;

use crate::event::alive;
use crate::server::{Server, Servers};
use crate::text::same_text;

verus! {

/// A subscription of a server to a channel.
#[derive(Debug, Clone, Copy, PartialEq, Eq, Structural)]
pub struct ChannelSubscriber {
    pub server: u128,
    /// The id the caller keeps the sender under.
    pub sender: u64,
}

impl ChannelSubscriber {
    pub fn new(server: u128, sender: u64) -> (r: Self)
        ensures
            r == (ChannelSubscriber { server, sender }),
    {
        ChannelSubscriber { server, sender }
    }
}

/// A subscription that stays when `server` leaves: one of a server that is
/// still there and is not `server`.
pub open spec fn stays_subscribed(c: ChannelSubscriber, server: u128, live: Seq<Server>) -> bool {
    c.server != server && alive(live, c.server)
}

/// The subscribers of one channel, in the order they subscribed.
#[derive(Debug)]
pub struct Channel {
    pub subscribers: Vec<ChannelSubscriber>,
}

impl Channel {
    /// A channel without subscribers.
    pub fn new() -> (r: Self)
        ensures
            r.subscribers@ == Seq::<ChannelSubscriber>::empty(),
    {
        Channel { subscribers: Vec::new() }
    }

    pub fn subscribe(&mut self, subscriber: ChannelSubscriber)
        ensures
            final(self).subscribers@ == old(self).subscribers@.push(subscriber),
    {
        self.subscribers.push(subscriber);
    }

    /// Drops the subscriptions of the server and of servers that are gone.
    pub fn unsubscribe(&mut self, server: u128, servers: &Servers)
        ensures
            final(self).subscribers@ == old(self).subscribers@.filter(
                |c: ChannelSubscriber| stays_subscribed(c, server, servers.servers()),
            ),
    {
        let ghost before = self.subscribers@;
        let ghost pred = |c: ChannelSubscriber| stays_subscribed(c, server, servers.servers());
        let mut kept: Vec<ChannelSubscriber> = Vec::new();
        let mut i: usize = 0;
        while i < self.subscribers.len()
            invariant
                self.subscribers@ == before,
                0 <= i <= before.len(),
                pred == (|c: ChannelSubscriber| stays_subscribed(c, server, servers.servers())),
                kept@ == before.take(i as int).filter(pred),
            decreases before.len() - i,
        {
            proof {
                crate::facts::lemma_filter_take_succ(before, pred, i as int);
            }
            let c = self.subscribers[i];
            if c.server != server && servers.contains(c.server) {
                kept.push(c);
            }
            i = i + 1;
        }
        proof {
            assert(before.take(before.len() as int) =~= before);
        }
        self.subscribers = kept;
    }

    /// The senders to hand the message to, one per subscriber; their number
    /// is the count the message reached, whether or not a send succeeds.
    pub fn send_to_all(&self) -> (senders: Vec<u64>)
        ensures
            senders@ == self.subscribers@.map_values(|c: ChannelSubscriber| c.sender),
    {
        let mut senders: Vec<u64> = Vec::new();
        let mut i: usize = 0;
        while i < self.subscribers.len()
            invariant
                0 <= i <= self.subscribers@.len(),
                senders@ == self.subscribers@.take(i as int).map_values(
                    |c: ChannelSubscriber| c.sender,
                ),
            decreases self.subscribers@.len() - i,
        {
            senders.push(self.subscribers[i].sender);
            proof {
                assert(senders@ =~= self.subscribers@.take(i + 1).map_values(
                    |c: ChannelSubscriber| c.sender,
                ));
            }
            i = i + 1;
        }
        proof {
            assert(self.subscribers@.take(self.subscribers@.len() as int) =~= self.subscribers@);
        }
        senders
    }
}

/// The channels by name.
pub struct Channels {
    channels: Vec<(String, Channel)>,
}

/// The channel names are distinct.
pub open spec fn channel_names_distinct(c: Seq<(String, Channel)>) -> bool {
    forall|i: int, j: int| 0 <= i < j < c.len() ==> c[i].0@ != c[j].0@
}

/// The subscribers of the channel with the given name, if there is one.
pub open spec fn subscribers_of(c: Seq<(String, Channel)>, name: Seq<char>) -> Option<
    Seq<ChannelSubscriber>,
> {
    if exists|i: int| 0 <= i < c.len() && c[i].0@ == name {
        Some(c[choose|i: int| 0 <= i < c.len() && c[i].0@ == name].1.subscribers@)
    } else {
        None
    }
}

/// A message broadcast on a channel reaches whoever subscribed to it: after
/// a subscription, the senders of the channel include the subscriber's.
pub proof fn law_subscriber_hears_broadcast(
    c0: Seq<(String, Channel)>,
    c1: Seq<(String, Channel)>,
    name: Seq<char>,
    subscriber: ChannelSubscriber,
)
    requires
        subscribers_of(c1, name) == Some(
            match subscribers_of(c0, name) {
                Some(s) => s.push(subscriber),
                None => seq![subscriber],
            },
        ),
    ensures
        (match subscribers_of(c1, name) {
            Some(s) => s.map_values(|c: ChannelSubscriber| c.sender),
            None => Seq::<u64>::empty(),
        }).contains(subscriber.sender),
{
    let s = match subscribers_of(c1, name) {
        Some(s) => s,
        None => Seq::<ChannelSubscriber>::empty(),
    };
    let m = s.map_values(|c: ChannelSubscriber| c.sender);
    assert(s.len() > 0 && s.last() == subscriber);
    assert(m[s.len() - 1] == subscriber.sender);
}

impl Channels {
    pub closed spec fn channels(&self) -> Seq<(String, Channel)> {
        self.channels@
    }

    pub closed spec fn wf(&self) -> bool {
        channel_names_distinct(self.channels@)
    }

    /// No channels.
    pub fn new() -> (r: Self)
        ensures
            r.wf(),
            r.channels() == Seq::<(String, Channel)>::empty(),
    {
        Channels { channels: Vec::new() }
    }

    fn position(&self, name: &str) -> (r: Option<usize>)
        ensures
            r is None ==> forall|i: int|
                0 <= i < self.channels@.len() ==> #[trigger] self.channels@[i].0@ != name@,
            r matches Some(i) ==> i < self.channels@.len() && self.channels@[i as int].0@ == name@,
    {
        let mut i: usize = 0;
        while i < self.channels.len()
            invariant
                0 <= i <= self.channels@.len(),
                forall|j: int| 0 <= j < i ==> #[trigger] self.channels@[j].0@ != name@,
            decreases self.channels@.len() - i,
        {
            if same_text(&self.channels[i].0, name) {
                return Some(i);
            }
            i = i + 1;
        }
        None
    }

    /// Subscribes to the channel, which is made if it does not exist.
    pub fn subscribe_to_channel(&mut self, name: &str, subscriber: ChannelSubscriber)
        requires
            old(self).wf(),
        ensures
            final(self).wf(),
            subscribers_of(final(self).channels(), name@) == Some(
                match subscribers_of(old(self).channels(), name@) {
                    Some(s) => s.push(subscriber),
                    None => seq![subscriber],
                },
            ),
            forall|other: Seq<char>|
                other != name@ ==> #[trigger] subscribers_of(final(self).channels(), other)
                    == subscribers_of(old(self).channels(), other),
    {
        let ghost before = self.channels@;
        match self.position(name) {
            Some(i) => {
                let (n, mut channel) = self.channels.remove(i);
                channel.subscribe(subscriber);
                self.channels.insert(i, (n, channel));
                proof {
                    let after = self.channels@;
                    assert(after == before.update(i as int, after[i as int]));
                    assert(subscribers_of(before, name@) == Some(before[i as int].1.subscribers@))
                        by {
                        let k = choose|k: int| 0 <= k < before.len() && before[k].0@ == name@;
                        assert(k == i);
                    }
                    assert(subscribers_of(after, name@) == Some(after[i as int].1.subscribers@))
                        by {
                        let k = choose|k: int| 0 <= k < after.len() && after[k].0@ == name@;
                        assert(k == i);
                    }
                    assert forall|other: Seq<char>| other != name@ implies #[trigger] subscribers_of(
                        after,
                        other,
                    ) == subscribers_of(before, other) by {
                        if exists|k: int| 0 <= k < before.len() && before[k].0@ == other {
                            let k1 = choose|k: int| 0 <= k < before.len() && before[k].0@ == other;
                            assert(after[k1].0@ == other);
                            let k2 = choose|k: int| 0 <= k < after.len() && after[k].0@ == other;
                            assert(k1 == k2);
                        } else {
                            if exists|k: int| 0 <= k < after.len() && after[k].0@ == other {
                                let k2 = choose|k: int| 0 <= k < after.len() && after[k].0@ == other;
                                assert(before[k2].0@ == other);
                            }
                        }
                    }
                }
            },
            None => {
                let mut channel = Channel::new();
                channel.subscribe(subscriber);
                self.channels.push((name.to_owned(), channel));
                proof {
                    let after = self.channels@;
                    let n = before.len() as int;
                    assert(after[n].1.subscribers@ =~= seq![subscriber]);
                    assert(subscribers_of(after, name@) == Some(after[n].1.subscribers@)) by {
                        let k = choose|k: int| 0 <= k < after.len() && after[k].0@ == name@;
                        assert(k == n);
                    }
                    assert forall|other: Seq<char>| other != name@ implies #[trigger] subscribers_of(
                        after,
                        other,
                    ) == subscribers_of(before, other) by {
                        if exists|k: int| 0 <= k < before.len() && before[k].0@ == other {
                            let k1 = choose|k: int| 0 <= k < before.len() && before[k].0@ == other;
                            assert(after[k1].0@ == other);
                            let k2 = choose|k: int| 0 <= k < after.len() && after[k].0@ == other;
                            assert(k1 == k2);
                        } else {
                            if exists|k: int| 0 <= k < after.len() && after[k].0@ == other {
                                let k2 = choose|k: int| 0 <= k < after.len() && after[k].0@ == other;
                                assert(before[k2].0@ == other);
                            }
                        }
                    }
                }
            },
        }
    }

    /// Drops, from the channel, the subscriptions of the server and of
    /// servers that are gone.
    pub fn unsubscribe_from_channel(&mut self, name: &str, server: u128, servers: &Servers)
        requires
            old(self).wf(),
        ensures
            final(self).wf(),
            subscribers_of(final(self).channels(), name@) == match subscribers_of(
                old(self).channels(),
                name@,
            ) {
                Some(s) => Some(
                    s.filter(|c: ChannelSubscriber| stays_subscribed(c, server, servers.servers())),
                ),
                None => None,
            },
            forall|other: Seq<char>|
                other != name@ ==> #[trigger] subscribers_of(final(self).channels(), other)
                    == subscribers_of(old(self).channels(), other),
    {
        let ghost before = self.channels@;
        match self.position(name) {
            Some(i) => {
                let (n, mut channel) = self.channels.remove(i);
                channel.unsubscribe(server, servers);
                self.channels.insert(i, (n, channel));
                proof {
                    let after = self.channels@;
                    assert(after == before.update(i as int, after[i as int]));
                    assert(subscribers_of(before, name@) == Some(before[i as int].1.subscribers@))
                        by {
                        let k = choose|k: int| 0 <= k < before.len() && before[k].0@ == name@;
                        assert(k == i);
                    }
                    assert(subscribers_of(after, name@) == Some(after[i as int].1.subscribers@))
                        by {
                        let k = choose|k: int| 0 <= k < after.len() && after[k].0@ == name@;
                        assert(k == i);
                    }
                    assert forall|other: Seq<char>| other != name@ implies #[trigger] subscribers_of(
                        after,
                        other,
                    ) == subscribers_of(before, other) by {
                        if exists|k: int| 0 <= k < before.len() && before[k].0@ == other {
                            let k1 = choose|k: int| 0 <= k < before.len() && before[k].0@ == other;
                            assert(after[k1].0@ == other);
                            let k2 = choose|k: int| 0 <= k < after.len() && after[k].0@ == other;
                            assert(k1 == k2);
                        } else {
                            if exists|k: int| 0 <= k < after.len() && after[k].0@ == other {
                                let k2 = choose|k: int| 0 <= k < after.len() && after[k].0@ == other;
                                assert(before[k2].0@ == other);
                            }
                        }
                    }
                }
            },
            None => {},
        }
    }

    /// Drops, from every channel, the subscriptions of the server and of
    /// servers that are gone.
    pub fn cleanup_subscribers(&mut self, server: u128, servers: &Servers)
        requires
            old(self).wf(),
        ensures
            final(self).wf(),
            final(self).channels().len() == old(self).channels().len(),
            forall|i: int|
                0 <= i < final(self).channels().len() ==> {
                    &&& #[trigger] final(self).channels()[i].0@ == old(self).channels()[i].0@
                    &&& final(self).channels()[i].1.subscribers@ == old(
                        self,
                    ).channels()[i].1.subscribers@.filter(
                        |c: ChannelSubscriber| stays_subscribed(c, server, servers.servers()),
                    )
                },
    {
        let ghost before = self.channels@;
        let mut i: usize = 0;
        while i < self.channels.len()
            invariant
                self.channels@.len() == before.len(),
                0 <= i <= before.len(),
                channel_names_distinct(before),
                forall|j: int|
                    0 <= j < before.len() ==> #[trigger] self.channels@[j].0@ == before[j].0@,
                forall|j: int|
                    0 <= j < i ==> #[trigger] self.channels@[j].1.subscribers@
                        == before[j].1.subscribers@.filter(
                        |c: ChannelSubscriber| stays_subscribed(c, server, servers.servers()),
                    ),
                forall|j: int| i <= j < before.len() ==> #[trigger] self.channels@[j] == before[j],
            decreases before.len() - i,
        {
            let (n, mut channel) = self.channels.remove(i);
            channel.unsubscribe(server, servers);
            self.channels.insert(i, (n, channel));
            i = i + 1;
        }
    }

    /// The senders of the subscribers of the channel, one per subscriber;
    /// none when there is no such channel.
    pub fn broadcast_to_channel(&self, channel: &str) -> (senders: Vec<u64>)
        requires
            self.wf(),
        ensures
            senders@ == match subscribers_of(self.channels(), channel@) {
                Some(s) => s.map_values(|c: ChannelSubscriber| c.sender),
                None => Seq::<u64>::empty(),
            },
    {
        match self.position(channel) {
            Some(i) => {
                proof {
                    let k = choose|k: int|
                        0 <= k < self.channels@.len() && self.channels@[k].0@ == channel@;
                    assert(k == i);
                }
                self.channels[i].1.send_to_all()
            },
            None => Vec::new(),
        }
    }
}

} // verus!
