//! Who hears of what: subscribers that hear of everything a watcher
//! publishes, and subscribers that hear only of what is published to one
//! scope (a server's transfers, a channel). Subscribers are named by ids;
//! the caller holds their streams, sends to the ids handed back, and tells
//! which subscribers have gone away.

use vstd::prelude::*;

use crate::event::{EventKey, EventKeyView};

verus! {

/// The ids of the scoped subscribers, in the order they subscribed, that
/// subscribed to the scope `k`.
pub open spec fn ids_in(s: Seq<(EventKey, u64)>, k: EventKeyView) -> Seq<u64>
    decreases s.len(),
{
    if s.len() == 0 {
        Seq::empty()
    } else {
        let rest = ids_in(s.drop_last(), k);
        if s.last().0@ == k {
            rest.push(s.last().1)
        } else {
            rest
        }
    }
}

/// The subscribers of one kind of message.
#[derive(Debug)]
pub struct Watcher {
    everything: Vec<u64>,
    scoped: Vec<(EventKey, u64)>,
}

impl Watcher {
    /// The subscribers that hear of everything, in the order they came.
    pub closed spec fn everything(&self) -> Seq<u64> {
        self.everything@
    }

    /// The scoped subscriptions, in the order they came.
    pub closed spec fn scoped(&self) -> Seq<(EventKey, u64)> {
        self.scoped@
    }

    /// No subscriber yet.
    pub fn new() -> (r: Self)
        ensures
            r.everything() == Seq::<u64>::empty(),
            r.scoped() == Seq::<(EventKey, u64)>::empty(),
    {
        Watcher { everything: Vec::new(), scoped: Vec::new() }
    }

    /// The subscriber hears of everything from now on.
    pub fn subscribe(&mut self, id: u64)
        ensures
            final(self).everything() == old(self).everything().push(id),
            final(self).scoped() == old(self).scoped(),
    {
        self.everything.push(id);
    }

    /// The subscriber hears of what is published to the scope.
    pub fn subscribe_to_scope(&mut self, scope: EventKey, id: u64)
        ensures
            final(self).everything() == old(self).everything(),
            final(self).scoped() == old(self).scoped().push((scope, id)),
    {
        self.scoped.push((scope, id));
    }

    /// Who is handed a message for everyone: the subscribers to everything.
    pub fn publish(&self) -> (r: Vec<u64>)
        ensures
            r@ == self.everything(),
    {
        let mut r: Vec<u64> = Vec::new();
        let mut i: usize = 0;
        while i < self.everything.len()
            invariant
                0 <= i <= self.everything@.len(),
                r@ == self.everything@.take(i as int),
            decreases self.everything@.len() - i,
        {
            r.push(self.everything[i]);
            proof {
                assert(r@ =~= self.everything@.take(i + 1));
            }
            i = i + 1;
        }
        proof {
            assert(self.everything@.take(self.everything@.len() as int) =~= self.everything@);
        }
        r
    }

    /// Who is handed a message published to the scope: its subscribers, in
    /// the order they came, then the subscribers to everything. The message
    /// counts as many deliveries as sends to these ids succeed.
    pub fn publish_to_scope(&self, scope: &EventKey) -> (r: Vec<u64>)
        ensures
            r@ == ids_in(self.scoped(), scope@) + self.everything(),
    {
        let mut r: Vec<u64> = Vec::new();
        let mut i: usize = 0;
        while i < self.scoped.len()
            invariant
                0 <= i <= self.scoped@.len(),
                r@ == ids_in(self.scoped@.take(i as int), scope@),
            decreases self.scoped@.len() - i,
        {
            proof {
                assert(self.scoped@.take(i + 1).drop_last() =~= self.scoped@.take(i as int));
            }
            if self.scoped[i].0.same(scope) {
                r.push(self.scoped[i].1);
            }
            i = i + 1;
        }
        proof {
            assert(self.scoped@.take(self.scoped@.len() as int) =~= self.scoped@);
        }
        let mut all = self.publish();
        r.append(&mut all);
        r
    }

    /// The subscribers that have gone away, named by `gone`, are dropped,
    /// from everything and from every scope.
    pub fn cleanup(&mut self, gone: &Vec<u64>)
        ensures
            final(self).everything() == old(self).everything().filter(|id: u64| !gone@.contains(id)),
            final(self).scoped() == old(self).scoped().filter(
                |p: (EventKey, u64)| !gone@.contains(p.1),
            ),
    {
        let ghost keep = |id: u64| !gone@.contains(id);
        let mut kept: Vec<u64> = Vec::new();
        let mut i: usize = 0;
        while i < self.everything.len()
            invariant
                0 <= i <= self.everything@.len(),
                self.everything@ == old(self).everything@,
                self.scoped@ == old(self).scoped@,
                keep == (|id: u64| !gone@.contains(id)),
                kept@ == self.everything@.take(i as int).filter(keep),
            decreases self.everything@.len() - i,
        {
            proof {
                crate::facts::lemma_filter_take_succ(self.everything@, keep, i as int);
            }
            let id = self.everything[i];
            if !contains_id(gone, id) {
                kept.push(id);
            }
            i = i + 1;
        }
        proof {
            assert(self.everything@.take(self.everything@.len() as int) =~= self.everything@);
        }
        self.everything = kept;
        let ghost keep_pair = |p: (EventKey, u64)| !gone@.contains(p.1);
        let mut all = Vec::new();
        std::mem::swap(&mut all, &mut self.scoped);
        let ghost before = all@;
        let mut rest = crate::facts::reversed(all);
        let mut kept_pairs: Vec<(EventKey, u64)> = Vec::new();
        let mut j: usize = 0;
        proof {
            assert(rest@ =~= before.skip(0).reverse());
            assert(before.len() == rest.len());
        }
        while rest.len() > 0
            invariant
                rest@ == before.skip(j as int).reverse(),
                j + rest@.len() == before.len(),
                before.len() <= usize::MAX,
                before == old(self).scoped@,
                keep_pair == (|p: (EventKey, u64)| !gone@.contains(p.1)),
                kept_pairs@ == before.take(j as int).filter(keep_pair),
            decreases rest@.len(),
        {
            let p = rest.pop().unwrap();
            proof {
                assert(p == before[j as int]);
                crate::facts::lemma_filter_take_succ(before, keep_pair, j as int);
                assert(rest@ =~= before.skip(j + 1).reverse());
            }
            if !contains_id(gone, p.1) {
                kept_pairs.push(p);
            }
            j = j + 1;
        }
        proof {
            assert(before.take(before.len() as int) =~= before);
        }
        self.scoped = kept_pairs;
    }
}

/// Whether the id is among the ids.
fn contains_id(ids: &Vec<u64>, id: u64) -> (r: bool)
    ensures
        r == ids@.contains(id),
{
    let mut i: usize = 0;
    while i < ids.len()
        invariant
            0 <= i <= ids@.len(),
            forall|j: int| 0 <= j < i ==> ids@[j] != id,
        decreases ids@.len() - i,
    {
        if ids[i] == id {
            return true;
        }
        i = i + 1;
    }
    false
}

/// The watchers of the controller: transfers, channel messages, power and
/// ready changes for the network, and server starts, stops and ready
/// changes for plugins.
#[derive(Debug)]
pub struct SubscriberManager {
    pub transfer: Watcher,
    pub channel: Watcher,
    pub power: Watcher,
    pub ready: Watcher,
    pub server_start: Watcher,
    pub server_stop: Watcher,
    pub server_change_ready: Watcher,
}

/// The watcher without the subscribers named by `gone`.
pub open spec fn cleaned(w0: Watcher, w1: Watcher, gone: Seq<u64>) -> bool {
    &&& w1.everything() == w0.everything().filter(|id: u64| !gone.contains(id))
    &&& w1.scoped() == w0.scoped().filter(|p: (EventKey, u64)| !gone.contains(p.1))
}

impl SubscriberManager {
    /// Every watcher without subscribers.
    pub fn init() -> (r: Self)
        ensures
            r.transfer.everything().len() == 0 && r.transfer.scoped().len() == 0,
            r.channel.everything().len() == 0 && r.channel.scoped().len() == 0,
            r.power.everything().len() == 0 && r.power.scoped().len() == 0,
            r.ready.everything().len() == 0 && r.ready.scoped().len() == 0,
            r.server_start.everything().len() == 0 && r.server_start.scoped().len() == 0,
            r.server_stop.everything().len() == 0 && r.server_stop.scoped().len() == 0,
            r.server_change_ready.everything().len() == 0
                && r.server_change_ready.scoped().len() == 0,
    {
        SubscriberManager {
            transfer: Watcher::new(),
            channel: Watcher::new(),
            power: Watcher::new(),
            ready: Watcher::new(),
            server_start: Watcher::new(),
            server_stop: Watcher::new(),
            server_change_ready: Watcher::new(),
        }
    }

    /// Every watcher drops the subscribers that have gone away.
    pub fn tick(&mut self, gone: &Vec<u64>)
        ensures
            cleaned(old(self).transfer, final(self).transfer, gone@),
            cleaned(old(self).channel, final(self).channel, gone@),
            cleaned(old(self).power, final(self).power, gone@),
            cleaned(old(self).ready, final(self).ready, gone@),
            cleaned(old(self).server_start, final(self).server_start, gone@),
            cleaned(old(self).server_stop, final(self).server_stop, gone@),
            cleaned(old(self).server_change_ready, final(self).server_change_ready, gone@),
    {
        self.channel.cleanup(gone);
        self.transfer.cleanup(gone);
        self.power.cleanup(gone);
        self.ready.cleanup(gone);
        self.server_start.cleanup(gone);
        self.server_stop.cleanup(gone);
        self.server_change_ready.cleanup(gone);
    }
}

} // verus!
