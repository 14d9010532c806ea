//! When a server or unit has to check in next.

use vstd::prelude::*;

verus! {

/// The deadline by which a server must check in, and the time it gets
/// between two check-ins. Times are milliseconds of a monotonic clock.
#[derive(Clone, Copy, Debug, PartialEq, Eq, Structural)]
pub struct Health {
    pub next_checkin: u64,
    pub timeout: u64,
}

impl Health {
    pub open spec fn new_spec(now: u64, startup_time: u64, timeout: u64) -> Health {
        Health { next_checkin: (now + startup_time) as u64, timeout }
    }

    pub open spec fn reset_spec(self, now: u64) -> Health {
        Health { next_checkin: (now + self.timeout) as u64, timeout: self.timeout }
    }

    pub open spec fn is_dead_spec(self, now: u64) -> bool {
        now > self.next_checkin
    }

    /// A server that checks in is alive until its timeout has passed, and
    /// dead once it has.
    pub proof fn law_check_in_keeps_alive(h: Health, now: u64, later: u64)
        requires
            now + h.timeout <= u64::MAX,
        ensures
            h.reset_spec(now).is_dead_spec(later) <==> later > now + h.timeout,
    {
    }

    /// A new server has its startup time to check in for the first time,
    /// and is dead once that has passed.
    pub proof fn law_startup_grace(now: u64, startup_time: u64, timeout: u64, later: u64)
        requires
            now + startup_time <= u64::MAX,
        ensures
            Self::new_spec(now, startup_time, timeout).is_dead_spec(later) <==> later > now
                + startup_time,
    {
    }

    /// A health that expects the first check-in `startup_time` after `now`
    /// and then one every `timeout`.
    pub fn new(now: u64, startup_time: u64, timeout: u64) -> (r: Self)
        requires
            now + startup_time <= u64::MAX,
        ensures
            r == Self::new_spec(now, startup_time, timeout),
            r.next_checkin == now + startup_time,
    {
        Health { next_checkin: now + startup_time, timeout }
    }

    /// A check-in at `now`: the next one is due `timeout` later.
    pub fn reset(&mut self, now: u64)
        requires
            now + old(self).timeout <= u64::MAX,
        ensures
            *final(self) == old(self).reset_spec(now),
            final(self).next_checkin == now + old(self).timeout,
    {
        self.next_checkin = now + self.timeout;
    }

    /// Whether the deadline has passed at `now`.
    pub fn is_dead(&self, now: u64) -> (r: bool)
        ensures
            r == self.is_dead_spec(now),
            r == (now > self.next_checkin),
    {
        now > self.next_checkin
    }
}

} // verus!
