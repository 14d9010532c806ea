//! Allocation of the small numeric ids that name the servers of a group.
//!
//! Ids start at 1. A released id is handed out again before any fresh one,
//! the smallest released id first.

use vstd::prelude::*;

verus! {

/// Hands out ids that are unique among the ids currently in use.
#[derive(Debug)]
pub struct IdAllocator {
    next_id: usize,
    /// Released ids, strictly ascending.
    available_ids: Vec<usize>,
    /// Ids currently handed out.
    active_ids: Vec<usize>,
}

/// `s` is strictly ascending.
pub open spec fn strictly_ascending(s: Seq<usize>) -> bool {
    forall|i: int, j: int| 0 <= i < j < s.len() ==> s[i] < s[j]
}

impl IdAllocator {
    /// The next id that has never been handed out.
    pub closed spec fn next(&self) -> nat {
        self.next_id as nat
    }

    /// The released ids, smallest first.
    pub closed spec fn available(&self) -> Seq<usize> {
        self.available_ids@
    }

    /// The ids currently in use.
    pub closed spec fn active(&self) -> Set<usize> {
        self.active_ids@.to_set()
    }

    pub closed spec fn wf(&self) -> bool {
        &&& 1 <= self.next_id
        &&& strictly_ascending(self.available_ids@)
        &&& self.active_ids@.no_duplicates()
        &&& forall|i: int|
            0 <= i < self.available_ids@.len() ==> 1 <= #[trigger] self.available_ids@[i]
                < self.next_id
        &&& forall|i: int|
            0 <= i < self.active_ids@.len() ==> 1 <= #[trigger] self.active_ids@[i] < self.next_id
        &&& forall|i: int, j: int|
            0 <= i < self.available_ids@.len() && 0 <= j < self.active_ids@.len()
                ==> self.available_ids@[i] != self.active_ids@[j]
    }

    /// Every id that is in use or released is below the next fresh id, and no
    /// id is both in use and released.
    pub proof fn lemma_wf(&self)
        requires
            self.wf(),
        ensures
            self.next() >= 1,
            strictly_ascending(self.available()),
            forall|id: usize| #[trigger] self.active().contains(id) ==> 1 <= id < self.next(),
            forall|id: usize|
                #[trigger] self.available().contains(id) ==> 1 <= id < self.next()
                    && !self.active().contains(id),
    {
        assert forall|id: usize| #[trigger] self.active().contains(id) implies 1 <= id
            < self.next() by {
            let k = choose|k: int| 0 <= k < self.active_ids@.len() && self.active_ids@[k] == id;
            assert(self.active_ids@[k] == id);
        }
        assert forall|id: usize| #[trigger] self.available().contains(id) implies 1 <= id
            < self.next() && !self.active().contains(id) by {
            let k = choose|k: int|
                0 <= k < self.available_ids@.len() && self.available_ids@[k] == id;
            assert(self.available_ids@[k] == id);
            if self.active().contains(id) {
                let m = choose|m: int| 0 <= m < self.active_ids@.len() && self.active_ids@[m] == id;
                assert(self.active_ids@[m] == id);
            }
        }
    }

    /// `a1` is `a0` after handing out `id`: the smallest released id when
    /// there is one, a fresh id otherwise; never an id in use.
    pub open spec fn handed_out(a0: IdAllocator, a1: IdAllocator, id: usize) -> bool {
        &&& a1.wf()
        &&& !a0.active().contains(id)
        &&& a1.active() == a0.active().insert(id)
        &&& a0.available().len() > 0 ==> {
            &&& id == a0.available()[0]
            &&& a1.available() == a0.available().drop_first()
            &&& a1.next() == a0.next()
        }
        &&& a0.available().len() == 0 ==> {
            &&& id == a0.next()
            &&& a1.available() == a0.available()
            &&& a1.next() == a0.next() + 1
        }
    }

    /// `a1` is `a0` after `id` was given back: an id in use is released, any
    /// other id is ignored.
    pub open spec fn released(a0: IdAllocator, a1: IdAllocator, id: usize) -> bool {
        &&& a1.wf()
        &&& a1.next() == a0.next()
        &&& a0.active().contains(id) ==> {
            &&& a1.active() == a0.active().remove(id)
            &&& a1.available().to_set() == a0.available().to_set().insert(id)
        }
        &&& !a0.active().contains(id) ==> a1.available() == a0.available() && a1.active()
            == a0.active()
    }

    /// A released id comes back before any fresh one: after an id in use is
    /// given back, the next id handed out is no larger than it and no fresh
    /// id is used up; when no other id was released, the same id comes
    /// back and the ids in use are as before.
    pub proof fn law_released_id_comes_back(
        a0: IdAllocator,
        a1: IdAllocator,
        a2: IdAllocator,
        x: usize,
        got: usize,
    )
        requires
            a0.wf(),
            a0.active().contains(x),
            Self::released(a0, a1, x),
            Self::handed_out(a1, a2, got),
        ensures
            got <= x,
            a2.next() == a0.next(),
            a0.available().len() == 0 ==> got == x && a2.active() == a0.active(),
    {
        a1.lemma_wf();
        let s = a1.available();
        assert(s.to_set().contains(x));
        assert(s.contains(x));
        let k = choose|k: int| 0 <= k < s.len() && s[k] == x;
        assert(s[0] <= s[k]);
        if a0.available().len() == 0 {
            assert(a0.available().to_set() =~= Set::<usize>::empty());
            assert(s.to_set() == Set::<usize>::empty().insert(x));
            assert(s.contains(s[0]));
            assert(s.to_set().contains(s[0]));
            if s.len() > 1 {
                assert(s.contains(s[1]));
                assert(s.to_set().contains(s[1]));
                assert(s[0] < s[1]);
            }
            assert(a2.active() =~= a0.active());
        }
    }

    /// The next id that has never been handed out.
    pub fn next_fresh(&self) -> (r: usize)
        ensures
            r == self.next(),
    {
        self.next_id
    }

    /// An allocator that has handed out nothing.
    pub fn new() -> (r: Self)
        ensures
            r.wf(),
            r.next() == 1,
            r.available() == Seq::<usize>::empty(),
            r.active() == Set::<usize>::empty(),
    {
        let r = IdAllocator { next_id: 1, available_ids: Vec::new(), active_ids: Vec::new() };
        assert(r.active_ids@.to_set() =~= Set::<usize>::empty());
        r
    }

    /// Whether `get_id` can hand out an id without the fresh counter
    /// running past the machine's word.
    pub open spec fn can_allocate(&self) -> bool {
        self.available().len() > 0 || self.next() < usize::MAX
    }

    /// Hands out the smallest released id, or a fresh one when none is released.
    pub fn get_id(&mut self) -> (id: usize)
        requires
            old(self).wf(),
            old(self).can_allocate(),
        ensures
            Self::handed_out(*old(self), *final(self), id),
    {
        proof {
            self.lemma_wf();
        }
        let ghost old_active = self.active_ids@;
        if self.available_ids.len() > 0 {
            let id = self.available_ids.remove(0);
            proof {
                assert(old(self).available().contains(id));
            }
            self.active_ids.push(id);
            proof {
                crate::facts::lemma_push_to_set(old_active, id);
                assert(self.active_ids@.no_duplicates()) by {
                    assert forall|i: int, j: int|
                        0 <= i < self.active_ids@.len() && 0 <= j < self.active_ids@.len() && i
                            != j implies self.active_ids@[i] != self.active_ids@[j] by {
                        if i == old_active.len() as int {
                            assert(old_active.contains(old_active[j]));
                        } else if j == old_active.len() as int {
                            assert(old_active.contains(old_active[i]));
                        }
                    }
                }
                assert forall|i: int, j: int|
                    0 <= i < self.available_ids@.len() && 0 <= j < self.active_ids@.len()
                        implies self.available_ids@[i] != self.active_ids@[j] by {
                    assert(self.available_ids@[i] == old(self).available_ids@[i + 1]);
                    if j == old_active.len() as int {
                        assert(old(self).available_ids@[0] < old(self).available_ids@[i + 1]);
                    }
                }
            }
            id
        } else {
            let id = self.next_id;
            self.next_id = self.next_id + 1;
            proof {
                assert(!old_active.contains(id)) by {
                    if old_active.contains(id) {
                        let k = choose|k: int| 0 <= k < old_active.len() && old_active[k] == id;
                        assert(old_active[k] < old(self).next_id);
                    }
                }
            }
            self.active_ids.push(id);
            proof {
                crate::facts::lemma_push_to_set(old_active, id);
                assert(self.active_ids@.no_duplicates()) by {
                    assert forall|i: int, j: int|
                        0 <= i < self.active_ids@.len() && 0 <= j < self.active_ids@.len() && i
                            != j implies self.active_ids@[i] != self.active_ids@[j] by {
                        if i == old_active.len() as int {
                            assert(old_active[j] < id);
                        } else if j == old_active.len() as int {
                            assert(old_active[i] < id);
                        }
                    }
                }
            }
            id
        }
    }

    /// Gives `id` back. An id that is not in use is ignored.
    pub fn release_id(&mut self, id: usize)
        requires
            old(self).wf(),
        ensures
            Self::released(*old(self), *final(self), id),
    {
        proof {
            self.lemma_wf();
        }
        let mut k: usize = 0;
        while k < self.active_ids.len()
            invariant
                self.wf(),
                *self == *old(self),
                0 <= k <= self.active_ids@.len(),
                forall|i: int| 0 <= i < k ==> self.active_ids@[i] != id,
            ensures
                *self == *old(self),
                0 <= k <= self.active_ids@.len(),
                forall|i: int| 0 <= i < k ==> self.active_ids@[i] != id,
                k < self.active_ids@.len() ==> self.active_ids@[k as int] == id,
            decreases self.active_ids@.len() - k,
        {
            if self.active_ids[k] == id {
                break;
            }
            k = k + 1;
        }
        if k == self.active_ids.len() {
            proof {
                assert(!old(self).active_ids@.contains(id));
            }
            return;
        }
        let ghost old_active = self.active_ids@;
        let ghost old_avail = self.available_ids@;
        proof {
            assert forall|i: int| 0 <= i < old_avail.len() implies old_avail[i] != id by {
                assert(old_active[k as int] == id);
            }
        }
        self.active_ids.remove(k);
        proof {
            assert(self.active_ids@.to_set() =~= old_active.to_set().remove(id)) by {
                assert forall|x: usize| #[trigger] self.active_ids@.to_set().contains(x) <==> (
                old_active.to_set().contains(x) && x != id) by {
                    if self.active_ids@.contains(x) {
                        let m = choose|m: int|
                            0 <= m < self.active_ids@.len() && self.active_ids@[m] == x;
                        if m < k {
                            assert(old_active[m] == x);
                        } else {
                            assert(old_active[m + 1] == x);
                        }
                    }
                    if old_active.contains(x) && x != id {
                        let m = choose|m: int| 0 <= m < old_active.len() && old_active[m] == x;
                        if m < k {
                            assert(self.active_ids@[m] == x);
                        } else {
                            assert(old_active[k as int] == id);
                            assert(m != k);
                            assert(self.active_ids@[m - 1] == x);
                        }
                    }
                }
            }
            assert(self.active_ids@.no_duplicates()) by {
                assert forall|i: int, j: int|
                    0 <= i < self.active_ids@.len() && 0 <= j < self.active_ids@.len() && i != j
                        implies self.active_ids@[i] != self.active_ids@[j] by {
                    let oi = if i < k { i } else { i + 1 };
                    let oj = if j < k { j } else { j + 1 };
                    assert(self.active_ids@[i] == old_active[oi]);
                    assert(self.active_ids@[j] == old_active[oj]);
                }
            }
        }
        // Insert into the ascending list of released ids.
        let mut p: usize = 0;
        while p < self.available_ids.len()
            invariant
                self.available_ids@ == old_avail,
                0 <= p <= old_avail.len(),
                forall|i: int| 0 <= i < p ==> old_avail[i] < id,
                forall|i: int| 0 <= i < old_avail.len() ==> old_avail[i] != id,
            ensures
                self.available_ids@ == old_avail,
                0 <= p <= old_avail.len(),
                forall|i: int| 0 <= i < p ==> old_avail[i] < id,
                p < old_avail.len() ==> old_avail[p as int] > id,
            decreases old_avail.len() - p,
        {
            if self.available_ids[p] > id {
                break;
            }
            p = p + 1;
        }
        self.available_ids.insert(p, id);
        proof {
            let na = self.available_ids@;
            assert(na == old_avail.insert(p as int, id));
            assert forall|i: int, j: int| 0 <= i < j < na.len() implies na[i] < na[j] by {
                if j < p {
                    assert(na[i] == old_avail[i] && na[j] == old_avail[j]);
                } else if j == p {
                    assert(na[i] == old_avail[i]);
                } else if i == p {
                    assert(na[j] == old_avail[j - 1]);
                    assert(old_avail[j - 1] > id);
                    if p < j - 1 {
                        assert(old_avail[p as int] < old_avail[j - 1]);
                    }
                } else if i < p {
                    assert(na[i] == old_avail[i] && na[j] == old_avail[j - 1]);
                } else {
                    assert(na[i] == old_avail[i - 1] && na[j] == old_avail[j - 1]);
                }
            }
            assert(na.to_set() =~= old_avail.to_set().insert(id)) by {
                assert forall|x: usize| #[trigger] na.to_set().contains(x) <==> (
                old_avail.to_set().contains(x) || x == id) by {
                    if na.contains(x) {
                        let m = choose|m: int| 0 <= m < na.len() && na[m] == x;
                        if m < p {
                            assert(old_avail[m] == x);
                        } else if m > p {
                            assert(old_avail[m - 1] == x);
                        }
                    }
                    if old_avail.contains(x) {
                        let m = choose|m: int| 0 <= m < old_avail.len() && old_avail[m] == x;
                        if m < p {
                            assert(na[m] == x);
                        } else {
                            assert(na[m + 1] == x);
                        }
                    }
                    if x == id {
                        assert(na[p as int] == x);
                    }
                }
            }
            assert forall|i: int| 0 <= i < na.len() implies 1 <= #[trigger] na[i] < self.next_id by {
                if i < p {
                    assert(na[i] == old_avail[i]);
                } else if i > p {
                    assert(na[i] == old_avail[i - 1]);
                } else {
                    assert(old_active[k as int] == id);
                }
            }
            assert forall|i: int, j: int|
                0 <= i < na.len() && 0 <= j < self.active_ids@.len() implies na[i]
                != self.active_ids@[j] by {
                let oj = if j < k { j } else { j + 1 };
                assert(self.active_ids@[j] == old_active[oj]);
                if i < p {
                    assert(na[i] == old_avail[i]);
                } else if i > p {
                    assert(na[i] == old_avail[i - 1]);
                } else {
                    assert(oj != k);
                }
            }
        }
    }
}

} // verus!
