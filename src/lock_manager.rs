//! The lock table and its expiry index, kept together behind one facade.

use vstd::prelude::*;
use vstd::string::StringExecFns;

use crate::clock::now_secs;
use crate::steps::{apply, succeeds, Op};

verus! {

/// What the table records of one held resource.
pub struct Held {
    pub owner: Seq<char>,
    pub expire_at: Option<u64>,
}

/// Errors returned by the lock manager.
#[derive(Debug)]
pub enum LockError {
    /// The resource is held: by anyone on acquire, by another owner on release.
    AlreadyLocked,
    /// No lock is held on the resource.
    NotFound,
    /// The synchronisation around the manager failed.
    Internal(String),
}

/// The text that describes an error.
pub open spec fn message_of(e: LockError) -> Seq<char> {
    match e {
        LockError::AlreadyLocked => "Resource is already locked"@,
        LockError::NotFound => "Resource not found"@,
        LockError::Internal(detail) => "Internal error: "@ + detail@,
    }
}

impl LockError {
    /// The text that describes this error.
    pub fn message(&self) -> (r: String)
        ensures
            r@ == message_of(*self),
    {
        match self {
            LockError::AlreadyLocked => "Resource is already locked".to_owned(),
            LockError::NotFound => "Resource not found".to_owned(),
            LockError::Internal(detail) => {
                let mut r = "Internal error: ".to_owned();
                r.append(detail.as_str());
                r
            },
        }
    }
}

struct LockInfo {
    resource: String,
    owner: String,
    expire_at: Option<u64>,
}

impl LockInfo {
    spec fn held(self) -> Held {
        Held { owner: self.owner@, expire_at: self.expire_at }
    }
}

/// The resources whose locks expire at the second `at`.
struct Slot {
    at: u64,
    resources: Vec<String>,
}

/// The names held by a slot's vector, as a set.
spec fn names(v: Seq<String>) -> Set<Seq<char>> {
    Set::new(|r: Seq<char>| exists|j: int| 0 <= j < v.len() && (#[trigger] v[j])@ == r)
}

/// No name occurs twice in the vector.
spec fn distinct(v: Seq<String>) -> bool {
    forall|i: int, j: int| 0 <= i < v.len() && 0 <= j < v.len() && i != j ==> (#[trigger] v[i])@ != (#[trigger] v[j])@
}

/// The lock table (resource to holder) and the expiry index (second to the
/// resources that expire then), mutated together by every operation.
pub struct LockManager {
    locks: Vec<LockInfo>,
    slots: Vec<Slot>,
    table: Ghost<Map<Seq<char>, Held>>,
    index: Ghost<Map<u64, Set<Seq<char>>>>,
}

impl View for LockManager {
    type V = Map<Seq<char>, Held>;

    closed spec fn view(&self) -> Map<Seq<char>, Held> {
        self.table@
    }
}

/// The expiry index that a table determines: each second maps to the
/// resources whose lock expires then, and only seconds with such a lock occur.
pub open spec fn index_of(table: Map<Seq<char>, Held>) -> Map<u64, Set<Seq<char>>> {
    Map::new(
        |t: u64| exists|r: Seq<char>| table.contains_key(r) && table[r].expire_at == Some(t),
        |t: u64| Set::new(|r: Seq<char>| table.contains_key(r) && table[r].expire_at == Some(t)),
    )
}

/// The sum of two seconds counts, held at the largest value on overflow.
pub open spec fn saturating_sum_spec(a: u64, b: u64) -> u64 {
    if a + b > u64::MAX {
        u64::MAX
    } else {
        (a + b) as u64
    }
}

/// The second at which a lock taken at `now` expires.
pub open spec fn expiry(expire_secs: Option<u64>, now: u64) -> Option<u64> {
    match expire_secs {
        Some(secs) => Some(saturating_sum_spec(now, secs)),
        None => None,
    }
}

/// Whether a lock recorded as `h` has expired by second `now`.
pub open spec fn due(h: Held, now: u64) -> bool {
    match h.expire_at {
        Some(at) => at <= now,
        None => false,
    }
}

/// The table once every lock due by second `now` has been removed.
pub open spec fn live_at(table: Map<Seq<char>, Held>, now: u64) -> Map<Seq<char>, Held> {
    Map::new(|r: Seq<char>| table.contains_key(r) && !due(table[r], now), |r: Seq<char>| table[r])
}

fn saturating_sum(a: u64, b: u64) -> (r: u64)
    ensures
        r == saturating_sum_spec(a, b),
{
    if b > u64::MAX - a {
        u64::MAX
    } else {
        a + b
    }
}

impl LockManager {
    /// The expiry index, as a map from second to resources.
    pub closed spec fn expiry_index(&self) -> Map<u64, Set<Seq<char>>> {
        self.index@
    }

    spec fn locks_wf(&self) -> bool {
        &&& forall|i: int, j: int|
            0 <= i < self.locks.len() && 0 <= j < self.locks.len() && i != j
                ==> (#[trigger] self.locks[i]).resource@ != (#[trigger] self.locks[j]).resource@
        &&& forall|i: int|
            0 <= i < self.locks.len() ==> self.table@.contains_key((#[trigger] self.locks[i]).resource@)
                && self.table@[self.locks[i].resource@] == self.locks[i].held()
        &&& forall|r: Seq<char>|
            #[trigger] self.table@.contains_key(r) ==> exists|i: int|
                0 <= i < self.locks.len() && (#[trigger] self.locks[i]).resource@ == r
    }

    spec fn slots_wf(&self) -> bool {
        &&& forall|i: int, j: int|
            0 <= i < self.slots.len() && 0 <= j < self.slots.len() && i != j
                ==> (#[trigger] self.slots[i]).at != (#[trigger] self.slots[j]).at
        &&& forall|k: int|
            0 <= k < self.slots.len() ==> self.index@.contains_key((#[trigger] self.slots[k]).at)
                && self.index@[self.slots[k].at] == names(self.slots[k].resources@)
                && distinct(self.slots[k].resources@)
        &&& forall|t: u64|
            #[trigger] self.index@.contains_key(t) ==> exists|k: int|
                0 <= k < self.slots.len() && (#[trigger] self.slots[k]).at == t
    }

    /// The manager's invariant: the vectors hold exactly the ghost table and
    /// index, and the index is the one that the table determines.
    pub closed spec fn wf(&self) -> bool {
        &&& self.locks_wf()
        &&& self.slots_wf()
        &&& self.index@ == index_of(self.table@)
    }

    /// The expiry index always agrees with the table: each second in it maps
    /// to exactly the resources whose lock expires then, and no slot is empty.
    pub proof fn lemma_index_matches_table(&self)
        requires
            self.wf(),
        ensures
            self.expiry_index() == index_of(self@),
            forall|t: u64| #[trigger] self.expiry_index().contains_key(t) ==> self.expiry_index()[t] != Set::<Seq<char>>::empty(),
    {
        assert forall|t: u64| #[trigger] self.expiry_index().contains_key(t) implies self.expiry_index()[t] != Set::<Seq<char>>::empty() by {
            let r = choose|r: Seq<char>| self@.contains_key(r) && self@[r].expire_at == Some(t);
            assert(self.expiry_index()[t].contains(r));
        }
    }

    /// Create an empty lock manager.
    pub fn new() -> (r: Self)
        ensures
            r.wf(),
            r@ == Map::<Seq<char>, Held>::empty(),
    {
        let r = LockManager {
            locks: Vec::new(),
            slots: Vec::new(),
            table: Ghost(Map::empty()),
            index: Ghost(Map::empty()),
        };
        assert(r.index@ =~= index_of(r.table@));
        r
    }

    fn find_lock(&self, resource: &String) -> (r: Option<usize>)
        requires
            self.wf(),
        ensures
            match r {
                Some(i) => i < self.locks.len() && self.locks[i as int].resource@ == resource@,
                None => !self@.contains_key(resource@),
            },
    {
        let mut i: usize = 0;
        while i < self.locks.len()
            invariant
                i <= self.locks.len(),
                forall|j: int| 0 <= j < i ==> (#[trigger] self.locks[j]).resource@ != resource@,
            decreases self.locks.len() - i,
        {
            if self.locks[i].resource == *resource {
                return Some(i);
            }
            i = i + 1;
        }
        None
    }

    fn find_slot(&self, at: u64) -> (r: Option<usize>)
        requires
            self.slots_wf(),
        ensures
            match r {
                Some(k) => k < self.slots.len() && self.slots[k as int].at == at,
                None => !self.index@.contains_key(at),
            },
    {
        let mut k: usize = 0;
        while k < self.slots.len()
            invariant
                k <= self.slots.len(),
                forall|j: int| 0 <= j < k ==> (#[trigger] self.slots[j]).at != at,
            decreases self.slots.len() - k,
        {
            if self.slots[k].at == at {
                return Some(k);
            }
            k = k + 1;
        }
        None
    }

    /// Put `name` into the slot of second `at`, opening the slot if needed.
    fn add_to_slot(&mut self, at: u64, name: String)
        requires
            old(self).slots_wf(),
            !(old(self).index@.contains_key(at) && old(self).index@[at].contains(name@)),
        ensures
            final(self).slots_wf(),
            final(self).locks == old(self).locks,
            final(self).table == old(self).table,
            final(self).index@ == old(self).index@.insert(
                at,
                if old(self).index@.contains_key(at) {
                    old(self).index@[at].insert(name@)
                } else {
                    Set::empty().insert(name@)
                },
            ),
    {
        let ghost old_slots = self.slots@;
        let ghost old_index = self.index@;
        let ghost new_set = if old_index.contains_key(at) {
            old_index[at].insert(name@)
        } else {
            Set::empty().insert(name@)
        };
        match self.find_slot(at) {
            Some(k) => {
                let mut slot = self.slots.remove(k);
                let ghost old_res = slot.resources@;
                slot.resources.push(name);
                proof {
                    assert(names(slot.resources@) =~= names(old_res).insert(name@)) by {
                        assert forall|r: Seq<char>| names(old_res).insert(name@).contains(r)
                            implies names(slot.resources@).contains(r) by {
                            if r == name@ {
                                assert(slot.resources@[old_res.len() as int]@ == r);
                            } else {
                                let j = choose|j: int| 0 <= j < old_res.len() && (#[trigger] old_res[j])@ == r;
                                assert(slot.resources@[j] == old_res[j]);
                            }
                        }
                    }
                    assert(distinct(slot.resources@)) by {
                        assert forall|i: int, j: int|
                            0 <= i < slot.resources@.len() && 0 <= j < slot.resources@.len() && i != j
                            implies (#[trigger] slot.resources@[i])@ != (#[trigger] slot.resources@[j])@ by {
                            if i == old_res.len() {
                                assert(names(old_res).contains(slot.resources@[j]@));
                            } else if j == old_res.len() {
                                assert(names(old_res).contains(slot.resources@[i]@));
                            } else {
                                assert(old_res[i] == slot.resources@[i] && old_res[j] == slot.resources@[j]);
                            }
                        }
                    }
                }
                self.slots.push(slot);
                proof {
                    self.index@ = old_index.insert(at, new_set);
                    let n = self.slots.len() - 1;
                    assert(self.slots@ =~= old_slots.remove(k as int).push(self.slots[n]));
                    assert forall|t: u64| #[trigger] self.index@.contains_key(t) implies exists|m: int|
                        0 <= m < self.slots.len() && (#[trigger] self.slots[m]).at == t by {
                        if t == at {
                            assert(self.slots[n].at == t);
                        } else {
                            let m = choose|m: int| 0 <= m < old_slots.len() && (#[trigger] old_slots[m]).at == t;
                            if m < k {
                                assert(self.slots[m] == old_slots[m]);
                            } else {
                                assert(self.slots[m - 1] == old_slots[m]);
                            }
                        }
                    }
                }
            },
            None => {
                let mut v: Vec<String> = Vec::new();
                v.push(name);
                let slot = Slot { at, resources: v };
                proof {
                    assert(names(slot.resources@) =~= Set::empty().insert(name@)) by {
                        assert(slot.resources@[0]@ == name@);
                    }
                }
                self.slots.push(slot);
                proof {
                    self.index@ = old_index.insert(at, new_set);
                    let n = self.slots.len() - 1;
                    assert forall|t: u64| #[trigger] self.index@.contains_key(t) implies exists|m: int|
                        0 <= m < self.slots.len() && (#[trigger] self.slots[m]).at == t by {
                        if t == at {
                            assert(self.slots[n].at == t);
                        } else {
                            let m = choose|m: int| 0 <= m < old_slots.len() && (#[trigger] old_slots[m]).at == t;
                            assert(self.slots[m] == old_slots[m]);
                        }
                    }
                }
            },
        }
    }

    /// Take a lock on `resource` for `owner` at second `now`: it expires
    /// `expire_secs` seconds later (saturating), or never without a value.
    /// Fails with `AlreadyLocked`, changing nothing, when any owner holds it.
    pub fn acquire_at(&mut self, resource: &str, owner: &str, expire_secs: Option<u64>, now: u64) -> (r:
        Result<(), LockError>)
        requires
            old(self).wf(),
        ensures
            final(self).wf(),
            r is Ok <==> !old(self)@.contains_key(resource@),
            r is Err ==> r->Err_0 is AlreadyLocked && final(self)@ == old(self)@,
            r is Ok ==> final(self)@ == old(self)@.insert(
                resource@,
                Held { owner: owner@, expire_at: expiry(expire_secs, now) },
            ),
            r is Ok == succeeds(old(self)@, Op::Acquire(resource@, owner@, expiry(expire_secs, now))),
            final(self)@ == apply(old(self)@, Op::Acquire(resource@, owner@, expiry(expire_secs, now))),
    {
        let name = resource.to_owned();
        if self.find_lock(&name).is_some() {
            return Err(LockError::AlreadyLocked);
        }
        let expire_at = match expire_secs {
            Some(secs) => Some(saturating_sum(now, secs)),
            None => None,
        };
        let ghost old_self = *self;
        let ghost held = Held { owner: owner@, expire_at };
        let info = LockInfo { resource: name.clone(), owner: owner.to_owned(), expire_at };
        self.locks.push(info);
        proof {
            self.table@ = old_self.table@.insert(name@, held);
            let n = self.locks.len() - 1;
            assert forall|i: int| 0 <= i < self.locks.len()
                implies self.table@.contains_key((#[trigger] self.locks[i]).resource@)
                && self.table@[self.locks[i].resource@] == self.locks[i].held() by {
                if i < n {
                    assert(self.locks[i] == old_self.locks[i]);
                }
            }
            assert forall|i: int, j: int|
                0 <= i < self.locks.len() && 0 <= j < self.locks.len() && i != j
                implies (#[trigger] self.locks[i]).resource@ != (#[trigger] self.locks[j]).resource@ by {
                if i < n && j < n {
                    assert(self.locks[i] == old_self.locks[i] && self.locks[j] == old_self.locks[j]);
                } else if i < n {
                    assert(self.locks[i] == old_self.locks[i]);
                    assert(old_self.table@.contains_key(old_self.locks[i].resource@));
                } else {
                    assert(self.locks[j] == old_self.locks[j]);
                    assert(old_self.table@.contains_key(old_self.locks[j].resource@));
                }
            }
            assert forall|r: Seq<char>| #[trigger] self.table@.contains_key(r) implies exists|i: int|
                0 <= i < self.locks.len() && (#[trigger] self.locks[i]).resource@ == r by {
                if r == name@ {
                    assert(self.locks[n].resource@ == r);
                } else {
                    let i = choose|i: int| 0 <= i < old_self.locks.len() && (#[trigger] old_self.locks[i]).resource@ == r;
                    assert(self.locks[i] == old_self.locks[i]);
                }
            }
        }
        proof {
            assert(self.slots@ == old_self.slots@ && self.index@ == old_self.index@);
            assert(self.slots_wf());
        }
        if let Some(at) = expire_at {
            proof {
                if self.index@.contains_key(at) {
                    assert(!self.index@[at].contains(name@));
                }
            }
            self.add_to_slot(at, name);
        }
        proof {
            let t = self.table@;
            let ix = index_of(t);
            assert forall|at: u64| #[trigger] ix.contains_key(at) == self.index@.contains_key(at) by {
                if ix.contains_key(at) {
                    let r = choose|r: Seq<char>| t.contains_key(r) && t[r].expire_at == Some(at);
                    if r != name@ {
                        assert(old_self.table@.contains_key(r) && old_self.table@[r].expire_at == Some(at));
                    }
                }
                if old_self.index@.contains_key(at) && expire_at != Some(at) {
                    let r = choose|r: Seq<char>|
                        old_self.table@.contains_key(r) && old_self.table@[r].expire_at == Some(at);
                    assert(t.contains_key(r) && t[r].expire_at == Some(at));
                }
            }
            assert forall|at: u64| #[trigger] ix.contains_key(at) implies ix[at] =~= self.index@[at] by {
                if old_self.index@.contains_key(at) {
                    assert(old_self.index@[at] == index_of(old_self.table@)[at]);
                }
            }
            assert(ix =~= self.index@);
        }
        Ok(())
    }

    fn position(v: &Vec<String>, name: &String) -> (r: Option<usize>)
        ensures
            match r {
                Some(j) => j < v.len() && v[j as int]@ == name@,
                None => !names(v@).contains(name@),
            },
    {
        let mut j: usize = 0;
        while j < v.len()
            invariant
                j <= v.len(),
                forall|m: int| 0 <= m < j ==> (#[trigger] v[m])@ != name@,
            decreases v.len() - j,
        {
            if v[j] == *name {
                return Some(j);
            }
            j = j + 1;
        }
        None
    }

    /// Take `name` out of the slot of second `at`, closing the slot once empty.
    fn remove_from_slot(&mut self, at: u64, name: &String)
        requires
            old(self).slots_wf(),
            old(self).index@.contains_key(at),
            old(self).index@[at].contains(name@),
        ensures
            final(self).slots_wf(),
            final(self).locks == old(self).locks,
            final(self).table == old(self).table,
            final(self).index@ == (if old(self).index@[at] == Set::empty().insert(name@) {
                old(self).index@.remove(at)
            } else {
                old(self).index@.insert(at, old(self).index@[at].remove(name@))
            }),
    {
        let ghost old_slots = self.slots@;
        let ghost old_index = self.index@;
        let k = match self.find_slot(at) {
            Some(k) => k,
            None => {
                proof {
                    assert(false);
                }
                return ;
            },
        };
        let j = match Self::position(&self.slots[k].resources, name) {
            Some(j) => j,
            None => {
                proof {
                    assert(false);
                }
                return ;
            },
        };
        let mut slot = self.slots.remove(k);
        let ghost old_res = slot.resources@;
        slot.resources.remove(j);
        proof {
            assert(names(slot.resources@) =~= names(old_res).remove(name@)) by {
                assert forall|r: Seq<char>| names(old_res).remove(name@).contains(r)
                    implies names(slot.resources@).contains(r) by {
                    let m = choose|m: int| 0 <= m < old_res.len() && (#[trigger] old_res[m])@ == r;
                    if m < j {
                        assert(slot.resources@[m] == old_res[m]);
                    } else {
                        assert(slot.resources@[m - 1] == old_res[m]);
                    }
                }
                assert forall|r: Seq<char>| names(slot.resources@).contains(r)
                    implies names(old_res).remove(name@).contains(r) by {
                    let m = choose|m: int| 0 <= m < slot.resources@.len() && (#[trigger] slot.resources@[m])@ == r;
                    if m < j {
                        assert(slot.resources@[m] == old_res[m]);
                    } else {
                        assert(slot.resources@[m] == old_res[m + 1]);
                    }
                }
            }
            assert(distinct(slot.resources@)) by {
                assert forall|a: int, b: int|
                    0 <= a < slot.resources@.len() && 0 <= b < slot.resources@.len() && a != b
                    implies (#[trigger] slot.resources@[a])@ != (#[trigger] slot.resources@[b])@ by {
                    let a0 = if a < j { a } else { a + 1 };
                    let b0 = if b < j { b } else { b + 1 };
                    assert(slot.resources@[a] == old_res[a0] && slot.resources@[b] == old_res[b0]);
                }
            }
        }
        if slot.resources.len() > 0 {
            self.slots.push(slot);
            proof {
                let n = self.slots.len() - 1;
                assert(self.slots[n].resources@.len() > 0);
                assert(names(self.slots[n].resources@).contains(self.slots[n].resources@[0]@));
                assert(old_index[at] != Set::empty().insert(name@)) by {
                    let w = self.slots[n].resources@[0]@;
                    assert(w != name@);
                    assert(old_index[at].contains(w));
                }
                self.index@ = old_index.insert(at, old_index[at].remove(name@));
                assert forall|t: u64| #[trigger] self.index@.contains_key(t) implies exists|m: int|
                    0 <= m < self.slots.len() && (#[trigger] self.slots[m]).at == t by {
                    if t == at {
                        assert(self.slots[n].at == t);
                    } else {
                        let m = choose|m: int| 0 <= m < old_slots.len() && (#[trigger] old_slots[m]).at == t;
                        if m < k {
                            assert(self.slots[m] == old_slots[m]);
                        } else {
                            assert(self.slots[m - 1] == old_slots[m]);
                        }
                    }
                }
            }
        } else {
            proof {
                assert(old_index[at] =~= Set::empty().insert(name@)) by {
                    assert(names(slot.resources@) =~= Set::empty());
                }
                self.index@ = old_index.remove(at);
                assert forall|t: u64| #[trigger] self.index@.contains_key(t) implies exists|m: int|
                    0 <= m < self.slots.len() && (#[trigger] self.slots[m]).at == t by {
                    let m = choose|m: int| 0 <= m < old_slots.len() && (#[trigger] old_slots[m]).at == t;
                    if m < k {
                        assert(self.slots[m] == old_slots[m]);
                    } else {
                        assert(self.slots[m - 1] == old_slots[m]);
                    }
                }
            }
        }
    }

    /// Drop the `i`-th lock from the table and from its expiry slot.
    fn remove_lock(&mut self, i: usize)
        requires
            old(self).wf(),
            i < old(self).locks.len(),
        ensures
            final(self).wf(),
            final(self)@ == old(self)@.remove(old(self).locks[i as int].resource@),
            final(self).locks.len() == old(self).locks.len() - 1,
    {
        let ghost old_self = *self;
        let ghost name = self.locks[i as int].resource@;
        if let Some(at) = self.locks[i].expire_at {
            proof {
                assert(self.table@.contains_key(name) && self.table@[name].expire_at == Some(at));
                assert(self.index@[at].contains(name));
            }
            let n = self.locks[i].resource.clone();
            self.remove_from_slot(at, &n);
        }
        let ghost mid = *self;
        self.locks.remove(i);
        proof {
            self.table@ = old_self.table@.remove(name);
            assert(self.slots@ == mid.slots@ && self.index@ == mid.index@);
            assert(self.slots_wf());
            let old_locks = old_self.locks@;
            assert forall|a: int, b: int|
                0 <= a < self.locks.len() && 0 <= b < self.locks.len() && a != b
                implies (#[trigger] self.locks[a]).resource@ != (#[trigger] self.locks[b]).resource@ by {
                let a0 = if a < i { a } else { a + 1 };
                let b0 = if b < i { b } else { b + 1 };
                assert(self.locks[a] == old_locks[a0] && self.locks[b] == old_locks[b0]);
            }
            assert forall|a: int| 0 <= a < self.locks.len()
                implies self.table@.contains_key((#[trigger] self.locks[a]).resource@)
                && self.table@[self.locks[a].resource@] == self.locks[a].held() by {
                let a0 = if a < i { a } else { a + 1 };
                assert(self.locks[a] == old_locks[a0]);
                assert(old_locks[a0].resource@ != old_locks[i as int].resource@);
            }
            assert forall|r: Seq<char>| #[trigger] self.table@.contains_key(r) implies exists|a: int|
                0 <= a < self.locks.len() && (#[trigger] self.locks[a]).resource@ == r by {
                let a0 = choose|a0: int| 0 <= a0 < old_locks.len() && (#[trigger] old_locks[a0]).resource@ == r;
                if a0 < i {
                    assert(self.locks[a0] == old_locks[a0]);
                } else {
                    assert(self.locks[a0 - 1] == old_locks[a0]);
                }
            }
            let t = self.table@;
            let ix = index_of(t);
            assert forall|at: u64| #[trigger] ix.contains_key(at) == self.index@.contains_key(at) by {
                if ix.contains_key(at) {
                    let r = choose|r: Seq<char>| t.contains_key(r) && t[r].expire_at == Some(at);
                    assert(old_self.table@.contains_key(r) && old_self.table@[r].expire_at == Some(at));
                    assert(old_self.index@[at].contains(r));
                }
                if self.index@.contains_key(at) {
                    assert(old_self.index@.contains_key(at));
                    assert(old_self.index@[at] != Set::empty().insert(name) || old_self.table@[name].expire_at != Some(at));
                    if old_self.table@[name].expire_at == Some(at) {
                        assert(exists|r: Seq<char>| old_self.index@[at].contains(r) && r != name) by {
                            if forall|r: Seq<char>| old_self.index@[at].contains(r) ==> r == name {
                                assert(old_self.index@[at] =~= Set::empty().insert(name));
                            }
                        }
                        let r = choose|r: Seq<char>| old_self.index@[at].contains(r) && r != name;
                        assert(t.contains_key(r) && t[r].expire_at == Some(at));
                    } else {
                        let r = choose|r: Seq<char>| old_self.index@[at].contains(r);
                        assert(r != name);
                        assert(t.contains_key(r) && t[r].expire_at == Some(at));
                    }
                }
            }
            assert forall|at: u64| #[trigger] ix.contains_key(at) implies ix[at] =~= self.index@[at] by {
                assert(old_self.index@[at] == index_of(old_self.table@)[at]);
            }
            assert(ix =~= self.index@);
        }
    }

    /// Take a lock on `resource` for `owner` now, by the wall clock: it
    /// expires `expire_secs` seconds from now, or never without a value.
    /// Fails with `AlreadyLocked`, changing nothing, when any owner holds it.
    pub fn acquire(&mut self, resource: &str, owner: &str, expire_secs: Option<u64>) -> (r: Result<(), LockError>)
        requires
            old(self).wf(),
        ensures
            final(self).wf(),
            r is Ok <==> !old(self)@.contains_key(resource@),
            r is Err ==> r->Err_0 is AlreadyLocked && final(self)@ == old(self)@,
            r is Ok ==> exists|now: u64|
                final(self)@ == old(self)@.insert(
                    resource@,
                    Held { owner: owner@, expire_at: #[trigger] expiry(expire_secs, now) },
                ),
    {
        let now = now_secs();
        let r = self.acquire_at(resource, owner, expire_secs, now);
        proof {
            if r is Ok {
                assert(final(self)@ == old(self)@.insert(
                    resource@,
                    Held { owner: owner@, expire_at: expiry(expire_secs, now) },
                ));
            }
        }
        r
    }

    /// Remove every lock that has expired by the wall clock.
    pub fn sweep_expired(&mut self)
        requires
            old(self).wf(),
        ensures
            final(self).wf(),
            exists|now: u64| final(self)@ == #[trigger] live_at(old(self)@, now),
    {
        let now = now_secs();
        self.sweep(now);
    }

    /// Give up the lock on `resource` held by `owner`. Fails with `NotFound`
    /// when nobody holds it and with `AlreadyLocked` when another owner does;
    /// a failure changes nothing.
    pub fn release(&mut self, resource: &str, owner: &str) -> (r: Result<(), LockError>)
        requires
            old(self).wf(),
        ensures
            final(self).wf(),
            r is Ok <==> old(self)@.contains_key(resource@) && old(self)@[resource@].owner == owner@,
            r is Ok ==> final(self)@ == old(self)@.remove(resource@),
            r is Err ==> final(self)@ == old(self)@,
            r is Err ==> (r->Err_0 is NotFound <==> !old(self)@.contains_key(resource@)),
            r is Err ==> (r->Err_0 is AlreadyLocked <==> old(self)@.contains_key(resource@)),
            r is Ok == succeeds(old(self)@, Op::Release(resource@, owner@)),
            final(self)@ == apply(old(self)@, Op::Release(resource@, owner@)),
    {
        let name = resource.to_owned();
        match self.find_lock(&name) {
            None => Err(LockError::NotFound),
            Some(i) => {
                let who = owner.to_owned();
                proof {
                    assert(self.table@[resource@] == self.locks[i as int].held());
                }
                if self.locks[i].owner == who {
                    self.remove_lock(i);
                    Ok(())
                } else {
                    Err(LockError::AlreadyLocked)
                }
            },
        }
    }

    fn find_due_slot(&self, now: u64) -> (r: Option<usize>)
        requires
            self.wf(),
        ensures
            match r {
                Some(k) => k < self.slots.len() && self.slots[k as int].at <= now
                    && self.slots[k as int].resources.len() > 0,
                None => forall|rs: Seq<char>| #[trigger] self@.contains_key(rs) ==> !due(self@[rs], now),
            },
    {
        let mut k: usize = 0;
        while k < self.slots.len()
            invariant
                self.wf(),
                k <= self.slots.len(),
                forall|j: int| 0 <= j < k ==> (#[trigger] self.slots[j]).at > now,
            decreases self.slots.len() - k,
        {
            if self.slots[k].at <= now {
                proof {
                    let at = self.slots[k as int].at;
                    assert(self.index@.contains_key(at));
                    assert(index_of(self.table@).contains_key(at));
                    let w = choose|w: Seq<char>| self.table@.contains_key(w) && self.table@[w].expire_at == Some(at);
                    assert(self.index@[at].contains(w));
                    assert(names(self.slots[k as int].resources@).contains(w));
                }
                return Some(k);
            }
            k = k + 1;
        }
        proof {
            assert forall|rs: Seq<char>| #[trigger] self@.contains_key(rs) implies !due(self@[rs], now) by {
                if let Some(at) = self.table@[rs].expire_at {
                    assert(self.index@.contains_key(at));
                    let m = choose|m: int| 0 <= m < self.slots.len() && (#[trigger] self.slots[m]).at == at;
                }
            }
        }
        None
    }

    /// Remove every lock whose expiry second is at or before `now`, walking
    /// the due slots of the expiry index.
    pub fn sweep(&mut self, now: u64)
        requires
            old(self).wf(),
        ensures
            final(self).wf(),
            final(self)@ == live_at(old(self)@, now),
            final(self)@ == apply(old(self)@, Op::Sweep(now)),
    {
        let ghost start = self@;
        let mut done = false;
        while !done
            invariant
                self.wf(),
                forall|r: Seq<char>| #[trigger] self@.contains_key(r) ==> start.contains_key(r) && self@[r] == start[r],
                forall|r: Seq<char>| #[trigger] start.contains_key(r) && !due(start[r], now) ==> self@.contains_key(r),
                done ==> forall|r: Seq<char>| #[trigger] self@.contains_key(r) ==> !due(self@[r], now),
            decreases self.locks.len() + if done { 0int } else { 1int },
        {
            match self.find_due_slot(now) {
                None => {
                    done = true;
                },
                Some(k) => {
                    let name = self.slots[k].resources[0].clone();
                    proof {
                        let at = self.slots[k as int].at;
                        assert(names(self.slots[k as int].resources@).contains(name@));
                        assert(self.table@.contains_key(name@) && self.table@[name@].expire_at == Some(at));
                    }
                    match self.find_lock(&name) {
                        Some(i) => {
                            self.remove_lock(i);
                        },
                        None => {
                            proof {
                                assert(false);
                            }
                        },
                    }
                },
            }
        }
        proof {
            assert forall|r: Seq<char>| #[trigger] live_at(start, now).contains_key(r) == self@.contains_key(r) by {
                if self@.contains_key(r) {
                    assert(start.contains_key(r) && self@[r] == start[r]);
                }
            }
            assert(self@ =~= live_at(start, now));
        }
    }

    /// Whether a lock is currently held on `resource`.
    pub fn is_locked(&self, resource: &str) -> (r: bool)
        requires
            self.wf(),
        ensures
            r == self@.contains_key(resource@),
    {
        let name = resource.to_owned();
        self.find_lock(&name).is_some()
    }
}

} // verus!
