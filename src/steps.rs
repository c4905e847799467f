//! The manager's operations as steps on its table, and what holds of any
//! run of them.

use vstd::prelude::*;

use crate::lock_manager::{expiry, live_at, Held};

verus! {

/// One operation on the manager, with the values its outcome depends on.
pub enum Op {
    /// Acquire a resource for an owner, with the second it would expire at.
    Acquire(Seq<char>, Seq<char>, Option<u64>),
    /// Release a resource for an owner.
    Release(Seq<char>, Seq<char>),
    /// Remove the locks due by a second.
    Sweep(u64),
}

/// Whether `op` succeeds on table `m`.
pub open spec fn succeeds(m: Map<Seq<char>, Held>, op: Op) -> bool {
    match op {
        Op::Acquire(r, _, _) => !m.contains_key(r),
        Op::Release(r, o) => m.contains_key(r) && m[r].owner == o,
        Op::Sweep(_) => true,
    }
}

/// The table after `op` on table `m`; a failed operation changes nothing.
pub open spec fn apply(m: Map<Seq<char>, Held>, op: Op) -> Map<Seq<char>, Held> {
    if !succeeds(m, op) {
        m
    } else {
        match op {
            Op::Acquire(r, o, e) => m.insert(r, Held { owner: o, expire_at: e }),
            Op::Release(r, _) => m.remove(r),
            Op::Sweep(now) => live_at(m, now),
        }
    }
}

/// The table after running `ops` in order from table `m`.
pub open spec fn run(m: Map<Seq<char>, Held>, ops: Seq<Op>) -> Map<Seq<char>, Held>
    decreases ops.len(),
{
    if ops.len() == 0 {
        m
    } else {
        apply(run(m, ops.drop_last()), ops.last())
    }
}

proof fn lemma_run_step(m: Map<Seq<char>, Held>, ops: Seq<Op>, k: int)
    requires
        0 <= k < ops.len(),
    ensures
        run(m, ops.take(k + 1)) == apply(run(m, ops.take(k)), ops[k]),
{
    assert(ops.take(k + 1).drop_last() =~= ops.take(k));
    assert(ops.take(k + 1).last() == ops[k]);
}

proof fn lemma_held_until_freed(m: Map<Seq<char>, Held>, ops: Seq<Op>, r: Seq<char>, i: int, k: int)
    requires
        0 <= i < k <= ops.len(),
        run(m, ops.take(i + 1)).contains_key(r),
        forall|q: int|
            i < q < k && run(m, ops.take(q)).contains_key(r) ==> (#[trigger] run(m, ops.take(q + 1))).contains_key(r),
    ensures
        run(m, ops.take(k)).contains_key(r),
    decreases k - i,
{
    if k > i + 1 {
        lemma_held_until_freed(m, ops, r, i, k - 1);
        assert(run(m, ops.take((k - 1) + 1)).contains_key(r));
    }
}

/// Mutual exclusion: in any run, two successful acquires of one resource
/// have between them an operation that freed it, a release or a sweep.
pub proof fn lemma_mutual_exclusion(m: Map<Seq<char>, Held>, ops: Seq<Op>, r: Seq<char>, i: int, j: int)
    requires
        0 <= i < j < ops.len(),
        ops[i] is Acquire && ops[i]->Acquire_0 == r,
        ops[j] is Acquire && ops[j]->Acquire_0 == r,
        succeeds(run(m, ops.take(i)), ops[i]),
        succeeds(run(m, ops.take(j)), ops[j]),
    ensures
        exists|k: int|
            i < k < j && run(m, ops.take(k)).contains_key(r) && !(#[trigger] run(m, ops.take(k + 1))).contains_key(r),
{
    lemma_run_step(m, ops, i);
    if !(exists|k: int|
        i < k < j && run(m, ops.take(k)).contains_key(r) && !(#[trigger] run(m, ops.take(k + 1))).contains_key(r)) {
        lemma_held_until_freed(m, ops, r, i, j);
    }
}

proof fn lemma_taken_by_first(m: Map<Seq<char>, Held>, r: Seq<char>, ops: Seq<Op>, k: int)
    requires
        !m.contains_key(r),
        1 <= k <= ops.len(),
        forall|i: int| 0 <= i < ops.len() ==> (#[trigger] ops[i]) is Acquire && ops[i]->Acquire_0 == r,
    ensures
        run(m, ops.take(k)).contains_key(r),
    decreases k,
{
    lemma_run_step(m, ops, k - 1);
    if k == 1 {
        assert(ops.take(0) =~= Seq::<Op>::empty());
    } else {
        lemma_taken_by_first(m, r, ops, k - 1);
    }
}

/// An acquire of `r` without expiry by each owner in turn.
pub open spec fn contenders(r: Seq<char>, owners: Seq<Seq<char>>) -> Seq<Op> {
    owners.map_values(|o: Seq<char>| Op::Acquire(r, o, None))
}

/// Contention: when a resource is free, of any number of acquires of it in
/// a row, by any owners and without expiry, the first succeeds and every
/// later one fails.
pub proof fn lemma_one_winner(m: Map<Seq<char>, Held>, r: Seq<char>, owners: Seq<Seq<char>>)
    requires
        !m.contains_key(r),
    ensures
        forall|i: int|
            0 <= i < owners.len() ==> (succeeds(run(m, contenders(r, owners).take(i)), #[trigger] contenders(r, owners)[i])
                <==> i == 0),
{
    let ops = contenders(r, owners);
    assert forall|i: int| 0 <= i < owners.len() implies (succeeds(run(m, ops.take(i)), #[trigger] ops[i]) <==> i == 0) by {
        if i == 0 {
            assert(ops.take(0) =~= Seq::<Op>::empty());
        } else {
            lemma_taken_by_first(m, r, ops, i);
        }
    }
}

/// Expiry: a lock taken at second `now` with a time to live of `ttl` seconds
/// is gone after a sweep at any second from `now + ttl` on.
pub proof fn lemma_ttl_expiry(m: Map<Seq<char>, Held>, r: Seq<char>, owner: Seq<char>, ttl: u64, now: u64, later: u64)
    requires
        !m.contains_key(r),
        now + ttl <= later,
    ensures
        apply(m, Op::Acquire(r, owner, expiry(Some(ttl), now))).contains_key(r),
        !apply(apply(m, Op::Acquire(r, owner, expiry(Some(ttl), now))), Op::Sweep(later)).contains_key(r),
{
}

} // verus!
