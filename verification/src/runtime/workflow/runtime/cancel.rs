//! Cancellations that arrive before their task.
use vstd::prelude::*;

use crate::keymap::KeyMap;

verus! {

/// How long a cancellation is kept, in milliseconds. Tasks do not wait that long.
pub const CANCELLED_TASKS_TTL_MS: u64 = 300_000;

/// How often old cancellations are dropped, in milliseconds.
pub const CANCELLED_TASKS_CLEANUP_INTERVAL_MS: u64 = 60_000;

/// The cancellations that are younger than `ttl`.
pub open spec fn unexpired(m: Map<Seq<char>, u64>, now: u64, ttl: u64) -> Map<Seq<char>, u64> {
    Map::new(
        |k: Seq<char>| m.contains_key(k) && kept(m[k], now, ttl),
        |k: Seq<char>| m[k],
    )
}

/// Less than `ttl` has passed from `since` to `now`.
pub open spec fn kept(since: u64, now: u64, ttl: u64) -> bool {
    if now >= since {
        now - since < ttl
    } else {
        0 < ttl
    }
}

/// Drops the cancellations that are `ttl` old or older. Returns how many were dropped.
pub fn cleanup_expired_cancelled_tasks(
    cancelled_tasks: &mut KeyMap<u64>,
    now: u64,
    ttl: u64,
) -> (removed: usize)
    ensures
        final(cancelled_tasks)@ == unexpired(old(cancelled_tasks)@, now, ttl),
        removed == old(cancelled_tasks)@.len() - final(cancelled_tasks)@.len(),
{
    let ghost before = cancelled_tasks@;
    let ghost order = cancelled_tasks.order();
    let n: usize = cancelled_tasks.len();
    let mut fresh: KeyMap<u64> = KeyMap::new();
    let mut i: usize = 0;
    while i < n
        invariant
            i <= n,
            cancelled_tasks@ == before,
            cancelled_tasks.order() == order,
            cancelled_tasks.listed(),
            n == order.len(),
            forall|k: Seq<char>| #[trigger]
                fresh@.contains_key(k) <==> order.take(i as int).contains(k) && kept(
                    before[k],
                    now,
                    ttl,
                ),
            forall|k: Seq<char>| #[trigger] fresh@.contains_key(k) ==> fresh@[k] == before[k],
        decreases n - i,
    {
        let since: u64 = *cancelled_tasks.value_at(i);
        let key = cancelled_tasks.key_at(i).clone();
        let young = if now >= since {
            now - since < ttl
        } else {
            0 < ttl
        };
        let ghost k = order[i as int];
        let ghost held = fresh@;
        if young {
            fresh.insert(key, since);
        }
        proof {
            assert(order.take(i + 1) =~= order.take(i as int).push(k));
            assert forall|x: Seq<char>| #[trigger]
                fresh@.contains_key(x) <==> order.take(i + 1).contains(x) && kept(
                    before[x],
                    now,
                    ttl,
                ) by {
                assert(held.contains_key(x) <==> order.take(i as int).contains(x) && kept(
                    before[x],
                    now,
                    ttl,
                ));
                if order.take(i as int).contains(x) {
                    let q = order.take(i as int).index_of(x);
                    assert(order.take(i + 1)[q] == x);
                }
                if x == k {
                    assert(order.take(i + 1)[i as int] == x);
                }
                if order.take(i + 1).contains(x) && x != k {
                    let q = order.take(i + 1).index_of(x);
                    assert(order.take(i as int)[q] == x);
                }
            }
        }
        i += 1;
    }
    proof {
        assert(order.take(i as int) =~= order);
        assert(fresh@ =~= unexpired(before, now, ttl));
        assert(fresh@.dom().subset_of(before.dom()));
        vstd::set_lib::lemma_len_subset(fresh@.dom(), before.dom());
    }
    let left: usize = fresh.len();
    *cancelled_tasks = fresh;
    n - left
}

} // verus!
