//! Properties relating several table operations, stated over the table's
//! mathematical model and proved once for all inputs. `PeerTable::touch`
//! ensures the new view is `old(view).insert(addr, now)`, and
//! `PeerTable::prune` ensures it is `live_view(old(view), now, timeout)`
//! with exactly `expired_keys(..)` reported evicted; these laws build on
//! those shapes.

use vstd::prelude::*;
use crate::addr::PeerAddr;
use crate::table::{expired, expired_keys, live_view};

verus! {

/// The mapping left by a run of `touch` calls for one address `a`, applied
/// in order, starting from `m`: each call inserts `a` at its timestamp.
pub open spec fn touch_run(m: Map<PeerAddr, u64>, a: PeerAddr, ts: Seq<u64>) -> Map<PeerAddr, u64>
    decreases ts.len(),
{
    if ts.len() == 0 {
        m
    } else {
        touch_run(m.insert(a, ts[0]), a, ts.subrange(1, ts.len() as int))
    }
}

/// A run of `touch` calls for one address with non-decreasing timestamps
/// leaves exactly one binding for that address, holding the latest
/// timestamp applied, and binds every other address as before.
pub proof fn lemma_touch_run_latest(m: Map<PeerAddr, u64>, a: PeerAddr, ts: Seq<u64>)
    requires
        ts.len() > 0,
        forall|i: int, j: int| 0 <= i <= j < ts.len() ==> ts[i] <= ts[j],
    ensures
        touch_run(m, a, ts).contains_key(a),
        touch_run(m, a, ts)[a] == ts.last(),
        forall|b: PeerAddr|
            b != a ==> #[trigger] touch_run(m, a, ts).contains_key(b) == m.contains_key(b),
        forall|b: PeerAddr|
            b != a && m.contains_key(b) ==> #[trigger] touch_run(m, a, ts)[b] == m[b],
    decreases ts.len(),
{
    let m1 = m.insert(a, ts[0]);
    let rest = ts.subrange(1, ts.len() as int);
    if ts.len() == 1 {
        assert(rest.len() == 0);
        assert(touch_run(m1, a, rest) == m1);
        assert(touch_run(m, a, ts) == m1);
        assert(ts.last() == ts[0]);
    } else {
        assert(forall|i: int, j: int| 0 <= i <= j < rest.len() ==> rest[i] <= rest[j]);
        lemma_touch_run_latest(m1, a, rest);
        assert(rest.last() == ts.last());
    }
}

/// Every address whose entry has aged past the threshold at the moment of a
/// prune pass is gone from the table right after it, and is reported
/// evicted.
pub proof fn lemma_prune_evicts_aged(m: Map<PeerAddr, u64>, a: PeerAddr, now: u64, timeout: u64)
    requires
        m.contains_key(a),
        expired(m[a], now, timeout),
    ensures
        !live_view(m, now, timeout).contains_key(a),
        expired_keys(m, now, timeout).contains(a),
{
}

/// Pruning is idempotent: a second prune pass at the same instant, with no
/// intervening `touch`, changes nothing and evicts nothing.
pub proof fn lemma_prune_idempotent(m: Map<PeerAddr, u64>, now: u64, timeout: u64)
    ensures
        live_view(live_view(m, now, timeout), now, timeout) == live_view(m, now, timeout),
        expired_keys(live_view(m, now, timeout), now, timeout) == Set::<PeerAddr>::empty(),
{
    assert(live_view(live_view(m, now, timeout), now, timeout) =~= live_view(m, now, timeout));
    assert(expired_keys(live_view(m, now, timeout), now, timeout) =~= Set::<PeerAddr>::empty());
}

/// The boundary is evicted: an entry whose age is exactly the threshold
/// counts as expired (">=", not ">").
pub proof fn lemma_boundary_evicted(m: Map<PeerAddr, u64>, a: PeerAddr, now: u64, timeout: u64)
    requires
        m.contains_key(a),
        now - m[a] == timeout,
    ensures
        !live_view(m, now, timeout).contains_key(a),
        expired_keys(m, now, timeout).contains(a),
{
}

} // verus!
