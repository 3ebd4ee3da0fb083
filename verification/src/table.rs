//! The peer-liveness table: a mapping from peer address to the timestamp of
//! the last heartbeat seen from it, with at most one entry per address.
//! Its mathematical model is a `Map<PeerAddr, u64>`.

use vstd::prelude::*;
use crate::addr::PeerAddr;

verus! {

/// One table entry: an address and the last second it was heard from.
#[derive(PartialEq, Eq, Structural, Clone, Copy, Debug)]
pub struct PeerEntry {
    pub addr: PeerAddr,
    pub last_seen: u64,
}

/// A peer whose heartbeat is `timeout` seconds old, or older, at `now` has
/// aged out (the boundary itself is evicted).
pub open spec fn expired(last_seen: u64, now: u64, timeout: u64) -> bool {
    now - last_seen >= timeout
}

/// Whether some entry of `s` carries address `a`.
spec fn has_addr(s: Seq<PeerEntry>, a: PeerAddr) -> bool {
    exists|i: int| 0 <= i < s.len() && s[i].addr == a
}

/// The index of the entry carrying `a` (meaningful when `has_addr(s, a)`
/// and the addresses of `s` are distinct).
spec fn addr_index(s: Seq<PeerEntry>, a: PeerAddr) -> int {
    choose|i: int| 0 <= i < s.len() && s[i].addr == a
}

/// The table invariant: no address occurs twice.
spec fn entries_wf(s: Seq<PeerEntry>) -> bool {
    forall|i: int, j: int| 0 <= i < j < s.len() ==> s[i].addr != s[j].addr
}

/// The mapping a well-formed entry sequence denotes.
spec fn entries_map(s: Seq<PeerEntry>) -> Map<PeerAddr, u64> {
    Map::new(|a: PeerAddr| has_addr(s, a), |a: PeerAddr| s[addr_index(s, a)].last_seen)
}

/// What remains of mapping `m` after one prune pass at `now`.
pub open spec fn live_view(m: Map<PeerAddr, u64>, now: u64, timeout: u64) -> Map<PeerAddr, u64> {
    Map::new(
        |a: PeerAddr| m.contains_key(a) && !expired(m[a], now, timeout),
        |a: PeerAddr| m[a],
    )
}

/// The addresses a prune pass at `now` evicts from mapping `m`.
pub open spec fn expired_keys(m: Map<PeerAddr, u64>, now: u64, timeout: u64) -> Set<PeerAddr> {
    Set::new(|a: PeerAddr| m.contains_key(a) && expired(m[a], now, timeout))
}

/// Entry `e` occurs among the first `bound` entries of `s`.
spec fn in_prefix(s: Seq<PeerEntry>, bound: int, e: PeerEntry) -> bool {
    exists|j: int| 0 <= j < bound && #[trigger] s[j] == e
}

/// Some entry among the first `bound` of `s` carries `a` and has expired.
spec fn expired_in_prefix(
    s: Seq<PeerEntry>,
    bound: int,
    a: PeerAddr,
    now: u64,
    timeout: u64,
) -> bool {
    exists|j: int|
        0 <= j < bound && #[trigger] s[j].addr == a && expired(s[j].last_seen, now, timeout)
}

/// Under distinct addresses, `addr_index` finds exactly the entry at `i`.
proof fn lemma_addr_index_unique(s: Seq<PeerEntry>, i: int)
    requires
        entries_wf(s),
        0 <= i < s.len(),
    ensures
        has_addr(s, s[i].addr),
        addr_index(s, s[i].addr) == i,
{
    assert(has_addr(s, s[i].addr));
    let j = addr_index(s, s[i].addr);
    assert(0 <= j < s.len() && s[j].addr == s[i].addr);
    if i < j {
        assert(s[i].addr != s[j].addr);
    } else if j < i {
        assert(s[j].addr != s[i].addr);
    }
}

/// Replacing the timestamp of the entry at `i` updates the denoted mapping
/// at that entry's address and nowhere else.
proof fn lemma_map_refresh(s: Seq<PeerEntry>, i: int, now: u64)
    requires
        entries_wf(s),
        0 <= i < s.len(),
    ensures
        entries_wf(s.update(i, PeerEntry { addr: s[i].addr, last_seen: now })),
        entries_map(s.update(i, PeerEntry { addr: s[i].addr, last_seen: now }))
            == entries_map(s).insert(s[i].addr, now),
{
    let e = PeerEntry { addr: s[i].addr, last_seen: now };
    let s2 = s.update(i, e);
    assert(forall|k: int| 0 <= k < s.len() ==> s2[k].addr == s[k].addr);
    assert(entries_wf(s2));
    assert forall|a: PeerAddr| has_addr(s2, a) == has_addr(s, a) by {
        if has_addr(s2, a) {
            let k = choose|k: int| 0 <= k < s2.len() && s2[k].addr == a;
            assert(s[k].addr == a);
        }
        if has_addr(s, a) {
            let k = choose|k: int| 0 <= k < s.len() && s[k].addr == a;
            assert(s2[k].addr == a);
        }
    }
    assert forall|a: PeerAddr| has_addr(s2, a) implies entries_map(s2)[a] == entries_map(
        s,
    ).insert(s[i].addr, now)[a] by {
        let k = addr_index(s2, a);
        assert(0 <= k < s2.len() && s2[k].addr == a);
        lemma_addr_index_unique(s2, k);
        lemma_addr_index_unique(s, k);
        if a == s[i].addr {
            lemma_addr_index_unique(s2, i);
            assert(k == i);
        } else {
            assert(k != i);
        }
    }
    assert(entries_map(s2) =~= entries_map(s).insert(s[i].addr, now));
}

/// Appending an entry with a fresh address extends the denoted mapping.
proof fn lemma_map_push(s: Seq<PeerEntry>, e: PeerEntry)
    requires
        entries_wf(s),
        !has_addr(s, e.addr),
    ensures
        entries_wf(s.push(e)),
        entries_map(s.push(e)) == entries_map(s).insert(e.addr, e.last_seen),
{
    let s2 = s.push(e);
    assert(forall|k: int| 0 <= k < s.len() ==> s2[k] == s[k]);
    assert(s2[s.len() as int] == e);
    assert forall|i: int, j: int| 0 <= i < j < s2.len() implies s2[i].addr != s2[j].addr by {
        if j < s.len() {
            assert(s[i].addr != s[j].addr);
        } else {
            assert(s2[j] == e);
            assert(s2[i] == s[i]);
        }
    }
    assert forall|a: PeerAddr| has_addr(s2, a) == (has_addr(s, a) || a == e.addr) by {
        if has_addr(s2, a) {
            let k = choose|k: int| 0 <= k < s2.len() && s2[k].addr == a;
            if k < s.len() {
                assert(s[k].addr == a);
            }
        }
        if has_addr(s, a) {
            let k = choose|k: int| 0 <= k < s.len() && s[k].addr == a;
            assert(s2[k].addr == a);
        }
        if a == e.addr {
            assert(s2[s.len() as int].addr == a);
        }
    }
    assert forall|a: PeerAddr| has_addr(s2, a) implies entries_map(s2)[a] == entries_map(
        s,
    ).insert(e.addr, e.last_seen)[a] by {
        let k = addr_index(s2, a);
        assert(0 <= k < s2.len() && s2[k].addr == a);
        lemma_addr_index_unique(s2, k);
        if a == e.addr {
            lemma_addr_index_unique(s2, s.len() as int);
            assert(k == s.len());
        } else {
            assert(k < s.len());
            lemma_addr_index_unique(s, k);
        }
    }
    assert(entries_map(s2) =~= entries_map(s).insert(e.addr, e.last_seen));
}

/// A well-formed entry sequence denotes a finite mapping with one key per
/// entry.
proof fn lemma_map_cardinality(s: Seq<PeerEntry>)
    requires
        entries_wf(s),
    ensures
        entries_map(s).dom().finite(),
        entries_map(s).dom().len() == s.len(),
    decreases s.len(),
{
    if s.len() == 0 {
        assert(entries_map(s).dom() =~= Set::<PeerAddr>::empty());
    } else {
        let s0 = s.drop_last();
        let e = s.last();
        assert(entries_wf(s0));
        lemma_map_cardinality(s0);
        assert(!has_addr(s0, e.addr)) by {
            if has_addr(s0, e.addr) {
                let j = choose|j: int| 0 <= j < s0.len() && s0[j].addr == e.addr;
                assert(s[j].addr == s[s.len() - 1].addr);
            }
        }
        assert(s0.push(e) =~= s);
        lemma_map_push(s0, e);
        assert(entries_map(s).dom() =~= entries_map(s0).dom().insert(e.addr));
    }
}

/// The shared peer table. All mutation goes through `touch` and `prune`.
pub struct PeerTable {
    entries: Vec<PeerEntry>,
}

impl PeerTable {
    /// No address occurs twice among the stored entries.
    pub closed spec fn wf(&self) -> bool {
        entries_wf(self.entries@)
    }

    /// The table as a mapping from address to last-seen timestamp.
    pub closed spec fn view(&self) -> Map<PeerAddr, u64> {
        entries_map(self.entries@)
    }

    pub fn new() -> (t: PeerTable)
        ensures
            t.wf(),
            t@ == Map::<PeerAddr, u64>::empty(),
    {
        let t = PeerTable { entries: Vec::new() };
        proof {
            assert(t@ =~= Map::<PeerAddr, u64>::empty());
        }
        t
    }

    /// Position of the entry for `addr`, if one is stored.
    fn find_index(&self, addr: &PeerAddr) -> (r: Option<usize>)
        ensures
            match r {
                Some(i) => i < self.entries@.len() && self.entries@[i as int].addr == *addr,
                None => !has_addr(self.entries@, *addr),
            },
    {
        let n = self.entries.len();
        let mut i: usize = 0;
        while i < n
            invariant
                i <= n,
                n == self.entries@.len(),
                forall|k: int| 0 <= k < i ==> self.entries@[k].addr != *addr,
            decreases n - i,
        {
            if self.entries[i].addr == *addr {
                return Some(i);
            }
            i = i + 1;
        }
        None
    }

    /// Record a heartbeat from `addr` at time `now`: insert the address if
    /// it is new, otherwise refresh its timestamp. Returns whether the
    /// address was new to the table.
    pub fn touch(&mut self, addr: PeerAddr, now: u64) -> (is_new: bool)
        requires
            old(self).wf(),
        ensures
            final(self).wf(),
            final(self)@ == old(self)@.insert(addr, now),
            is_new == !old(self)@.contains_key(addr),
    {
        match self.find_index(&addr) {
            Some(i) => {
                proof {
                    lemma_map_refresh(self.entries@, i as int, now);
                }
                self.entries[i].last_seen = now;
                false
            },
            None => {
                proof {
                    lemma_map_push(self.entries@, PeerEntry { addr, last_seen: now });
                }
                self.entries.push(PeerEntry { addr, last_seen: now });
                true
            },
        }
    }

    /// One prune pass: every entry whose heartbeat is `timeout` seconds old
    /// or older at `now` is removed; the evicted addresses come back, each
    /// once, in arbitrary order. Entries that stay keep their timestamps.
    pub fn prune(&mut self, now: u64, timeout: u64) -> (evicted: Vec<PeerAddr>)
        requires
            old(self).wf(),
        ensures
            final(self).wf(),
            final(self)@ == live_view(old(self)@, now, timeout),
            evicted@.no_duplicates(),
            forall|a: PeerAddr|
                #[trigger] evicted@.contains(a) == expired_keys(old(self)@, now, timeout).contains(
                    a,
                ),
    {
        let ghost s = self.entries@;
        let n = self.entries.len();
        let mut kept: Vec<PeerEntry> = Vec::new();
        let mut evicted: Vec<PeerAddr> = Vec::new();
        let mut i: usize = 0;
        while i < n
            invariant
                i <= n,
                n == s.len(),
                s == self.entries@,
                entries_wf(s),
                forall|k: int|
                    0 <= k < kept@.len() ==> in_prefix(s, i as int, #[trigger] kept@[k])
                        && !expired(kept@[k].last_seen, now, timeout),
                forall|j: int|
                    0 <= j < i && !expired(#[trigger] s[j].last_seen, now, timeout) ==> has_addr(
                        kept@,
                        s[j].addr,
                    ),
                forall|k: int|
                    0 <= k < evicted@.len() ==> expired_in_prefix(
                        s,
                        i as int,
                        #[trigger] evicted@[k],
                        now,
                        timeout,
                    ),
                forall|j: int|
                    0 <= j < i && expired(#[trigger] s[j].last_seen, now, timeout)
                        ==> evicted@.contains(s[j].addr),
                entries_wf(kept@),
                evicted@.no_duplicates(),
            decreases n - i,
        {
            let ghost kept0 = kept@;
            let ghost ev0 = evicted@;
            let e = self.entries[i];
            proof {
                assert(e == s[i as int]);
            }
            if is_expired_at(e.last_seen, now, timeout) {
                proof {
                    assert forall|k: int| 0 <= k < ev0.len() implies ev0[k] != e.addr by {
                        let j = choose|j: int|
                            0 <= j < i && #[trigger] s[j].addr == ev0[k] && expired(
                                s[j].last_seen,
                                now,
                                timeout,
                            );
                        assert(s[j].addr != s[i as int].addr);
                    }
                }
                evicted.push(e.addr);
                proof {
                    assert(evicted@ == ev0.push(e.addr));
                    assert(evicted@[ev0.len() as int] == e.addr);
                    assert forall|k: int|
                        0 <= k < evicted@.len() implies expired_in_prefix(
                        s,
                        i + 1,
                        #[trigger] evicted@[k],
                        now,
                        timeout,
                    ) by {
                        if k < ev0.len() {
                            assert(evicted@[k] == ev0[k]);
                            assert(expired_in_prefix(s, i as int, ev0[k], now, timeout));
                            let j = choose|j: int|
                                0 <= j < i && #[trigger] s[j].addr == ev0[k] && expired(
                                    s[j].last_seen,
                                    now,
                                    timeout,
                                );
                            assert(0 <= j < i + 1 && s[j].addr == evicted@[k] && expired(
                                s[j].last_seen,
                                now,
                                timeout,
                            ));
                        } else {
                            assert(evicted@[k] == s[i as int].addr);
                        }
                    }
                    assert forall|j: int|
                        0 <= j < i + 1 && expired(
                            #[trigger] s[j].last_seen,
                            now,
                            timeout,
                        ) implies evicted@.contains(s[j].addr) by {
                        if j < i {
                            assert(ev0.contains(s[j].addr));
                            let k = choose|k: int| 0 <= k < ev0.len() && ev0[k] == s[j].addr;
                            assert(evicted@[k] == s[j].addr);
                        } else {
                            assert(evicted@[ev0.len() as int] == s[j].addr);
                        }
                    }
                    assert forall|p: int, q: int|
                        0 <= p < evicted@.len() && 0 <= q < evicted@.len() && p
                            != q implies evicted@[p] != evicted@[q] by {
                        if p < ev0.len() && q < ev0.len() {
                            assert(ev0[p] != ev0[q]);
                        } else if q == ev0.len() {
                            assert(ev0[p] != e.addr);
                        } else {
                            assert(ev0[q] != e.addr);
                        }
                    }
                    assert(evicted@.no_duplicates());
                    assert forall|k: int|
                        0 <= k < kept@.len() implies in_prefix(s, i + 1, #[trigger] kept@[k]) by {
                        assert(in_prefix(s, i as int, kept@[k]));
                        let j = choose|j: int| 0 <= j < i && #[trigger] s[j] == kept@[k];
                        assert(0 <= j < i + 1 && s[j] == kept@[k]);
                    }
                }
            } else {
                proof {
                    assert forall|k: int| 0 <= k < kept0.len() implies kept0[k].addr != e.addr by {
                        assert(in_prefix(s, i as int, kept0[k]));
                        let j = choose|j: int| 0 <= j < i && #[trigger] s[j] == kept0[k];
                        assert(s[j].addr != s[i as int].addr);
                    }
                }
                kept.push(e);
                proof {
                    assert(kept@ == kept0.push(e));
                    assert(kept@[kept0.len() as int] == e);
                    assert forall|k: int|
                        0 <= k < kept@.len() implies in_prefix(s, i + 1, #[trigger] kept@[k])
                        && !expired(kept@[k].last_seen, now, timeout) by {
                        if k < kept0.len() {
                            assert(kept@[k] == kept0[k]);
                            assert(in_prefix(s, i as int, kept0[k]));
                            let j = choose|j: int| 0 <= j < i && #[trigger] s[j] == kept0[k];
                            assert(0 <= j < i + 1 && s[j] == kept@[k]);
                        } else {
                            assert(kept@[k] == s[i as int]);
                        }
                    }
                    assert forall|j: int|
                        0 <= j < i + 1 && !expired(
                            #[trigger] s[j].last_seen,
                            now,
                            timeout,
                        ) implies has_addr(kept@, s[j].addr) by {
                        if j < i {
                            assert(has_addr(kept0, s[j].addr));
                            let k = choose|k: int| 0 <= k < kept0.len() && #[trigger] kept0[k].addr
                                == s[j].addr;
                            assert(kept@[k].addr == s[j].addr);
                        } else {
                            assert(kept@[kept0.len() as int].addr == s[j].addr);
                        }
                    }
                    assert forall|p: int, q: int|
                        0 <= p < q < kept@.len() implies kept@[p].addr != kept@[q].addr by {
                        if q < kept0.len() {
                            assert(kept0[p].addr != kept0[q].addr);
                        } else {
                            assert(kept@[q] == e);
                            assert(kept@[p] == kept0[p]);
                        }
                    }
                    assert(entries_wf(kept@));
                    assert forall|k: int|
                        0 <= k < evicted@.len() implies expired_in_prefix(
                        s,
                        i + 1,
                        #[trigger] evicted@[k],
                        now,
                        timeout,
                    ) by {
                        assert(expired_in_prefix(s, i as int, evicted@[k], now, timeout));
                        let j = choose|j: int|
                            0 <= j < i && #[trigger] s[j].addr == evicted@[k] && expired(
                                s[j].last_seen,
                                now,
                                timeout,
                            );
                        assert(0 <= j < i + 1 && s[j].addr == evicted@[k] && expired(
                            s[j].last_seen,
                            now,
                            timeout,
                        ));
                    }
                }
            }
            i = i + 1;
        }
        self.entries = kept;
        proof {
            let m = entries_map(s);
            assert forall|a: PeerAddr| has_addr(self.entries@, a) == (m.contains_key(a) && !expired(
                m[a],
                now,
                timeout,
            )) by {
                if has_addr(self.entries@, a) {
                    let k = addr_index(self.entries@, a);
                    assert(0 <= k < self.entries@.len() && self.entries@[k].addr == a);
                    assert(in_prefix(s, n as int, self.entries@[k]));
                    let j = choose|j: int| 0 <= j < n && #[trigger] s[j] == self.entries@[k];
                    lemma_addr_index_unique(s, j);
                }
                if m.contains_key(a) && !expired(m[a], now, timeout) {
                    let j = addr_index(s, a);
                    assert(0 <= j < s.len() && s[j].addr == a);
                    assert(has_addr(self.entries@, s[j].addr));
                }
            }
            assert forall|a: PeerAddr| has_addr(self.entries@, a) implies entries_map(
                self.entries@,
            )[a] == m[a] by {
                let k = addr_index(self.entries@, a);
                assert(0 <= k < self.entries@.len() && self.entries@[k].addr == a);
                lemma_addr_index_unique(self.entries@, k);
                assert(in_prefix(s, n as int, self.entries@[k]));
                let j = choose|j: int| 0 <= j < n && #[trigger] s[j] == self.entries@[k];
                lemma_addr_index_unique(s, j);
            }
            assert(entries_map(self.entries@) =~= live_view(m, now, timeout));
            assert forall|a: PeerAddr|
                evicted@.contains(a) == expired_keys(m, now, timeout).contains(a) by {
                if evicted@.contains(a) {
                    let k = choose|k: int| 0 <= k < evicted@.len() && evicted@[k] == a;
                    assert(expired_in_prefix(s, n as int, evicted@[k], now, timeout));
                    let j = choose|j: int|
                        0 <= j < n && #[trigger] s[j].addr == evicted@[k] && expired(
                            s[j].last_seen,
                            now,
                            timeout,
                        );
                    lemma_addr_index_unique(s, j);
                }
                if expired_keys(m, now, timeout).contains(a) {
                    let j = addr_index(s, a);
                    assert(0 <= j < s.len() && s[j].addr == a);
                    assert(evicted@.contains(s[j].addr));
                }
            }
        }
        evicted
    }

    /// The number of peers currently held.
    pub fn len(&self) -> (n: usize)
        requires
            self.wf(),
        ensures
            n == self@.dom().len(),
            self@.dom().finite(),
    {
        proof {
            lemma_map_cardinality(self.entries@);
        }
        self.entries.len()
    }

    /// The last-seen timestamp recorded for `addr`, if the peer is present.
    pub fn last_seen(&self, addr: &PeerAddr) -> (r: Option<u64>)
        requires
            self.wf(),
        ensures
            r == if self@.contains_key(*addr) {
                Some(self@[*addr])
            } else {
                None::<u64>
            },
    {
        match self.find_index(addr) {
            Some(i) => {
                proof {
                    lemma_addr_index_unique(self.entries@, i as int);
                }
                Some(self.entries[i].last_seen)
            },
            None => None,
        }
    }

    /// The current set of peer addresses, in storage order: a read-only
    /// snapshot for reporting, reflecting every `touch` and `prune` so far.
    pub fn snapshot_keys(&self) -> (keys: Vec<PeerAddr>)
        requires
            self.wf(),
        ensures
            keys@.no_duplicates(),
            forall|a: PeerAddr| #[trigger] keys@.contains(a) == self@.contains_key(a),
            keys@.len() == self@.dom().len(),
    {
        let n = self.entries.len();
        let mut keys: Vec<PeerAddr> = Vec::new();
        let mut i: usize = 0;
        while i < n
            invariant
                i <= n,
                n == self.entries@.len(),
                keys@.len() == i,
                forall|k: int| 0 <= k < i ==> #[trigger] keys@[k] == self.entries@[k].addr,
            decreases n - i,
        {
            keys.push(self.entries[i].addr);
            i = i + 1;
        }
        proof {
            lemma_map_cardinality(self.entries@);
            assert forall|p: int, q: int|
                0 <= p < keys@.len() && 0 <= q < keys@.len() && p != q implies keys@[p]
                != keys@[q] by {
                if p < q {
                    assert(self.entries@[p].addr != self.entries@[q].addr);
                } else {
                    assert(self.entries@[q].addr != self.entries@[p].addr);
                }
            }
            assert(keys@.no_duplicates());
            assert forall|a: PeerAddr| #[trigger] keys@.contains(a) == self@.contains_key(a) by {
                if keys@.contains(a) {
                    let k = choose|k: int| 0 <= k < keys@.len() && keys@[k] == a;
                    assert(self.entries@[k].addr == a);
                    assert(has_addr(self.entries@, a));
                }
                if self@.contains_key(a) {
                    let j = addr_index(self.entries@, a);
                    assert(0 <= j < self.entries@.len() && self.entries@[j].addr == a);
                    assert(keys@[j] == a);
                }
            }
        }
        keys
    }
}

/// Executable form of `expired`, free of underflow and overflow.
fn is_expired_at(last_seen: u64, now: u64, timeout: u64) -> (r: bool)
    ensures
        r == expired(last_seen, now, timeout),
{
    now >= timeout && last_seen <= now - timeout
}

} // verus!
