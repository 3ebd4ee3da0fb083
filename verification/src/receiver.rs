//! The receiver's per-wake step as pure logic. The surrounding loop blocks
//! on the receive endpoint with a bounded timeout, classifies what woke it
//! into a `RecvEvent`, and hands the event here; this step updates the peer
//! table and says what to report. Pruning runs on every non-fatal wake, so
//! a dead peer outlives its last heartbeat by at most one receive window.

use vstd::prelude::*;
use crate::addr::PeerAddr;
use crate::table::{PeerTable, expired_keys, live_view};

verus! {

/// The outcome of one blocking receive call, handed in from outside. The
/// payload of a datagram is deliberately absent: content is never parsed,
/// the source address is the entire liveness signal.
#[derive(Clone, Copy, Debug)]
pub enum RecvEvent {
    /// A datagram arrived from this source address.
    Datagram(PeerAddr),
    /// The receive window elapsed with no datagram; expected, not an error.
    Timeout,
    /// A retryable condition (such as would-block); treated like a timeout.
    Transient,
    /// Any other receive failure; ends the receiver.
    Fatal,
}

/// What one receiver wake-up asks the caller to report and do next.
pub struct CycleReport {
    /// The source address, when its heartbeat was the first ever seen.
    pub new_peer: Option<PeerAddr>,
    /// The addresses this wake-up's prune pass evicted.
    pub evicted: Vec<PeerAddr>,
    /// Whether the set of live addresses changed, so the full peer set
    /// should be reported anew.
    pub set_changed: bool,
    /// Whether the receiver must stop instead of waiting again.
    pub fatal: bool,
}

/// One wake-up of the receiver: on a datagram, record its source in the
/// table; then, unless the wake was fatal, run one prune pass at `now`. A
/// fatal wake leaves the table untouched and ends the loop.
pub fn receiver_cycle(table: &mut PeerTable, event: RecvEvent, now: u64, timeout: u64) -> (r:
    CycleReport)
    requires
        old(table).wf(),
    ensures
        final(table).wf(),
        r.fatal == (event is Fatal),
        r.set_changed == (r.new_peer is Some || r.evicted@.len() > 0),
        r.evicted@.no_duplicates(),
        match event {
            RecvEvent::Datagram(src) => {
                &&& final(table)@ == live_view(old(table)@.insert(src, now), now, timeout)
                &&& r.new_peer == if old(table)@.contains_key(src) {
                    None::<PeerAddr>
                } else {
                    Some(src)
                }
                &&& forall|a: PeerAddr|
                    #[trigger] r.evicted@.contains(a) == expired_keys(
                        old(table)@.insert(src, now),
                        now,
                        timeout,
                    ).contains(a)
            },
            RecvEvent::Timeout | RecvEvent::Transient => {
                &&& final(table)@ == live_view(old(table)@, now, timeout)
                &&& r.new_peer is None
                &&& forall|a: PeerAddr|
                    #[trigger] r.evicted@.contains(a) == expired_keys(
                        old(table)@,
                        now,
                        timeout,
                    ).contains(a)
            },
            RecvEvent::Fatal => {
                &&& *final(table) == *old(table)
                &&& r.new_peer is None
                &&& r.evicted@.len() == 0
            },
        },
{
    match event {
        RecvEvent::Datagram(src) => {
            let is_new = table.touch(src, now);
            let evicted = table.prune(now, timeout);
            let set_changed = is_new || evicted.len() > 0;
            CycleReport {
                new_peer: if is_new {
                    Some(src)
                } else {
                    None
                },
                evicted,
                set_changed,
                fatal: false,
            }
        },
        RecvEvent::Timeout | RecvEvent::Transient => {
            let evicted = table.prune(now, timeout);
            let set_changed = evicted.len() > 0;
            CycleReport { new_peer: None, evicted, set_changed, fatal: false }
        },
        RecvEvent::Fatal => {
            CycleReport { new_peer: None, evicted: Vec::new(), set_changed: false, fatal: true }
        },
    }
}

} // verus!
