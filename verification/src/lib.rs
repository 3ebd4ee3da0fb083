//! Presence-detection beacon core: a peer-liveness table keyed by network
//! address, the pruning rule that expires silent peers, and the receiver
//! state machine that drives both. Socket handling and scheduling live
//! outside this crate; everything here is pure logic over plain values.

use vstd::prelude::*;

pub mod addr;
pub mod table;
pub mod receiver;
pub mod laws;

verus! {

/// A peer is considered gone once `now - last_seen` reaches this many seconds.
pub const LIVENESS_TIMEOUT_SECS: u64 = 3;

/// Seconds between two heartbeat transmissions.
pub const HEARTBEAT_INTERVAL_SECS: u64 = 1;

/// UDP port the beacon binds and heartbeats to.
pub const BEACON_PORT: u16 = 48666;

/// A heartbeat carries no content: the datagram's source address is the
/// entire signal.
pub fn heartbeat_payload() -> (p: Vec<u8>)
    ensures
        p@ == Seq::<u8>::empty(),
{
    let p: Vec<u8> = Vec::new();
    proof {
        assert(p@ =~= Seq::<u8>::empty());
    }
    p
}

} // verus!
