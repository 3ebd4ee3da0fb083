//! Peer addresses as plain values: the IP (IPv4 widened to 32 of the 128
//! bits, or full IPv6) together with the port. Value equality on these
//! fields is what keys the peer table.

use vstd::prelude::*;

verus! {

/// A network endpoint identifier. `ip` holds the raw address bits: for an
/// IPv4 endpoint (`is_v6 == false`) only the low 32 bits are used.
#[derive(PartialEq, Eq, Structural, Clone, Copy, Hash, Debug)]
pub struct PeerAddr {
    pub ip: u128,
    pub is_v6: bool,
    pub port: u16,
}

impl PeerAddr {
    /// An IPv4 address leaves the high 96 bits clear.
    pub open spec fn wf(self) -> bool {
        !self.is_v6 ==> self.ip < 0x1_0000_0000
    }

    /// IPv4 multicast is 224.0.0.0/4; IPv6 multicast is ff00::/8.
    pub open spec fn spec_is_multicast(self) -> bool {
        if self.is_v6 {
            self.ip >> 120 == 0xff
        } else {
            0xE000_0000 <= self.ip < 0xF000_0000
        }
    }

    pub fn v4(ip: u32, port: u16) -> (a: PeerAddr)
        ensures
            a.wf(),
            !a.is_v6,
            a.ip == ip,
            a.port == port,
    {
        PeerAddr { ip: ip as u128, is_v6: false, port }
    }

    pub fn v6(ip: u128, port: u16) -> (a: PeerAddr)
        ensures
            a.wf(),
            a.is_v6,
            a.ip == ip,
            a.port == port,
    {
        PeerAddr { ip, is_v6: true, port }
    }

    /// Whether this address may serve as a beacon group address.
    pub fn is_multicast(&self) -> (r: bool)
        ensures
            r == self.spec_is_multicast(),
    {
        if self.is_v6 {
            (self.ip >> 120) == 0xff
        } else {
            0xE000_0000 <= self.ip && self.ip < 0xF000_0000
        }
    }
}

} // verus!
