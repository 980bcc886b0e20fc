use vstd::prelude::*;
use crate::addr::{unspecified_addr, Ip6Addr};
use crate::iface::InterfaceId;

verus! {

/// Ancillary packet information: the interface the datagram crossed and the
/// address that is the destination on receive or the source on send.
#[derive(Debug, Clone, Copy, PartialEq, Eq, Structural)]
pub struct PacketInfo {
    /// source address for sending, or destination address for receiving
    pub addr: Ip6Addr,
    /// interface index where the packet is sent or received
    pub if_index: InterfaceId,
}

#[derive(Debug, Clone, Copy, PartialEq, Eq, Structural)]
pub struct PacketHopLimit {
    pub hop_limit: u8,
}

/// A raw hop-by-hop options blob, as the kernel hands it over or expects it.
#[derive(Debug, Clone, PartialEq)]
pub struct PacketHopByHop {
    pub hop_by_hop: Vec<u8>,
}

/// One on-wire datagram: the peer address, the ICMPv6 payload, and whatever
/// ancillary data came with it or should go out with it.
#[derive(Debug, Clone, PartialEq)]
pub struct Packet {
    /// destination address for sending, or source address for receiving
    pub target_addr: Ip6Addr,
    /// ICMPv6 payload
    pub data: Vec<u8>,
    /// packet information
    pub info: Option<PacketInfo>,
    /// hop limit
    pub hop_limit: Option<PacketHopLimit>,
    /// hop-by-hop options
    pub hop_by_hop: Option<PacketHopByHop>,
}

impl Packet {
    pub fn new() -> (r: Self)
        ensures
            r.target_addr == unspecified_addr(),
            r.data@ == Seq::<u8>::empty(),
            r.info is None,
            r.hop_limit is None,
            r.hop_by_hop is None,
    {
        Packet {
            target_addr: Ip6Addr::unspecified(),
            data: Vec::new(),
            info: None,
            hop_limit: None,
            hop_by_hop: None,
        }
    }

    pub fn data(&self) -> (r: &[u8])
        ensures
            r@ == self.data@,
    {
        self.data.as_slice()
    }
}

/// The hop limit the parser goes by: the received one, or 255 when the
/// kernel supplied none.
pub open spec fn packet_ttl(p: Packet) -> u8 {
    match p.hop_limit {
        Some(h) => h.hop_limit,
        None => 255,
    }
}

/// The received hop-by-hop blob as a byte sequence, if any.
pub open spec fn packet_hbh(p: Packet) -> Option<Seq<u8>> {
    match p.hop_by_hop {
        Some(h) => Some(h.hop_by_hop@),
        None => None,
    }
}

} // verus!
