pub mod bytes;
pub mod packet;
pub mod mld;
pub mod ndp;
pub mod parse;
pub mod roundtrip;
pub mod write;

pub use parse::Icmp6Parser;
pub use write::Icmp6Writer;

use vstd::prelude::*;
use mld::{
    MulticastListenerQuery, MulticastListenerQueryV, V1MulticastListenerDone,
    V1MulticastListenerReport, V2MulticastListenerReport, V2MulticastListenerReportV,
};
use ndp::{
    NeighborAdvertisement, NeighborAdvertisementV, NeighborSolicitation, NeighborSolicitationV,
    Redirect, RedirectV, RouterAdvertisement, RouterAdvertisementV, RouterSolicitation,
    RouterSolicitationV,
};

verus! {

/// What can go wrong while decoding or encoding an ICMPv6 message.
#[derive(Debug, Clone, Copy, PartialEq, Eq, Structural)]
pub enum Icmp6Error {
    /// The payload is below the fixed size of its message type.
    PacketTooShort,
    /// Serialisation would exceed the 1500-byte limit for NDP and MLD
    /// output, or the 65536-byte packet buffer.
    PacketTooLong,
    /// An MLD query or report record names more than 80 sources.
    TooManySources,
    /// The received hop-by-hop blob is truncated mid-option.
    BadHopByHop,
    /// An MLD-type message arrived with a hop limit other than 1.
    MldHopLimit,
    /// An MLD-type message arrived without the Router Alert option.
    MldNoRouterAlert,
    /// The serialiser does not produce this message type.
    UnsupportedType,
}

/// A decoded ICMPv6 message. The comment on each variant is its type number.
#[derive(Debug, Clone, PartialEq)]
#[non_exhaustive]
pub enum Icmp6Packet {
    /// type 1, carries the code
    DestinationUnreachable(u8),
    /// type 2, carries the MTU
    PacketTooBig(u32),
    /// type 3, carries the code
    TimeExceeded(u8),
    /// type 4, carries the code
    ParameterProblem(u8),
    /// type 128
    EchoRequest { identifier: u16, sequence: u16, data: Vec<u8> },
    /// type 129
    EchoReply { identifier: u16, sequence: u16, data: Vec<u8> },
    /// type 130
    MulticastListenerQuery(MulticastListenerQuery),
    /// type 131
    V1MulticastListenerReport(V1MulticastListenerReport),
    /// type 132
    V1MulticastListenerDone(V1MulticastListenerDone),
    /// type 133
    RouterSolicitation(RouterSolicitation),
    /// type 134
    RouterAdvertisement(RouterAdvertisement),
    /// type 135
    NeighborSolicitation(NeighborSolicitation),
    /// type 136
    NeighborAdvertisement(NeighborAdvertisement),
    /// type 137
    Redirect(Redirect),
    /// type 138, carries the code
    RouterRenumbering(u8),
    /// type 139
    NodeInformationQuery,
    /// type 140
    NodeInformationResponse,
    /// type 141
    InverseNeighborDiscoverySolicitation,
    /// type 142
    InverseNeighborDiscoveryAdvertisement,
    /// type 143
    V2MulticastListenerReport(V2MulticastListenerReport),
    /// type 144
    HomeAgentAddressDiscoveryRequest,
    /// type 145
    HomeAgentAddressDiscoveryReply,
    /// type 146
    MobilePrefixSolicitation,
    /// type 147
    MobilePrefixAdvertisement,
    /// type 157, carries the code
    DuplicateAddressRequest(u8),
    /// type 158, carries the code
    DuplicateAddressConfirmation(u8),
    /// type 160, carries the code
    ExtendedEchoRequest(u8),
    /// type 161, carries the code
    ExtendedEchoReply(u8),
    /// any other type, with its code
    Unknown(u8, u8),
}

/// `Icmp6Packet` as contracts see it: the same shape, with every byte vector
/// read as a sequence.
pub enum Icmp6PacketV {
    DestinationUnreachable(u8),
    PacketTooBig(u32),
    TimeExceeded(u8),
    ParameterProblem(u8),
    EchoRequest { identifier: u16, sequence: u16, data: Seq<u8> },
    EchoReply { identifier: u16, sequence: u16, data: Seq<u8> },
    MulticastListenerQuery(MulticastListenerQueryV),
    V1MulticastListenerReport(V1MulticastListenerReport),
    V1MulticastListenerDone(V1MulticastListenerDone),
    RouterSolicitation(RouterSolicitationV),
    RouterAdvertisement(RouterAdvertisementV),
    NeighborSolicitation(NeighborSolicitationV),
    NeighborAdvertisement(NeighborAdvertisementV),
    Redirect(RedirectV),
    RouterRenumbering(u8),
    NodeInformationQuery,
    NodeInformationResponse,
    InverseNeighborDiscoverySolicitation,
    InverseNeighborDiscoveryAdvertisement,
    V2MulticastListenerReport(V2MulticastListenerReportV),
    HomeAgentAddressDiscoveryRequest,
    HomeAgentAddressDiscoveryReply,
    MobilePrefixSolicitation,
    MobilePrefixAdvertisement,
    DuplicateAddressRequest(u8),
    DuplicateAddressConfirmation(u8),
    ExtendedEchoRequest(u8),
    ExtendedEchoReply(u8),
    Unknown(u8, u8),
}

impl View for Icmp6Packet {
    type V = Icmp6PacketV;

    open spec fn view(&self) -> Icmp6PacketV {
        match self {
            Icmp6Packet::DestinationUnreachable(c) => Icmp6PacketV::DestinationUnreachable(*c),
            Icmp6Packet::PacketTooBig(m) => Icmp6PacketV::PacketTooBig(*m),
            Icmp6Packet::TimeExceeded(c) => Icmp6PacketV::TimeExceeded(*c),
            Icmp6Packet::ParameterProblem(c) => Icmp6PacketV::ParameterProblem(*c),
            Icmp6Packet::EchoRequest { identifier, sequence, data } => Icmp6PacketV::EchoRequest {
                identifier: *identifier,
                sequence: *sequence,
                data: data@,
            },
            Icmp6Packet::EchoReply { identifier, sequence, data } => Icmp6PacketV::EchoReply {
                identifier: *identifier,
                sequence: *sequence,
                data: data@,
            },
            Icmp6Packet::MulticastListenerQuery(q) => Icmp6PacketV::MulticastListenerQuery(q@),
            Icmp6Packet::V1MulticastListenerReport(r) => Icmp6PacketV::V1MulticastListenerReport(
                *r,
            ),
            Icmp6Packet::V1MulticastListenerDone(d) => Icmp6PacketV::V1MulticastListenerDone(*d),
            Icmp6Packet::RouterSolicitation(rs) => Icmp6PacketV::RouterSolicitation(rs@),
            Icmp6Packet::RouterAdvertisement(ra) => Icmp6PacketV::RouterAdvertisement(ra@),
            Icmp6Packet::NeighborSolicitation(ns) => Icmp6PacketV::NeighborSolicitation(ns@),
            Icmp6Packet::NeighborAdvertisement(na) => Icmp6PacketV::NeighborAdvertisement(na@),
            Icmp6Packet::Redirect(r) => Icmp6PacketV::Redirect(r@),
            Icmp6Packet::RouterRenumbering(c) => Icmp6PacketV::RouterRenumbering(*c),
            Icmp6Packet::NodeInformationQuery => Icmp6PacketV::NodeInformationQuery,
            Icmp6Packet::NodeInformationResponse => Icmp6PacketV::NodeInformationResponse,
            Icmp6Packet::InverseNeighborDiscoverySolicitation => Icmp6PacketV::InverseNeighborDiscoverySolicitation,
            Icmp6Packet::InverseNeighborDiscoveryAdvertisement => Icmp6PacketV::InverseNeighborDiscoveryAdvertisement,
            Icmp6Packet::V2MulticastListenerReport(r) => Icmp6PacketV::V2MulticastListenerReport(
                r@,
            ),
            Icmp6Packet::HomeAgentAddressDiscoveryRequest => Icmp6PacketV::HomeAgentAddressDiscoveryRequest,
            Icmp6Packet::HomeAgentAddressDiscoveryReply => Icmp6PacketV::HomeAgentAddressDiscoveryReply,
            Icmp6Packet::MobilePrefixSolicitation => Icmp6PacketV::MobilePrefixSolicitation,
            Icmp6Packet::MobilePrefixAdvertisement => Icmp6PacketV::MobilePrefixAdvertisement,
            Icmp6Packet::DuplicateAddressRequest(c) => Icmp6PacketV::DuplicateAddressRequest(*c),
            Icmp6Packet::DuplicateAddressConfirmation(c) => Icmp6PacketV::DuplicateAddressConfirmation(
                *c,
            ),
            Icmp6Packet::ExtendedEchoRequest(c) => Icmp6PacketV::ExtendedEchoRequest(*c),
            Icmp6Packet::ExtendedEchoReply(c) => Icmp6PacketV::ExtendedEchoReply(*c),
            Icmp6Packet::Unknown(t, c) => Icmp6PacketV::Unknown(*t, *c),
        }
    }
}

} // verus!
