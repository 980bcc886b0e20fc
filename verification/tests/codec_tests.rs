use ftthd::addr::Ip6Addr;
use ftthd::icmp6::mld::{
    MulticastListenerQuery, MulticastReportRecord, V2MulticastListenerReport,
};
use ftthd::icmp6::ndp::{
    NdpOption, NeighborAdvertisement, NeighborSolicitation, Redirect, RouterAdvertisement,
    RouterSolicitation,
};
use ftthd::icmp6::packet::{Packet, PacketHopByHop, PacketHopLimit};
use ftthd::icmp6::{Icmp6Error, Icmp6Packet, Icmp6Parser, Icmp6Writer};

fn addr(s0: u16, s1: u16, s2: u16, s3: u16, s4: u16, s5: u16, s6: u16, s7: u16) -> Ip6Addr {
    Ip6Addr::new(s0, s1, s2, s3, s4, s5, s6, s7)
}

/// Serialises a message, then feeds the bytes back through the parser as
/// a received packet, with the hop limit and hop-by-hop data the
/// serialiser chose.
fn round_trip(msg: Icmp6Packet) -> Icmp6Packet {
    let mut w = Icmp6Writer::new();
    w.set_packet(msg).expect("serialisation failed");
    let packet = Packet {
        target_addr: Ip6Addr::unspecified(),
        data: w.packet.data.clone(),
        info: None,
        hop_limit: w.packet.hop_limit,
        hop_by_hop: w.packet.hop_by_hop.clone(),
    };
    Icmp6Parser::new_from_packet(packet).parse().expect("parse failed")
}

#[test]
fn round_trip_echo_request() {
    let msg = Icmp6Packet::EchoRequest { identifier: 0x1234, sequence: 7, data: vec![1, 2, 3] };
    assert_eq!(round_trip(msg.clone()), msg);
}

#[test]
fn round_trip_echo_reply() {
    let msg = Icmp6Packet::EchoReply { identifier: 0xffee, sequence: 65535, data: vec![] };
    assert_eq!(round_trip(msg.clone()), msg);
}

#[test]
fn round_trip_router_solicitation_with_source_ll() {
    let msg = Icmp6Packet::RouterSolicitation(RouterSolicitation {
        options: vec![NdpOption {
            option_type: 1,
            option_data: vec![0x00, 0x11, 0x22, 0x33, 0x44, 0x55],
        }],
    });
    assert_eq!(round_trip(msg.clone()), msg);
}

#[test]
fn round_trip_router_advertisement() {
    let msg = Icmp6Packet::RouterAdvertisement(RouterAdvertisement {
        hop_limit: 64,
        managed_address_configuration: true,
        other_configuration: false,
        router_lifetime: 1800,
        reachable_time: 30000,
        retrans_timer: 1000,
        options: vec![NdpOption { option_type: 5, option_data: vec![0, 0, 0, 0, 5, 220] }],
    });
    assert_eq!(round_trip(msg.clone()), msg);
}

#[test]
fn round_trip_neighbor_solicitation() {
    let msg = Icmp6Packet::NeighborSolicitation(NeighborSolicitation {
        target_address: addr(0x2001, 0x0db8, 0, 0, 0, 0, 0, 0x42),
        options: vec![NdpOption {
            option_type: 1,
            option_data: vec![0xaa, 0xbb, 0xcc, 0xdd, 0xee, 0xff],
        }],
    });
    assert_eq!(round_trip(msg.clone()), msg);
}

#[test]
fn round_trip_neighbor_advertisement() {
    let msg = Icmp6Packet::NeighborAdvertisement(NeighborAdvertisement {
        router: true,
        solicited: false,
        override_: true,
        target_address: addr(0x2001, 0x0db8, 0, 0, 0, 0, 0, 0x42),
        options: vec![],
    });
    assert_eq!(round_trip(msg.clone()), msg);
}

#[test]
fn round_trip_redirect() {
    let msg = Icmp6Packet::Redirect(Redirect {
        target_address: addr(0xfe80, 0, 0, 0, 0, 0, 0, 1),
        destination_address: addr(0x2001, 0x0db8, 0, 0, 0, 0, 0, 9),
        options: vec![],
    });
    assert_eq!(round_trip(msg.clone()), msg);
}

#[test]
fn round_trip_multicast_listener_query() {
    let msg = Icmp6Packet::MulticastListenerQuery(MulticastListenerQuery {
        maximum_response_delay: 10000,
        group_address: addr(0xff38, 0, 0, 0, 0, 0, 0x12, 0x34),
        supress_router_processing: true,
        qrv: 2,
        qqic: 125,
        source_addresses: vec![addr(0x2001, 0x0db8, 0, 0, 0, 0, 0, 0xa)],
    });
    assert_eq!(round_trip(msg.clone()), msg);
}

#[test]
fn round_trip_v2_report() {
    let msg = Icmp6Packet::V2MulticastListenerReport(V2MulticastListenerReport {
        records: vec![
            MulticastReportRecord {
                record_type: 1,
                multicast_address: addr(0xff38, 0, 0, 0, 0, 0, 0x12, 0x34),
                source_addresses: vec![
                    addr(0x2001, 0x0db8, 0, 0, 0, 0, 0, 0xa),
                    addr(0x2001, 0x0db8, 0, 0, 0, 0, 0, 0xb),
                ],
            },
            MulticastReportRecord {
                record_type: 2,
                multicast_address: addr(0xff38, 0, 0, 0, 0, 0, 0x43, 0x21),
                source_addresses: vec![],
            },
        ],
    });
    assert_eq!(round_trip(msg.clone()), msg);
}

#[test]
fn source_ll_option_serialises_to_eight_bytes() {
    // type 1, length 1 (in 8-byte units), then the six MAC bytes
    let msg = Icmp6Packet::RouterSolicitation(RouterSolicitation {
        options: vec![NdpOption {
            option_type: 1,
            option_data: vec![0x00, 0x11, 0x22, 0x33, 0x44, 0x55],
        }],
    });
    let mut w = Icmp6Writer::new();
    w.set_packet(msg).unwrap();
    assert_eq!(w.packet.data.len(), 16);
    assert_eq!(
        &w.packet.data[8..],
        &[1, 1, 0x00, 0x11, 0x22, 0x33, 0x44, 0x55]
    );
}

#[test]
fn neighbor_solicitation_exact_bytes() {
    let msg = Icmp6Packet::NeighborSolicitation(NeighborSolicitation {
        target_address: addr(0x2001, 0x0db8, 0, 0, 0, 0, 0, 0x42),
        options: vec![],
    });
    let mut w = Icmp6Writer::new();
    w.set_packet(msg).unwrap();
    let expected: Vec<u8> = vec![
        135, 0, 0, 0, 0, 0, 0, 0, 0x20, 0x01, 0x0d, 0xb8, 0, 0, 0, 0, 0, 0, 0, 0, 0, 0, 0, 0x42,
    ];
    assert_eq!(w.packet.data, expected);
}

#[test]
fn mld_output_carries_router_alert() {
    let msg = Icmp6Packet::MulticastListenerQuery(MulticastListenerQuery {
        maximum_response_delay: 0,
        group_address: addr(0xff38, 0, 0, 0, 0, 0, 0, 1),
        supress_router_processing: false,
        qrv: 0,
        qqic: 0,
        source_addresses: vec![],
    });
    let mut w = Icmp6Writer::new();
    w.set_packet(msg).unwrap();
    assert_eq!(w.packet.hop_limit, Some(PacketHopLimit { hop_limit: 1 }));
    assert_eq!(
        w.packet.hop_by_hop,
        Some(PacketHopByHop { hop_by_hop: vec![0x3a, 0x00, 0x01, 0x00, 0x05, 0x02, 0x00, 0x00] })
    );
}

fn mld_query_bytes() -> Vec<u8> {
    let mut w = Icmp6Writer::new();
    w.set_packet(Icmp6Packet::MulticastListenerQuery(MulticastListenerQuery {
        maximum_response_delay: 0,
        group_address: addr(0xff38, 0, 0, 0, 0, 0, 0, 1),
        supress_router_processing: false,
        qrv: 0,
        qqic: 0,
        source_addresses: vec![],
    }))
    .unwrap();
    w.packet.data.clone()
}

#[test]
fn mld_rejected_without_hop_limit_one() {
    let packet = Packet {
        target_addr: Ip6Addr::unspecified(),
        data: mld_query_bytes(),
        info: None,
        hop_limit: Some(PacketHopLimit { hop_limit: 64 }),
        hop_by_hop: Some(PacketHopByHop {
            hop_by_hop: vec![0x3a, 0x00, 0x01, 0x00, 0x05, 0x02, 0x00, 0x00],
        }),
    };
    let r = Icmp6Parser::new_from_packet(packet).parse();
    assert_eq!(r, Err(Icmp6Error::MldHopLimit));
}

#[test]
fn mld_rejected_without_router_alert() {
    let packet = Packet {
        target_addr: Ip6Addr::unspecified(),
        data: mld_query_bytes(),
        info: None,
        hop_limit: Some(PacketHopLimit { hop_limit: 1 }),
        hop_by_hop: None,
    };
    let r = Icmp6Parser::new_from_packet(packet).parse();
    assert_eq!(r, Err(Icmp6Error::MldNoRouterAlert));
}

#[test]
fn short_payload_rejected() {
    let packet = Packet {
        target_addr: Ip6Addr::unspecified(),
        data: vec![135, 0, 0],
        info: None,
        hop_limit: None,
        hop_by_hop: None,
    };
    let r = Icmp6Parser::new_from_packet(packet).parse();
    assert_eq!(r, Err(Icmp6Error::PacketTooShort));
}

#[test]
fn short_ndp_payload_rejected() {
    let packet = Packet {
        target_addr: Ip6Addr::unspecified(),
        data: vec![135, 0, 0, 0, 0, 0, 0, 0],
        info: None,
        hop_limit: None,
        hop_by_hop: None,
    };
    let r = Icmp6Parser::new_from_packet(packet).parse();
    assert_eq!(r, Err(Icmp6Error::PacketTooShort));
}

#[test]
fn truncated_hop_by_hop_rejected() {
    let packet = Packet {
        target_addr: Ip6Addr::unspecified(),
        data: vec![128, 0, 0, 0, 0, 1, 0, 2],
        info: None,
        hop_limit: None,
        hop_by_hop: Some(PacketHopByHop { hop_by_hop: vec![0x3a, 0x00, 0x05] }),
    };
    let r = Icmp6Parser::new_from_packet(packet).parse();
    assert_eq!(r, Err(Icmp6Error::BadHopByHop));
}

#[test]
fn unsupported_type_not_serialised() {
    let mut w = Icmp6Writer::new();
    let r = w.set_packet(Icmp6Packet::DestinationUnreachable(0));
    assert_eq!(r, Err(Icmp6Error::UnsupportedType));
}

#[test]
fn too_many_query_sources_rejected() {
    let sources: Vec<Ip6Addr> = (0..81u16).map(|k| addr(0x2001, 0, 0, 0, 0, 0, 0, k)).collect();
    let mut w = Icmp6Writer::new();
    let r = w.set_packet(Icmp6Packet::MulticastListenerQuery(MulticastListenerQuery {
        maximum_response_delay: 0,
        group_address: addr(0xff38, 0, 0, 0, 0, 0, 0, 1),
        supress_router_processing: false,
        qrv: 0,
        qqic: 0,
        source_addresses: sources,
    }));
    assert_eq!(r, Err(Icmp6Error::TooManySources));
}

#[test]
fn oversized_report_rejected() {
    // 80 records of 20 bytes each overrun the 1500-byte limit
    let records: Vec<MulticastReportRecord> = (0..80u16)
        .map(|k| MulticastReportRecord {
            record_type: 2,
            multicast_address: addr(0xff38, 0, 0, 0, 0, 0, 0, k),
            source_addresses: vec![],
        })
        .collect();
    let mut w = Icmp6Writer::new();
    let r = w.set_packet(Icmp6Packet::V2MulticastListenerReport(V2MulticastListenerReport {
        records,
    }));
    assert_eq!(r, Err(Icmp6Error::PacketTooLong));
}

#[test]
fn unknown_type_parses_as_unknown() {
    let packet = Packet {
        target_addr: Ip6Addr::unspecified(),
        data: vec![200, 7, 0, 0],
        info: None,
        hop_limit: None,
        hop_by_hop: None,
    };
    let r = Icmp6Parser::new_from_packet(packet).parse();
    assert_eq!(r, Ok(Icmp6Packet::Unknown(200, 7)));
}

#[test]
fn oversized_echo_rejected() {
    let mut w = Icmp6Writer::new();
    let r = w.set_packet(Icmp6Packet::EchoRequest {
        identifier: 1,
        sequence: 1,
        data: vec![0u8; 65529],
    });
    assert_eq!(r, Err(Icmp6Error::PacketTooLong));
}

#[test]
fn v1_report_parses_with_mld_gate() {
    // type 131, 24 bytes, group at offset 8
    let mut data = vec![131u8, 0, 0, 0, 0, 0, 0, 0];
    data.extend_from_slice(&[0xff, 0x38, 0, 0, 0, 0, 0, 0, 0, 0, 0, 0, 0, 0x12, 0x34, 0x56]);
    let packet = Packet {
        target_addr: Ip6Addr::unspecified(),
        data,
        info: None,
        hop_limit: Some(PacketHopLimit { hop_limit: 1 }),
        hop_by_hop: Some(PacketHopByHop {
            hop_by_hop: vec![0x3a, 0x00, 0x01, 0x00, 0x05, 0x02, 0x00, 0x00],
        }),
    };
    let r = Icmp6Parser::new_from_packet(packet).parse().unwrap();
    match r {
        Icmp6Packet::V1MulticastListenerReport(m) => {
            assert_eq!(m.group_address, addr(0xff38, 0, 0, 0, 0, 0, 0x0012, 0x3456));
        },
        other => panic!("unexpected message: {:?}", other),
    }
}

#[test]
fn short_query_form_parses_without_v2_fields() {
    // a 24-byte query has no S, QRV, QQIC or source fields
    let mut data = vec![130u8, 0, 0, 0, 0x27, 0x10, 0, 0];
    data.extend_from_slice(&[0xff, 0x38, 0, 0, 0, 0, 0, 0, 0, 0, 0, 0, 0, 0, 0x12, 0x34]);
    let packet = Packet {
        target_addr: Ip6Addr::unspecified(),
        data,
        info: None,
        hop_limit: Some(PacketHopLimit { hop_limit: 1 }),
        hop_by_hop: Some(PacketHopByHop {
            hop_by_hop: vec![0x3a, 0x00, 0x01, 0x00, 0x05, 0x02, 0x00, 0x00],
        }),
    };
    let r = Icmp6Parser::new_from_packet(packet).parse().unwrap();
    match r {
        Icmp6Packet::MulticastListenerQuery(q) => {
            assert_eq!(q.maximum_response_delay, 10000);
            assert_eq!(q.group_address, addr(0xff38, 0, 0, 0, 0, 0, 0, 0x1234));
            assert!(!q.supress_router_processing);
            assert_eq!(q.qrv, 0);
            assert_eq!(q.qqic, 0);
            assert_eq!(q.source_addresses, vec![]);
        },
        other => panic!("unexpected message: {:?}", other),
    }
}

#[test]
fn option_padding_parses_back_padded() {
    // a 3-byte option is padded with zeros to fill its 8-byte unit
    let msg = Icmp6Packet::RouterSolicitation(RouterSolicitation {
        options: vec![NdpOption { option_type: 14, option_data: vec![9, 8, 7] }],
    });
    let parsed = round_trip(msg);
    match parsed {
        Icmp6Packet::RouterSolicitation(rs) => {
            assert_eq!(rs.options.len(), 1);
            assert_eq!(rs.options[0].option_type, 14);
            assert_eq!(rs.options[0].option_data, vec![9, 8, 7, 0, 0, 0]);
        },
        other => panic!("unexpected message: {:?}", other),
    }
}
