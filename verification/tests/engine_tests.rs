use ftthd::actions::Action;
use ftthd::addr::Ip6Addr;
use ftthd::engine::{Engine, EngineConfig};
use ftthd::iface::{Interface, InterfaceEntry, InterfaceId, InterfaceTable};
use ftthd::icmp6::mld::{MulticastListenerQuery, MulticastReportRecord, V2MulticastListenerReport};
use ftthd::icmp6::ndp::{NdpOption, NeighborAdvertisement, NeighborSolicitation, RouterSolicitation};
use ftthd::icmp6::packet::PacketInfo;
use ftthd::icmp6::Icmp6Packet;

fn addr(s0: u16, s1: u16, s2: u16, s3: u16, s4: u16, s5: u16, s6: u16, s7: u16) -> Ip6Addr {
    Ip6Addr::new(s0, s1, s2, s3, s4, s5, s6, s7)
}

fn eth0() -> InterfaceId {
    InterfaceId::new(1)
}

fn eth1() -> InterfaceId {
    InterfaceId::new(2)
}

fn eth2() -> InterfaceId {
    InterfaceId::new(3)
}

/// eth0 is the upstream, eth1 and eth2 the downstreams.
fn engine() -> Engine {
    let config = EngineConfig {
        upstream: eth0(),
        downstreams: vec![eth1(), eth2()],
        upstream_global_addrs: vec![addr(0x2001, 0x0db8, 0xffff, 0, 0, 0, 0, 1)],
    };
    Engine::new(config).0
}

fn entry(id: InterfaceId, name: &str, ll: Option<Ip6Addr>, mac: Option<Vec<u8>>) -> InterfaceEntry {
    InterfaceEntry {
        iface: Interface { if_id: id, if_name: name.to_string() },
        link_local_addrs: match ll {
            Some(a) => vec![a],
            None => vec![],
        },
        link_layer_addr: mac,
    }
}

/// eth0 has link-local fe80::a0 and address 02:00:00:00:00:a0; eth2 has
/// fe80::1 and aa:bb:cc:dd:ee:ff; eth1 has fe80::b0 and no known
/// link-layer address.
fn table() -> InterfaceTable {
    let mut t = InterfaceTable::new();
    assert!(t.add(entry(
        eth0(),
        "eth0",
        Some(addr(0xfe80, 0, 0, 0, 0, 0, 0, 0xa0)),
        Some(vec![0x02, 0x00, 0x00, 0x00, 0x00, 0xa0]),
    )));
    assert!(t.add(entry(eth1(), "eth1", Some(addr(0xfe80, 0, 0, 0, 0, 0, 0, 0xb0)), None)));
    assert!(t.add(entry(
        eth2(),
        "eth2",
        Some(addr(0xfe80, 0, 0, 0, 0, 0, 0, 1)),
        Some(vec![0xaa, 0xbb, 0xcc, 0xdd, 0xee, 0xff]),
    )));
    t
}

#[test]
fn ns_mirrored_with_rewritten_source_ll() {
    // a host on eth1 solicits 2001:db8::42; the copy that leaves on eth2
    // carries eth2's own link-layer address and link-local source
    let e = engine();
    let t = table();
    let ns = NeighborSolicitation {
        target_address: addr(0x2001, 0x0db8, 0, 0, 0, 0, 0, 0x42),
        options: vec![NdpOption {
            option_type: 1,
            option_data: vec![0x00, 0x11, 0x22, 0x33, 0x44, 0x55],
        }],
    };
    let dst = addr(0xff02, 0, 0, 0, 0, 1, 0xff00, 0x42);
    let out = e.handle_neighbor_solicitation(&t, &ns, eth1(), dst);
    // one copy per other configured interface: eth0 and eth2
    assert_eq!(out.len(), 2);
    let on_eth2 = &out[1];
    assert_eq!(on_eth2.dst, dst);
    assert_eq!(on_eth2.hop_limit, 255);
    assert_eq!(on_eth2.info, PacketInfo {
        addr: addr(0xfe80, 0, 0, 0, 0, 0, 0, 1),
        if_index: eth2(),
    });
    match &on_eth2.msg {
        Icmp6Packet::NeighborSolicitation(m) => {
            assert_eq!(m.target_address, ns.target_address);
            assert_eq!(m.options.len(), 1);
            assert_eq!(m.options[0].option_type, 1);
            assert_eq!(m.options[0].option_data, vec![0xaa, 0xbb, 0xcc, 0xdd, 0xee, 0xff]);
        },
        other => panic!("unexpected message: {:?}", other),
    }
}

#[test]
fn link_local_ns_dropped() {
    let e = engine();
    let t = table();
    let ns = NeighborSolicitation {
        target_address: addr(0xfe80, 0, 0, 0, 0, 0, 0, 0xbeef),
        options: vec![],
    };
    let out = e.handle_neighbor_solicitation(&t, &ns, eth1(), addr(0xff02, 0, 0, 0, 0, 1, 0, 1));
    assert_eq!(out, vec![]);
}

#[test]
fn ns_for_upstream_global_address_dropped() {
    let e = engine();
    let t = table();
    let ns = NeighborSolicitation {
        target_address: addr(0x2001, 0x0db8, 0xffff, 0, 0, 0, 0, 1),
        options: vec![],
    };
    let out = e.handle_neighbor_solicitation(&t, &ns, eth1(), addr(0xff02, 0, 0, 0, 0, 1, 0, 1));
    assert_eq!(out, vec![]);
}

#[test]
fn na_rewires_route_and_proxy_entries() {
    let e = engine();
    let target = addr(0x2001, 0x0db8, 0, 0, 0, 0, 0, 0x42);
    let na = NeighborAdvertisement {
        router: false,
        solicited: true,
        override_: false,
        target_address: target,
        options: vec![],
    };
    let actions = e.handle_neighbor_advertisement(&na, eth1());
    assert_eq!(actions, vec![
        Action::RouteDelete { if_index: InterfaceId::unspecified(), dst: target, prefix_len: 128 },
        Action::RouteAdd { if_index: eth1(), dst: target, prefix_len: 128 },
        Action::ProxyNeighborDelete { if_index: eth1(), addr: target },
        Action::ProxyNeighborDelete { if_index: eth0(), addr: target },
        Action::ProxyNeighborAdd { if_index: eth0(), addr: target },
        Action::ProxyNeighborDelete { if_index: eth2(), addr: target },
        Action::ProxyNeighborAdd { if_index: eth2(), addr: target },
    ]);
}

#[test]
fn link_local_na_ignored() {
    let e = engine();
    let na = NeighborAdvertisement {
        router: false,
        solicited: true,
        override_: false,
        target_address: addr(0xfe80, 0, 0, 0, 0, 0, 0, 0xbeef),
        options: vec![],
    };
    assert_eq!(e.handle_neighbor_advertisement(&na, eth1()), vec![]);
}

#[test]
fn rs_re_emitted_upstream() {
    // an RS from eth1 leaves on eth0 with eth0's link-local source and
    // eth0's link-layer address in a fresh source option
    let e = engine();
    let t = table();
    let rs = RouterSolicitation {
        options: vec![NdpOption {
            option_type: 1,
            option_data: vec![0x00, 0x11, 0x22, 0x33, 0x44, 0x55],
        }],
    };
    let dst = addr(0xff02, 0, 0, 0, 0, 0, 0, 2);
    let out = e.handle_router_solicitation(&t, &rs, eth1(), dst).expect("nothing emitted");
    assert_eq!(out.dst, dst);
    assert_eq!(out.hop_limit, 255);
    assert_eq!(out.info, PacketInfo {
        addr: addr(0xfe80, 0, 0, 0, 0, 0, 0, 0xa0),
        if_index: eth0(),
    });
    match &out.msg {
        Icmp6Packet::RouterSolicitation(m) => {
            assert_eq!(m.options.len(), 1);
            assert_eq!(m.options[0].option_type, 1);
            assert_eq!(m.options[0].option_data, vec![0x02, 0x00, 0x00, 0x00, 0x00, 0xa0]);
        },
        other => panic!("unexpected message: {:?}", other),
    }
}

#[test]
fn rs_from_upstream_ignored() {
    let e = engine();
    let t = table();
    let rs = RouterSolicitation { options: vec![] };
    assert!(e.handle_router_solicitation(&t, &rs, eth0(), addr(0xff02, 0, 0, 0, 0, 0, 0, 2))
        .is_none());
}

#[test]
fn v2_report_recorded_and_aggregated_upstream() {
    // a downstream report for ff38::1234 with two sources becomes a
    // subscription and is answered for upstream on ff02::16
    let mut e = engine();
    let t = table();
    let group = addr(0xff38, 0, 0, 0, 0, 0, 0x12, 0x34);
    let s1 = addr(0x2001, 0x0db8, 0, 0, 0, 0, 0, 0xa);
    let s2 = addr(0x2001, 0x0db8, 0, 0, 0, 0, 0, 0xb);
    let mlr = V2MulticastListenerReport {
        records: vec![MulticastReportRecord {
            record_type: 1,
            multicast_address: group,
            source_addresses: vec![s1, s2],
        }],
    };
    let (packets, actions) = e.handle_v2_report(&t, &mlr, eth1(), 1000);
    assert!(actions.contains(&Action::AddMroute {
        parent: 1,
        outputs: vec![2],
        group,
        source: s1,
    }));
    assert!(actions.contains(&Action::AddMroute {
        parent: 1,
        outputs: vec![2],
        group,
        source: s2,
    }));
    assert_eq!(packets.len(), 1);
    let p = &packets[0];
    assert_eq!(p.dst, addr(0xff02, 0, 0, 0, 0, 0, 0, 0x16));
    assert_eq!(p.hop_limit, 1);
    assert_eq!(p.info, PacketInfo {
        addr: addr(0xfe80, 0, 0, 0, 0, 0, 0, 0xa0),
        if_index: eth0(),
    });
    match &p.msg {
        Icmp6Packet::V2MulticastListenerReport(rep) => {
            assert_eq!(rep.records.len(), 1);
            assert_eq!(rep.records[0].record_type, 1);
            assert_eq!(rep.records[0].multicast_address, group);
            assert_eq!(rep.records[0].source_addresses, vec![s1, s2]);
        },
        other => panic!("unexpected message: {:?}", other),
    }
}

#[test]
fn solicited_node_report_joins_mirror_interfaces() {
    // a downstream report for ff02::1:ff00:42 on eth1 joins the group on
    // eth0 and eth2, never on eth1, and is not forwarded upstream
    let mut e = engine();
    let t = table();
    let g = addr(0xff02, 0, 0, 0, 0, 1, 0xff00, 0x42);
    let mlr = V2MulticastListenerReport {
        records: vec![MulticastReportRecord {
            record_type: 1,
            multicast_address: g,
            source_addresses: vec![],
        }],
    };
    let (packets, actions) = e.handle_v2_report(&t, &mlr, eth1(), 1000);
    assert_eq!(packets, vec![]);
    assert!(actions.contains(&Action::JoinMulticast { group: g, if_index: eth0() }));
    assert!(actions.contains(&Action::JoinMulticast { group: g, if_index: eth2() }));
    assert!(!actions.contains(&Action::JoinMulticast { group: g, if_index: eth1() }));
}

#[test]
fn report_from_upstream_not_recorded() {
    let mut e = engine();
    let t = table();
    let group = addr(0xff38, 0, 0, 0, 0, 0, 0x12, 0x34);
    let mlr = V2MulticastListenerReport {
        records: vec![MulticastReportRecord {
            record_type: 1,
            multicast_address: group,
            source_addresses: vec![],
        }],
    };
    let (packets, actions) = e.handle_v2_report(&t, &mlr, eth0(), 1000);
    assert_eq!(packets, vec![]);
    assert_eq!(actions, vec![]);
}

#[test]
fn query_answered_and_re_asked_downstream() {
    // with a live subscription the query from the upstream draws a report
    // with IS_INCLUDE and the recorded source, and is re-emitted, sources
    // cleared, on both downstreams
    let mut e = engine();
    let t = table();
    let group = addr(0xff38, 0, 0, 0, 0, 0, 0x12, 0x34);
    let s1 = addr(0x2001, 0x0db8, 0, 0, 0, 0, 0, 0xa);
    let mlr = V2MulticastListenerReport {
        records: vec![MulticastReportRecord {
            record_type: 1,
            multicast_address: group,
            source_addresses: vec![s1],
        }],
    };
    e.handle_v2_report(&t, &mlr, eth1(), 1000);
    let mlq = MulticastListenerQuery {
        maximum_response_delay: 10000,
        group_address: group,
        supress_router_processing: false,
        qrv: 2,
        qqic: 125,
        source_addresses: vec![s1],
    };
    let (packets, _) = e.handle_multicast_listener_query(&t, &mlq, eth0(), 1010);
    assert_eq!(packets.len(), 3);
    match &packets[0].msg {
        Icmp6Packet::V2MulticastListenerReport(rep) => {
            assert_eq!(rep.records.len(), 1);
            assert_eq!(rep.records[0].record_type, 1);
            assert_eq!(rep.records[0].source_addresses, vec![s1]);
        },
        other => panic!("unexpected message: {:?}", other),
    }
    for k in [1, 2] {
        match &packets[k].msg {
            Icmp6Packet::MulticastListenerQuery(q) => {
                assert_eq!(q.group_address, group);
                assert_eq!(q.source_addresses, vec![]);
            },
            other => panic!("unexpected message: {:?}", other),
        }
        assert_eq!(packets[k].hop_limit, 1);
        assert_eq!(packets[k].dst, addr(0xff02, 0, 0, 0, 0, 0, 0, 0x16));
    }
    assert_eq!(packets[1].info.if_index, eth1());
    assert_eq!(packets[2].info.if_index, eth2());
}

#[test]
fn query_for_dead_group_only_expires() {
    let mut e = engine();
    let t = table();
    let mlq = MulticastListenerQuery {
        maximum_response_delay: 10000,
        group_address: addr(0xff38, 0, 0, 0, 0, 0, 0x99, 0x99),
        supress_router_processing: false,
        qrv: 2,
        qqic: 125,
        source_addresses: vec![],
    };
    let (packets, actions) = e.handle_multicast_listener_query(&t, &mlq, eth0(), 1000);
    assert_eq!(packets, vec![]);
    assert_eq!(actions, vec![]);
}

#[test]
fn sourceless_group_reported_as_exclude() {
    // with no recorded source the answering record is IS_EXCLUDE
    let mut e = engine();
    let t = table();
    let group = addr(0xff38, 0, 0, 0, 0, 0, 0x12, 0x34);
    let mlr = V2MulticastListenerReport {
        records: vec![MulticastReportRecord {
            record_type: 2,
            multicast_address: group,
            source_addresses: vec![],
        }],
    };
    let (packets, _) = e.handle_v2_report(&t, &mlr, eth1(), 1000);
    match &packets[0].msg {
        Icmp6Packet::V2MulticastListenerReport(rep) => {
            assert_eq!(rep.records[0].record_type, 2);
            assert_eq!(rep.records[0].source_addresses, vec![]);
        },
        other => panic!("unexpected message: {:?}", other),
    }
}
