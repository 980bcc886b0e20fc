use ftthd::addr::Ip6Addr;
use ftthd::iface::{Interface, InterfaceEntry, InterfaceId, InterfaceTable};

fn ll(k: u16) -> Ip6Addr {
    Ip6Addr::new(0xfe80, 0, 0, 0, 0, 0, 0, k)
}

fn entry(id: u32, name: &str, lls: Vec<Ip6Addr>, mac: Option<Vec<u8>>) -> InterfaceEntry {
    InterfaceEntry {
        iface: Interface { if_id: InterfaceId::new(id), if_name: name.to_string() },
        link_local_addrs: lls,
        link_layer_addr: mac,
    }
}

#[test]
fn lookups_answer_from_the_snapshot() {
    let mut t = InterfaceTable::new();
    assert!(t.add(entry(1, "eth0", vec![ll(1), ll(2)], Some(vec![1, 2, 3, 4, 5, 6]))));
    assert!(t.add(entry(2, "eth1", vec![], None)));

    assert_eq!(t.get_all_indexes(), vec![InterfaceId::new(1), InterfaceId::new(2)]);
    assert_eq!(t.get_index_by_name(&"eth1".to_string()), Some(InterfaceId::new(2)));
    assert_eq!(t.get_index_by_name(&"wan0".to_string()), None);
    assert_eq!(t.get_name_by_index(InterfaceId::new(1)), Some("eth0".to_string()));
    assert_eq!(t.get(InterfaceId::new(2)).unwrap().if_name, "eth1");
    assert_eq!(t.get(InterfaceId::new(9)), None);

    // the first link-local address is the outbound source
    assert_eq!(t.get_link_local_addr(InterfaceId::new(1)), Some(ll(1)));
    assert_eq!(t.get_link_local_addrs(InterfaceId::new(1)), Some(vec![ll(1), ll(2)]));
    assert_eq!(t.get_link_local_addr(InterfaceId::new(2)), None);
    assert_eq!(t.get_link_layer_addr(InterfaceId::new(1)), Some(vec![1, 2, 3, 4, 5, 6]));
    assert_eq!(t.get_link_layer_addr(InterfaceId::new(2)), None);
}

#[test]
fn duplicate_and_unspecified_entries_refused() {
    let mut t = InterfaceTable::new();
    assert!(t.add(entry(1, "eth0", vec![], None)));
    assert!(!t.add(entry(1, "eth0b", vec![], None)));
    assert!(!t.add(entry(0, "lo", vec![], None)));
    assert_eq!(t.get_all_indexes(), vec![InterfaceId::new(1)]);
}

#[test]
fn interface_id_unspecified() {
    assert!(InterfaceId::unspecified().is_unspecified());
    assert_eq!(InterfaceId::unspecified().inner(), None);
    let id = InterfaceId::new(7);
    assert!(!id.is_unspecified());
    assert_eq!(id.inner(), Some(7));
    assert_eq!(id.inner_unchecked(), 7);
}
