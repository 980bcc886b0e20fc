use ftthd::actions::Action;
use ftthd::addr::Ip6Addr;
use ftthd::group::{MldSubscriptionManager, NdpMulticastManager};
use ftthd::iface::InterfaceId;

fn addr(s0: u16, s1: u16, s2: u16, s3: u16, s4: u16, s5: u16, s6: u16, s7: u16) -> Ip6Addr {
    Ip6Addr::new(s0, s1, s2, s3, s4, s5, s6, s7)
}

fn group_a() -> Ip6Addr {
    addr(0xff38, 0, 0, 0, 0, 0, 0x12, 0x34)
}

fn src_a() -> Ip6Addr {
    addr(0x2001, 0x0db8, 0, 0, 0, 0, 0, 0xa)
}

fn src_b() -> Ip6Addr {
    addr(0x2001, 0x0db8, 0, 0, 0, 0, 0, 0xb)
}

#[test]
fn vif_numbers_follow_configuration_order() {
    let downstreams = vec![InterfaceId::new(2), InterfaceId::new(3)];
    let (m, actions) = MldSubscriptionManager::new(InterfaceId::new(1), &downstreams);
    assert_eq!(actions, vec![
        Action::AddVif { vif: 1, if_index: InterfaceId::new(1) },
        Action::AddVif { vif: 2, if_index: InterfaceId::new(2) },
        Action::AddVif { vif: 3, if_index: InterfaceId::new(3) },
    ]);
    assert_eq!(m.get_vifd(InterfaceId::new(1)), Some(1));
    assert_eq!(m.get_vifd(InterfaceId::new(3)), Some(3));
    assert_eq!(m.get_vifd(InterfaceId::new(9)), None);
}

#[test]
fn add_subscription_programs_one_route_per_source() {
    let downstreams = vec![InterfaceId::new(2)];
    let (mut m, _) = MldSubscriptionManager::new(InterfaceId::new(1), &downstreams);
    let actions = m.add_subscription(
        InterfaceId::new(2),
        group_a(),
        vec![src_a(), src_b(), src_a()],
        100,
    );
    // the repeated source is recorded once
    assert_eq!(actions, vec![
        Action::AddMroute { parent: 1, outputs: vec![2], group: group_a(), source: src_a() },
        Action::AddMroute { parent: 1, outputs: vec![2], group: group_a(), source: src_b() },
    ]);
    assert_eq!(m.get_source_addresses(group_a()), vec![src_a(), src_b()]);
    assert_eq!(m.get_groups(), vec![group_a()]);
}

#[test]
fn sourceless_subscription_programs_wildcard_route() {
    let downstreams = vec![InterfaceId::new(2)];
    let (mut m, _) = MldSubscriptionManager::new(InterfaceId::new(1), &downstreams);
    let actions = m.add_subscription(InterfaceId::new(2), group_a(), vec![], 100);
    assert_eq!(actions, vec![Action::AddMroute {
        parent: 1,
        outputs: vec![2],
        group: group_a(),
        source: Ip6Addr::unspecified(),
    }]);
}

#[test]
fn repeated_subscription_changes_nothing() {
    let downstreams = vec![InterfaceId::new(2)];
    let (mut m, _) = MldSubscriptionManager::new(InterfaceId::new(1), &downstreams);
    let first = m.add_subscription(InterfaceId::new(2), group_a(), vec![src_a()], 100);
    assert_eq!(first.len(), 1);
    // the second report neither reprograms the cache nor refreshes the
    // timestamp, so nothing it carries is recorded
    let second = m.add_subscription(InterfaceId::new(2), group_a(), vec![src_b()], 200);
    assert_eq!(second, vec![]);
    assert_eq!(m.get_source_addresses(group_a()), vec![src_a()]);
    // the original timestamp still governs expiry: at 180, 80 seconds
    // have passed, more than the 50-second timeout, despite the renewal
    // at 200
    let dels = m.remove_old_subscriptions(50, 180);
    assert_eq!(m.get_groups(), vec![]);
    assert_eq!(dels, vec![
        Action::DelMroute { parent: 1, group: group_a(), source: Ip6Addr::unspecified() },
        Action::DelMroute { parent: 1, group: group_a(), source: src_a() },
    ]);
}

#[test]
fn expiry_removes_and_deletes() {
    let downstreams = vec![InterfaceId::new(2)];
    let (mut m, _) = MldSubscriptionManager::new(InterfaceId::new(1), &downstreams);
    m.add_subscription(InterfaceId::new(2), group_a(), vec![], 0);
    let dels = m.remove_old_subscriptions(10, 100);
    assert_eq!(dels, vec![Action::DelMroute {
        parent: 1,
        group: group_a(),
        source: Ip6Addr::unspecified(),
    }]);
    assert_eq!(m.get_groups(), vec![]);
    // a live subscription survives the sweep untouched
    m.add_subscription(InterfaceId::new(2), group_a(), vec![], 100);
    let dels = m.remove_old_subscriptions(10, 105);
    assert_eq!(dels, vec![]);
    assert_eq!(m.get_groups(), vec![group_a()]);
}

#[test]
fn sources_union_across_interfaces() {
    let downstreams = vec![InterfaceId::new(2), InterfaceId::new(3)];
    let (mut m, _) = MldSubscriptionManager::new(InterfaceId::new(1), &downstreams);
    m.add_subscription(InterfaceId::new(2), group_a(), vec![src_a()], 100);
    let actions = m.add_subscription(InterfaceId::new(3), group_a(), vec![src_b(), src_a()], 100);
    // the second interface's routes span both subscribed interfaces
    assert_eq!(actions, vec![
        Action::AddMroute { parent: 1, outputs: vec![2, 3], group: group_a(), source: src_b() },
        Action::AddMroute { parent: 1, outputs: vec![2, 3], group: group_a(), source: src_a() },
    ]);
    assert_eq!(m.get_source_addresses(group_a()), vec![src_a(), src_b()]);
}

#[test]
fn solicited_node_join_skips_arrival_interface() {
    let ids = vec![InterfaceId::new(1), InterfaceId::new(2), InterfaceId::new(3)];
    let mut m = NdpMulticastManager::new(&ids);
    let g = addr(0xff02, 0, 0, 0, 0, 1, 0xff00, 0x42);
    let actions = m.add_subscription(g, InterfaceId::new(2), 100);
    assert_eq!(actions, vec![
        Action::JoinMulticast { group: g, if_index: InterfaceId::new(1) },
        Action::JoinMulticast { group: g, if_index: InterfaceId::new(3) },
    ]);
    // a repeat observation refreshes silently
    let actions = m.add_subscription(g, InterfaceId::new(2), 150);
    assert_eq!(actions, vec![]);
}

#[test]
fn last_observer_falling_out_leaves_group() {
    let ids = vec![InterfaceId::new(1), InterfaceId::new(2)];
    let mut m = NdpMulticastManager::new(&ids);
    let g = addr(0xff02, 0, 0, 0, 0, 1, 0xff00, 0x42);
    m.add_subscription(g, InterfaceId::new(2), 0);
    let actions = m.remove_old_subscriptions(10, 100);
    assert_eq!(actions, vec![Action::LeaveMulticast {
        group: g,
        if_index: InterfaceId::unspecified(),
    }]);
    // an address still observed somewhere is not left
    m.add_subscription(g, InterfaceId::new(1), 100);
    m.add_subscription(g, InterfaceId::new(2), 200);
    let actions = m.remove_old_subscriptions(50, 190);
    assert_eq!(actions, vec![]);
}
