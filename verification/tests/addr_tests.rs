use ftthd::addr::Ip6Addr;
use ftthd::group::is_solicited_node_address;

fn addr(s0: u16, s1: u16, s2: u16, s3: u16, s4: u16, s5: u16, s6: u16, s7: u16) -> Ip6Addr {
    Ip6Addr::new(s0, s1, s2, s3, s4, s5, s6, s7)
}

#[test]
fn solicited_node_detection_positive() {
    // ff02::1:ff12:3456
    let a = addr(0xff02, 0, 0, 0, 0, 1, 0xff12, 0x3456);
    assert!(is_solicited_node_address(&a));
}

#[test]
fn solicited_node_detection_negative() {
    // ff02::1 is the all-nodes group, not a solicited-node group
    let a = addr(0xff02, 0, 0, 0, 0, 0, 0, 1);
    assert!(!is_solicited_node_address(&a));
}

#[test]
fn solicited_node_detection_prefix_boundary() {
    // any address whose upper 104 bits equal ff02::1:ff00:0 matches
    assert!(is_solicited_node_address(&addr(0xff02, 0, 0, 0, 0, 1, 0xff00, 0x0042)));
    assert!(is_solicited_node_address(&addr(0xff02, 0, 0, 0, 0, 1, 0xffff, 0xffff)));
    // the byte just below the wildcard area differs
    assert!(!is_solicited_node_address(&addr(0xff02, 0, 0, 0, 0, 1, 0xfe00, 0)));
    assert!(!is_solicited_node_address(&addr(0xff03, 0, 0, 0, 0, 1, 0xff00, 0)));
}

#[test]
fn link_local_recognition() {
    let ll = addr(0xfe80, 0, 0, 0, 0, 0, 0, 0xbeef);
    assert!(ll.is_unicast_link_local());
    let upper = addr(0xfebf, 0xffff, 0, 0, 0, 0, 0, 1);
    assert!(upper.is_unicast_link_local());
    let global = addr(0x2001, 0x0db8, 0, 0, 0, 0, 0, 0x42);
    assert!(!global.is_unicast_link_local());
    let beyond = addr(0xfec0, 0, 0, 0, 0, 0, 0, 1);
    assert!(!beyond.is_unicast_link_local());
}

#[test]
fn mld_scope_floor() {
    // below ff03:: means node- or link-local scope
    assert!(addr(0xff02, 0, 0, 0, 0, 0, 0, 0x16).is_below_mld_scope_floor());
    assert!(addr(0xfe80, 0, 0, 0, 0, 0, 0, 1).is_below_mld_scope_floor());
    assert!(!addr(0xff03, 0, 0, 0, 0, 0, 0, 0).is_below_mld_scope_floor());
    assert!(!addr(0xff38, 0, 0, 0, 0, 0, 0x12, 0x34).is_below_mld_scope_floor());
}

#[test]
fn unspecified_address() {
    let u = Ip6Addr::unspecified();
    assert!(u.is_unspecified());
    assert!(!addr(0, 0, 0, 0, 0, 0, 0, 1).is_unspecified());
}
