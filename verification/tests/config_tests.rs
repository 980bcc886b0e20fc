use ftthd::config::{Config, GlobalConfig, InterfaceConfig, ProxyMode};
use ftthd::mroute::{if_set, IF_CLR, IF_ISSET, IF_SET};
use ftthd::proxy::ProxyInstance;

#[test]
fn interfaces_lists_upstream_and_downstreams_once() {
    let cfg = InterfaceConfig {
        upstream: "eth0".to_string(),
        downstreams: vec!["eth1".to_string(), "eth2".to_string(), "eth1".to_string()],
    };
    assert_eq!(cfg.interfaces(), vec![
        "eth0".to_string(),
        "eth1".to_string(),
        "eth2".to_string(),
    ]);
}

#[test]
fn upstream_listed_once_when_also_downstream() {
    let cfg = InterfaceConfig {
        upstream: "eth0".to_string(),
        downstreams: vec!["eth0".to_string(), "eth1".to_string()],
    };
    assert_eq!(cfg.interfaces(), vec!["eth0".to_string(), "eth1".to_string()]);
}

#[test]
fn proxy_mode_defaults_to_ndp_proxy() {
    assert_eq!(ProxyMode::default(), ProxyMode::NdpProxy);
}

#[test]
fn config_holds_its_parts() {
    let cfg = Config {
        global: GlobalConfig { proxy_mode: ProxyMode::NdpProxy },
        interfaces: InterfaceConfig { upstream: "wan0".to_string(), downstreams: vec![] },
    };
    assert_eq!(cfg.global.proxy_mode, ProxyMode::NdpProxy);
    assert_eq!(cfg.interfaces.upstream, "wan0");
}

#[test]
fn proxy_instance_deduplicates_downstreams() {
    let p = ProxyInstance::new(
        "eth0",
        &vec!["eth1".to_string(), "eth2".to_string(), "eth1".to_string()],
    );
    assert_eq!(p.upstream_if_name(), "eth0");
    assert_eq!(p.downstream_if_names(), &vec!["eth1".to_string(), "eth2".to_string()]);
}

#[test]
fn vif_bitmap_set_test_clear() {
    let mut s = if_set::new_empty();
    assert!(!IF_ISSET(5, &s));
    IF_SET(5, &mut s);
    assert!(IF_ISSET(5, &s));
    assert_eq!(s.ifs_bits[0], 1 << 5);
    IF_SET(37, &mut s);
    assert!(IF_ISSET(37, &s));
    assert_eq!(s.ifs_bits[1], 1 << 5);
    IF_CLR(5, &mut s);
    assert!(!IF_ISSET(5, &s));
    assert!(IF_ISSET(37, &s));
}
