//! The decision core of an IPv6 household bridging daemon: the ICMPv6
//! codec for NDP and MLD messages, the per-message forwarding and
//! rewriting rules, the MLD subscription and solicited-node join
//! bookkeeping, and the interface snapshot they consult. Everything here
//! is pure: packets and kernel-table changes leave as values, and the
//! surrounding process performs them.

pub mod actions;
pub mod addr;
pub mod config;
pub mod engine;
pub mod group;
pub mod icmp6;
pub mod iface;
pub mod mroute;
pub mod proxy;
