use vstd::prelude::*;
use crate::actions::{lemma_view_actions_push, view_actions, Action, ActionV};
use crate::addr::{
    addr_val, all_mldv2_routers_addr, mld_scope_floor_addr, spec_is_solicited_node,
    spec_is_unicast_link_local, Ip6Addr,
};
use crate::group::{dedup_seq, iface_in, addr_in, dedup_ifaces};
use crate::iface::{clone_addrs, spec_link_layer_of, spec_link_local_of, unspecified_id, InterfaceId, InterfaceTable};
use crate::icmp6::bytes::clone_bytes;
use crate::icmp6::ndp::{
    view_opts, NdpOption, NdpOptionV, NeighborAdvertisement, NeighborSolicitation,
    NeighborSolicitationV, RouterAdvertisement, RouterAdvertisementV, RouterSolicitation,
    RouterSolicitationV,
};
use crate::icmp6::mld::{
    MulticastListenerQuery, MulticastListenerQueryV, MulticastReportRecord,
    MulticastReportRecordV, V2MulticastListenerReport, V2MulticastListenerReportV,
};
use crate::icmp6::packet::PacketInfo;
use crate::icmp6::{Icmp6Packet, Icmp6PacketV};
use crate::group::{group_sources, is_solicited_node_address};

verus! {

/// One packet the engine wants sent: where to, over which interface and
/// source address, with which hop limit, and what.
#[derive(Debug, Clone, PartialEq)]
pub struct OutPacket {
    pub dst: Ip6Addr,
    pub info: PacketInfo,
    pub hop_limit: u8,
    pub msg: Icmp6Packet,
}

/// `OutPacket` as contracts see it.
pub struct OutPacketV {
    pub dst: Ip6Addr,
    pub info: PacketInfo,
    pub hop_limit: u8,
    pub msg: Icmp6PacketV,
}

impl View for OutPacket {
    type V = OutPacketV;

    open spec fn view(&self) -> OutPacketV {
        OutPacketV { dst: self.dst, info: self.info, hop_limit: self.hop_limit, msg: self.msg@ }
    }
}

pub open spec fn view_packets(s: Seq<OutPacket>) -> Seq<OutPacketV> {
    s.map_values(|p: OutPacket| p@)
}

/// Appending a packet appends its view.
pub proof fn lemma_view_packets_push(s: Seq<OutPacket>, p: OutPacket)
    ensures
        view_packets(s.push(p)) == view_packets(s).push(p@),
{
    assert(view_packets(s.push(p)) =~= view_packets(s).push(p@));
}

/// Which interface faces the provider, which face the household, and the
/// provider-assigned global addresses, fixed at startup.
#[derive(Debug, Clone)]
pub struct EngineConfig {
    pub upstream: InterfaceId,
    pub downstreams: Vec<InterfaceId>,
    pub upstream_global_addrs: Vec<Ip6Addr>,
}

pub open spec fn is_downstream(cfg: EngineConfig, id: InterfaceId) -> bool {
    cfg.downstreams@.contains(id)
}

pub open spec fn is_configured(cfg: EngineConfig, id: InterfaceId) -> bool {
    id == cfg.upstream || is_downstream(cfg, id)
}

/// Every configured interface, the upstream first, repetitions dropped.
pub open spec fn all_configured(cfg: EngineConfig) -> Seq<InterfaceId> {
    dedup_seq(seq![cfg.upstream] + cfg.downstreams@)
}

// ---------------------------------------------------------------------------
// Option rewriting.
// ---------------------------------------------------------------------------

/// The options with every source link-layer option (type 1) removed.
pub open spec fn strip_source_ll(opts: Seq<NdpOptionV>) -> Seq<NdpOptionV>
    decreases opts.len(),
{
    if opts.len() == 0 {
        Seq::empty()
    } else {
        (if opts[0].option_type == 1 {
            Seq::empty()
        } else {
            seq![opts[0]]
        }) + strip_source_ll(opts.skip(1))
    }
}

/// The stripped options with, when the outgoing interface's link-layer
/// address is known, a fresh source link-layer option carrying it.
pub open spec fn rewritten_options(opts: Seq<NdpOptionV>, mac: Option<Seq<u8>>) -> Seq<
    NdpOptionV,
> {
    match mac {
        Some(m) => strip_source_ll(opts).push(NdpOptionV { option_type: 1, option_data: m }),
        None => strip_source_ll(opts),
    }
}

/// Copies the options, dropping every source link-layer option.
fn strip_options(options: &Vec<NdpOption>) -> (r: Vec<NdpOption>)
    ensures
        view_opts(r@) == strip_source_ll(view_opts(options@)),
{
    let ghost all = view_opts(options@);
    let mut out: Vec<NdpOption> = Vec::new();
    let mut i: usize = 0;
    proof {
        assert(all.skip(0) =~= all);
        assert(view_opts(out@) + strip_source_ll(all) =~= strip_source_ll(all));
    }
    while i < options.len()
        invariant
            i <= options@.len(),
            all == view_opts(options@),
            strip_source_ll(all) == view_opts(out@) + strip_source_ll(all.skip(i as int)),
        decreases options@.len() - i,
    {
        let ghost rem = all.skip(i as int);
        proof {
            assert(rem[0] == all[i as int]);
            assert(all[i as int] == options@[i as int]@);
            assert(rem.skip(1) =~= all.skip(i + 1));
        }
        if options[i].option_type != 1 {
            let ghost vpre = view_opts(out@);
            let o = NdpOption {
                option_type: options[i].option_type,
                option_data: clone_bytes(&options[i].option_data),
            };
            let ghost ov = o@;
            out.push(o);
            proof {
                assert(view_opts(out@) =~= vpre.push(ov));
                assert(ov == rem[0]);
                assert(view_opts(out@) + strip_source_ll(all.skip(i + 1)) =~= vpre + (seq![
                    rem[0],
                ] + strip_source_ll(all.skip(i + 1))));
            }
        } else {
            proof {
                assert(Seq::<NdpOptionV>::empty() + strip_source_ll(all.skip(i + 1))
                    =~= strip_source_ll(all.skip(i + 1)));
            }
        }
        i += 1;
    }
    proof {
        assert(strip_source_ll(all.skip(i as int)) == Seq::<NdpOptionV>::empty());
        assert(view_opts(out@) + Seq::<NdpOptionV>::empty() =~= view_opts(out@));
    }
    out
}

/// Copies the options, dropping source link-layer options and appending a
/// fresh one for `mac` when it is known.
fn rewrite_options(options: &Vec<NdpOption>, mac: Option<Vec<u8>>) -> (r: Vec<NdpOption>)
    ensures
        view_opts(r@) == rewritten_options(
            view_opts(options@),
            match mac {
                Some(m) => Some(m@),
                None => None,
            },
        ),
{
    let mut out = strip_options(options);
    match mac {
        Some(m) => {
            let ghost vpre = view_opts(out@);
            let ghost mv = m@;
            let o = NdpOption { option_type: 1, option_data: m };
            let ghost ov = o@;
            out.push(o);
            proof {
                assert(view_opts(out@) =~= vpre.push(ov));
                assert(ov == (NdpOptionV { option_type: 1, option_data: mv }));
            }
        },
        None => {},
    }
    out
}

// ---------------------------------------------------------------------------
// The per-message decision rules.
// ---------------------------------------------------------------------------

/// The router-advertisement copies the engine emits: one per downstream
/// with a known link-local address, in configuration order, each with the
/// stripped options, hop limit 255 and the downstream's link-local source.
pub open spec fn ra_outputs(
    ds: Seq<InterfaceId>,
    t: InterfaceTable,
    dst: Ip6Addr,
    rav: RouterAdvertisementV,
) -> Seq<OutPacketV>
    decreases ds.len(),
{
    if ds.len() == 0 {
        Seq::empty()
    } else {
        (match spec_link_local_of(t, ds[0]) {
            Some(ll) => seq![
                OutPacketV {
                    dst,
                    info: PacketInfo { addr: ll, if_index: ds[0] },
                    hop_limit: 255,
                    msg: Icmp6PacketV::RouterAdvertisement(rav),
                },
            ],
            None => Seq::empty(),
        }) + ra_outputs(ds.skip(1), t, dst, rav)
    }
}

/// The neighbour-solicitation copies the engine emits: one per listed
/// interface with a known link-local address, each with the options
/// rewritten for that interface's link-layer address.
pub open spec fn ns_outputs(
    ids: Seq<InterfaceId>,
    t: InterfaceTable,
    dst: Ip6Addr,
    target: Ip6Addr,
    opts: Seq<NdpOptionV>,
) -> Seq<OutPacketV>
    decreases ids.len(),
{
    if ids.len() == 0 {
        Seq::empty()
    } else {
        (match spec_link_local_of(t, ids[0]) {
            Some(ll) => seq![
                OutPacketV {
                    dst,
                    info: PacketInfo { addr: ll, if_index: ids[0] },
                    hop_limit: 255,
                    msg: Icmp6PacketV::NeighborSolicitation(
                        NeighborSolicitationV {
                            target_address: target,
                            options: rewritten_options(opts, spec_link_layer_of(t, ids[0])),
                        },
                    ),
                },
            ],
            None => Seq::empty(),
        }) + ns_outputs(ids.skip(1), t, dst, target, opts)
    }
}

/// The proxy rewiring a learned neighbour triggers on the other
/// interfaces: replace any proxy entry for the target, delete then add.
pub open spec fn na_proxy_actions(ids: Seq<InterfaceId>, target: Ip6Addr) -> Seq<ActionV>
    decreases ids.len(),
{
    if ids.len() == 0 {
        Seq::empty()
    } else {
        seq![
            ActionV::ProxyNeighborDelete { if_index: ids[0], addr: target },
            ActionV::ProxyNeighborAdd { if_index: ids[0], addr: target },
        ] + na_proxy_actions(ids.skip(1), target)
    }
}

/// The forwarding engine's decision state: the configuration, the MLD
/// subscription manager and the solicited-node join tracker. Its handlers
/// turn one received message into the packets to send and the kernel-state
/// changes to perform.
#[derive(Debug)]
pub struct Engine {
    pub config: EngineConfig,
    pub mld: crate::group::MldSubscriptionManager,
    pub ndp: crate::group::NdpMulticastManager,
}

impl Engine {
    pub open spec fn wf(self) -> bool {
        &&& self.mld.wf()
        &&& self.ndp.wf()
        &&& self.mld.parent_if() == self.config.upstream
        &&& self.mld.has_vif(self.config.upstream)
    }

    /// Builds the engine: the upstream becomes virtual interface 1, the
    /// downstreams follow, and the solicited-node tracker covers every
    /// configured interface.
    pub fn new(config: EngineConfig) -> (r: (Self, Vec<Action>))
        requires
            config.downstreams@.len() < 65535,
        ensures
            r.0.wf(),
            r.0.config == config,
            r.0.mld.subs() == Seq::<crate::group::MldSubEntry>::empty(),
            r.0.ndp.subs() == Seq::<crate::group::NdpSubEntry>::empty(),
            r.0.ndp.ids() == all_configured(config),
            view_actions(r.1@) == r.0.mld.vifs_seq().map_values(
                |p: (InterfaceId, u16)| ActionV::AddVif { vif: p.1, if_index: p.0 },
            ),
    {
        let (mld, actions) = crate::group::MldSubscriptionManager::new(
            config.upstream,
            &config.downstreams,
        );
        let mut ids: Vec<InterfaceId> = Vec::new();
        ids.push(config.upstream);
        let mut i: usize = 0;
        while i < config.downstreams.len()
            invariant
                i <= config.downstreams@.len(),
                ids@ == seq![config.upstream] + config.downstreams@.take(i as int),
            decreases config.downstreams@.len() - i,
        {
            ids.push(config.downstreams[i]);
            proof {
                assert(ids@ =~= seq![config.upstream] + config.downstreams@.take(i + 1));
            }
            i += 1;
        }
        proof {
            assert(seq![config.upstream] + config.downstreams@.take(i as int) =~= seq![
                config.upstream,
            ] + config.downstreams@);
        }
        let ndp = crate::group::NdpMulticastManager::new(&ids);
        (Engine { config, mld, ndp }, actions)
    }

    /// A router solicitation is mirrored to the upstream: accepted only
    /// from a downstream, its source link-layer options replaced with the
    /// upstream's own, sent from the upstream's link-local address with
    /// hop limit 255. Without a link-local address there is nothing to
    /// send.
    pub fn handle_router_solicitation(
        &self,
        table: &InterfaceTable,
        rs: &RouterSolicitation,
        in_if: InterfaceId,
        dst: Ip6Addr,
    ) -> (r: Option<OutPacket>)
        requires
            table.wf(),
        ensures
            match r {
                Some(out) => is_downstream(self.config, in_if) && (spec_link_local_of(
                    *table,
                    self.config.upstream,
                ) matches Some(ll) && out@ == (OutPacketV {
                    dst,
                    info: PacketInfo { addr: ll, if_index: self.config.upstream },
                    hop_limit: 255,
                    msg: Icmp6PacketV::RouterSolicitation(
                        RouterSolicitationV {
                            options: rewritten_options(
                                view_opts(rs.options@),
                                spec_link_layer_of(*table, self.config.upstream),
                            ),
                        },
                    ),
                })),
                None => !is_downstream(self.config, in_if) || spec_link_local_of(
                    *table,
                    self.config.upstream,
                ) is None,
            },
    {
        if !iface_in(&self.config.downstreams, in_if) {
            return None;
        }
        let source = match table.get_link_local_addr(self.config.upstream) {
            Some(s) => s,
            None => {
                return None;
            },
        };
        let mac = table.get_link_layer_addr(self.config.upstream);
        let options = rewrite_options(&rs.options, mac);
        Some(
            OutPacket {
                dst,
                info: PacketInfo { addr: source, if_index: self.config.upstream },
                hop_limit: 255,
                msg: Icmp6Packet::RouterSolicitation(RouterSolicitation { options }),
            },
        )
    }

    /// A router advertisement is mirrored to every downstream: accepted
    /// only from the upstream, its source link-layer options stripped,
    /// sent from each downstream's link-local address with hop limit 255.
    /// Downstreams without a link-local address are skipped.
    pub fn handle_router_advertisement(
        &self,
        table: &InterfaceTable,
        ra: &RouterAdvertisement,
        in_if: InterfaceId,
        dst: Ip6Addr,
    ) -> (r: Vec<OutPacket>)
        requires
            table.wf(),
        ensures
            in_if != self.config.upstream ==> r@.len() == 0,
            in_if == self.config.upstream ==> view_packets(r@) == ra_outputs(
                self.config.downstreams@,
                *table,
                dst,
                RouterAdvertisementV {
                    hop_limit: ra.hop_limit,
                    managed_address_configuration: ra.managed_address_configuration,
                    other_configuration: ra.other_configuration,
                    router_lifetime: ra.router_lifetime,
                    reachable_time: ra.reachable_time,
                    retrans_timer: ra.retrans_timer,
                    options: strip_source_ll(view_opts(ra.options@)),
                },
            ),
    {
        if !(in_if == self.config.upstream) {
            return Vec::new();
        }
        let ghost rav = RouterAdvertisementV {
            hop_limit: ra.hop_limit,
            managed_address_configuration: ra.managed_address_configuration,
            other_configuration: ra.other_configuration,
            router_lifetime: ra.router_lifetime,
            reachable_time: ra.reachable_time,
            retrans_timer: ra.retrans_timer,
            options: strip_source_ll(view_opts(ra.options@)),
        };
        let stripped = strip_options(&ra.options);
        let ghost ds = self.config.downstreams@;
        let mut out: Vec<OutPacket> = Vec::new();
        let mut i: usize = 0;
        proof {
            assert(ds.skip(0) =~= ds);
            assert(view_packets(out@) + ra_outputs(ds, *table, dst, rav) =~= ra_outputs(
                ds,
                *table,
                dst,
                rav,
            ));
        }
        while i < self.config.downstreams.len()
            invariant
                i <= ds.len(),
                ds == self.config.downstreams@,
                table.wf(),
                view_opts(stripped@) == rav.options,
                rav == (RouterAdvertisementV {
                    hop_limit: ra.hop_limit,
                    managed_address_configuration: ra.managed_address_configuration,
                    other_configuration: ra.other_configuration,
                    router_lifetime: ra.router_lifetime,
                    reachable_time: ra.reachable_time,
                    retrans_timer: ra.retrans_timer,
                    options: strip_source_ll(view_opts(ra.options@)),
                }),
                ra_outputs(ds, *table, dst, rav) == view_packets(out@) + ra_outputs(
                    ds.skip(i as int),
                    *table,
                    dst,
                    rav,
                ),
            decreases ds.len() - i,
        {
            let ghost rem = ds.skip(i as int);
            proof {
                assert(rem[0] == ds[i as int]);
                assert(rem.skip(1) =~= ds.skip(i + 1));
            }
            let d = self.config.downstreams[i];
            match table.get_link_local_addr(d) {
                Some(ll) => {
                    let ghost vpre = view_packets(out@);
                    let msg = RouterAdvertisement {
                        hop_limit: ra.hop_limit,
                        managed_address_configuration: ra.managed_address_configuration,
                        other_configuration: ra.other_configuration,
                        router_lifetime: ra.router_lifetime,
                        reachable_time: ra.reachable_time,
                        retrans_timer: ra.retrans_timer,
                        options: clone_option_list(&stripped),
                    };
                    let pkt = OutPacket {
                        dst,
                        info: PacketInfo { addr: ll, if_index: d },
                        hop_limit: 255,
                        msg: Icmp6Packet::RouterAdvertisement(msg),
                    };
                    let ghost pv = pkt;
                    let ghost opre = out@;
                    out.push(pkt);
                    proof {
                        lemma_view_packets_push(opre, pv);
                        assert(view_packets(out@) =~= vpre.push(pv@));
                        assert(pv@ == (OutPacketV {
                            dst,
                            info: PacketInfo { addr: ll, if_index: d },
                            hop_limit: 255,
                            msg: Icmp6PacketV::RouterAdvertisement(rav),
                        }));
                        assert(view_packets(out@) + ra_outputs(ds.skip(i + 1), *table, dst, rav)
                            =~= vpre + (seq![pv@] + ra_outputs(ds.skip(i + 1), *table, dst, rav)));
                    }
                },
                None => {
                    proof {
                        assert(Seq::<OutPacketV>::empty() + ra_outputs(
                            ds.skip(i + 1),
                            *table,
                            dst,
                            rav,
                        ) =~= ra_outputs(ds.skip(i + 1), *table, dst, rav));
                    }
                },
            }
            i += 1;
        }
        proof {
            assert(ra_outputs(ds.skip(i as int), *table, dst, rav) == Seq::<OutPacketV>::empty());
            assert(view_packets(out@) + Seq::<OutPacketV>::empty() =~= view_packets(out@));
        }
        out
    }
}

/// The listed interfaces without `id`, order kept.
pub open spec fn remove_id(ids: Seq<InterfaceId>, id: InterfaceId) -> Seq<InterfaceId>
    decreases ids.len(),
{
    if ids.len() == 0 {
        Seq::empty()
    } else {
        (if ids[0] == id {
            Seq::empty()
        } else {
            seq![ids[0]]
        }) + remove_id(ids.skip(1), id)
    }
}

/// The listed interfaces without `id`.
fn remove_iface(v: &Vec<InterfaceId>, id: InterfaceId) -> (r: Vec<InterfaceId>)
    ensures
        r@ == remove_id(v@, id),
{
    let mut out: Vec<InterfaceId> = Vec::new();
    let mut i: usize = 0;
    proof {
        assert(v@.skip(0) =~= v@);
        assert(out@ + remove_id(v@, id) =~= remove_id(v@, id));
    }
    while i < v.len()
        invariant
            i <= v@.len(),
            remove_id(v@, id) == out@ + remove_id(v@.skip(i as int), id),
        decreases v@.len() - i,
    {
        let ghost rem = v@.skip(i as int);
        proof {
            assert(rem[0] == v@[i as int]);
            assert(rem.skip(1) =~= v@.skip(i + 1));
        }
        if !(v[i] == id) {
            out.push(v[i]);
            proof {
                assert(out@ + remove_id(v@.skip(i + 1), id) =~= out@.drop_last() + (seq![
                    rem[0],
                ] + remove_id(v@.skip(i + 1), id)));
            }
        } else {
            proof {
                assert(Seq::<InterfaceId>::empty() + remove_id(v@.skip(i + 1), id) =~= remove_id(
                    v@.skip(i + 1),
                    id,
                ));
            }
        }
        i += 1;
    }
    proof {
        assert(remove_id(v@.skip(i as int), id) == Seq::<InterfaceId>::empty());
        assert(out@ + Seq::<InterfaceId>::empty() =~= out@);
    }
    out
}

impl Engine {
    /// Every configured interface, the upstream first, repetitions
    /// dropped.
    pub fn configured_ids(&self) -> (r: Vec<InterfaceId>)
        ensures
            r@ == all_configured(self.config),
    {
        let mut ids: Vec<InterfaceId> = Vec::new();
        ids.push(self.config.upstream);
        let mut i: usize = 0;
        while i < self.config.downstreams.len()
            invariant
                i <= self.config.downstreams@.len(),
                ids@ == seq![self.config.upstream] + self.config.downstreams@.take(i as int),
            decreases self.config.downstreams@.len() - i,
        {
            ids.push(self.config.downstreams[i]);
            proof {
                assert(ids@ =~= seq![self.config.upstream] + self.config.downstreams@.take(
                    i + 1,
                ));
            }
            i += 1;
        }
        proof {
            assert(seq![self.config.upstream] + self.config.downstreams@.take(i as int) =~= seq![
                self.config.upstream,
            ] + self.config.downstreams@);
        }
        dedup_ifaces(&ids)
    }

    fn is_configured_if(&self, id: InterfaceId) -> (r: bool)
        ensures
            r == is_configured(self.config, id),
    {
        id == self.config.upstream || iface_in(&self.config.downstreams, id)
    }

    /// A neighbour solicitation is mirrored to every other configured
    /// interface with the source link-layer option replaced by each
    /// outgoing interface's own, hop limit 255 and the interface's
    /// link-local source. It is dropped when the arrival interface is not
    /// configured, when the target is a link-local address, or when the
    /// target is one of the upstream's global addresses, which proxy NDP
    /// answers already.
    pub fn handle_neighbor_solicitation(
        &self,
        table: &InterfaceTable,
        ns: &NeighborSolicitation,
        in_if: InterfaceId,
        dst: Ip6Addr,
    ) -> (r: Vec<OutPacket>)
        requires
            table.wf(),
        ensures
            (!is_configured(self.config, in_if) || spec_is_unicast_link_local(ns.target_address)
                || self.config.upstream_global_addrs@.contains(ns.target_address)) ==> r@.len()
                == 0,
            (is_configured(self.config, in_if) && !spec_is_unicast_link_local(ns.target_address)
                && !self.config.upstream_global_addrs@.contains(ns.target_address))
                ==> view_packets(r@) == ns_outputs(
                remove_id(all_configured(self.config), in_if),
                *table,
                dst,
                ns.target_address,
                strip_source_ll(view_opts(ns.options@)),
            ),
    {
        if !self.is_configured_if(in_if) {
            return Vec::new();
        }
        if ns.target_address.is_unicast_link_local() {
            return Vec::new();
        }
        if addr_in(&self.config.upstream_global_addrs, ns.target_address) {
            return Vec::new();
        }
        let all = self.configured_ids();
        let out_ifs = remove_iface(&all, in_if);
        let stripped = strip_options(&ns.options);
        let ghost idsv = out_ifs@;
        let ghost sopts = strip_source_ll(view_opts(ns.options@));
        let target = ns.target_address;
        let mut out: Vec<OutPacket> = Vec::new();
        let mut i: usize = 0;
        proof {
            assert(idsv.skip(0) =~= idsv);
            assert(view_packets(out@) + ns_outputs(idsv, *table, dst, target, sopts)
                =~= ns_outputs(idsv, *table, dst, target, sopts));
        }
        while i < out_ifs.len()
            invariant
                i <= idsv.len(),
                idsv == out_ifs@,
                table.wf(),
                target == ns.target_address,
                view_opts(stripped@) == sopts,
                sopts == strip_source_ll(view_opts(ns.options@)),
                ns_outputs(idsv, *table, dst, target, sopts) == view_packets(out@) + ns_outputs(
                    idsv.skip(i as int),
                    *table,
                    dst,
                    target,
                    sopts,
                ),
            decreases idsv.len() - i,
        {
            let ghost rem = idsv.skip(i as int);
            proof {
                assert(rem[0] == idsv[i as int]);
                assert(rem.skip(1) =~= idsv.skip(i + 1));
            }
            let d = out_ifs[i];
            match table.get_link_local_addr(d) {
                Some(ll) => {
                    let mac = table.get_link_layer_addr(d);
                    let options = rewrite_options(&stripped, mac);
                    proof {
                        assert(view_opts(options@) == rewritten_options(
                            sopts,
                            spec_link_layer_of(*table, d),
                        ));
                    }
                    let msg = NeighborSolicitation { target_address: target, options };
                    let pkt = OutPacket {
                        dst,
                        info: PacketInfo { addr: ll, if_index: d },
                        hop_limit: 255,
                        msg: Icmp6Packet::NeighborSolicitation(msg),
                    };
                    let ghost pv = pkt;
                    let ghost opre = out@;
                    let ghost vpre = view_packets(out@);
                    out.push(pkt);
                    proof {
                        lemma_view_packets_push(opre, pv);
                        assert(pv@ == (OutPacketV {
                            dst,
                            info: PacketInfo { addr: ll, if_index: d },
                            hop_limit: 255,
                            msg: Icmp6PacketV::NeighborSolicitation(
                                NeighborSolicitationV {
                                    target_address: target,
                                    options: rewritten_options(
                                        sopts,
                                        spec_link_layer_of(*table, d),
                                    ),
                                },
                            ),
                        }));
                        assert(view_packets(out@) + ns_outputs(
                            idsv.skip(i + 1),
                            *table,
                            dst,
                            target,
                            sopts,
                        ) =~= vpre + (seq![pv@] + ns_outputs(
                            idsv.skip(i + 1),
                            *table,
                            dst,
                            target,
                            sopts,
                        )));
                    }
                },
                None => {
                    proof {
                        assert(Seq::<OutPacketV>::empty() + ns_outputs(
                            idsv.skip(i + 1),
                            *table,
                            dst,
                            target,
                            sopts,
                        ) =~= ns_outputs(idsv.skip(i + 1), *table, dst, target, sopts));
                    }
                },
            }
            i += 1;
        }
        proof {
            assert(ns_outputs(idsv.skip(i as int), *table, dst, target, sopts) == Seq::<
                OutPacketV,
            >::empty());
            assert(view_packets(out@) + Seq::<OutPacketV>::empty() =~= view_packets(out@));
        }
        out
    }

    /// A learned neighbour rewires the kernel: the /128 route to the
    /// target moves to the arrival interface, the arrival interface's
    /// proxy entry for it is dropped, and every other configured interface
    /// gets its proxy entry replaced. Nothing is re-emitted. Dropped when
    /// the arrival interface is not configured or the target is
    /// link-local.
    pub fn handle_neighbor_advertisement(
        &self,
        na: &NeighborAdvertisement,
        in_if: InterfaceId,
    ) -> (r: Vec<Action>)
        ensures
            (!is_configured(self.config, in_if) || spec_is_unicast_link_local(na.target_address))
                ==> r@.len() == 0,
            (is_configured(self.config, in_if) && !spec_is_unicast_link_local(na.target_address))
                ==> view_actions(r@) == seq![
                ActionV::RouteDelete {
                    if_index: unspecified_id(),
                    dst: na.target_address,
                    prefix_len: 128,
                },
                ActionV::RouteAdd { if_index: in_if, dst: na.target_address, prefix_len: 128 },
                ActionV::ProxyNeighborDelete { if_index: in_if, addr: na.target_address },
            ] + na_proxy_actions(remove_id(all_configured(self.config), in_if), na.target_address),
    {
        if !self.is_configured_if(in_if) {
            return Vec::new();
        }
        if na.target_address.is_unicast_link_local() {
            return Vec::new();
        }
        let target = na.target_address;
        let all = self.configured_ids();
        let out_ifs = remove_iface(&all, in_if);
        let mut actions: Vec<Action> = Vec::new();
        actions.push(
            Action::RouteDelete { if_index: InterfaceId::unspecified(), dst: target, prefix_len: 128 },
        );
        actions.push(Action::RouteAdd { if_index: in_if, dst: target, prefix_len: 128 });
        actions.push(Action::ProxyNeighborDelete { if_index: in_if, addr: target });
        let ghost hdr = seq![
            ActionV::RouteDelete { if_index: unspecified_id(), dst: target, prefix_len: 128 },
            ActionV::RouteAdd { if_index: in_if, dst: target, prefix_len: 128 },
            ActionV::ProxyNeighborDelete { if_index: in_if, addr: target },
        ];
        let ghost idsv = out_ifs@;
        let mut i: usize = 0;
        proof {
            assert(view_actions(actions@) =~= hdr);
            assert(idsv.skip(0) =~= idsv);
            assert(hdr + na_proxy_actions(idsv, target) =~= view_actions(actions@)
                + na_proxy_actions(idsv, target));
        }
        while i < out_ifs.len()
            invariant
                i <= idsv.len(),
                idsv == out_ifs@,
                target == na.target_address,
                hdr + na_proxy_actions(idsv, target) == view_actions(actions@)
                    + na_proxy_actions(idsv.skip(i as int), target),
                hdr == seq![
                    ActionV::RouteDelete {
                        if_index: unspecified_id(),
                        dst: target,
                        prefix_len: 128,
                    },
                    ActionV::RouteAdd { if_index: in_if, dst: target, prefix_len: 128 },
                    ActionV::ProxyNeighborDelete { if_index: in_if, addr: target },
                ],
            decreases idsv.len() - i,
        {
            let ghost rem = idsv.skip(i as int);
            proof {
                assert(rem[0] == idsv[i as int]);
                assert(rem.skip(1) =~= idsv.skip(i + 1));
            }
            let d = out_ifs[i];
            let ghost vpre = view_actions(actions@);
            let ghost apre = actions@;
            let a1 = Action::ProxyNeighborDelete { if_index: d, addr: target };
            let ghost a1v = a1;
            actions.push(a1);
            let ghost amid = actions@;
            let a2 = Action::ProxyNeighborAdd { if_index: d, addr: target };
            let ghost a2v = a2;
            actions.push(a2);
            proof {
                lemma_view_actions_push(apre, a1v);
                lemma_view_actions_push(amid, a2v);
                assert(view_actions(actions@) =~= vpre + seq![
                    ActionV::ProxyNeighborDelete { if_index: d, addr: target },
                    ActionV::ProxyNeighborAdd { if_index: d, addr: target },
                ]);
                assert(view_actions(actions@) + na_proxy_actions(idsv.skip(i + 1), target)
                    =~= vpre + (seq![
                    ActionV::ProxyNeighborDelete { if_index: d, addr: target },
                    ActionV::ProxyNeighborAdd { if_index: d, addr: target },
                ] + na_proxy_actions(idsv.skip(i + 1), target)));
            }
            i += 1;
        }
        proof {
            assert(na_proxy_actions(idsv.skip(i as int), target) == Seq::<ActionV>::empty());
            assert(view_actions(actions@) + Seq::<ActionV>::empty() =~= view_actions(actions@));
            assert(hdr + na_proxy_actions(idsv, target) == view_actions(actions@));
        }
        actions
    }
}

/// The query copies re-emitted to the household: destination `ff02::16`,
/// hop limit 1, one per downstream with a known link-local address.
pub open spec fn mlq_query_outputs(
    ds: Seq<InterfaceId>,
    t: InterfaceTable,
    qv: MulticastListenerQueryV,
) -> Seq<OutPacketV>
    decreases ds.len(),
{
    if ds.len() == 0 {
        Seq::empty()
    } else {
        (match spec_link_local_of(t, ds[0]) {
            Some(ll) => seq![
                OutPacketV {
                    dst: all_mldv2_routers_addr(),
                    info: PacketInfo { addr: ll, if_index: ds[0] },
                    hop_limit: 1,
                    msg: Icmp6PacketV::MulticastListenerQuery(qv),
                },
            ],
            None => Seq::empty(),
        }) + mlq_query_outputs(ds.skip(1), t, qv)
    }
}

/// The report a query for a live group is answered with: one record for
/// the group, IS_INCLUDE with the union of recorded sources when any
/// source is recorded, IS_EXCLUDE otherwise, sent from the upstream's
/// link-local address with hop limit 1. Without that address no report
/// goes out.
pub open spec fn mlq_report_output(
    subs: Seq<crate::group::MldSubEntry>,
    t: InterfaceTable,
    upstream: InterfaceId,
    g: Ip6Addr,
) -> Seq<OutPacketV> {
    match spec_link_local_of(t, upstream) {
        None => Seq::empty(),
        Some(ll) => seq![
            OutPacketV {
                dst: all_mldv2_routers_addr(),
                info: PacketInfo { addr: ll, if_index: upstream },
                hop_limit: 1,
                msg: Icmp6PacketV::V2MulticastListenerReport(
                    V2MulticastListenerReportV {
                        records: seq![
                            MulticastReportRecordV {
                                record_type: if dedup_seq(group_sources(subs, g)).len() > 0 {
                                    1
                                } else {
                                    2
                                },
                                multicast_address: g,
                                source_addresses: dedup_seq(group_sources(subs, g)),
                            },
                        ],
                    },
                ),
            },
        ],
    }
}

/// The query's view with its source list cleared.
pub open spec fn cleared_query(q: MulticastListenerQueryV) -> MulticastListenerQueryV {
    MulticastListenerQueryV {
        maximum_response_delay: q.maximum_response_delay,
        group_address: q.group_address,
        supress_router_processing: q.supress_router_processing,
        qrv: q.qrv,
        qqic: q.qqic,
        source_addresses: Seq::empty(),
    }
}

impl Engine {
    /// A listener query is honoured only from the upstream and only for a
    /// group of forwardable scope. Stale subscriptions are expired first
    /// under a 300-second timeout; if the queried group is still live the
    /// engine answers upstream with one report and re-asks the household,
    /// re-emitting the query with a cleared source list on every
    /// downstream.
    pub fn handle_multicast_listener_query(
        &mut self,
        table: &InterfaceTable,
        mlq: &MulticastListenerQuery,
        in_if: InterfaceId,
        now: u64,
    ) -> (r: (Vec<OutPacket>, Vec<Action>))
        requires
            old(self).wf(),
            table.wf(),
        ensures
            final(self).wf(),
            final(self).config == old(self).config,
            final(self).ndp == old(self).ndp,
            final(self).mld.vifs_seq() == old(self).mld.vifs_seq(),
            final(self).mld.parent_if() == old(self).mld.parent_if(),
            (in_if != old(self).config.upstream || addr_val(mlq.group_address) < addr_val(
                mld_scope_floor_addr(),
            )) ==> (*final(self) == *old(self) && r.0@.len() == 0 && r.1@.len() == 0),
            (in_if == old(self).config.upstream && addr_val(mlq.group_address) >= addr_val(
                mld_scope_floor_addr(),
            )) ==> ({
                let subs1 = crate::group::retained_subs(old(self).mld.subs(), now, 300);
                &&& final(self).mld.subs() == subs1
                &&& view_actions(r.1@) == crate::group::removal_actions(
                    old(self).mld.subs(),
                    now,
                    300,
                    old(self).mld.vif_at(old(self).config.upstream),
                )
                &&& view_packets(r.0@) == (if crate::group::has_group(
                    subs1,
                    mlq.group_address,
                ) {
                    mlq_report_output(subs1, *table, old(self).config.upstream, mlq.group_address)
                        + mlq_query_outputs(
                        old(self).config.downstreams@,
                        *table,
                        cleared_query(mlq@),
                    )
                } else {
                    Seq::<OutPacketV>::empty()
                })
            }),
    {
        if !(in_if == self.config.upstream) {
            return (Vec::new(), Vec::new());
        }
        if mlq.group_address.is_below_mld_scope_floor() {
            return (Vec::new(), Vec::new());
        }
        let actions = self.mld.remove_old_subscriptions(300, now);
        let mut packets: Vec<OutPacket> = Vec::new();
        if !self.mld.group_subscribed(mlq.group_address) {
            proof {
                assert(view_packets(packets@) =~= Seq::<OutPacketV>::empty());
            }
            return (packets, actions);
        }
        let ghost subs1 = self.mld.subs();
        // The report to the provider side.
        match table.get_link_local_addr(self.config.upstream) {
            Some(ll) => {
                let sources = self.mld.get_source_addresses(mlq.group_address);
                let record_type: u8 = if sources.len() > 0 {
                    1
                } else {
                    2
                };
                let record = MulticastReportRecord {
                    record_type,
                    multicast_address: mlq.group_address,
                    source_addresses: sources,
                };
                let mut records: Vec<MulticastReportRecord> = Vec::new();
                let ghost rv = record@;
                records.push(record);
                let pkt = OutPacket {
                    dst: Ip6Addr::all_mldv2_routers(),
                    info: PacketInfo { addr: ll, if_index: self.config.upstream },
                    hop_limit: 1,
                    msg: Icmp6Packet::V2MulticastListenerReport(
                        V2MulticastListenerReport { records },
                    ),
                };
                let ghost pv = pkt;
                let ghost ppre = packets@;
                packets.push(pkt);
                proof {
                    lemma_view_packets_push(ppre, pv);
                    assert(crate::icmp6::mld::view_records(pv.msg->V2MulticastListenerReport_0.records@)
                        =~= seq![rv]);
                    assert(view_packets(packets@) =~= mlq_report_output(
                        subs1,
                        *table,
                        self.config.upstream,
                        mlq.group_address,
                    ));
                }
            },
            None => {
                proof {
                    assert(view_packets(packets@) =~= mlq_report_output(
                        subs1,
                        *table,
                        self.config.upstream,
                        mlq.group_address,
                    ));
                }
            },
        }
        // The query, re-asked on every downstream.
        let ghost rpt = view_packets(packets@);
        let ghost ds = self.config.downstreams@;
        let ghost qv = cleared_query(mlq@);
        let mut i: usize = 0;
        proof {
            assert(ds.skip(0) =~= ds);
            assert(rpt + mlq_query_outputs(ds, *table, qv) =~= view_packets(packets@)
                + mlq_query_outputs(ds, *table, qv));
        }
        while i < self.config.downstreams.len()
            invariant
                i <= ds.len(),
                ds == self.config.downstreams@,
                table.wf(),
                qv == cleared_query(mlq@),
                rpt + mlq_query_outputs(ds, *table, qv) == view_packets(packets@)
                    + mlq_query_outputs(ds.skip(i as int), *table, qv),
            decreases ds.len() - i,
        {
            let ghost rem = ds.skip(i as int);
            proof {
                assert(rem[0] == ds[i as int]);
                assert(rem.skip(1) =~= ds.skip(i + 1));
            }
            let d = self.config.downstreams[i];
            match table.get_link_local_addr(d) {
                Some(ll) => {
                    let q = MulticastListenerQuery {
                        maximum_response_delay: mlq.maximum_response_delay,
                        group_address: mlq.group_address,
                        supress_router_processing: mlq.supress_router_processing,
                        qrv: mlq.qrv,
                        qqic: mlq.qqic,
                        source_addresses: Vec::new(),
                    };
                    let pkt = OutPacket {
                        dst: Ip6Addr::all_mldv2_routers(),
                        info: PacketInfo { addr: ll, if_index: d },
                        hop_limit: 1,
                        msg: Icmp6Packet::MulticastListenerQuery(q),
                    };
                    let ghost pv = pkt;
                    let ghost ppre = packets@;
                    let ghost vpre = view_packets(packets@);
                    packets.push(pkt);
                    proof {
                        lemma_view_packets_push(ppre, pv);
                        assert(pv@ == (OutPacketV {
                            dst: all_mldv2_routers_addr(),
                            info: PacketInfo { addr: ll, if_index: d },
                            hop_limit: 1,
                            msg: Icmp6PacketV::MulticastListenerQuery(qv),
                        }));
                        assert(view_packets(packets@) + mlq_query_outputs(
                            ds.skip(i + 1),
                            *table,
                            qv,
                        ) =~= vpre + (seq![pv@] + mlq_query_outputs(ds.skip(i + 1), *table, qv)));
                    }
                },
                None => {
                    proof {
                        assert(Seq::<OutPacketV>::empty() + mlq_query_outputs(
                            ds.skip(i + 1),
                            *table,
                            qv,
                        ) =~= mlq_query_outputs(ds.skip(i + 1), *table, qv));
                    }
                },
            }
            i += 1;
        }
        proof {
            assert(mlq_query_outputs(ds.skip(i as int), *table, qv) == Seq::<OutPacketV>::empty());
            assert(view_packets(packets@) + Seq::<OutPacketV>::empty() =~= view_packets(packets@));
        }
        (packets, actions)
    }
}

/// Whether the engine counts this report record: its group is not a
/// solicited-node group, the report came from a downstream, and the group
/// is of forwardable scope.
pub open spec fn is_qualifying(rec: MulticastReportRecordV, from_downstream: bool) -> bool {
    !spec_is_solicited_node(rec.multicast_address) && from_downstream && addr_val(
        rec.multicast_address,
    ) >= addr_val(mld_scope_floor_addr())
}

/// The records the engine counts, in report order.
pub open spec fn qualifying_records(
    recs: Seq<MulticastReportRecordV>,
    from_downstream: bool,
) -> Seq<MulticastReportRecordV>
    decreases recs.len(),
{
    if recs.len() == 0 {
        Seq::empty()
    } else {
        (if is_qualifying(recs[0], from_downstream) {
            seq![recs[0]]
        } else {
            Seq::empty()
        }) + qualifying_records(recs.skip(1), from_downstream)
    }
}

proof fn lemma_qualifying_snoc(
    s: Seq<MulticastReportRecordV>,
    e: MulticastReportRecordV,
    fd: bool,
)
    ensures
        qualifying_records(s.push(e), fd) == qualifying_records(s, fd) + (if is_qualifying(
            e,
            fd,
        ) {
            seq![e]
        } else {
            Seq::<MulticastReportRecordV>::empty()
        }),
    decreases s.len(),
{
    let tail = if is_qualifying(e, fd) {
        seq![e]
    } else {
        Seq::<MulticastReportRecordV>::empty()
    };
    if s.len() == 0 {
        assert(s.push(e)[0] == e);
        assert(s.push(e).skip(1) =~= Seq::<MulticastReportRecordV>::empty());
        assert(qualifying_records(s.push(e), fd) == tail + qualifying_records(
            s.push(e).skip(1),
            fd,
        ));
        assert(qualifying_records(s.push(e).skip(1), fd)
            == Seq::<MulticastReportRecordV>::empty());
        assert(tail + Seq::<MulticastReportRecordV>::empty()
            =~= Seq::<MulticastReportRecordV>::empty() + tail);
        assert(qualifying_records(s, fd) == Seq::<MulticastReportRecordV>::empty());
    } else {
        assert(s.push(e).skip(1) =~= s.skip(1).push(e));
        lemma_qualifying_snoc(s.skip(1), e, fd);
        assert(s.push(e)[0] == s[0]);
        let head = if is_qualifying(s[0], fd) {
            seq![s[0]]
        } else {
            Seq::<MulticastReportRecordV>::empty()
        };
        assert(qualifying_records(s.push(e), fd) == head + (qualifying_records(s.skip(1), fd)
            + tail));
        assert(head + (qualifying_records(s.skip(1), fd) + tail) =~= (head + qualifying_records(
            s.skip(1),
            fd,
        )) + tail);
    }
}

/// The emitted report rows answer for exactly the qualifying records, in
/// order: the same group, the union of the sources then recorded for it,
/// IS_INCLUDE when any source is recorded and IS_EXCLUDE otherwise.
pub open spec fn report_matches(
    out: Seq<MulticastReportRecordV>,
    qual: Seq<MulticastReportRecordV>,
    subs: Seq<crate::group::MldSubEntry>,
) -> bool {
    &&& out.len() == qual.len()
    &&& forall|j: int|
        0 <= j < out.len() ==> {
            &&& (#[trigger] out[j]).multicast_address == qual[j].multicast_address
            &&& out[j].source_addresses == dedup_seq(
                group_sources(subs, qual[j].multicast_address),
            )
            &&& (out[j].record_type == 1 <==> out[j].source_addresses.len() > 0)
            &&& (out[j].record_type == 2 <==> out[j].source_addresses.len() == 0)
        }
}

impl Engine {
    /// A listener report feeds both managers. Records for solicited-node
    /// groups register the arrival interface with the join tracker, which
    /// is then swept under an hour's timeout. The rest count only from a
    /// downstream and for groups of forwardable scope: each becomes a
    /// subscription, after the 300-second expiry sweep, and is answered
    /// for in a single report sent upstream to `ff02::16` with hop limit
    /// 1. No qualifying record, or no upstream link-local address, means
    /// no report. The returned actions begin with the expiry sweep's
    /// deletions, followed by the joins, leaves and forwarding-cache
    /// installations the managers asked for, in order.
    pub fn handle_v2_report(
        &mut self,
        table: &InterfaceTable,
        mlr: &V2MulticastListenerReport,
        in_if: InterfaceId,
        now: u64,
    ) -> (r: (Vec<OutPacket>, Vec<Action>))
        requires
            old(self).wf(),
            table.wf(),
        ensures
            final(self).wf(),
            final(self).config == old(self).config,
            final(self).mld.vifs_seq() == old(self).mld.vifs_seq(),
            final(self).mld.parent_if() == old(self).mld.parent_if(),
            final(self).ndp.ids() == old(self).ndp.ids(),
            forall|k: int|
                0 <= k < crate::icmp6::mld::view_records(mlr.records@).len()
                    && spec_is_solicited_node(
                    (#[trigger] crate::icmp6::mld::view_records(
                        mlr.records@,
                    )[k]).multicast_address,
                ) ==> final(self).ndp.has_pair(
                    crate::icmp6::mld::view_records(mlr.records@)[k].multicast_address,
                    in_if,
                ),
            forall|k: int|
                0 <= k < crate::icmp6::mld::view_records(mlr.records@).len() && is_qualifying(
                    #[trigger] crate::icmp6::mld::view_records(mlr.records@)[k],
                    is_downstream(old(self).config, in_if),
                ) ==> final(self).mld.has_sub(
                    in_if,
                    crate::icmp6::mld::view_records(mlr.records@)[k].multicast_address,
                ),
            ({
                let qual = qualifying_records(
                    crate::icmp6::mld::view_records(mlr.records@),
                    is_downstream(old(self).config, in_if),
                );
                match spec_link_local_of(*table, old(self).config.upstream) {
                    None => r.0@.len() == 0,
                    Some(ll) => if qual.len() == 0 {
                        r.0@.len() == 0
                    } else {
                        view_packets(r.0@).len() == 1 && view_packets(r.0@)[0].dst
                            == all_mldv2_routers_addr() && view_packets(r.0@)[0].hop_limit == 1
                            && view_packets(r.0@)[0].info == (PacketInfo {
                            addr: ll,
                            if_index: old(self).config.upstream,
                        }) && (view_packets(
                            r.0@,
                        )[0].msg matches Icmp6PacketV::V2MulticastListenerReport(rep)
                            && report_matches(rep.records, qual, final(self).mld.subs()))
                    },
                }
            }),
            ({
                let rm = crate::group::removal_actions(
                    old(self).mld.subs(),
                    now,
                    300,
                    old(self).mld.vif_at(old(self).mld.parent_if()),
                );
                &&& view_actions(r.1@).len() >= rm.len()
                &&& view_actions(r.1@).take(rm.len() as int) == rm
                &&& forall|j: int|
                    rm.len() <= j < view_actions(r.1@).len() ==> ((#[trigger] view_actions(
                        r.1@,
                    )[j]) is AddMroute || view_actions(r.1@)[j] is JoinMulticast || view_actions(
                        r.1@,
                    )[j] is LeaveMulticast)
            }),
    {
        let from_downstream = iface_in(&self.config.downstreams, in_if);
        let ghost fd = from_downstream;
        let mut actions = self.mld.remove_old_subscriptions(300, now);
        let ghost rm = view_actions(actions@);
        let ghost recsv = crate::icmp6::mld::view_records(mlr.records@);
        let ghost cfg0 = self.config;
        let mut out_records: Vec<MulticastReportRecord> = Vec::new();
        let mut i: usize = 0;
        proof {
            assert(recsv.take(0) =~= Seq::<MulticastReportRecordV>::empty());
            assert(view_actions(actions@).take(rm.len() as int) =~= rm);
        }
        while i < mlr.records.len()
            invariant
                i <= recsv.len(),
                recsv == crate::icmp6::mld::view_records(mlr.records@),
                fd == from_downstream,
                fd == is_downstream(cfg0, in_if),
                self.config == cfg0,
                table.wf(),
                self.mld.wf(),
                self.ndp.wf(),
                self.mld.parent_if() == cfg0.upstream,
                self.mld.has_vif(cfg0.upstream),
                self.ndp.ids() == old(self).ndp.ids(),
                self.mld.vifs_seq() == old(self).mld.vifs_seq(),
                view_actions(actions@).len() >= rm.len(),
                view_actions(actions@).take(rm.len() as int) == rm,
                forall|j: int|
                    rm.len() <= j < view_actions(actions@).len() ==> ((#[trigger] view_actions(
                        actions@,
                    )[j]) is AddMroute || view_actions(actions@)[j] is JoinMulticast
                        || view_actions(actions@)[j] is LeaveMulticast),
                report_matches(
                    crate::icmp6::mld::view_records(out_records@),
                    qualifying_records(recsv.take(i as int), fd),
                    self.mld.subs(),
                ),
                forall|j: int|
                    0 <= j < crate::icmp6::mld::view_records(out_records@).len()
                        ==> self.mld.has_sub(
                        in_if,
                        (#[trigger] crate::icmp6::mld::view_records(
                            out_records@,
                        )[j]).multicast_address,
                    ),
                forall|k: int|
                    0 <= k < i && spec_is_solicited_node(
                        (#[trigger] recsv[k]).multicast_address,
                    ) ==> exists|m: int|
                        0 <= m < self.ndp.subs().len() && (
                        #[trigger] self.ndp.subs()[m]).solicited_node_addr
                            == recsv[k].multicast_address && self.ndp.subs()[m].if_index == in_if
                            && self.ndp.subs()[m].timestamp == now,
                forall|k: int|
                    0 <= k < i && is_qualifying(#[trigger] recsv[k], fd) ==> self.mld.has_sub(
                        in_if,
                        recsv[k].multicast_address,
                    ),
            decreases recsv.len() - i,
        {
            proof {
                assert(recsv[i as int] == mlr.records@[i as int]@);
                assert(recsv.take(i + 1) =~= recsv.take(i as int).push(recsv[i as int]));
                lemma_qualifying_snoc(recsv.take(i as int), recsv[i as int], fd);
            }
            let rec = &mlr.records[i];
            if is_solicited_node_address(&rec.multicast_address) {
                let ghost ndp_pre = self.ndp;
                let mut acts = self.ndp.add_subscription(rec.multicast_address, in_if, now);
                let ghost apre = actions@;
                let ghost av = acts@;
                actions.append(&mut acts);
                proof {
                    crate::actions::lemma_view_actions_concat(apre, av);
                    assert(view_actions(actions@).take(rm.len() as int) =~= view_actions(
                        apre,
                    ).take(rm.len() as int));
                    crate::group::lemma_join_actions_shape(
                        ndp_pre.ids(),
                        in_if,
                        rec.multicast_address,
                    );
                    assert forall|j: int|
                        rm.len() <= j < view_actions(actions@).len() implies ((
                    #[trigger] view_actions(actions@)[j]) is AddMroute || view_actions(
                        actions@,
                    )[j] is JoinMulticast || view_actions(actions@)[j] is LeaveMulticast) by {
                        assert(view_actions(actions@) == view_actions(apre) + view_actions(
                            av,
                        ));
                        if j < view_actions(apre).len() {
                            assert(view_actions(actions@)[j] == view_actions(apre)[j]);
                        } else {
                            assert(view_actions(actions@)[j] == view_actions(av)[j - view_actions(
                                apre,
                            ).len()]);
                        }
                    }
                }
                let ghost ndp_mid = self.ndp;
                let mut acts2 = self.ndp.remove_old_subscriptions(3600, now);
                let ghost apre2 = actions@;
                let ghost av2 = acts2@;
                actions.append(&mut acts2);
                proof {
                    crate::actions::lemma_view_actions_concat(apre2, av2);
                    assert(view_actions(actions@).take(rm.len() as int) =~= view_actions(
                        apre2,
                    ).take(rm.len() as int));
                    crate::group::lemma_leave_actions_shape(
                        dedup_seq(
                            ndp_mid.subs().map_values(
                                |e: crate::group::NdpSubEntry| e.solicited_node_addr,
                            ),
                        ),
                        crate::group::ndp_retained(ndp_mid.subs(), now, 3600),
                    );
                    assert forall|j: int|
                        rm.len() <= j < view_actions(actions@).len() implies ((
                    #[trigger] view_actions(actions@)[j]) is AddMroute || view_actions(
                        actions@,
                    )[j] is JoinMulticast || view_actions(actions@)[j] is LeaveMulticast) by {
                        assert(view_actions(actions@) == view_actions(apre2) + view_actions(
                            av2,
                        ));
                        if j < view_actions(apre2).len() {
                            assert(view_actions(actions@)[j] == view_actions(apre2)[j]);
                        } else {
                            assert(view_actions(actions@)[j] == view_actions(av2)[j - view_actions(
                                apre2,
                            ).len()]);
                        }
                    }
                    // every tracked pair with a fresh timestamp survives
                    assert forall|k: int|
                        0 <= k < i + 1 && spec_is_solicited_node(
                            (#[trigger] recsv[k]).multicast_address,
                        ) implies exists|m: int|
                            0 <= m < self.ndp.subs().len() && (
                            #[trigger] self.ndp.subs()[m]).solicited_node_addr
                                == recsv[k].multicast_address && self.ndp.subs()[m].if_index
                                == in_if && self.ndp.subs()[m].timestamp == now by {
                        let g = recsv[k].multicast_address;
                        if k < i {
                            let m0 = choose|m: int|
                                0 <= m < ndp_pre.subs().len() && (
                                #[trigger] ndp_pre.subs()[m]).solicited_node_addr == g
                                    && ndp_pre.subs()[m].if_index == in_if
                                    && ndp_pre.subs()[m].timestamp == now;
                            if ndp_pre.has_pair(rec.multicast_address, in_if) {
                                assert(ndp_mid.subs()[m0].solicited_node_addr == g
                                    && ndp_mid.subs()[m0].if_index == in_if
                                    && ndp_mid.subs()[m0].timestamp == now);
                                assert(!crate::group::ndp_expired(ndp_mid.subs()[m0], now, 3600));
                                crate::group::lemma_ndp_retained_keeps(
                                    ndp_mid.subs(),
                                    now,
                                    3600,
                                    m0,
                                );
                                let e = ndp_mid.subs()[m0];
                                let m1 = choose|m: int|
                                    0 <= m < self.ndp.subs().len() && self.ndp.subs()[m] == e;
                                assert(self.ndp.subs()[m1].solicited_node_addr == g);
                            } else {
                                assert(ndp_mid.subs()[m0] == ndp_pre.subs()[m0]);
                                assert(!crate::group::ndp_expired(ndp_mid.subs()[m0], now, 3600));
                                crate::group::lemma_ndp_retained_keeps(
                                    ndp_mid.subs(),
                                    now,
                                    3600,
                                    m0,
                                );
                                let e = ndp_mid.subs()[m0];
                                let m1 = choose|m: int|
                                    0 <= m < self.ndp.subs().len() && self.ndp.subs()[m] == e;
                                assert(self.ndp.subs()[m1].solicited_node_addr == g);
                            }
                        } else {
                            // the record just handled
                            let m0: int = if ndp_pre.has_pair(rec.multicast_address, in_if) {
                                let j = choose|j: int|
                                    0 <= j < ndp_pre.subs().len() && (
                                    #[trigger] ndp_pre.subs()[j]).solicited_node_addr
                                        == rec.multicast_address && ndp_pre.subs()[j].if_index
                                        == in_if;
                                assert(ndp_mid.subs()[j] == (crate::group::NdpSubEntry {
                                    solicited_node_addr: rec.multicast_address,
                                    if_index: in_if,
                                    timestamp: now,
                                }));
                                j
                            } else {
                                assert(ndp_mid.subs() == ndp_pre.subs().push(
                                    crate::group::NdpSubEntry {
                                        solicited_node_addr: rec.multicast_address,
                                        if_index: in_if,
                                        timestamp: now,
                                    },
                                ));
                                ndp_mid.subs().len() - 1
                            };
                            assert(ndp_mid.subs()[m0].solicited_node_addr
                                == rec.multicast_address && ndp_mid.subs()[m0].if_index == in_if
                                && ndp_mid.subs()[m0].timestamp == now);
                            assert(!crate::group::ndp_expired(ndp_mid.subs()[m0], now, 3600));
                            crate::group::lemma_ndp_retained_keeps(ndp_mid.subs(), now, 3600, m0);
                            let e = ndp_mid.subs()[m0];
                            let m1 = choose|m: int|
                                0 <= m < self.ndp.subs().len() && self.ndp.subs()[m] == e;
                            assert(self.ndp.subs()[m1].solicited_node_addr == g);
                        }
                    }
                    // the record was not counted
                    assert(qualifying_records(recsv.take(i + 1), fd) =~= qualifying_records(
                        recsv.take(i as int),
                        fd,
                    ));
                }
            } else if !from_downstream {
                proof {
                    assert(qualifying_records(recsv.take(i + 1), fd) =~= qualifying_records(
                        recsv.take(i as int),
                        fd,
                    ));
                }
            } else if rec.multicast_address.is_below_mld_scope_floor() {
                proof {
                    assert(qualifying_records(recsv.take(i + 1), fd) =~= qualifying_records(
                        recsv.take(i as int),
                        fd,
                    ));
                }
            } else {
                let ghost mld_pre = self.mld;
                let srcs = clone_addrs(&rec.source_addresses);
                let mut acts = self.mld.add_subscription(
                    in_if,
                    rec.multicast_address,
                    srcs,
                    now,
                );
                let ghost apre = actions@;
                let ghost av = acts@;
                actions.append(&mut acts);
                proof {
                    crate::actions::lemma_view_actions_concat(apre, av);
                    assert(view_actions(actions@).take(rm.len() as int) =~= view_actions(
                        apre,
                    ).take(rm.len() as int));
                    if !mld_pre.has_sub(in_if, rec.multicast_address) {
                        crate::group::lemma_mroute_adds_shape(
                            mld_pre.vif_at(mld_pre.parent_if()),
                            self.mld.vifs_of(
                                crate::group::subscribed_ifs(
                                    self.mld.subs(),
                                    rec.multicast_address,
                                ),
                            ),
                            rec.multicast_address,
                            dedup_seq(rec.source_addresses@),
                        );
                    }
                    assert forall|j: int|
                        rm.len() <= j < view_actions(actions@).len() implies ((
                    #[trigger] view_actions(actions@)[j]) is AddMroute || view_actions(
                        actions@,
                    )[j] is JoinMulticast || view_actions(actions@)[j] is LeaveMulticast) by {
                        assert(view_actions(actions@) == view_actions(apre) + view_actions(
                            av,
                        ));
                        if j < view_actions(apre).len() {
                            assert(view_actions(actions@)[j] == view_actions(apre)[j]);
                        } else {
                            assert(view_actions(actions@)[j] == view_actions(av)[j - view_actions(
                                apre,
                            ).len()]);
                        }
                    }
                    // earlier rows keep their sources: a fresh entry is for a
                    // group no earlier row reported, a known pair changes
                    // nothing
                    if !mld_pre.has_sub(in_if, rec.multicast_address) {
                        assert forall|j: int|
                            0 <= j < crate::icmp6::mld::view_records(out_records@).len() implies {
                            let g = (#[trigger] crate::icmp6::mld::view_records(
                                out_records@,
                            )[j]).multicast_address;
                            group_sources(self.mld.subs(), g) == group_sources(mld_pre.subs(), g)
                                && self.mld.has_sub(in_if, g)
                        } by {
                            let g = crate::icmp6::mld::view_records(
                                out_records@,
                            )[j].multicast_address;
                            assert(mld_pre.has_sub(in_if, g));
                            assert(g != rec.multicast_address);
                            let e = self.mld.subs().last();
                            assert(self.mld.subs() == mld_pre.subs().push(e));
                            assert(e.sub.group_addr == rec.multicast_address);
                            crate::group::lemma_group_sources_snoc(mld_pre.subs(), e, g);
                            assert(group_sources(mld_pre.subs(), g) + Seq::<Ip6Addr>::empty()
                                =~= group_sources(mld_pre.subs(), g));
                            let w = choose|w: int|
                                0 <= w < mld_pre.subs().len() && (
                                #[trigger] mld_pre.subs()[w]).if_index == in_if
                                    && mld_pre.subs()[w].sub.group_addr == g;
                            assert(self.mld.subs()[w] == mld_pre.subs()[w]);
                        }
                    }
                }
                proof {
                    assert forall|k: int|
                        0 <= k < i + 1 && is_qualifying(
                            #[trigger] recsv[k],
                            fd,
                        ) implies self.mld.has_sub(in_if, recsv[k].multicast_address) by {
                        if k < i {
                            let g = recsv[k].multicast_address;
                            let w = choose|w: int|
                                0 <= w < mld_pre.subs().len() && (
                                #[trigger] mld_pre.subs()[w]).if_index == in_if
                                    && mld_pre.subs()[w].sub.group_addr == g;
                            if !mld_pre.has_sub(in_if, rec.multicast_address) {
                                assert(self.mld.subs()[w] == mld_pre.subs()[w]);
                            }
                        }
                    }
                }
                let sources = self.mld.get_source_addresses(rec.multicast_address);
                let record_type: u8 = if sources.len() > 0 {
                    1
                } else {
                    2
                };
                let ghost orpre = out_records@;
                let nr = MulticastReportRecord {
                    record_type,
                    multicast_address: rec.multicast_address,
                    source_addresses: sources,
                };
                let ghost nrv = nr@;
                out_records.push(nr);
                proof {
                    assert(crate::icmp6::mld::view_records(out_records@)
                        =~= crate::icmp6::mld::view_records(orpre).push(nrv));
                    assert(is_qualifying(recsv[i as int], fd));
                    assert(qualifying_records(recsv.take(i + 1), fd) =~= qualifying_records(
                        recsv.take(i as int),
                        fd,
                    ).push(recsv[i as int]));
                }
            }
            i += 1;
        }
        proof {
            assert(recsv.take(i as int) =~= recsv);
        }
        let mut packets: Vec<OutPacket> = Vec::new();
        if out_records.len() > 0 {
            match table.get_link_local_addr(self.config.upstream) {
                Some(ll) => {
                    let ghost orv = crate::icmp6::mld::view_records(out_records@);
                    let pkt = OutPacket {
                        dst: Ip6Addr::all_mldv2_routers(),
                        info: PacketInfo { addr: ll, if_index: self.config.upstream },
                        hop_limit: 1,
                        msg: Icmp6Packet::V2MulticastListenerReport(
                            V2MulticastListenerReport { records: out_records },
                        ),
                    };
                    let ghost pv = pkt;
                    packets.push(pkt);
                    proof {
                        assert(view_packets(packets@) =~= seq![pv@]);
                        assert(pv@.msg->V2MulticastListenerReport_0.records == orv);
                    }
                },
                None => {},
            }
        }
        (packets, actions)
    }
}

/// A copy of an option list, views preserved.
fn clone_option_list(options: &Vec<NdpOption>) -> (r: Vec<NdpOption>)
    ensures
        view_opts(r@) == view_opts(options@),
{
    let mut out: Vec<NdpOption> = Vec::new();
    let mut i: usize = 0;
    proof {
        assert(view_opts(out@) =~= view_opts(options@).take(0));
    }
    while i < options.len()
        invariant
            i <= options@.len(),
            view_opts(out@) == view_opts(options@).take(i as int),
        decreases options@.len() - i,
    {
        let ghost vpre = view_opts(out@);
        let o = NdpOption {
            option_type: options[i].option_type,
            option_data: clone_bytes(&options[i].option_data),
        };
        let ghost ov = o@;
        out.push(o);
        proof {
            assert(view_opts(out@) =~= vpre.push(ov));
            assert(ov == view_opts(options@)[i as int]);
            assert(view_opts(out@) =~= view_opts(options@).take(i + 1));
        }
        i += 1;
    }
    proof {
        assert(view_opts(options@).take(i as int) =~= view_opts(options@));
    }
    out
}

} // verus!
