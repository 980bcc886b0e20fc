use vstd::prelude::*;
use crate::addr::Ip6Addr;
use crate::icmp6::bytes::{addr_at, read_addr, read_u16, read_u32, u16_of, u32_of};
use crate::icmp6::mld::{
    MulticastListenerQuery, MulticastListenerQueryV, MulticastReportRecord,
    MulticastReportRecordV, V1MulticastListenerDone, V1MulticastListenerReport,
    V2MulticastListenerReport, V2MulticastListenerReportV, view_records,
};
use crate::icmp6::ndp::{
    NdpOption, NdpOptionV, NeighborAdvertisement, NeighborAdvertisementV, NeighborSolicitation,
    NeighborSolicitationV, Redirect, RedirectV, RouterAdvertisement, RouterAdvertisementV,
    RouterSolicitation, RouterSolicitationV, view_opts,
};
use crate::icmp6::packet::{packet_hbh, packet_ttl, Packet};
use crate::icmp6::{Icmp6Error, Icmp6Packet, Icmp6PacketV};

verus! {

// ---------------------------------------------------------------------------
// The wire format, as specification functions. `spec_parse` is the meaning
// of a received payload; the executable parser is proved against it.
// ---------------------------------------------------------------------------

/// Walks the options inside a hop-by-hop blob, already past its two header
/// bytes. `found` carries whether a Router Alert option with value 0, the
/// MLD mark, was seen so far. A type byte of zero ends the walk; a blob
/// whose option length runs past the end is rejected.
pub open spec fn hbh_walk(d: Seq<u8>, found: bool) -> Result<bool, Icmp6Error>
    decreases d.len(),
{
    if d.len() == 0 {
        Ok(found)
    } else if d[0] == 0 {
        Ok(found)
    } else if d.len() < 2 {
        Err(Icmp6Error::BadHopByHop)
    } else if 2 + d[1] as int > d.len() {
        Err(Icmp6Error::BadHopByHop)
    } else if d[0] == 5 {
        if d[1] < 2 {
            Err(Icmp6Error::BadHopByHop)
        } else {
            hbh_walk(d.skip(2 + d[1] as int), found || (d[2] == 0 && d[3] == 0))
        }
    } else {
        hbh_walk(d.skip(2 + d[1] as int), found)
    }
}

/// Whether the received hop-by-hop data marks the packet as MLD-eligible:
/// absent data does not, a blob shorter than its own two header bytes is an
/// error, anything else is settled by the walk.
pub open spec fn spec_ra_mld(hbh: Option<Seq<u8>>) -> Result<bool, Icmp6Error> {
    match hbh {
        None => Ok(false),
        Some(h) => if h.len() < 2 {
            Err(Icmp6Error::BadHopByHop)
        } else {
            hbh_walk(h.skip(2), false)
        },
    }
}

/// The NDP options encoded in `d`: each is a type byte, a length in 8-byte
/// units, and the rest of those units as data. A zero length, a length that
/// runs past the buffer, or a tail shorter than one unit ends the list.
pub open spec fn spec_parse_opts(d: Seq<u8>) -> Seq<NdpOptionV>
    decreases d.len(),
{
    if d.len() < 8 {
        Seq::empty()
    } else if d[1] == 0 {
        Seq::empty()
    } else if 8 * d[1] as int > d.len() {
        Seq::empty()
    } else {
        seq![NdpOptionV { option_type: d[0], option_data: d.subrange(2, 8 * d[1] as int) }]
            + spec_parse_opts(d.skip(8 * d[1] as int))
    }
}

/// The addresses packed back to back from byte `i` to the end of `d`;
/// a trailing fragment shorter than sixteen bytes is dropped.
pub open spec fn spec_parse_addrs_to_end(d: Seq<u8>, i: int) -> Seq<Ip6Addr>
    decreases d.len() - i,
{
    if 0 <= i && i + 16 <= d.len() {
        seq![addr_at(d, i)] + spec_parse_addrs_to_end(d, i + 16)
    } else {
        Seq::empty()
    }
}

/// Exactly `n` addresses packed back to back from byte `i`.
pub open spec fn spec_parse_n_addrs(d: Seq<u8>, i: int, n: int) -> Seq<Ip6Addr>
    decreases n,
{
    if n <= 0 {
        Seq::empty()
    } else {
        seq![addr_at(d, i)] + spec_parse_n_addrs(d, i + 16, n - 1)
    }
}

/// `n` MLDv2 report records starting at byte `off`: record type, auxiliary
/// data length, source count, the group address, that many sources, then
/// the auxiliary data, which is skipped.
pub open spec fn spec_parse_records(d: Seq<u8>, off: int, n: int) -> Result<
    Seq<MulticastReportRecordV>,
    Icmp6Error,
>
    decreases n,
{
    if n <= 0 {
        Ok(Seq::empty())
    } else if off + 20 > d.len() {
        Err(Icmp6Error::PacketTooShort)
    } else if off + 20 + 16 * (u16_of(d[off + 2], d[off + 3]) as int) + d[off + 1] as int
        > d.len() {
        Err(Icmp6Error::PacketTooShort)
    } else {
        match spec_parse_records(
            d,
            off + 20 + 16 * (u16_of(d[off + 2], d[off + 3]) as int) + d[off + 1] as int,
            n - 1,
        ) {
            Ok(rest) => Ok(
                seq![
                    MulticastReportRecordV {
                        record_type: d[off],
                        multicast_address: addr_at(d, off + 4),
                        source_addresses: spec_parse_n_addrs(
                            d,
                            off + 20,
                            u16_of(d[off + 2], d[off + 3]) as int,
                        ),
                    },
                ] + rest,
            ),
            Err(e) => Err(e),
        }
    }
}

/// Glues a prefix of already-parsed records onto the outcome of parsing the
/// rest.
pub open spec fn prepend_records(
    pre: Seq<MulticastReportRecordV>,
    rest: Result<Seq<MulticastReportRecordV>, Icmp6Error>,
) -> Result<Seq<MulticastReportRecordV>, Icmp6Error> {
    match rest {
        Ok(r) => Ok(pre + r),
        Err(e) => Err(e),
    }
}

/// The meaning of a received ICMPv6 payload `d`, arrived with hop limit
/// `ttl` and with or without the Router Alert MLD mark. Message types 130,
/// 131, 132 and 143 demand hop limit 1 and the mark; every message type is
/// rejected when the payload is below its fixed size; all other payloads
/// decode, unlisted types to `Unknown`.
pub open spec fn spec_parse(ttl: u8, ra_mld: bool, d: Seq<u8>) -> Result<
    Icmp6PacketV,
    Icmp6Error,
> {
    if d.len() < 4 {
        Err(Icmp6Error::PacketTooShort)
    } else {
        let t = d[0];
        let code = d[1];
        if t == 1 {
            Ok(Icmp6PacketV::DestinationUnreachable(code))
        } else if t == 2 {
            if d.len() < 8 {
                Err(Icmp6Error::PacketTooShort)
            } else {
                Ok(Icmp6PacketV::PacketTooBig(u32_of(d[4], d[5], d[6], d[7])))
            }
        } else if t == 3 {
            Ok(Icmp6PacketV::TimeExceeded(code))
        } else if t == 4 {
            Ok(Icmp6PacketV::ParameterProblem(code))
        } else if t == 128 {
            if d.len() < 8 {
                Err(Icmp6Error::PacketTooShort)
            } else {
                Ok(
                    Icmp6PacketV::EchoRequest {
                        identifier: u16_of(d[4], d[5]),
                        sequence: u16_of(d[6], d[7]),
                        data: d.skip(8),
                    },
                )
            }
        } else if t == 129 {
            if d.len() < 8 {
                Err(Icmp6Error::PacketTooShort)
            } else {
                Ok(
                    Icmp6PacketV::EchoReply {
                        identifier: u16_of(d[4], d[5]),
                        sequence: u16_of(d[6], d[7]),
                        data: d.skip(8),
                    },
                )
            }
        } else if t == 130 {
            if ttl != 1 {
                Err(Icmp6Error::MldHopLimit)
            } else if !ra_mld {
                Err(Icmp6Error::MldNoRouterAlert)
            } else if d.len() < 24 {
                Err(Icmp6Error::PacketTooShort)
            } else if d.len() < 28 {
                Ok(
                    Icmp6PacketV::MulticastListenerQuery(
                        MulticastListenerQueryV {
                            maximum_response_delay: u16_of(d[4], d[5]),
                            group_address: addr_at(d, 8),
                            supress_router_processing: false,
                            qrv: 0,
                            qqic: 0,
                            source_addresses: Seq::empty(),
                        },
                    ),
                )
            } else {
                Ok(
                    Icmp6PacketV::MulticastListenerQuery(
                        MulticastListenerQueryV {
                            maximum_response_delay: u16_of(d[4], d[5]),
                            group_address: addr_at(d, 8),
                            supress_router_processing: d[24] >= 128,
                            qrv: (d[24] % 8) as u8,
                            qqic: d[25],
                            source_addresses: spec_parse_addrs_to_end(d, 28),
                        },
                    ),
                )
            }
        } else if t == 131 {
            if ttl != 1 {
                Err(Icmp6Error::MldHopLimit)
            } else if !ra_mld {
                Err(Icmp6Error::MldNoRouterAlert)
            } else if d.len() < 24 {
                Err(Icmp6Error::PacketTooShort)
            } else {
                Ok(
                    Icmp6PacketV::V1MulticastListenerReport(
                        V1MulticastListenerReport { group_address: addr_at(d, 8) },
                    ),
                )
            }
        } else if t == 132 {
            if ttl != 1 {
                Err(Icmp6Error::MldHopLimit)
            } else if !ra_mld {
                Err(Icmp6Error::MldNoRouterAlert)
            } else if d.len() < 24 {
                Err(Icmp6Error::PacketTooShort)
            } else {
                Ok(
                    Icmp6PacketV::V1MulticastListenerDone(
                        V1MulticastListenerDone { group_address: addr_at(d, 8) },
                    ),
                )
            }
        } else if t == 133 {
            if d.len() < 8 {
                Err(Icmp6Error::PacketTooShort)
            } else {
                Ok(
                    Icmp6PacketV::RouterSolicitation(
                        RouterSolicitationV { options: spec_parse_opts(d.skip(8)) },
                    ),
                )
            }
        } else if t == 134 {
            if d.len() < 16 {
                Err(Icmp6Error::PacketTooShort)
            } else {
                Ok(
                    Icmp6PacketV::RouterAdvertisement(
                        RouterAdvertisementV {
                            hop_limit: d[4],
                            managed_address_configuration: d[5] >= 128,
                            other_configuration: (d[5] / 64) % 2 == 1,
                            router_lifetime: u16_of(d[6], d[7]),
                            reachable_time: u32_of(d[8], d[9], d[10], d[11]),
                            retrans_timer: u32_of(d[12], d[13], d[14], d[15]),
                            options: spec_parse_opts(d.skip(16)),
                        },
                    ),
                )
            }
        } else if t == 135 {
            if d.len() < 24 {
                Err(Icmp6Error::PacketTooShort)
            } else {
                Ok(
                    Icmp6PacketV::NeighborSolicitation(
                        NeighborSolicitationV {
                            target_address: addr_at(d, 8),
                            options: spec_parse_opts(d.skip(24)),
                        },
                    ),
                )
            }
        } else if t == 136 {
            if d.len() < 24 {
                Err(Icmp6Error::PacketTooShort)
            } else {
                Ok(
                    Icmp6PacketV::NeighborAdvertisement(
                        NeighborAdvertisementV {
                            router: d[4] >= 128,
                            solicited: (d[4] / 64) % 2 == 1,
                            override_: (d[4] / 32) % 2 == 1,
                            target_address: addr_at(d, 8),
                            options: spec_parse_opts(d.skip(24)),
                        },
                    ),
                )
            }
        } else if t == 137 {
            if d.len() < 40 {
                Err(Icmp6Error::PacketTooShort)
            } else {
                Ok(
                    Icmp6PacketV::Redirect(
                        RedirectV {
                            target_address: addr_at(d, 8),
                            destination_address: addr_at(d, 24),
                            options: spec_parse_opts(d.skip(40)),
                        },
                    ),
                )
            }
        } else if t == 138 {
            Ok(Icmp6PacketV::RouterRenumbering(code))
        } else if t == 139 {
            Ok(Icmp6PacketV::NodeInformationQuery)
        } else if t == 140 {
            Ok(Icmp6PacketV::NodeInformationResponse)
        } else if t == 141 {
            Ok(Icmp6PacketV::InverseNeighborDiscoverySolicitation)
        } else if t == 142 {
            Ok(Icmp6PacketV::InverseNeighborDiscoveryAdvertisement)
        } else if t == 143 {
            if ttl != 1 {
                Err(Icmp6Error::MldHopLimit)
            } else if !ra_mld {
                Err(Icmp6Error::MldNoRouterAlert)
            } else if d.len() < 8 {
                Err(Icmp6Error::PacketTooShort)
            } else {
                match spec_parse_records(d, 8, u16_of(d[6], d[7]) as int) {
                    Ok(records) => Ok(
                        Icmp6PacketV::V2MulticastListenerReport(
                            V2MulticastListenerReportV { records },
                        ),
                    ),
                    Err(e) => Err(e),
                }
            }
        } else if t == 144 {
            Ok(Icmp6PacketV::HomeAgentAddressDiscoveryRequest)
        } else if t == 145 {
            Ok(Icmp6PacketV::HomeAgentAddressDiscoveryReply)
        } else if t == 146 {
            Ok(Icmp6PacketV::MobilePrefixSolicitation)
        } else if t == 147 {
            Ok(Icmp6PacketV::MobilePrefixAdvertisement)
        } else if t == 157 {
            Ok(Icmp6PacketV::DuplicateAddressRequest(code))
        } else if t == 158 {
            Ok(Icmp6PacketV::DuplicateAddressConfirmation(code))
        } else if t == 160 {
            Ok(Icmp6PacketV::ExtendedEchoRequest(code))
        } else if t == 161 {
            Ok(Icmp6PacketV::ExtendedEchoReply(code))
        } else {
            Ok(Icmp6PacketV::Unknown(t, code))
        }
    }
}

// ---------------------------------------------------------------------------
// Executable helpers, each proved against its specification function.
// ---------------------------------------------------------------------------

/// Copies `d[from..to]` into an owned vector.
fn bytes_range(d: &[u8], from: usize, to: usize) -> (r: Vec<u8>)
    requires
        from <= to <= d@.len(),
    ensures
        r@ == d@.subrange(from as int, to as int),
{
    let mut out: Vec<u8> = Vec::new();
    let mut i: usize = from;
    while i < to
        invariant
            from <= i <= to <= d@.len(),
            out@ == d@.subrange(from as int, i as int),
        decreases to - i,
    {
        out.push(d[i]);
        proof {
            assert(out@ =~= d@.subrange(from as int, i + 1));
        }
        i += 1;
    }
    out
}

/// Copies `d[start..]` into an owned vector.
fn bytes_from(d: &[u8], start: usize) -> (r: Vec<u8>)
    requires
        start <= d@.len(),
    ensures
        r@ == d@.skip(start as int),
{
    let out = bytes_range(d, start, d.len());
    proof {
        assert(d@.subrange(start as int, d@.len() as int) =~= d@.skip(start as int));
    }
    out
}

/// Runs the hop-by-hop walk over a received blob.
fn walk_hbh(data: &Vec<u8>) -> (r: Result<bool, Icmp6Error>)
    requires
        data@.len() >= 2,
    ensures
        r == hbh_walk(data@.skip(2), false),
{
    let mut found = false;
    let mut i: usize = 2;
    while i < data.len()
        invariant
            2 <= i <= data@.len(),
            hbh_walk(data@.skip(2), false) == hbh_walk(data@.skip(i as int), found),
        ensures
            2 <= i <= data@.len(),
            hbh_walk(data@.skip(2), false) == hbh_walk(data@.skip(i as int), found),
            i >= data@.len() || data@[i as int] == 0,
        decreases data@.len() - i,
    {
        let ghost rem = data@.skip(i as int);
        proof {
            assert(rem.len() == data@.len() - i);
            assert(rem[0] == data@[i as int]);
        }
        let hdr = data[i];
        if hdr == 0 {
            break;
        }
        if i + 1 >= data.len() {
            proof {
                assert(rem.len() == 1);
            }
            return Err(Icmp6Error::BadHopByHop);
        }
        let l = data[i + 1] as usize;
        proof {
            assert(rem[1] == data@[i + 1]);
        }
        if l > data.len() - i - 2 {
            proof {
                assert(2 + rem[1] as int > rem.len());
            }
            return Err(Icmp6Error::BadHopByHop);
        }
        if hdr == 5 {
            if l < 2 {
                return Err(Icmp6Error::BadHopByHop);
            }
            proof {
                assert(rem[2] == data@[i + 2]);
                assert(rem[3] == data@[i + 3]);
            }
            if data[i + 2] == 0 && data[i + 3] == 0 {
                found = true;
            }
        }
        proof {
            assert(rem.skip(2 + rem[1] as int) =~= data@.skip(i as int + 2 + l as int));
        }
        i = i + 2 + l;
    }
    proof {
        if i >= data@.len() {
            assert(data@.skip(i as int).len() == 0);
        } else {
            assert(data@.skip(i as int)[0] == 0);
        }
    }
    Ok(found)
}

/// Reads addresses back to back from `start` to the end of `d`.
fn parse_addrs_to_end(d: &[u8], start: usize) -> (r: Vec<Ip6Addr>)
    requires
        start <= d@.len(),
    ensures
        r@ == spec_parse_addrs_to_end(d@, start as int),
{
    let mut out: Vec<Ip6Addr> = Vec::new();
    let mut i: usize = start;
    proof {
        assert(out@ + spec_parse_addrs_to_end(d@, start as int) =~= spec_parse_addrs_to_end(
            d@,
            start as int,
        ));
    }
    while i < d.len() && d.len() - i >= 16
        invariant
            start <= i <= d@.len(),
            spec_parse_addrs_to_end(d@, start as int) == out@ + spec_parse_addrs_to_end(
                d@,
                i as int,
            ),
        decreases d@.len() - i,
    {
        let a = read_addr(d, i);
        out.push(a);
        proof {
            assert(out@ + spec_parse_addrs_to_end(d@, i + 16) =~= (out@.drop_last() + (
            seq![a] + spec_parse_addrs_to_end(d@, i + 16))));
        }
        i += 16;
    }
    proof {
        assert(spec_parse_addrs_to_end(d@, i as int) == Seq::<Ip6Addr>::empty());
        assert(out@ + Seq::<Ip6Addr>::empty() =~= out@);
    }
    out
}

/// Reads exactly `n` addresses starting at `start`.
fn parse_n_addrs(d: &[u8], start: usize, n: usize) -> (r: Vec<Ip6Addr>)
    requires
        start + 16 * n <= d@.len(),
    ensures
        r@ == spec_parse_n_addrs(d@, start as int, n as int),
{
    let mut out: Vec<Ip6Addr> = Vec::new();
    let mut k: usize = 0;
    let mut i: usize = start;
    let dlen: usize = d.len();
    proof {
        assert(dlen == d@.len());
        assert(out@ + spec_parse_n_addrs(d@, start as int, n as int) =~= spec_parse_n_addrs(
            d@,
            start as int,
            n as int,
        ));
    }
    while k < n
        invariant
            i == start + 16 * k,
            k <= n,
            start + 16 * n <= d@.len(),
            dlen == d@.len(),
            spec_parse_n_addrs(d@, start as int, n as int) == out@ + spec_parse_n_addrs(
                d@,
                i as int,
                (n - k) as int,
            ),
        decreases n - k,
    {
        let a = read_addr(d, i);
        out.push(a);
        proof {
            assert(out@ + spec_parse_n_addrs(d@, i + 16, n - k - 1) =~= (out@.drop_last() + (
            seq![a] + spec_parse_n_addrs(d@, i + 16, n - k - 1))));
            assert(i + 16 == start + 16 * (k + 1) <= start + 16 * n <= d@.len());
        }
        i += 16;
        k += 1;
    }
    proof {
        assert(spec_parse_n_addrs(d@, i as int, 0) == Seq::<Ip6Addr>::empty());
        assert(out@ + Seq::<Ip6Addr>::empty() =~= out@);
    }
    out
}

/// Reads `n` MLDv2 report records starting at byte 8 of the payload.
fn parse_records_from(d: &[u8], n: usize) -> (r: Result<Vec<MulticastReportRecord>, Icmp6Error>)
    requires
        d@.len() >= 8,
    ensures
        match r {
            Ok(recs) => spec_parse_records(d@, 8, n as int) == Ok::<
                Seq<MulticastReportRecordV>,
                Icmp6Error,
            >(view_records(recs@)),
            Err(e) => spec_parse_records(d@, 8, n as int) == Err::<
                Seq<MulticastReportRecordV>,
                Icmp6Error,
            >(e),
        },
{
    let mut records: Vec<MulticastReportRecord> = Vec::new();
    let mut off: usize = 8;
    let mut k: usize = 0;
    proof {
        assert(view_records(records@) =~= Seq::<MulticastReportRecordV>::empty());
        let t0 = spec_parse_records(d@, 8, n as int);
        if t0 is Ok {
            assert(view_records(records@) + t0->Ok_0 =~= t0->Ok_0);
        }
    }
    while k < n
        invariant
            8 <= off <= d@.len(),
            k <= n,
            spec_parse_records(d@, 8, n as int) == prepend_records(
                view_records(records@),
                spec_parse_records(d@, off as int, (n - k) as int),
            ),
        decreases n - k,
    {
        if d.len() - off < 20 {
            return Err(Icmp6Error::PacketTooShort);
        }
        let rt = d[off];
        let aux = d[off + 1] as usize;
        let ns = read_u16(d[off + 2], d[off + 3]) as usize;
        let need: usize = 20 + 16 * ns + aux;
        if need > d.len() - off {
            return Err(Icmp6Error::PacketTooShort);
        }
        let group = read_addr(d, off + 4);
        let srcs = parse_n_addrs(d, off + 20, ns);
        let rec = MulticastReportRecord {
            record_type: rt,
            multicast_address: group,
            source_addresses: srcs,
        };
        let ghost pre = records@;
        records.push(rec);
        proof {
            assert(records@ == pre.push(rec));
            assert(rec@ == (MulticastReportRecordV {
                record_type: d@[off as int],
                multicast_address: addr_at(d@, off as int + 4),
                source_addresses: spec_parse_n_addrs(
                    d@,
                    off as int + 20,
                    u16_of(d@[off as int + 2], d@[off as int + 3]) as int,
                ),
            }));
            assert(off as int + 20 + 16 * (u16_of(d@[off as int + 2], d@[off as int + 3]) as int)
                + d@[off as int + 1] as int == off + need);
            assert(spec_parse_records(d@, off as int, (n - k) as int) == (
            match spec_parse_records(d@, off + need, (n - k) as int - 1) {
                Ok(rest) => Ok::<Seq<MulticastReportRecordV>, Icmp6Error>(seq![rec@] + rest),
                Err(e) => Err(e),
            }));
            assert(view_records(records@) =~= view_records(pre) + seq![rec@]);
            let tail = spec_parse_records(d@, off + need, (n - k) as int - 1);
            if tail is Ok {
                let rest = tail->Ok_0;
                assert(spec_parse_records(d@, off as int, (n - k) as int) == Ok::<
                    Seq<MulticastReportRecordV>,
                    Icmp6Error,
                >(seq![rec@] + rest));
                assert(view_records(pre) + (seq![rec@] + rest) =~= view_records(records@) + rest);
                assert(prepend_records(view_records(pre), spec_parse_records(
                    d@,
                    off as int,
                    (n - k) as int,
                )) == prepend_records(view_records(records@), tail));
            } else {
                assert(spec_parse_records(d@, off as int, (n - k) as int) == tail);
            }
            assert(spec_parse_records(d@, 8, n as int) == prepend_records(
                view_records(records@),
                spec_parse_records(d@, (off + need) as int, (n - k) as int - 1),
            ));
        }
        off = off + need;
        k += 1;
    }
    proof {
        assert(spec_parse_records(d@, off as int, 0) == Ok::<
            Seq<MulticastReportRecordV>,
            Icmp6Error,
        >(Seq::empty()));
        assert(view_records(records@) + Seq::<MulticastReportRecordV>::empty() =~= view_records(
            records@,
        ));
    }
    Ok(records)
}

/// Decodes received packets.
pub struct Icmp6Parser {
    pub packet: Packet,
}

impl Icmp6Parser {
    pub fn new() -> (r: Self)
        ensures
            r.packet.data@ == Seq::<u8>::empty(),
            r.packet.info is None,
            r.packet.hop_limit is None,
            r.packet.hop_by_hop is None,
    {
        Icmp6Parser { packet: Packet::new() }
    }

    pub fn new_from_packet(packet: Packet) -> (r: Self)
        ensures
            r.packet == packet,
    {
        Icmp6Parser { packet }
    }

    pub fn packet(&self) -> (r: &Packet)
        ensures
            r == self.packet,
    {
        &self.packet
    }

    /// Reads the NDP options encoded in `buf`.
    pub fn parse_ndp_options(&self, buf: &[u8]) -> (r: Vec<NdpOption>)
        ensures
            view_opts(r@) == spec_parse_opts(buf@),
    {
        let mut options: Vec<NdpOption> = Vec::new();
        let mut i: usize = 0;
        proof {
            assert(buf@.skip(0) =~= buf@);
            assert(view_opts(options@) =~= Seq::<NdpOptionV>::empty());
            assert(view_opts(options@) + spec_parse_opts(buf@) =~= spec_parse_opts(buf@));
        }
        while i < buf.len() && buf.len() - i >= 8
            invariant
                i <= buf@.len(),
                spec_parse_opts(buf@) == view_opts(options@) + spec_parse_opts(
                    buf@.skip(i as int),
                ),
            ensures
                spec_parse_opts(buf@) == view_opts(options@) + spec_parse_opts(
                    buf@.skip(i as int),
                ),
                spec_parse_opts(buf@.skip(i as int)) == Seq::<NdpOptionV>::empty(),
            decreases buf@.len() - i,
        {
            let ghost rem = buf@.skip(i as int);
            proof {
                assert(rem[0] == buf@[i as int]);
                assert(rem[1] == buf@[i + 1]);
            }
            let option_type = buf[i];
            let option_length = buf[i + 1] as usize;
            if option_length == 0 {
                break;
            }
            let total_length: usize = option_length * 8;
            if total_length > buf.len() - i {
                proof {
                    assert(8 * rem[1] as int > rem.len());
                }
                break;
            }
            let option_data = bytes_range(buf, i + 2, i + total_length);
            let opt = NdpOption { option_type, option_data };
            options.push(opt);
            proof {
                assert(rem.subrange(2, 8 * rem[1] as int) =~= buf@.subrange(
                    i + 2,
                    i + total_length,
                ));
                assert(rem.skip(8 * rem[1] as int) =~= buf@.skip(i + total_length));
                assert(view_opts(options@) =~= view_opts(options@.drop_last()).push(opt@));
                assert(view_opts(options@.drop_last()) + (seq![opt@] + spec_parse_opts(
                    buf@.skip(i + total_length),
                )) =~= view_opts(options@) + spec_parse_opts(buf@.skip(i + total_length)));
            }
            i += total_length;
        }
        proof {
            assert(view_opts(options@) + Seq::<NdpOptionV>::empty() =~= view_opts(options@));
        }
        options
    }

    /// Decodes the held packet.
    pub fn parse(&self) -> (r: Result<Icmp6Packet, Icmp6Error>)
        ensures
            (match spec_ra_mld(packet_hbh(self.packet)) {
                Err(e) => r == Err::<Icmp6Packet, Icmp6Error>(e),
                Ok(ra_mld) => (match r {
                    Ok(p) => spec_parse(packet_ttl(self.packet), ra_mld, self.packet.data@)
                        == Ok::<Icmp6PacketV, Icmp6Error>(p@),
                    Err(e) => spec_parse(packet_ttl(self.packet), ra_mld, self.packet.data@)
                        == Err::<Icmp6PacketV, Icmp6Error>(e),
                }),
            }),
    {
        let packet = &self.packet;
        let ttl: u8 = match &packet.hop_limit {
            Some(h) => h.hop_limit,
            None => 255,
        };

        let mut router_alert_mld = false;
        match &packet.hop_by_hop {
            Some(hb) => {
                if hb.hop_by_hop.len() < 2 {
                    return Err(Icmp6Error::BadHopByHop);
                }
                match walk_hbh(&hb.hop_by_hop) {
                    Ok(b) => {
                        router_alert_mld = b;
                    },
                    Err(e) => {
                        return Err(e);
                    },
                }
            },
            None => {},
        }

        let d = packet.data.as_slice();
        if d.len() < 4 {
            return Err(Icmp6Error::PacketTooShort);
        }
        let icmp6_type = d[0];
        let icmp6_code = d[1];

        if icmp6_type == 1 {
            Ok(Icmp6Packet::DestinationUnreachable(icmp6_code))
        } else if icmp6_type == 2 {
            if d.len() < 8 {
                return Err(Icmp6Error::PacketTooShort);
            }
            Ok(Icmp6Packet::PacketTooBig(read_u32(d[4], d[5], d[6], d[7])))
        } else if icmp6_type == 3 {
            Ok(Icmp6Packet::TimeExceeded(icmp6_code))
        } else if icmp6_type == 4 {
            Ok(Icmp6Packet::ParameterProblem(icmp6_code))
        } else if icmp6_type == 128 {
            if d.len() < 8 {
                return Err(Icmp6Error::PacketTooShort);
            }
            Ok(
                Icmp6Packet::EchoRequest {
                    identifier: read_u16(d[4], d[5]),
                    sequence: read_u16(d[6], d[7]),
                    data: bytes_from(d, 8),
                },
            )
        } else if icmp6_type == 129 {
            if d.len() < 8 {
                return Err(Icmp6Error::PacketTooShort);
            }
            Ok(
                Icmp6Packet::EchoReply {
                    identifier: read_u16(d[4], d[5]),
                    sequence: read_u16(d[6], d[7]),
                    data: bytes_from(d, 8),
                },
            )
        } else if icmp6_type == 130 {
            if ttl != 1 {
                return Err(Icmp6Error::MldHopLimit);
            }
            if !router_alert_mld {
                return Err(Icmp6Error::MldNoRouterAlert);
            }
            if d.len() < 24 {
                return Err(Icmp6Error::PacketTooShort);
            }
            let maximum_response_delay = read_u16(d[4], d[5]);
            let group_address = read_addr(d, 8);
            if d.len() < 28 {
                Ok(
                    Icmp6Packet::MulticastListenerQuery(
                        MulticastListenerQuery {
                            maximum_response_delay,
                            group_address,
                            supress_router_processing: false,
                            qrv: 0,
                            qqic: 0,
                            source_addresses: Vec::new(),
                        },
                    ),
                )
            } else {
                Ok(
                    Icmp6Packet::MulticastListenerQuery(
                        MulticastListenerQuery {
                            maximum_response_delay,
                            group_address,
                            supress_router_processing: d[24] >= 128,
                            qrv: d[24] % 8,
                            qqic: d[25],
                            source_addresses: parse_addrs_to_end(d, 28),
                        },
                    ),
                )
            }
        } else if icmp6_type == 131 {
            if ttl != 1 {
                return Err(Icmp6Error::MldHopLimit);
            }
            if !router_alert_mld {
                return Err(Icmp6Error::MldNoRouterAlert);
            }
            if d.len() < 24 {
                return Err(Icmp6Error::PacketTooShort);
            }
            Ok(
                Icmp6Packet::V1MulticastListenerReport(
                    V1MulticastListenerReport { group_address: read_addr(d, 8) },
                ),
            )
        } else if icmp6_type == 132 {
            if ttl != 1 {
                return Err(Icmp6Error::MldHopLimit);
            }
            if !router_alert_mld {
                return Err(Icmp6Error::MldNoRouterAlert);
            }
            if d.len() < 24 {
                return Err(Icmp6Error::PacketTooShort);
            }
            Ok(
                Icmp6Packet::V1MulticastListenerDone(
                    V1MulticastListenerDone { group_address: read_addr(d, 8) },
                ),
            )
        } else if icmp6_type == 133 {
            if d.len() < 8 {
                return Err(Icmp6Error::PacketTooShort);
            }
            let options = self.parse_ndp_options(&d[8..d.len()]);
            proof {
                assert(d@.subrange(8, d@.len() as int) =~= d@.skip(8));
            }
            Ok(Icmp6Packet::RouterSolicitation(RouterSolicitation { options }))
        } else if icmp6_type == 134 {
            if d.len() < 16 {
                return Err(Icmp6Error::PacketTooShort);
            }
            let options = self.parse_ndp_options(&d[16..d.len()]);
            proof {
                assert(d@.subrange(16, d@.len() as int) =~= d@.skip(16));
            }
            Ok(
                Icmp6Packet::RouterAdvertisement(
                    RouterAdvertisement {
                        hop_limit: d[4],
                        managed_address_configuration: d[5] >= 128,
                        other_configuration: (d[5] / 64) % 2 == 1,
                        router_lifetime: read_u16(d[6], d[7]),
                        reachable_time: read_u32(d[8], d[9], d[10], d[11]),
                        retrans_timer: read_u32(d[12], d[13], d[14], d[15]),
                        options,
                    },
                ),
            )
        } else if icmp6_type == 135 {
            if d.len() < 24 {
                return Err(Icmp6Error::PacketTooShort);
            }
            let options = self.parse_ndp_options(&d[24..d.len()]);
            proof {
                assert(d@.subrange(24, d@.len() as int) =~= d@.skip(24));
            }
            Ok(
                Icmp6Packet::NeighborSolicitation(
                    NeighborSolicitation { target_address: read_addr(d, 8), options },
                ),
            )
        } else if icmp6_type == 136 {
            if d.len() < 24 {
                return Err(Icmp6Error::PacketTooShort);
            }
            let options = self.parse_ndp_options(&d[24..d.len()]);
            proof {
                assert(d@.subrange(24, d@.len() as int) =~= d@.skip(24));
            }
            Ok(
                Icmp6Packet::NeighborAdvertisement(
                    NeighborAdvertisement {
                        router: d[4] >= 128,
                        solicited: (d[4] / 64) % 2 == 1,
                        override_: (d[4] / 32) % 2 == 1,
                        target_address: read_addr(d, 8),
                        options,
                    },
                ),
            )
        } else if icmp6_type == 137 {
            if d.len() < 40 {
                return Err(Icmp6Error::PacketTooShort);
            }
            let options = self.parse_ndp_options(&d[40..d.len()]);
            proof {
                assert(d@.subrange(40, d@.len() as int) =~= d@.skip(40));
            }
            Ok(
                Icmp6Packet::Redirect(
                    Redirect {
                        target_address: read_addr(d, 8),
                        destination_address: read_addr(d, 24),
                        options,
                    },
                ),
            )
        } else if icmp6_type == 138 {
            Ok(Icmp6Packet::RouterRenumbering(icmp6_code))
        } else if icmp6_type == 139 {
            Ok(Icmp6Packet::NodeInformationQuery)
        } else if icmp6_type == 140 {
            Ok(Icmp6Packet::NodeInformationResponse)
        } else if icmp6_type == 141 {
            Ok(Icmp6Packet::InverseNeighborDiscoverySolicitation)
        } else if icmp6_type == 142 {
            Ok(Icmp6Packet::InverseNeighborDiscoveryAdvertisement)
        } else if icmp6_type == 143 {
            if ttl != 1 {
                return Err(Icmp6Error::MldHopLimit);
            }
            if !router_alert_mld {
                return Err(Icmp6Error::MldNoRouterAlert);
            }
            if d.len() < 8 {
                return Err(Icmp6Error::PacketTooShort);
            }
            let numrecords = read_u16(d[6], d[7]);
            match parse_records_from(d, numrecords as usize) {
                Ok(records) => Ok(
                    Icmp6Packet::V2MulticastListenerReport(V2MulticastListenerReport { records }),
                ),
                Err(e) => Err(e),
            }
        } else if icmp6_type == 144 {
            Ok(Icmp6Packet::HomeAgentAddressDiscoveryRequest)
        } else if icmp6_type == 145 {
            Ok(Icmp6Packet::HomeAgentAddressDiscoveryReply)
        } else if icmp6_type == 146 {
            Ok(Icmp6Packet::MobilePrefixSolicitation)
        } else if icmp6_type == 147 {
            Ok(Icmp6Packet::MobilePrefixAdvertisement)
        } else if icmp6_type == 157 {
            Ok(Icmp6Packet::DuplicateAddressRequest(icmp6_code))
        } else if icmp6_type == 158 {
            Ok(Icmp6Packet::DuplicateAddressConfirmation(icmp6_code))
        } else if icmp6_type == 160 {
            Ok(Icmp6Packet::ExtendedEchoRequest(icmp6_code))
        } else if icmp6_type == 161 {
            Ok(Icmp6Packet::ExtendedEchoReply(icmp6_code))
        } else {
            Ok(Icmp6Packet::Unknown(icmp6_type, icmp6_code))
        }
    }
}

} // verus!
