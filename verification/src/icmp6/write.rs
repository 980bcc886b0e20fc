use vstd::prelude::*;
use crate::addr::Ip6Addr;
use crate::icmp6::bytes::{push_addr, push_u16, push_u32, ser_addr, ser_u16, ser_u32};
use crate::icmp6::mld::{
    view_records, MulticastListenerQuery, MulticastReportRecord, MulticastReportRecordV,
    V2MulticastListenerReport,
};
use crate::icmp6::ndp::{view_opts, NdpOption, NdpOptionV, RouterAdvertisementV, NeighborAdvertisementV};
use crate::icmp6::packet::{Packet, PacketHopLimit, PacketHopByHop, PacketInfo};
use crate::icmp6::{Icmp6Error, Icmp6Packet, Icmp6PacketV};

verus! {

// ---------------------------------------------------------------------------
// The serialised form, as specification functions. `spec_ser` is the exact
// byte sequence a message encodes to, or the error that rejects it.
// ---------------------------------------------------------------------------

/// The hop-by-hop bytes every MLD output carries: next header ICMPv6,
/// length 0, a PadN(1) option, and Router Alert with value 0.
pub open spec fn mld_hbh_bytes() -> Seq<u8> {
    seq![0x3au8, 0x00, 0x01, 0x00, 0x05, 0x02, 0x00, 0x00]
}

/// `n` zero bytes.
pub open spec fn zeros(n: int) -> Seq<u8> {
    Seq::new(n as nat, |i: int| 0u8)
}

/// The full length of a serialised option with `l` data bytes: the two
/// header bytes and the data, zero-padded up to a multiple of eight.
pub open spec fn opt_padded_total(l: int) -> int {
    if (2 + l) % 8 == 0 {
        2 + l
    } else {
        2 + l + (8 - (2 + l) % 8)
    }
}

/// One serialised NDP option: type, length in 8-byte units, data, padding.
pub open spec fn ser_opt(o: NdpOptionV) -> Seq<u8> {
    seq![o.option_type, (opt_padded_total(o.option_data.len() as int) / 8) as u8]
        + o.option_data
        + zeros(opt_padded_total(o.option_data.len() as int) - 2 - o.option_data.len() as int)
}

/// The options serialised back to back.
pub open spec fn ser_opts(opts: Seq<NdpOptionV>) -> Seq<u8>
    decreases opts.len(),
{
    if opts.len() == 0 {
        Seq::empty()
    } else {
        ser_opt(opts[0]) + ser_opts(opts.skip(1))
    }
}

/// The addresses serialised back to back.
pub open spec fn ser_addrs(s: Seq<Ip6Addr>) -> Seq<u8>
    decreases s.len(),
{
    if s.len() == 0 {
        Seq::empty()
    } else {
        ser_addr(s[0]) + ser_addrs(s.skip(1))
    }
}

/// The flags-and-QRV byte of a query: the high bit for S, the low three
/// bits for QRV.
pub open spec fn mlq_flags_byte(supress: bool, qrv: u8) -> u8 {
    ((if supress {
        128int
    } else {
        0int
    }) + qrv as int % 8) as u8
}

/// The M and O flag byte of a router advertisement.
pub open spec fn ra_flags_byte(ra: RouterAdvertisementV) -> u8 {
    ((if ra.managed_address_configuration {
        128int
    } else {
        0int
    }) + (if ra.other_configuration {
        64int
    } else {
        0int
    })) as u8
}

/// The R, S and O flag byte of a neighbour advertisement.
pub open spec fn na_flags_byte(na: NeighborAdvertisementV) -> u8 {
    ((if na.router {
        128int
    } else {
        0int
    }) + (if na.solicited {
        64int
    } else {
        0int
    }) + (if na.override_ {
        32int
    } else {
        0int
    })) as u8
}

/// An NDP payload is rejected when it exceeds 1500 bytes.
pub open spec fn check_ndp_len(body: Seq<u8>) -> Result<Seq<u8>, Icmp6Error> {
    if body.len() > 1500 {
        Err(Icmp6Error::PacketTooLong)
    } else {
        Ok(body)
    }
}

/// One serialised MLDv2 report record, with no auxiliary data.
pub open spec fn ser_record(r: MulticastReportRecordV) -> Seq<u8> {
    seq![r.record_type, 0u8] + ser_u16(r.source_addresses.len() as u16)
        + ser_addr(r.multicast_address) + ser_addrs(r.source_addresses)
}

/// Serialises report records onto `acc`: a record with more than 80
/// sources is rejected, and so is a report that grows past 1500 bytes.
pub open spec fn ser_mld_records(recs: Seq<MulticastReportRecordV>, acc: Seq<u8>) -> Result<
    Seq<u8>,
    Icmp6Error,
>
    decreases recs.len(),
{
    if recs.len() == 0 {
        Ok(acc)
    } else if recs[0].source_addresses.len() > 80 {
        Err(Icmp6Error::TooManySources)
    } else if (acc + ser_record(recs[0])).len() > 1500 {
        Err(Icmp6Error::PacketTooLong)
    } else {
        ser_mld_records(recs.skip(1), acc + ser_record(recs[0]))
    }
}

/// Whether the serialiser marks this message as MLD output, setting hop
/// limit 1 and the Router Alert hop-by-hop header on the packet.
pub open spec fn is_mld_output(p: Icmp6PacketV) -> bool {
    p is MulticastListenerQuery || p is V2MulticastListenerReport
}

/// The payload a message serialises to, or the error rejecting it. Echo
/// payloads are bounded by the 65536-byte packet buffer; queries and
/// reports by 80 sources; NDP and MLD output by 1500 bytes; the remaining
/// message types are not produced.
pub open spec fn spec_ser(p: Icmp6PacketV) -> Result<Seq<u8>, Icmp6Error> {
    match p {
        Icmp6PacketV::EchoRequest { identifier, sequence, data } => if 8 + data.len() > 65536 {
            Err(Icmp6Error::PacketTooLong)
        } else {
            Ok(seq![128u8, 0, 0, 0] + ser_u16(identifier) + ser_u16(sequence) + data)
        },
        Icmp6PacketV::EchoReply { identifier, sequence, data } => if 8 + data.len() > 65536 {
            Err(Icmp6Error::PacketTooLong)
        } else {
            Ok(seq![129u8, 0, 0, 0] + ser_u16(identifier) + ser_u16(sequence) + data)
        },
        Icmp6PacketV::MulticastListenerQuery(q) => if q.source_addresses.len() > 80 {
            Err(Icmp6Error::TooManySources)
        } else {
            Ok(
                seq![130u8, 0, 0, 0] + ser_u16(q.maximum_response_delay) + seq![0u8, 0]
                    + ser_addr(q.group_address)
                    + seq![mlq_flags_byte(q.supress_router_processing, q.qrv), q.qqic]
                    + ser_u16(q.source_addresses.len() as u16) + ser_addrs(q.source_addresses),
            )
        },
        Icmp6PacketV::V2MulticastListenerReport(rep) => if rep.records.len() > 65535 {
            Err(Icmp6Error::PacketTooLong)
        } else {
            ser_mld_records(
                rep.records,
                seq![143u8, 0, 0, 0, 0, 0] + ser_u16(rep.records.len() as u16),
            )
        },
        Icmp6PacketV::RouterSolicitation(rs) => check_ndp_len(
            seq![133u8, 0, 0, 0, 0, 0, 0, 0] + ser_opts(rs.options),
        ),
        Icmp6PacketV::RouterAdvertisement(ra) => check_ndp_len(
            seq![134u8, 0, 0, 0, ra.hop_limit, ra_flags_byte(ra)] + ser_u16(ra.router_lifetime)
                + ser_u32(ra.reachable_time) + ser_u32(ra.retrans_timer) + ser_opts(ra.options),
        ),
        Icmp6PacketV::NeighborSolicitation(ns) => check_ndp_len(
            seq![135u8, 0, 0, 0, 0, 0, 0, 0] + ser_addr(ns.target_address) + ser_opts(ns.options),
        ),
        Icmp6PacketV::NeighborAdvertisement(na) => check_ndp_len(
            seq![136u8, 0, 0, 0, na_flags_byte(na), 0, 0, 0] + ser_addr(na.target_address)
                + ser_opts(na.options),
        ),
        Icmp6PacketV::Redirect(rd) => check_ndp_len(
            seq![137u8, 0, 0, 0, 0, 0, 0, 0] + ser_addr(rd.target_address)
                + ser_addr(rd.destination_address) + ser_opts(rd.options),
        ),
        _ => Err(Icmp6Error::UnsupportedType),
    }
}

// ---------------------------------------------------------------------------
// Executable helpers.
// ---------------------------------------------------------------------------

/// Appends a byte slice.
fn append_bytes(out: &mut Vec<u8>, v: &[u8])
    ensures
        final(out)@ == old(out)@ + v@,
{
    let mut i: usize = 0;
    proof {
        assert(out@ =~= old(out)@ + v@.take(0));
    }
    while i < v.len()
        invariant
            i <= v@.len(),
            out@ == old(out)@ + v@.take(i as int),
        decreases v@.len() - i,
    {
        out.push(v[i]);
        proof {
            assert(out@ =~= old(out)@ + v@.take(i + 1));
        }
        i += 1;
    }
    proof {
        assert(old(out)@ + v@.take(i as int) =~= old(out)@ + v@);
    }
}

/// Appends `n` zero bytes.
fn push_zeros(out: &mut Vec<u8>, n: usize)
    ensures
        final(out)@ == old(out)@ + zeros(n as int),
{
    let mut i: usize = 0;
    proof {
        assert(out@ =~= old(out)@ + zeros(0));
    }
    while i < n
        invariant
            i <= n,
            out@ == old(out)@ + zeros(i as int),
        decreases n - i,
    {
        out.push(0);
        proof {
            assert(out@ =~= old(out)@ + zeros(i + 1));
        }
        i += 1;
    }
}

/// Appends the addresses back to back.
fn push_addrs(out: &mut Vec<u8>, v: &Vec<Ip6Addr>)
    ensures
        final(out)@ == old(out)@ + ser_addrs(v@),
{
    let mut i: usize = 0;
    proof {
        assert(v@.skip(0) =~= v@);
    }
    while i < v.len()
        invariant
            i <= v@.len(),
            old(out)@ + ser_addrs(v@) == out@ + ser_addrs(v@.skip(i as int)),
        decreases v@.len() - i,
    {
        let ghost rem = v@.skip(i as int);
        let a = v[i];
        proof {
            assert(rem[0] == a);
            assert(rem.skip(1) =~= v@.skip(i + 1));
        }
        push_addr(out, a);
        i += 1;
    }
    proof {
        assert(ser_addrs(v@.skip(i as int)) == Seq::<u8>::empty());
        assert(out@ + Seq::<u8>::empty() =~= out@);
        assert(old(out)@ + ser_addrs(v@) =~= old(out)@ + ser_addrs(v@));
    }
}

/// Appends one serialised report record.
fn push_record(out: &mut Vec<u8>, rec: &MulticastReportRecord)
    requires
        rec.source_addresses@.len() <= 80,
    ensures
        final(out)@ == old(out)@ + ser_record(rec@),
{
    out.push(rec.record_type);
    out.push(0);
    push_u16(out, rec.source_addresses.len() as u16);
    push_addr(out, rec.multicast_address);
    push_addrs(out, &rec.source_addresses);
    proof {
        assert(out@ =~= old(out)@ + ser_record(rec@));
    }
}

/// Serialises the report records onto the header bytes, enforcing the
/// source and length limits record by record.
#[verifier::spinoff_prover]
#[verifier::rlimit(100)]
fn ser_v2_records(records: &Vec<MulticastReportRecord>, hdr: Vec<u8>) -> (r: Result<
    Vec<u8>,
    Icmp6Error,
>)
    ensures
        ser_mld_records(view_records(records@), hdr@) == (match r {
            Ok(v) => Ok::<Seq<u8>, Icmp6Error>(v@),
            Err(e) => Err::<Seq<u8>, Icmp6Error>(e),
        }),
{
    let ghost recsv = view_records(records@);
    let mut data = hdr;
    proof {
        assert(recsv.skip(0) =~= recsv);
    }
    let mut k: usize = 0;
    while k < records.len()
        invariant
            k <= records@.len(),
            recsv == view_records(records@),
            ser_mld_records(recsv, hdr@) == ser_mld_records(recsv.skip(k as int), data@),
        decreases records@.len() - k,
    {
        let ghost rem = recsv.skip(k as int);
        proof {
            assert(rem[0] == recsv[k as int]);
            assert(recsv[k as int] == records@[k as int]@);
            assert(rem.skip(1) =~= recsv.skip(k + 1));
        }
        let rec = &records[k];
        if rec.source_addresses.len() > 80 {
            return Err(Icmp6Error::TooManySources);
        }
        let ghost dpre = data@;
        push_record(&mut data, rec);
        proof {
            assert(rem[0] == rec@);
            assert(data@ == dpre + ser_record(rem[0]));
        }
        if data.len() > 1500 {
            return Err(Icmp6Error::PacketTooLong);
        }
        proof {
            assert(ser_mld_records(rem, dpre) == ser_mld_records(rem.skip(1), data@));
        }
        k += 1;
    }
    proof {
        assert(ser_mld_records(recsv.skip(k as int), data@) == Ok::<Seq<u8>, Icmp6Error>(data@));
    }
    Ok(data)
}

/// Serialises messages into an outgoing packet.
#[derive(Debug)]
pub struct Icmp6Writer {
    pub packet: Packet,
}

impl Icmp6Writer {
    pub fn new() -> (r: Self)
        ensures
            r.packet.data@ == Seq::<u8>::empty(),
            r.packet.info is None,
            r.packet.hop_limit is None,
            r.packet.hop_by_hop is None,
    {
        Icmp6Writer { packet: Packet::new() }
    }

    pub fn set_destination(&mut self, addr: Ip6Addr)
        ensures
            final(self).packet == (Packet { target_addr: addr, ..old(self).packet }),
    {
        self.packet.target_addr = addr;
    }

    pub fn set_hop_limit(&mut self, hop_limit: Option<u8>)
        ensures
            final(self).packet == (Packet {
                hop_limit: match hop_limit {
                    Some(h) => Some(PacketHopLimit { hop_limit: h }),
                    None => None,
                },
                ..old(self).packet
            }),
    {
        self.packet.hop_limit = match hop_limit {
            Some(h) => Some(PacketHopLimit { hop_limit: h }),
            None => None,
        };
    }

    pub fn set_hop_by_hop(&mut self, hop_by_hop: Option<Vec<u8>>)
        ensures
            final(self).packet == (Packet {
                hop_by_hop: match hop_by_hop {
                    Some(h) => Some(PacketHopByHop { hop_by_hop: h }),
                    None => None,
                },
                ..old(self).packet
            }),
    {
        self.packet.hop_by_hop = match hop_by_hop {
            Some(h) => Some(PacketHopByHop { hop_by_hop: h }),
            None => None,
        };
    }

    pub fn set_packet_info(&mut self, info: Option<PacketInfo>)
        ensures
            final(self).packet == (Packet { info, ..old(self).packet }),
    {
        self.packet.info = info;
    }

    /// Marks the held packet as MLD output: hop limit 1 and the Router
    /// Alert hop-by-hop header. The payload and addressing are untouched.
    pub fn setup_mld(&mut self)
        ensures
            final(self).packet.hop_limit == Some(PacketHopLimit { hop_limit: 1u8 }),
            final(self).packet.hop_by_hop matches Some(h) && h.hop_by_hop@ == mld_hbh_bytes(),
            final(self).packet.data == old(self).packet.data,
            final(self).packet.target_addr == old(self).packet.target_addr,
            final(self).packet.info == old(self).packet.info,
    {
        self.set_hop_limit(Some(1));
        let mut hop_by_hop: Vec<u8> = Vec::new();
        hop_by_hop.push(0x3a);
        hop_by_hop.push(0x00);
        hop_by_hop.push(0x01);
        hop_by_hop.push(0x00);
        hop_by_hop.push(0x05);
        hop_by_hop.push(0x02);
        hop_by_hop.push(0x00);
        hop_by_hop.push(0x00);
        proof {
            assert(hop_by_hop@ =~= mld_hbh_bytes());
        }
        self.set_hop_by_hop(Some(hop_by_hop));
    }

    /// Serialises the options back to back, padding each to a multiple of
    /// eight bytes; a list that would overrun the 1500-byte packet limit on
    /// its own is rejected.
    pub fn serialize_ndp_options(&self, options: &[NdpOption]) -> (r: Result<Vec<u8>, Icmp6Error>)
        ensures
            match r {
                Ok(v) => v@ == ser_opts(view_opts(options@)),
                Err(e) => e == Icmp6Error::PacketTooLong && ser_opts(view_opts(options@)).len()
                    > 1500,
            },
    {
        let ghost all = view_opts(options@);
        let mut data: Vec<u8> = Vec::new();
        let mut i: usize = 0;
        proof {
            assert(all.skip(0) =~= all);
            assert(Seq::<u8>::empty() + ser_opts(all) =~= ser_opts(all));
        }
        while i < options.len()
            invariant
                i <= options@.len(),
                all == view_opts(options@),
                ser_opts(all) == data@ + ser_opts(all.skip(i as int)),
            decreases options@.len() - i,
        {
            let ghost rem = all.skip(i as int);
            proof {
                assert(rem[0] == all[i as int]);
                assert(all[i as int] == options@[i as int]@);
                assert(rem.skip(1) =~= all.skip(i + 1));
            }
            let o = &options[i];
            let l = o.option_data.len();
            if l > 1500 {
                proof {
                    lemma_ser_opts_len(all.skip(i as int));
                    assert(ser_opt(rem[0]).len() >= 2 + l);
                    assert(ser_opts(all).len() > 1500);
                }
                return Err(Icmp6Error::PacketTooLong);
            }
            let rem8: usize = (2 + l) % 8;
            let padded: usize = if rem8 == 0 {
                l
            } else {
                l + (8 - rem8)
            };
            proof {
                assert(2 + padded == opt_padded_total(l as int));
            }
            let length_byte: u8 = ((padded + 2) / 8) as u8;
            let ghost dpre = data@;
            data.push(o.option_type);
            data.push(length_byte);
            append_bytes(&mut data, o.option_data.as_slice());
            push_zeros(&mut data, padded - l);
            proof {
                assert(data@ =~= dpre + ser_opt(rem[0]));
                assert(ser_opts(rem) == ser_opt(rem[0]) + ser_opts(all.skip(i + 1)));
                assert(dpre + (ser_opt(rem[0]) + ser_opts(all.skip(i + 1))) =~= (dpre + ser_opt(
                    rem[0],
                )) + ser_opts(all.skip(i + 1)));
            }
            i += 1;
        }
        proof {
            assert(ser_opts(all.skip(i as int)) == Seq::<u8>::empty());
            assert(data@ + Seq::<u8>::empty() =~= data@);
        }
        Ok(data)
    }

    fn ser_echo(&self, t: u8, identifier: u16, sequence: u16, payload: &Vec<u8>) -> (r: Result<
        Vec<u8>,
        Icmp6Error,
    >)
        ensures
            match r {
                Ok(v) => 8 + payload@.len() <= 65536 && v@ == seq![t, 0, 0, 0] + ser_u16(identifier)
                    + ser_u16(sequence) + payload@,
                Err(e) => e == Icmp6Error::PacketTooLong && 8 + payload@.len() > 65536,
            },
    {
        if payload.len() > 65528 {
            return Err(Icmp6Error::PacketTooLong);
        }
        let mut data: Vec<u8> = Vec::new();
        data.push(t);
        data.push(0);
        data.push(0);
        data.push(0);
        push_u16(&mut data, identifier);
        push_u16(&mut data, sequence);
        append_bytes(&mut data, payload.as_slice());
        proof {
            assert(data@ =~= seq![t, 0, 0, 0] + ser_u16(identifier) + ser_u16(sequence)
                + payload@);
        }
        Ok(data)
    }

    fn ser_mlq(&self, query: &MulticastListenerQuery) -> (r: Result<Vec<u8>, Icmp6Error>)
        ensures
            spec_ser(Icmp6PacketV::MulticastListenerQuery(query@)) == (match r {
                Ok(v) => Ok::<Seq<u8>, Icmp6Error>(v@),
                Err(e) => Err::<Seq<u8>, Icmp6Error>(e),
            }),
    {
        if query.source_addresses.len() > 80 {
            return Err(Icmp6Error::TooManySources);
        }
        let mut data: Vec<u8> = Vec::new();
        data.push(130);
        data.push(0);
        data.push(0);
        data.push(0);
        push_u16(&mut data, query.maximum_response_delay);
        data.push(0);
        data.push(0);
        push_addr(&mut data, query.group_address);
        let flags: u8 = (if query.supress_router_processing {
            128
        } else {
            0
        }) + (query.qrv % 8);
        data.push(flags);
        data.push(query.qqic);
        push_u16(&mut data, query.source_addresses.len() as u16);
        push_addrs(&mut data, &query.source_addresses);
        proof {
            assert(flags == mlq_flags_byte(query.supress_router_processing, query.qrv));
            assert(data@ =~= seq![130u8, 0, 0, 0] + ser_u16(query.maximum_response_delay)
                + seq![0u8, 0] + ser_addr(query.group_address)
                + seq![mlq_flags_byte(query.supress_router_processing, query.qrv), query.qqic]
                + ser_u16(query.source_addresses.len() as u16) + ser_addrs(
                query.source_addresses@,
            ));
        }
        Ok(data)
    }

    #[verifier::spinoff_prover]
    fn ser_v2_report(&self, report: &V2MulticastListenerReport) -> (r: Result<Vec<u8>, Icmp6Error>)
        ensures
            spec_ser(Icmp6PacketV::V2MulticastListenerReport(report@)) == (match r {
                Ok(v) => Ok::<Seq<u8>, Icmp6Error>(v@),
                Err(e) => Err::<Seq<u8>, Icmp6Error>(e),
            }),
    {
        if report.records.len() > 65535 {
            return Err(Icmp6Error::PacketTooLong);
        }
        let count: u16 = report.records.len() as u16;
        let mut hdr: Vec<u8> = Vec::new();
        hdr.push(143);
        hdr.push(0);
        hdr.push(0);
        hdr.push(0);
        hdr.push(0);
        hdr.push(0);
        push_u16(&mut hdr, count);
        proof {
            assert(hdr@ =~= seq![143u8, 0, 0, 0, 0, 0] + ser_u16(count));
        }
        ser_v2_records(&report.records, hdr)
    }

    /// Serialises an NDP message: the fixed header already in `data`, then
    /// the options, rejecting a payload over 1500 bytes.
    fn finish_ndp(&self, data: Vec<u8>, options: &Vec<NdpOption>) -> (r: Result<Vec<u8>, Icmp6Error>)
        ensures
            check_ndp_len(data@ + ser_opts(view_opts(options@))) == (match r {
                Ok(v) => Ok::<Seq<u8>, Icmp6Error>(v@),
                Err(e) => Err::<Seq<u8>, Icmp6Error>(e),
            }),
    {
        let mut data = data;
        match self.serialize_ndp_options(options.as_slice()) {
            Ok(v) => {
                append_bytes(&mut data, v.as_slice());
            },
            Err(e) => {
                proof {
                    assert((data@ + ser_opts(view_opts(options@))).len() > 1500);
                }
                return Err(e);
            },
        }
        if data.len() > 1500 {
            return Err(Icmp6Error::PacketTooLong);
        }
        Ok(data)
    }

    /// The serialised payload of `packet`, or the error rejecting it.
    #[verifier::spinoff_prover]
    #[verifier::rlimit(60)]
    fn ser_message(&self, packet: &Icmp6Packet) -> (r: Result<Vec<u8>, Icmp6Error>)
        ensures
            spec_ser(packet@) == (match r {
                Ok(v) => Ok::<Seq<u8>, Icmp6Error>(v@),
                Err(e) => Err::<Seq<u8>, Icmp6Error>(e),
            }),
    {
        match packet {
            Icmp6Packet::EchoRequest { identifier, sequence, data: payload } => self.ser_echo(
                128,
                *identifier,
                *sequence,
                payload,
            ),
            Icmp6Packet::EchoReply { identifier, sequence, data: payload } => self.ser_echo(
                129,
                *identifier,
                *sequence,
                payload,
            ),
            Icmp6Packet::MulticastListenerQuery(query) => self.ser_mlq(query),
            Icmp6Packet::V2MulticastListenerReport(report) => self.ser_v2_report(report),
            Icmp6Packet::RouterSolicitation(rs) => {
                let mut hdr: Vec<u8> = Vec::new();
                hdr.push(133);
                hdr.push(0);
                hdr.push(0);
                hdr.push(0);
                hdr.push(0);
                hdr.push(0);
                hdr.push(0);
                hdr.push(0);
                proof {
                    assert(hdr@ =~= seq![133u8, 0, 0, 0, 0, 0, 0, 0]);
                }
                self.finish_ndp(hdr, &rs.options)
            },
            Icmp6Packet::RouterAdvertisement(ra) => {
                let flags: u8 = (if ra.managed_address_configuration {
                    128
                } else {
                    0
                }) + (if ra.other_configuration {
                    64
                } else {
                    0
                });
                let mut hdr: Vec<u8> = Vec::new();
                hdr.push(134);
                hdr.push(0);
                hdr.push(0);
                hdr.push(0);
                hdr.push(ra.hop_limit);
                hdr.push(flags);
                push_u16(&mut hdr, ra.router_lifetime);
                push_u32(&mut hdr, ra.reachable_time);
                push_u32(&mut hdr, ra.retrans_timer);
                proof {
                    assert(flags == ra_flags_byte(ra@));
                    assert(hdr@ =~= seq![134u8, 0, 0, 0, ra.hop_limit, ra_flags_byte(ra@)]
                        + ser_u16(ra.router_lifetime) + ser_u32(ra.reachable_time) + ser_u32(
                        ra.retrans_timer,
                    ));
                }
                self.finish_ndp(hdr, &ra.options)
            },
            Icmp6Packet::NeighborSolicitation(ns) => {
                let mut hdr: Vec<u8> = Vec::new();
                hdr.push(135);
                hdr.push(0);
                hdr.push(0);
                hdr.push(0);
                hdr.push(0);
                hdr.push(0);
                hdr.push(0);
                hdr.push(0);
                push_addr(&mut hdr, ns.target_address);
                proof {
                    assert(hdr@ =~= seq![135u8, 0, 0, 0, 0, 0, 0, 0] + ser_addr(
                        ns.target_address,
                    ));
                }
                self.finish_ndp(hdr, &ns.options)
            },
            Icmp6Packet::NeighborAdvertisement(na) => {
                let flags: u8 = (if na.router {
                    128
                } else {
                    0
                }) + (if na.solicited {
                    64
                } else {
                    0
                }) + (if na.override_ {
                    32
                } else {
                    0
                });
                let mut hdr: Vec<u8> = Vec::new();
                hdr.push(136);
                hdr.push(0);
                hdr.push(0);
                hdr.push(0);
                hdr.push(flags);
                hdr.push(0);
                hdr.push(0);
                hdr.push(0);
                push_addr(&mut hdr, na.target_address);
                proof {
                    assert(flags == na_flags_byte(na@));
                    assert(hdr@ =~= seq![136u8, 0, 0, 0, na_flags_byte(na@), 0, 0, 0] + ser_addr(
                        na.target_address,
                    ));
                }
                self.finish_ndp(hdr, &na.options)
            },
            Icmp6Packet::Redirect(rd) => {
                let mut hdr: Vec<u8> = Vec::new();
                hdr.push(137);
                hdr.push(0);
                hdr.push(0);
                hdr.push(0);
                hdr.push(0);
                hdr.push(0);
                hdr.push(0);
                hdr.push(0);
                push_addr(&mut hdr, rd.target_address);
                push_addr(&mut hdr, rd.destination_address);
                proof {
                    assert(hdr@ =~= seq![137u8, 0, 0, 0, 0, 0, 0, 0] + ser_addr(rd.target_address)
                        + ser_addr(rd.destination_address));
                }
                self.finish_ndp(hdr, &rd.options)
            },
            _ => Err(Icmp6Error::UnsupportedType),
        }
    }

    /// Serialises `packet` into the held buffer. On success the payload is
    /// exactly the serialised form, the destination and packet info are
    /// untouched, and MLD output additionally gets hop limit 1 and the
    /// Router Alert hop-by-hop header; on failure nothing changes.
    #[verifier::spinoff_prover]
    pub fn set_packet(&mut self, packet: Icmp6Packet) -> (r: Result<(), Icmp6Error>)
        ensures
            ({
                let np = final(self).packet;
                let op = old(self).packet;
                match r {
                    Ok(()) => spec_ser(packet@) == Ok::<Seq<u8>, Icmp6Error>(np.data@)
                        && np.target_addr == op.target_addr && np.info == op.info && (
                    if is_mld_output(packet@) {
                        np.hop_limit == Some(PacketHopLimit { hop_limit: 1u8 }) && (
                        np.hop_by_hop matches Some(h) && h.hop_by_hop@ == mld_hbh_bytes())
                    } else {
                        np.hop_limit == op.hop_limit && np.hop_by_hop == op.hop_by_hop
                    }),
                    Err(e) => spec_ser(packet@) == Err::<Seq<u8>, Icmp6Error>(e) && np == op,
                }
            }),
    {
        let is_mld = match &packet {
            Icmp6Packet::MulticastListenerQuery(_) => true,
            Icmp6Packet::V2MulticastListenerReport(_) => true,
            _ => false,
        };
        proof {
            assert(is_mld == is_mld_output(packet@));
        }
        match self.ser_message(&packet) {
            Ok(v) => {
                self.packet.data = v;
                if is_mld {
                    self.setup_mld();
                }
                Ok(())
            },
            Err(e) => Err(e),
        }
    }
}

/// Every serialised option list is at least as long as the serialisation
/// of its first option, which itself holds the option's data.
proof fn lemma_ser_opts_len(opts: Seq<NdpOptionV>)
    requires
        opts.len() > 0,
    ensures
        ser_opts(opts).len() >= ser_opt(opts[0]).len(),
        ser_opt(opts[0]).len() >= 2 + opts[0].option_data.len(),
{
}

} // verus!
