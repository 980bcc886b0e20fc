use vstd::prelude::*;
use vstd::assert_seqs_equal;
use vstd::arithmetic::div_mod::lemma_fundamental_div_mod;
use crate::addr::Ip6Addr;
use crate::icmp6::bytes::{
    addr_at, lemma_addr_at_agree, lemma_addr_round_trip, lemma_u16_split_join,
    lemma_u32_split_join, ser_addr, ser_u16, ser_u32, u16_hi, u16_lo, u16_of,
};
use crate::icmp6::mld::MulticastReportRecordV;
use crate::icmp6::ndp::{NdpOptionV, NeighborAdvertisementV};
use crate::icmp6::parse::{
    hbh_walk, spec_parse, spec_parse_addrs_to_end, spec_parse_n_addrs, spec_parse_opts,
    spec_parse_records, spec_ra_mld,
};
use crate::icmp6::write::{
    is_mld_output, mld_hbh_bytes, mlq_flags_byte, na_flags_byte, opt_padded_total, ra_flags_byte,
    ser_addrs, ser_mld_records, ser_opt, ser_opts, ser_record, spec_ser,
};
use crate::icmp6::{Icmp6Error, Icmp6PacketV};

verus! {

// ---------------------------------------------------------------------------
// What the serialiser writes, the parser reads back. The laws below state
// this for each message the serialiser produces.
// ---------------------------------------------------------------------------

/// The hop limit the serialised message travels with: MLD output is pinned
/// to 1, everything else mirrors with 255.
pub open spec fn round_trip_ttl(p: Icmp6PacketV) -> u8 {
    if is_mld_output(p) {
        1
    } else {
        255
    }
}

/// The form a message must already be in for parsing to give it back
/// exactly: NDP option data pre-padded to fill its 8-byte units, and a
/// query's QRV within its three bits. Everything else round-trips as is.
pub open spec fn round_trip_form(p: Icmp6PacketV) -> bool {
    match p {
        Icmp6PacketV::RouterSolicitation(rs) => padded_opts(rs.options),
        Icmp6PacketV::RouterAdvertisement(ra) => padded_opts(ra.options),
        Icmp6PacketV::NeighborSolicitation(ns) => padded_opts(ns.options),
        Icmp6PacketV::NeighborAdvertisement(na) => padded_opts(na.options),
        Icmp6PacketV::Redirect(rd) => padded_opts(rd.options),
        Icmp6PacketV::MulticastListenerQuery(q) => q.qrv < 8,
        _ => true,
    }
}

/// Each option's data fills its 8-byte units exactly: two header bytes
/// plus the data come to a multiple of eight.
pub open spec fn padded_opts(opts: Seq<NdpOptionV>) -> bool {
    forall|i: int|
        0 <= i < opts.len() ==> (#[trigger] opts[i].option_data.len()) % 8 == 6
}

// --- lengths ---------------------------------------------------------------

proof fn lemma_ser_addrs_len(s: Seq<Ip6Addr>)
    ensures
        ser_addrs(s).len() == 16 * s.len(),
    decreases s.len(),
{
    if s.len() > 0 {
        lemma_ser_addrs_len(s.skip(1));
    }
}

/// A serialised option list is at least as long as each option's two
/// header bytes and data.
proof fn lemma_ser_opts_each(opts: Seq<NdpOptionV>, i: int)
    requires
        0 <= i < opts.len(),
    ensures
        ser_opts(opts).len() >= 2 + opts[i].option_data.len(),
    decreases i,
{
    if i == 0 {
    } else {
        lemma_ser_opts_each(opts.skip(1), i - 1);
    }
}

// --- options ---------------------------------------------------------------

/// A pre-padded option serialises to its two header bytes and data alone,
/// with the length byte exact.
proof fn lemma_ser_opt_padded(o: NdpOptionV)
    requires
        o.option_data.len() % 8 == 6,
        2 + o.option_data.len() <= 1500,
    ensures
        ser_opt(o) == seq![
            o.option_type,
            ((2 + o.option_data.len()) / 8) as u8,
        ] + o.option_data,
        ser_opt(o).len() == 2 + o.option_data.len(),
        1 <= ((2 + o.option_data.len()) / 8) as u8 <= 187,
        8 * (((2 + o.option_data.len()) / 8) as u8) as int == 2 + o.option_data.len(),
{
    let l = o.option_data.len() as int;
    assert((2 + l) % 8 == 0);
    assert(opt_padded_total(l) == 2 + l);
    lemma_fundamental_div_mod(2 + l, 8);
    assert(ser_opt(o) =~= seq![o.option_type, ((2 + l) / 8) as u8] + o.option_data);
}

/// Parsing a serialisation of pre-padded options gives the options back.
proof fn lemma_parse_ser_opts(opts: Seq<NdpOptionV>)
    requires
        forall|i: int|
            0 <= i < opts.len() ==> (#[trigger] opts[i].option_data.len()) % 8 == 6,
        forall|i: int|
            0 <= i < opts.len() ==> 2 + (#[trigger] opts[i].option_data.len()) <= 1500,
    ensures
        spec_parse_opts(ser_opts(opts)) == opts,
    decreases opts.len(),
{
    if opts.len() == 0 {
        assert(spec_parse_opts(ser_opts(opts)) =~= opts);
    } else {
        let o = opts[0];
        let l = o.option_data.len() as int;
        lemma_ser_opt_padded(o);
        let b = ser_opts(opts);
        let rest = ser_opts(opts.skip(1));
        assert(b == ser_opt(o) + rest);
        assert(b.len() == 2 + l + rest.len());
        assert(b[0] == o.option_type);
        assert(b[1] == ((2 + l) / 8) as u8);
        assert(b[1] != 0);
        assert(8 * b[1] as int == 2 + l);
        assert(b.subrange(2, 2 + l) =~= o.option_data);
        assert(b.skip(2 + l) =~= rest);
        lemma_parse_ser_opts(opts.skip(1));
        assert(spec_parse_opts(b) == seq![
            NdpOptionV { option_type: b[0], option_data: b.subrange(2, 8 * b[1] as int) },
        ] + spec_parse_opts(b.skip(8 * b[1] as int)));
        assert(NdpOptionV { option_type: b[0], option_data: b.subrange(2, 8 * b[1] as int) }
            == o);
        assert(seq![o] + opts.skip(1) =~= opts);
    }
}

// --- addresses -------------------------------------------------------------

/// Reading `s.len()` addresses from bytes that hold their serialisation
/// gives them back.
proof fn lemma_parse_n_addrs_ser(d: Seq<u8>, i: int, s: Seq<Ip6Addr>)
    requires
        0 <= i,
        i + 16 * s.len() <= d.len(),
        d.subrange(i, i + 16 * s.len()) == ser_addrs(s),
    ensures
        spec_parse_n_addrs(d, i, s.len() as int) == s,
    decreases s.len(),
{
    lemma_ser_addrs_len(s);
    if s.len() == 0 {
        assert(spec_parse_n_addrs(d, i, 0) =~= s);
    } else {
        let a = s[0];
        lemma_ser_addrs_len(s.skip(1));
        assert(ser_addrs(s) == ser_addr(a) + ser_addrs(s.skip(1)));
        assert forall|k: int| 0 <= k < 16 implies #[trigger] d[i + k] == ser_addr(a)[k] by {
            assert(d[i + k] == d.subrange(i, i + 16 * s.len())[k]);
        }
        lemma_addr_at_agree(d, ser_addr(a), i, 0);
        lemma_addr_round_trip(a);
        assert(addr_at(d, i) == a);
        assert_seqs_equal!(
            d.subrange(i + 16, i + 16 + 16 * s.skip(1).len()) == ser_addrs(s.skip(1)),
            k => {
                assert(d.subrange(i + 16, i + 16 + 16 * s.skip(1).len())[k] == d[i + 16 + k]);
                assert(d[i + (16 + k)] == d.subrange(i, i + 16 * s.len())[16 + k]);
                assert(ser_addrs(s)[16 + k] == ser_addrs(s.skip(1))[k]);
            }
        );
        lemma_parse_n_addrs_ser(d, i + 16, s.skip(1));
        assert(seq![a] + s.skip(1) =~= s);
    }
}

/// The same, when the serialised addresses run to the very end of `d`.
proof fn lemma_parse_addrs_to_end_ser(d: Seq<u8>, i: int, s: Seq<Ip6Addr>)
    requires
        0 <= i,
        d.len() == i + 16 * s.len(),
        d.subrange(i, d.len() as int) == ser_addrs(s),
    ensures
        spec_parse_addrs_to_end(d, i) == s,
    decreases s.len(),
{
    lemma_ser_addrs_len(s);
    if s.len() == 0 {
        assert(spec_parse_addrs_to_end(d, i) =~= s);
    } else {
        let a = s[0];
        lemma_ser_addrs_len(s.skip(1));
        assert(ser_addrs(s) == ser_addr(a) + ser_addrs(s.skip(1)));
        assert forall|k: int| 0 <= k < 16 implies #[trigger] d[i + k] == ser_addr(a)[k] by {
            assert(d[i + k] == d.subrange(i, d.len() as int)[k]);
        }
        lemma_addr_at_agree(d, ser_addr(a), i, 0);
        lemma_addr_round_trip(a);
        assert_seqs_equal!(
            d.subrange(i + 16, d.len() as int) == ser_addrs(s.skip(1)),
            k => {
                assert(d.subrange(i + 16, d.len() as int)[k] == d[i + 16 + k]);
                assert(d[i + (16 + k)] == d.subrange(i, d.len() as int)[16 + k]);
                assert(ser_addrs(s)[16 + k] == ser_addrs(s.skip(1))[k]);
            }
        );
        lemma_parse_addrs_to_end_ser(d, i + 16, s.skip(1));
        assert(seq![a] + s.skip(1) =~= s);
    }
}

// --- report records --------------------------------------------------------

/// The bytes of the records laid back to back, with no limits applied.
pub open spec fn flat_records(recs: Seq<MulticastReportRecordV>) -> Seq<u8>
    decreases recs.len(),
{
    if recs.len() == 0 {
        Seq::empty()
    } else {
        ser_record(recs[0]) + flat_records(recs.skip(1))
    }
}

/// When the limited serialisation succeeds it appends exactly the flat
/// bytes, and every record was within the source limit.
proof fn lemma_mld_records_ok(recs: Seq<MulticastReportRecordV>, acc: Seq<u8>)
    requires
        ser_mld_records(recs, acc) is Ok,
    ensures
        ser_mld_records(recs, acc)->Ok_0 == acc + flat_records(recs),
        forall|i: int|
            0 <= i < recs.len() ==> (#[trigger] recs[i].source_addresses.len()) <= 80,
    decreases recs.len(),
{
    if recs.len() == 0 {
        assert(acc + flat_records(recs) =~= acc);
    } else {
        lemma_mld_records_ok(recs.skip(1), acc + ser_record(recs[0]));
        assert((acc + ser_record(recs[0])) + flat_records(recs.skip(1)) =~= acc + (ser_record(
            recs[0],
        ) + flat_records(recs.skip(1))));
        assert forall|i: int|
            0 <= i < recs.len() implies (#[trigger] recs[i].source_addresses.len()) <= 80 by {
            if i > 0 {
                assert(recs.skip(1)[i - 1] == recs[i]);
            }
        }
    }
}

proof fn lemma_flat_records_len(recs: Seq<MulticastReportRecordV>)
    requires
        forall|i: int|
            0 <= i < recs.len() ==> (#[trigger] recs[i].source_addresses.len()) <= 80,
    ensures
        flat_records(recs).len() >= 20 * recs.len(),
    decreases recs.len(),
{
    if recs.len() > 0 {
        lemma_ser_addrs_len(recs[0].source_addresses);
        assert forall|i: int|
            0 <= i < recs.skip(1).len() implies (#[trigger] recs.skip(
            1,
        )[i].source_addresses.len()) <= 80 by {
            assert(recs.skip(1)[i] == recs[i + 1]);
        }
        lemma_flat_records_len(recs.skip(1));
    }
}

/// Parsing bytes that hold serialised records, to the end of the buffer,
/// gives the records back.
proof fn lemma_parse_flat_records(d: Seq<u8>, off: int, recs: Seq<MulticastReportRecordV>)
    requires
        0 <= off <= d.len(),
        d.len() == off + flat_records(recs).len(),
        d.subrange(off, d.len() as int) == flat_records(recs),
        forall|i: int|
            0 <= i < recs.len() ==> (#[trigger] recs[i].source_addresses.len()) <= 80,
    ensures
        spec_parse_records(d, off, recs.len() as int) == Ok::<
            Seq<MulticastReportRecordV>,
            Icmp6Error,
        >(recs),
    decreases recs.len(),
{
    if recs.len() == 0 {
        assert(spec_parse_records(d, off, 0) == Ok::<Seq<MulticastReportRecordV>, Icmp6Error>(
            Seq::empty(),
        ));
        assert(recs =~= Seq::<MulticastReportRecordV>::empty());
    } else {
        let r0 = recs[0];
        let ns = r0.source_addresses.len() as int;
        lemma_ser_addrs_len(r0.source_addresses);
        let rb = ser_record(r0);
        assert(rb.len() == 20 + 16 * ns);
        assert(flat_records(recs) == rb + flat_records(recs.skip(1)));
        assert forall|k: int| 0 <= k < rb.len() implies #[trigger] d[off + k] == rb[k] by {
            assert(d[off + k] == d.subrange(off, d.len() as int)[k]);
            assert(flat_records(recs)[k] == rb[k]);
        }
        assert(d[off + 0] == rb[0]);
        assert(d[off] == rb[0] == r0.record_type);
        assert(d[off + 1] == rb[1] == 0);
        assert(d[off + 2] == rb[2]);
        assert(d[off + 3] == rb[3]);
        lemma_u16_split_join(ns as u16);
        assert(u16_of(d[off + 2], d[off + 3]) as int == ns);
        assert(off + 20 <= d.len());
        let end = off + 20 + 16 * ns;
        assert(end <= d.len());
        // the group address
        assert forall|k: int| 0 <= k < 16 implies #[trigger] d[off + 4 + k] == ser_addr(
            r0.multicast_address,
        )[k] by {
            assert(d[off + (4 + k)] == rb[4 + k]);
        }
        lemma_addr_at_agree(d, ser_addr(r0.multicast_address), off + 4, 0);
        lemma_addr_round_trip(r0.multicast_address);
        assert(addr_at(d, off + 4) == r0.multicast_address);
        // the sources
        assert_seqs_equal!(
            d.subrange(off + 20, off + 20 + 16 * ns) == ser_addrs(r0.source_addresses),
            k => {
                assert(d.subrange(off + 20, off + 20 + 16 * ns)[k] == d[off + 20 + k]);
                assert(d[off + (20 + k)] == rb[20 + k]);
                assert(rb[20 + k] == ser_addrs(r0.source_addresses)[k]);
            }
        );
        lemma_parse_n_addrs_ser(d, off + 20, r0.source_addresses);
        // the remaining records
        assert forall|i: int|
            0 <= i < recs.skip(1).len() implies (#[trigger] recs.skip(
            1,
        )[i].source_addresses.len()) <= 80 by {
            assert(recs.skip(1)[i] == recs[i + 1]);
        }
        assert_seqs_equal!(
            d.subrange(end, d.len() as int) == flat_records(recs.skip(1)),
            k => {
                assert(d.subrange(end, d.len() as int)[k] == d[end + k]);
                assert(d[off + (20 + 16 * ns + k)] == d.subrange(off, d.len() as int)[20 + 16 * ns
                    + k]);
                assert(flat_records(recs)[rb.len() + k] == flat_records(recs.skip(1))[k]);
            }
        );
        lemma_parse_flat_records(d, end, recs.skip(1));
        assert(spec_parse_records(d, off, recs.len() as int) == Ok::<
            Seq<MulticastReportRecordV>,
            Icmp6Error,
        >(
            seq![
                MulticastReportRecordV {
                    record_type: d[off],
                    multicast_address: addr_at(d, off + 4),
                    source_addresses: spec_parse_n_addrs(d, off + 20, ns),
                },
            ] + recs.skip(1),
        ));
        assert(MulticastReportRecordV {
            record_type: d[off],
            multicast_address: addr_at(d, off + 4),
            source_addresses: spec_parse_n_addrs(d, off + 20, ns),
        } == r0);
        assert(seq![r0] + recs.skip(1) =~= recs);
    }
}

// --- flag bytes ------------------------------------------------------------

proof fn lemma_ra_flags(m: bool, o: bool)
    ensures
        ({
            let f = ((if m {
                128int
            } else {
                0int
            }) + (if o {
                64int
            } else {
                0int
            })) as u8;
            (f >= 128) == m && (((f / 64) % 2 == 1) == o)
        }),
{
}

proof fn lemma_na_flags(r: bool, s: bool, o: bool)
    ensures
        ({
            let f = ((if r {
                128int
            } else {
                0int
            }) + (if s {
                64int
            } else {
                0int
            }) + (if o {
                32int
            } else {
                0int
            })) as u8;
            (f >= 128) == r && (((f / 64) % 2 == 1) == s) && (((f / 32) % 2 == 1) == o)
        }),
{
}

proof fn lemma_mlq_flags(srp: bool, qrv: u8)
    requires
        qrv < 8,
    ensures
        ({
            let f = ((if srp {
                128int
            } else {
                0int
            }) + qrv as int % 8) as u8;
            (f >= 128) == srp && f % 8 == qrv
        }),
{
}

/// When the whole option list fits a budget, so does each option.
proof fn lemma_opts_bounded(opts: Seq<NdpOptionV>, budget: int)
    requires
        ser_opts(opts).len() <= budget,
    ensures
        forall|i: int|
            0 <= i < opts.len() ==> 2 + (#[trigger] opts[i].option_data.len()) <= budget,
{
    assert forall|i: int|
        0 <= i < opts.len() implies 2 + (#[trigger] opts[i].option_data.len()) <= budget by {
        lemma_ser_opts_each(opts, i);
    }
}

// ---------------------------------------------------------------------------
// The laws.
// ---------------------------------------------------------------------------

/// The hop-by-hop header the serialiser adds to MLD output carries the
/// Router Alert MLD mark the parser demands.
pub proof fn lemma_mld_hbh_is_router_alert()
    ensures
        spec_ra_mld(Some(mld_hbh_bytes())) == Ok::<bool, Icmp6Error>(true),
{
    let h = mld_hbh_bytes();
    let d1 = seq![0x01u8, 0x00, 0x05, 0x02, 0x00, 0x00];
    let d2 = seq![0x05u8, 0x02, 0x00, 0x00];
    assert(h.skip(2) =~= d1);
    assert(d1[0] == 1 && d1[1] == 0);
    assert(d1.skip(2) =~= d2);
    assert(hbh_walk(d1, false) == hbh_walk(d2, false));
    assert(d2[0] == 5 && d2[1] == 2 && d2[2] == 0 && d2[3] == 0);
    assert(d2.skip(4) =~= Seq::<u8>::empty());
    assert(hbh_walk(d2, false) == hbh_walk(Seq::<u8>::empty(), true));
    assert(hbh_walk(Seq::<u8>::empty(), true) == Ok::<bool, Icmp6Error>(true));
}

/// An MLD-type payload that arrives with the wrong hop limit, or without
/// the Router Alert MLD mark, is always rejected, and with which error.
pub proof fn lemma_mld_gate(ttl: u8, ra_mld: bool, d: Seq<u8>)
    requires
        d.len() >= 4,
        d[0] == 130 || d[0] == 131 || d[0] == 132 || d[0] == 143,
        ttl != 1 || !ra_mld,
    ensures
        spec_parse(ttl, ra_mld, d) == (if ttl != 1 {
            Err::<Icmp6PacketV, Icmp6Error>(Icmp6Error::MldHopLimit)
        } else {
            Err::<Icmp6PacketV, Icmp6Error>(Icmp6Error::MldNoRouterAlert)
        }),
{
}

// --- the round trip, message by message ------------------------------------

/// Bytes whose tail past the fixed header is a pre-padded option list
/// parse back to that list.
proof fn lemma_ndp_opts_tail(b: Seq<u8>, hdrlen: int, opts: Seq<NdpOptionV>)
    requires
        padded_opts(opts),
        0 <= hdrlen <= b.len(),
        b.len() == hdrlen + ser_opts(opts).len(),
        b.len() <= 1500,
        b.subrange(hdrlen, b.len() as int) == ser_opts(opts),
    ensures
        spec_parse_opts(b.skip(hdrlen)) == opts,
{
    lemma_opts_bounded(opts, 1500);
    assert(b.skip(hdrlen) =~= ser_opts(opts));
    lemma_parse_ser_opts(opts);
}

#[verifier::spinoff_prover]
proof fn lemma_rt_echo(t: u8, identifier: u16, sequence: u16, data: Seq<u8>)
    requires
        t == 128 || t == 129,
        8 + data.len() <= 65536,
    ensures
        ({
            let b = seq![t, 0, 0, 0] + ser_u16(identifier) + ser_u16(sequence) + data;
            b[0] == t && b.len() >= 8 && u16_of(b[4], b[5]) == identifier && u16_of(b[6], b[7])
                == sequence && b.skip(8) == data
        }),
{
    let b = seq![t, 0, 0, 0] + ser_u16(identifier) + ser_u16(sequence) + data;
    lemma_u16_split_join(identifier);
    lemma_u16_split_join(sequence);
    assert(b[4] == u16_hi(identifier));
    assert(b[5] == u16_lo(identifier));
    assert(b[6] == u16_hi(sequence));
    assert(b[7] == u16_lo(sequence));
    assert(b.skip(8) =~= data);
}

#[verifier::spinoff_prover]
proof fn lemma_rt_rs(rs: crate::icmp6::ndp::RouterSolicitationV)
    requires
        padded_opts(rs.options),
        spec_ser(Icmp6PacketV::RouterSolicitation(rs)) is Ok,
    ensures
        spec_parse(
            255,
            false,
            spec_ser(Icmp6PacketV::RouterSolicitation(rs))->Ok_0,
        ) == Ok::<Icmp6PacketV, Icmp6Error>(Icmp6PacketV::RouterSolicitation(rs)),
{
    let b = seq![133u8, 0, 0, 0, 0, 0, 0, 0] + ser_opts(rs.options);
    assert(spec_ser(Icmp6PacketV::RouterSolicitation(rs))->Ok_0 == b);
    assert(b.len() <= 1500);
    assert(b[0] == 133);
    assert_seqs_equal!(b.subrange(8, b.len() as int) == ser_opts(rs.options), k => {
        assert(b.subrange(8, b.len() as int)[k] == b[8 + k]);
    });
    lemma_ndp_opts_tail(b, 8, rs.options);
}

#[verifier::spinoff_prover]
proof fn lemma_rt_ra(ra: crate::icmp6::ndp::RouterAdvertisementV)
    requires
        padded_opts(ra.options),
        spec_ser(Icmp6PacketV::RouterAdvertisement(ra)) is Ok,
    ensures
        spec_parse(
            255,
            false,
            spec_ser(Icmp6PacketV::RouterAdvertisement(ra))->Ok_0,
        ) == Ok::<Icmp6PacketV, Icmp6Error>(Icmp6PacketV::RouterAdvertisement(ra)),
{
    let hdr = seq![134u8, 0, 0, 0, ra.hop_limit, ra_flags_byte(ra)] + ser_u16(ra.router_lifetime)
        + ser_u32(ra.reachable_time) + ser_u32(ra.retrans_timer);
    let b = hdr + ser_opts(ra.options);
    assert(spec_ser(Icmp6PacketV::RouterAdvertisement(ra))->Ok_0 == b);
    assert(hdr.len() == 16);
    assert(b.len() <= 1500);
    assert(b[0] == 134);
    assert(b[4] == ra.hop_limit);
    assert(b[5] == ra_flags_byte(ra));
    lemma_ra_flags(ra.managed_address_configuration, ra.other_configuration);
    lemma_u16_split_join(ra.router_lifetime);
    assert(b[6] == u16_hi(ra.router_lifetime));
    assert(b[7] == u16_lo(ra.router_lifetime));
    lemma_u32_split_join(ra.reachable_time);
    lemma_u32_split_join(ra.retrans_timer);
    assert(b[8] == crate::icmp6::bytes::u32_b0(ra.reachable_time));
    assert(b[9] == crate::icmp6::bytes::u32_b1(ra.reachable_time));
    assert(b[10] == crate::icmp6::bytes::u32_b2(ra.reachable_time));
    assert(b[11] == crate::icmp6::bytes::u32_b3(ra.reachable_time));
    assert(b[12] == crate::icmp6::bytes::u32_b0(ra.retrans_timer));
    assert(b[13] == crate::icmp6::bytes::u32_b1(ra.retrans_timer));
    assert(b[14] == crate::icmp6::bytes::u32_b2(ra.retrans_timer));
    assert(b[15] == crate::icmp6::bytes::u32_b3(ra.retrans_timer));
    assert_seqs_equal!(b.subrange(16, b.len() as int) == ser_opts(ra.options), k => {
        assert(b.subrange(16, b.len() as int)[k] == b[16 + k]);
    });
    lemma_ndp_opts_tail(b, 16, ra.options);
}

#[verifier::spinoff_prover]
proof fn lemma_rt_ns(ns: crate::icmp6::ndp::NeighborSolicitationV)
    requires
        padded_opts(ns.options),
        spec_ser(Icmp6PacketV::NeighborSolicitation(ns)) is Ok,
    ensures
        spec_parse(
            255,
            false,
            spec_ser(Icmp6PacketV::NeighborSolicitation(ns))->Ok_0,
        ) == Ok::<Icmp6PacketV, Icmp6Error>(Icmp6PacketV::NeighborSolicitation(ns)),
{
    let b = seq![135u8, 0, 0, 0, 0, 0, 0, 0] + ser_addr(ns.target_address) + ser_opts(ns.options);
    assert(spec_ser(Icmp6PacketV::NeighborSolicitation(ns))->Ok_0 == b);
    assert(b.len() <= 1500);
    assert(b[0] == 135);
    assert forall|k: int| 0 <= k < 16 implies #[trigger] b[8 + k] == ser_addr(
        ns.target_address,
    )[k] by {}
    lemma_addr_at_agree(b, ser_addr(ns.target_address), 8, 0);
    lemma_addr_round_trip(ns.target_address);
    assert_seqs_equal!(b.subrange(24, b.len() as int) == ser_opts(ns.options), k => {
        assert(b.subrange(24, b.len() as int)[k] == b[24 + k]);
    });
    lemma_ndp_opts_tail(b, 24, ns.options);
}

#[verifier::spinoff_prover]
proof fn lemma_rt_na(na: NeighborAdvertisementV)
    requires
        padded_opts(na.options),
        spec_ser(Icmp6PacketV::NeighborAdvertisement(na)) is Ok,
    ensures
        spec_parse(
            255,
            false,
            spec_ser(Icmp6PacketV::NeighborAdvertisement(na))->Ok_0,
        ) == Ok::<Icmp6PacketV, Icmp6Error>(Icmp6PacketV::NeighborAdvertisement(na)),
{
    let b = seq![136u8, 0, 0, 0, na_flags_byte(na), 0, 0, 0] + ser_addr(na.target_address)
        + ser_opts(na.options);
    assert(spec_ser(Icmp6PacketV::NeighborAdvertisement(na))->Ok_0 == b);
    assert(b.len() <= 1500);
    assert(b[0] == 136);
    assert(b[4] == na_flags_byte(na));
    lemma_na_flags(na.router, na.solicited, na.override_);
    assert forall|k: int| 0 <= k < 16 implies #[trigger] b[8 + k] == ser_addr(
        na.target_address,
    )[k] by {}
    lemma_addr_at_agree(b, ser_addr(na.target_address), 8, 0);
    lemma_addr_round_trip(na.target_address);
    assert_seqs_equal!(b.subrange(24, b.len() as int) == ser_opts(na.options), k => {
        assert(b.subrange(24, b.len() as int)[k] == b[24 + k]);
    });
    lemma_ndp_opts_tail(b, 24, na.options);
}

#[verifier::spinoff_prover]
proof fn lemma_rt_redirect(rd: crate::icmp6::ndp::RedirectV)
    requires
        padded_opts(rd.options),
        spec_ser(Icmp6PacketV::Redirect(rd)) is Ok,
    ensures
        spec_parse(255, false, spec_ser(Icmp6PacketV::Redirect(rd))->Ok_0) == Ok::<
            Icmp6PacketV,
            Icmp6Error,
        >(Icmp6PacketV::Redirect(rd)),
{
    let b = seq![137u8, 0, 0, 0, 0, 0, 0, 0] + ser_addr(rd.target_address) + ser_addr(
        rd.destination_address,
    ) + ser_opts(rd.options);
    assert(spec_ser(Icmp6PacketV::Redirect(rd))->Ok_0 == b);
    assert(b.len() <= 1500);
    assert(b[0] == 137);
    assert forall|k: int| 0 <= k < 16 implies #[trigger] b[8 + k] == ser_addr(
        rd.target_address,
    )[k] by {}
    lemma_addr_at_agree(b, ser_addr(rd.target_address), 8, 0);
    lemma_addr_round_trip(rd.target_address);
    assert forall|k: int| 0 <= k < 16 implies #[trigger] b[24 + k] == ser_addr(
        rd.destination_address,
    )[k] by {}
    lemma_addr_at_agree(b, ser_addr(rd.destination_address), 24, 0);
    lemma_addr_round_trip(rd.destination_address);
    assert_seqs_equal!(b.subrange(40, b.len() as int) == ser_opts(rd.options), k => {
        assert(b.subrange(40, b.len() as int)[k] == b[40 + k]);
    });
    lemma_ndp_opts_tail(b, 40, rd.options);
}

#[verifier::spinoff_prover]
proof fn lemma_rt_mlq(q: crate::icmp6::mld::MulticastListenerQueryV)
    requires
        q.qrv < 8,
        q.source_addresses.len() <= 80,
    ensures
        spec_parse(1, true, spec_ser(Icmp6PacketV::MulticastListenerQuery(q))->Ok_0) == Ok::<
            Icmp6PacketV,
            Icmp6Error,
        >(Icmp6PacketV::MulticastListenerQuery(q)),
{
    let flags = mlq_flags_byte(q.supress_router_processing, q.qrv);
    let b = seq![130u8, 0, 0, 0] + ser_u16(q.maximum_response_delay) + seq![0u8, 0] + ser_addr(
        q.group_address,
    ) + seq![flags, q.qqic] + ser_u16(q.source_addresses.len() as u16) + ser_addrs(
        q.source_addresses,
    );
    assert(spec_ser(Icmp6PacketV::MulticastListenerQuery(q))->Ok_0 == b);
    lemma_ser_addrs_len(q.source_addresses);
    assert(b.len() == 28 + 16 * q.source_addresses.len());
    assert(b[0] == 130);
    lemma_u16_split_join(q.maximum_response_delay);
    assert(b[4] == u16_hi(q.maximum_response_delay));
    assert(b[5] == u16_lo(q.maximum_response_delay));
    assert forall|k: int| 0 <= k < 16 implies #[trigger] b[8 + k] == ser_addr(
        q.group_address,
    )[k] by {}
    lemma_addr_at_agree(b, ser_addr(q.group_address), 8, 0);
    lemma_addr_round_trip(q.group_address);
    assert(b[24] == flags);
    assert(b[25] == q.qqic);
    lemma_mlq_flags(q.supress_router_processing, q.qrv);
    assert_seqs_equal!(b.subrange(28, b.len() as int) == ser_addrs(q.source_addresses), k => {
        assert(b.subrange(28, b.len() as int)[k] == b[28 + k]);
    });
    lemma_parse_addrs_to_end_ser(b, 28, q.source_addresses);
}

#[verifier::spinoff_prover]
proof fn lemma_rt_v2(rep: crate::icmp6::mld::V2MulticastListenerReportV)
    requires
        spec_ser(Icmp6PacketV::V2MulticastListenerReport(rep)) is Ok,
    ensures
        spec_parse(1, true, spec_ser(Icmp6PacketV::V2MulticastListenerReport(rep))->Ok_0) == Ok::<
            Icmp6PacketV,
            Icmp6Error,
        >(Icmp6PacketV::V2MulticastListenerReport(rep)),
{
    let recs = rep.records;
    assert(recs.len() <= 65535);
    let count = recs.len() as u16;
    let hdr0 = seq![143u8, 0, 0, 0, 0, 0] + ser_u16(count);
    lemma_mld_records_ok(recs, hdr0);
    let b = spec_ser(Icmp6PacketV::V2MulticastListenerReport(rep))->Ok_0;
    assert(b == hdr0 + flat_records(recs));
    assert(b[0] == 143);
    lemma_u16_split_join(count);
    assert(b[6] == u16_hi(count));
    assert(b[7] == u16_lo(count));
    assert(u16_of(b[6], b[7]) as int == recs.len());
    assert_seqs_equal!(b.subrange(8, b.len() as int) == flat_records(recs), k => {
        assert(b.subrange(8, b.len() as int)[k] == b[8 + k]);
    });
    lemma_parse_flat_records(b, 8, recs);
}

/// Parsing a serialised message, delivered as the serialiser sends it,
/// gives the message back: with hop limit 1 and the Router Alert mark for
/// MLD output, with any hop limit and no mark for the rest, here 255. The
/// message must already be in round-trip form: option data pre-padded and
/// a query's QRV within three bits; beyond that, whatever the serialiser
/// accepts round-trips.
pub proof fn lemma_round_trip(p: Icmp6PacketV)
    requires
        round_trip_form(p),
        spec_ser(p) is Ok,
    ensures
        spec_parse(round_trip_ttl(p), is_mld_output(p), spec_ser(p)->Ok_0) == Ok::<
            Icmp6PacketV,
            Icmp6Error,
        >(p),
{
    match p {
        Icmp6PacketV::EchoRequest { identifier, sequence, data } => {
            lemma_rt_echo(128, identifier, sequence, data);
        },
        Icmp6PacketV::EchoReply { identifier, sequence, data } => {
            lemma_rt_echo(129, identifier, sequence, data);
        },
        Icmp6PacketV::MulticastListenerQuery(q) => {
            lemma_rt_mlq(q);
        },
        Icmp6PacketV::V2MulticastListenerReport(rep) => {
            lemma_rt_v2(rep);
        },
        Icmp6PacketV::RouterSolicitation(rs) => {
            lemma_rt_rs(rs);
        },
        Icmp6PacketV::RouterAdvertisement(ra) => {
            lemma_rt_ra(ra);
        },
        Icmp6PacketV::NeighborSolicitation(ns) => {
            lemma_rt_ns(ns);
        },
        Icmp6PacketV::NeighborAdvertisement(na) => {
            lemma_rt_na(na);
        },
        Icmp6PacketV::Redirect(rd) => {
            lemma_rt_redirect(rd);
        },
        _ => {
            assert(spec_ser(p) is Err);
        },
    }
}

/// A source link-layer option holding a six-byte address serialises to
/// exactly eight bytes, type 1 and length 1 in front, and parses back to
/// itself.
pub proof fn lemma_source_ll_option(mac: Seq<u8>)
    requires
        mac.len() == 6,
    ensures
        ser_opt(NdpOptionV { option_type: 1, option_data: mac }) == seq![1u8, 1u8] + mac,
        ser_opt(NdpOptionV { option_type: 1, option_data: mac }).len() == 8,
        spec_parse_opts(ser_opts(seq![NdpOptionV { option_type: 1, option_data: mac }]))
            == seq![NdpOptionV { option_type: 1, option_data: mac }],
{
    let o = NdpOptionV { option_type: 1, option_data: mac };
    lemma_ser_opt_padded(o);
    assert(ser_opt(o) =~= seq![1u8, 1u8] + mac);
    let s = seq![o];
    assert forall|i: int| 0 <= i < s.len() implies (#[trigger] s[i].option_data.len()) % 8
        == 6 by {}
    assert forall|i: int| 0 <= i < s.len() implies 2 + (#[trigger] s[i].option_data.len())
        <= 1500 by {}
    lemma_parse_ser_opts(s);
}

} // verus!
