use vstd::prelude::*;
use vstd::arithmetic::div_mod::{lemma_fundamental_div_mod, lemma_fundamental_div_mod_converse};

verus! {

/// An IPv6 address held as eight 16-bit segments, most significant first,
/// exactly as written in the usual colon notation.
#[derive(Debug, Clone, Copy, PartialEq, Eq, Structural, Hash)]
pub struct Ip6Addr {
    pub s0: u16,
    pub s1: u16,
    pub s2: u16,
    pub s3: u16,
    pub s4: u16,
    pub s5: u16,
    pub s6: u16,
    pub s7: u16,
}

/// The address read as one unsigned 128-bit number, the order `Ipv6Addr`
/// values compare in.
pub open spec fn addr_val(a: Ip6Addr) -> int {
    ((((((a.s0 as int * 0x10000 + a.s1 as int) * 0x10000 + a.s2 as int) * 0x10000
        + a.s3 as int) * 0x10000 + a.s4 as int) * 0x10000 + a.s5 as int) * 0x10000
        + a.s6 as int) * 0x10000 + a.s7 as int
}

/// The unspecified address `::`.
pub open spec fn unspecified_addr() -> Ip6Addr {
    Ip6Addr { s0: 0, s1: 0, s2: 0, s3: 0, s4: 0, s5: 0, s6: 0, s7: 0 }
}

/// `ff02::16`, the group every MLDv2-capable router listens on.
pub open spec fn all_mldv2_routers_addr() -> Ip6Addr {
    Ip6Addr { s0: 0xff02, s1: 0, s2: 0, s3: 0, s4: 0, s5: 0, s6: 0, s7: 0x16 }
}

/// `ff03::`, the lowest multicast address whose scope is wide enough for
/// the daemon to forward.
pub open spec fn mld_scope_floor_addr() -> Ip6Addr {
    Ip6Addr { s0: 0xff03, s1: 0, s2: 0, s3: 0, s4: 0, s5: 0, s6: 0, s7: 0 }
}

/// `fe80::/10`, same meaning as `Ipv6Addr::is_unicast_link_local`.
pub open spec fn spec_is_unicast_link_local(a: Ip6Addr) -> bool {
    0xfe80 <= a.s0 < 0xfec0
}

/// The upper 104 bits equal those of `ff02::1:ff00:0`.
pub open spec fn spec_is_solicited_node(a: Ip6Addr) -> bool {
    a.s0 == 0xff02 && a.s1 == 0 && a.s2 == 0 && a.s3 == 0 && a.s4 == 0 && a.s5 == 1
        && a.s6 >= 0xff00
}

impl Ip6Addr {
    pub fn new(s0: u16, s1: u16, s2: u16, s3: u16, s4: u16, s5: u16, s6: u16, s7: u16) -> (r: Self)
        ensures
            r == (Ip6Addr { s0, s1, s2, s3, s4, s5, s6, s7 }),
    {
        Ip6Addr { s0, s1, s2, s3, s4, s5, s6, s7 }
    }

    pub fn unspecified() -> (r: Self)
        ensures
            r == unspecified_addr(),
    {
        Ip6Addr { s0: 0, s1: 0, s2: 0, s3: 0, s4: 0, s5: 0, s6: 0, s7: 0 }
    }

    /// `ff02::16` as a value.
    pub fn all_mldv2_routers() -> (r: Self)
        ensures
            r == all_mldv2_routers_addr(),
    {
        Ip6Addr { s0: 0xff02, s1: 0, s2: 0, s3: 0, s4: 0, s5: 0, s6: 0, s7: 0x16 }
    }

    pub fn is_unspecified(&self) -> (r: bool)
        ensures
            r == (*self == unspecified_addr()),
    {
        self.s0 == 0 && self.s1 == 0 && self.s2 == 0 && self.s3 == 0 && self.s4 == 0
            && self.s5 == 0 && self.s6 == 0 && self.s7 == 0
    }

    pub fn is_unicast_link_local(&self) -> (r: bool)
        ensures
            r == spec_is_unicast_link_local(*self),
    {
        0xfe80 <= self.s0 && self.s0 < 0xfec0
    }

    /// Whether the address sorts below `ff03::`, i.e. its multicast scope is
    /// node- or link-local and the daemon must not forward it.
    pub fn is_below_mld_scope_floor(&self) -> (r: bool)
        ensures
            r == (addr_val(*self) < addr_val(mld_scope_floor_addr())),
    {
        proof {
            lemma_addr_val_seg_order(*self, mld_scope_floor_addr());
        }
        self.s0 < 0xff03
    }
}

/// `ff02::1:ff00:0`, the base of the solicited-node multicast range.
pub open spec fn solicited_node_prefix() -> Ip6Addr {
    Ip6Addr { s0: 0xff02, s1: 0, s2: 0, s3: 0, s4: 0, s5: 1, s6: 0xff00, s7: 0 }
}

/// The address's upper 104 bits, read as a number.
pub open spec fn upper_104_bits(a: Ip6Addr) -> int {
    (((((a.s0 as int * 0x10000 + a.s1 as int) * 0x10000 + a.s2 as int) * 0x10000
        + a.s3 as int) * 0x10000 + a.s4 as int) * 0x10000 + a.s5 as int) * 0x100
        + a.s6 as int / 0x100
}

/// Dividing the numeric reading by the low 24 bits' weight leaves exactly
/// the upper 104 bits.
proof fn lemma_upper_104(a: Ip6Addr)
    ensures
        addr_val(a) / 0x1000000 == upper_104_bits(a),
{
    let low24 = (a.s6 as int % 0x100) * 0x10000 + a.s7 as int;
    lemma_fundamental_div_mod(a.s6 as int, 0x100);
    assert(addr_val(a) == upper_104_bits(a) * 0x1000000 + low24);
    lemma_fundamental_div_mod_converse(addr_val(a), 0x1000000, upper_104_bits(a), low24);
}

/// Solicited-node recognition is exactly a 104-bit prefix match: an
/// address is recognised when and only when its upper 104 bits equal those
/// of `ff02::1:ff00:0`.
pub proof fn lemma_solicited_node_is_prefix_match(a: Ip6Addr)
    ensures
        spec_is_solicited_node(a) == (addr_val(a) / 0x1000000 == addr_val(
            solicited_node_prefix(),
        ) / 0x1000000),
{
    lemma_upper_104(a);
    lemma_upper_104(solicited_node_prefix());
    lemma_fundamental_div_mod(a.s6 as int, 0x100);
}

/// Two addresses compare as 128-bit numbers the way their leading segments
/// compare, whenever the leading segments differ; when the first segments are
/// equal and one address has all other segments zero, the other is at least
/// as large.
proof fn lemma_addr_val_seg_order(a: Ip6Addr, b: Ip6Addr)
    requires
        b.s1 == 0 && b.s2 == 0 && b.s3 == 0 && b.s4 == 0 && b.s5 == 0 && b.s6 == 0 && b.s7 == 0,
    ensures
        (addr_val(a) < addr_val(b)) == (a.s0 < b.s0),
{
}

} // verus!
