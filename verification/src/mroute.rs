use vstd::prelude::*;

verus! {

/// The kernel's fixed bitmap of virtual multicast interfaces, as the
/// multicast-routing socket options expect it: 256 bits in eight words.
#[derive(Debug, Clone, Copy, PartialEq, Eq)]
#[allow(non_camel_case_types)]
pub struct if_set {
    pub ifs_bits: [u32; 8],
}

impl if_set {
    /// The all-clear bitmap.
    pub fn new_empty() -> (r: Self)
        ensures
            forall|w: int| 0 <= w < 8 ==> r.ifs_bits@[w] == 0u32,
    {
        if_set { ifs_bits: [0, 0, 0, 0, 0, 0, 0, 0] }
    }
}

/// Sets bit `n`: word `n / 32` gets its bit `n % 32` raised, the other
/// words stay.
#[allow(non_snake_case)]
pub fn IF_SET(n: u16, p: &mut if_set)
    requires
        n < 256,
    ensures
        final(p).ifs_bits@ == old(p).ifs_bits@.update(
            n as int / 32,
            old(p).ifs_bits@[n as int / 32] | (1u32 << (n % 32)),
        ),
{
    let w = (n / 32) as usize;
    let b = p.ifs_bits[w] | (1u32 << ((n % 32) as u32));
    set_word(p, w, b);
}

/// Clears bit `n`: word `n / 32` gets its bit `n % 32` lowered, the other
/// words stay.
#[allow(non_snake_case)]
pub fn IF_CLR(n: u16, p: &mut if_set)
    requires
        n < 256,
    ensures
        final(p).ifs_bits@ == old(p).ifs_bits@.update(
            n as int / 32,
            old(p).ifs_bits@[n as int / 32] & !(1u32 << (n % 32)),
        ),
{
    let w = (n / 32) as usize;
    let b = p.ifs_bits[w] & !(1u32 << ((n % 32) as u32));
    set_word(p, w, b);
}

/// Whether bit `n` is set.
#[allow(non_snake_case)]
pub fn IF_ISSET(n: u16, p: &if_set) -> (r: bool)
    requires
        n < 256,
    ensures
        r == (p.ifs_bits@[n as int / 32] & (1u32 << (n % 32)) != 0),
{
    p.ifs_bits[(n / 32) as usize] & (1u32 << ((n % 32) as u32)) != 0
}

/// Replaces one word of the bitmap.
fn set_word(p: &mut if_set, w: usize, b: u32)
    requires
        w < 8,
    ensures
        final(p).ifs_bits@ == old(p).ifs_bits@.update(w as int, b),
{
    let a = p.ifs_bits;
    let updated: [u32; 8] = [
        if w == 0 { b } else { a[0] },
        if w == 1 { b } else { a[1] },
        if w == 2 { b } else { a[2] },
        if w == 3 { b } else { a[3] },
        if w == 4 { b } else { a[4] },
        if w == 5 { b } else { a[5] },
        if w == 6 { b } else { a[6] },
        if w == 7 { b } else { a[7] },
    ];
    p.ifs_bits = updated;
    proof {
        assert(p.ifs_bits@ =~= old(p).ifs_bits@.update(w as int, b));
    }
}

} // verus!
