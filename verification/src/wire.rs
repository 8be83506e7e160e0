//! Big-endian integer fields of the wire format.

use vstd::prelude::*;

verus! {

/// The two big-endian bytes of a 16-bit field.
pub open spec fn u16_be(x: u16) -> Seq<u8> {
    seq![(x >> 8) as u8, x as u8]
}

/// The 16-bit value read from two big-endian bytes.
pub open spec fn u16_of(b0: u8, b1: u8) -> u16 {
    ((b0 as u16) << 8) | (b1 as u16)
}

/// The four big-endian bytes of a 32-bit field.
pub open spec fn u32_be(x: u32) -> Seq<u8> {
    seq![(x >> 24) as u8, (x >> 16) as u8, (x >> 8) as u8, x as u8]
}

/// The 32-bit value read from four big-endian bytes.
pub open spec fn u32_of(b0: u8, b1: u8, b2: u8, b3: u8) -> u32 {
    ((b0 as u32) << 24) | ((b1 as u32) << 16) | ((b2 as u32) << 8) | (b3 as u32)
}

/// Reading back the two bytes of a 16-bit field yields the field.
pub proof fn lemma_u16_round(x: u16)
    ensures
        u16_of((x >> 8) as u8, x as u8) == x,
{
    assert((((((x >> 8) as u8) as u16) << 8) | ((x as u8) as u16)) == x) by (bit_vector);
}

/// Reading back the four bytes of a 32-bit field yields the field.
pub proof fn lemma_u32_round(x: u32)
    ensures
        u32_of((x >> 24) as u8, (x >> 16) as u8, (x >> 8) as u8, x as u8) == x,
{
    assert(((((x >> 24) as u8) as u32) << 24) | ((((x >> 16) as u8) as u32) << 16) | ((((x
        >> 8) as u8) as u32) << 8) | ((x as u8) as u32) == x) by (bit_vector);
}

/// A buffer segment equal to a concatenation splits into a segment equal to
/// each part.
pub proof fn lemma_embedded_split(buf: Seq<u8>, pos: int, a: Seq<u8>, b: Seq<u8>)
    requires
        0 <= pos,
        pos + a.len() + b.len() <= buf.len(),
        buf.subrange(pos, pos + a.len() + b.len()) == a + b,
    ensures
        buf.subrange(pos, pos + a.len() as int) == a,
        buf.subrange(pos + a.len(), pos + a.len() + b.len() as int) == b,
{
    let n = a.len() as int;
    let m = b.len() as int;
    assert forall|k: int| 0 <= k < n implies buf.subrange(pos, pos + n)[k] == a[k] by {
        assert(buf.subrange(pos, pos + n)[k] == buf[pos + k]);
        assert(buf.subrange(pos, pos + n + m)[k] == buf[pos + k]);
        assert((a + b)[k] == a[k]);
    }
    assert(buf.subrange(pos, pos + n) =~= a);
    assert forall|k: int| 0 <= k < m implies buf.subrange(pos + n, pos + n + m)[k] == b[k] by {
        assert(buf.subrange(pos + n, pos + n + m)[k] == buf[pos + n + k]);
        assert(buf.subrange(pos, pos + n + m)[n + k] == buf[pos + n + k]);
        assert((a + b)[n + k] == b[k]);
    }
    assert(buf.subrange(pos + n, pos + n + m) =~= b);
}

/// Combines two bytes into the 16-bit value they spell in big-endian order.
pub fn read_u16(b0: u8, b1: u8) -> (x: u16)
    ensures
        x == u16_of(b0, b1),
{
    ((b0 as u16) << 8) | (b1 as u16)
}

/// Combines four bytes into the 32-bit value they spell in big-endian order.
pub fn read_u32(b0: u8, b1: u8, b2: u8, b3: u8) -> (x: u32)
    ensures
        x == u32_of(b0, b1, b2, b3),
{
    ((b0 as u32) << 24) | ((b1 as u32) << 16) | ((b2 as u32) << 8) | (b3 as u32)
}

/// Appends the two big-endian bytes of a 16-bit field.
pub fn push_u16(out: &mut Vec<u8>, x: u16)
    ensures
        final(out)@ == old(out)@ + u16_be(x),
{
    out.push((x >> 8) as u8);
    out.push(x as u8);
    assert(out@ =~= old(out)@ + u16_be(x));
}

/// Appends the four big-endian bytes of a 32-bit field.
pub fn push_u32(out: &mut Vec<u8>, x: u32)
    ensures
        final(out)@ == old(out)@ + u32_be(x),
{
    out.push((x >> 24) as u8);
    out.push((x >> 16) as u8);
    out.push((x >> 8) as u8);
    out.push(x as u8);
    assert(out@ =~= old(out)@ + u32_be(x));
}

} // verus!
