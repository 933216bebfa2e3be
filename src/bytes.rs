use vstd::prelude::*;

verus! {

/// The two little-endian bytes of `x`.
pub open spec fn u16_le(x: u16) -> Seq<u8> {
    seq![x as u8, (x >> 8u16) as u8]
}

/// The four little-endian bytes of `x`.
pub open spec fn u32_le(x: u32) -> Seq<u8> {
    seq![x as u8, (x >> 8u32) as u8, (x >> 16u32) as u8, (x >> 24u32) as u8]
}

/// The eight little-endian bytes of `x`.
pub open spec fn u64_le(x: u64) -> Seq<u8> {
    u32_le(x as u32) + u32_le((x >> 32u64) as u32)
}

/// The little-endian `u16` at `pos`.
pub open spec fn read_u16(b: Seq<u8>, pos: int) -> u16 {
    (b[pos] as u16) | ((b[pos + 1] as u16) << 8u16)
}

/// The little-endian `u32` at `pos`.
pub open spec fn read_u32(b: Seq<u8>, pos: int) -> u32 {
    (b[pos] as u32) | ((b[pos + 1] as u32) << 8u32) | ((b[pos + 2] as u32) << 16u32) | ((b[pos
        + 3] as u32) << 24u32)
}

/// The little-endian `u64` at `pos`.
pub open spec fn read_u64(b: Seq<u8>, pos: int) -> u64 {
    (read_u32(b, pos) as u64) | ((read_u32(b, pos + 4) as u64) << 32u64)
}

/// `b` holds `x` at `pos`.
pub open spec fn holds_at(b: Seq<u8>, pos: int, x: Seq<u8>) -> bool {
    0 <= pos && pos + x.len() <= b.len() && b.subrange(pos, pos + x.len()) == x
}

/// Where `b` holds `x + y`, it holds `x` there and `y` right after.
pub proof fn lemma_holds_split(b: Seq<u8>, pos: int, x: Seq<u8>, y: Seq<u8>)
    requires
        holds_at(b, pos, x + y),
    ensures
        holds_at(b, pos, x),
        holds_at(b, pos + x.len(), y),
{
    assert(b.subrange(pos, pos + x.len()) =~= (x + y).subrange(0, x.len() as int));
    assert((x + y).subrange(0, x.len() as int) =~= x);
    assert(b.subrange(pos + x.len(), pos + x.len() + y.len()) =~= (x + y).subrange(
        x.len() as int,
        (x + y).len() as int,
    ));
    assert((x + y).subrange(x.len() as int, (x + y).len() as int) =~= y);
}

/// Where `b` holds `x`, byte `k` of `x` is at `pos + k`.
pub proof fn lemma_holds_index(b: Seq<u8>, pos: int, x: Seq<u8>, k: int)
    requires
        holds_at(b, pos, x),
        0 <= k < x.len(),
    ensures
        b[pos + k] == x[k],
{
    assert(b.subrange(pos, pos + x.len())[k] == b[pos + k]);
}

pub proof fn lemma_read_u16(b: Seq<u8>, pos: int, x: u16)
    requires
        holds_at(b, pos, u16_le(x)),
    ensures
        read_u16(b, pos) == x,
{
    lemma_holds_index(b, pos, u16_le(x), 0);
    lemma_holds_index(b, pos, u16_le(x), 1);
    assert(((x as u8) as u16) | ((((x >> 8u16) as u8) as u16) << 8u16) == x) by (bit_vector);
}

pub proof fn lemma_read_u32(b: Seq<u8>, pos: int, x: u32)
    requires
        holds_at(b, pos, u32_le(x)),
    ensures
        read_u32(b, pos) == x,
{
    lemma_holds_index(b, pos, u32_le(x), 0);
    lemma_holds_index(b, pos, u32_le(x), 1);
    lemma_holds_index(b, pos, u32_le(x), 2);
    lemma_holds_index(b, pos, u32_le(x), 3);
    assert(((x as u8) as u32) | ((((x >> 8u32) as u8) as u32) << 8u32) | ((((x >> 16u32) as u8)
        as u32) << 16u32) | ((((x >> 24u32) as u8) as u32) << 24u32) == x) by (bit_vector);
}

pub proof fn lemma_read_u64(b: Seq<u8>, pos: int, x: u64)
    requires
        holds_at(b, pos, u64_le(x)),
    ensures
        read_u64(b, pos) == x,
{
    lemma_holds_split(b, pos, u32_le(x as u32), u32_le((x >> 32u64) as u32));
    lemma_read_u32(b, pos, x as u32);
    lemma_read_u32(b, pos + 4, (x >> 32u64) as u32);
    assert((((x as u32) as u64) | ((((x >> 32u64) as u32) as u64) << 32u64)) == x) by (bit_vector);
}

pub fn write_u16(out: &mut Vec<u8>, x: u16)
    ensures
        final(out)@ == old(out)@ + u16_le(x),
{
    out.push(x as u8);
    out.push((x >> 8u16) as u8);
    assert(out@ =~= old(out)@ + u16_le(x));
}

pub fn write_u32(out: &mut Vec<u8>, x: u32)
    ensures
        final(out)@ == old(out)@ + u32_le(x),
{
    out.push(x as u8);
    out.push((x >> 8u32) as u8);
    out.push((x >> 16u32) as u8);
    out.push((x >> 24u32) as u8);
    assert(out@ =~= old(out)@ + u32_le(x));
}

pub fn write_u64(out: &mut Vec<u8>, x: u64)
    ensures
        final(out)@ == old(out)@ + u64_le(x),
{
    write_u32(out, x as u32);
    write_u32(out, (x >> 32u64) as u32);
    assert(out@ =~= old(out)@ + u64_le(x));
}

pub fn get_u16(b: &Vec<u8>, pos: usize) -> (r: u16)
    requires
        pos + 2 <= b.len(),
    ensures
        r == read_u16(b@, pos as int),
{
    (b[pos] as u16) | ((b[pos + 1] as u16) << 8u16)
}

pub fn get_u32(b: &Vec<u8>, pos: usize) -> (r: u32)
    requires
        pos + 4 <= b.len(),
    ensures
        r == read_u32(b@, pos as int),
{
    (b[pos] as u32) | ((b[pos + 1] as u32) << 8u32) | ((b[pos + 2] as u32) << 16u32) | ((b[pos
        + 3] as u32) << 24u32)
}

pub fn get_u64(b: &Vec<u8>, pos: usize) -> (r: u64)
    requires
        pos + 8 <= b.len(),
    ensures
        r == read_u64(b@, pos as int),
{
    (get_u32(b, pos) as u64) | ((get_u32(b, pos + 4) as u64) << 32u64)
}

} // verus!
