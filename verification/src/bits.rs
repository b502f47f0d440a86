//! Helpers shared by the two engines: rotations of the accumulator words,
//! little-endian word reads from a byte sequence, and appending a byte
//! range to the partial-block buffer.

use vstd::prelude::*;

verus! {

/// Left rotation of a 32-bit word by `n` places, for `0 < n < 32`.
pub open spec fn rotl32(x: u32, n: u32) -> u32
    recommends
        0 < n < 32,
{
    (x << n) | (x >> ((32 - n) as u32))
}

/// Left rotation of a 64-bit word by `n` places, for `0 < n < 64`.
pub open spec fn rotl64(x: u64, n: u64) -> u64
    recommends
        0 < n < 64,
{
    (x << n) | (x >> ((64 - n) as u64))
}

pub fn rotate_left32(x: u32, n: u32) -> (r: u32)
    requires
        0 < n < 32,
    ensures
        r == rotl32(x, n),
{
    (x << n) | (x >> (32 - n))
}

pub fn rotate_left64(x: u64, n: u64) -> (r: u64)
    requires
        0 < n < 64,
    ensures
        r == rotl64(x, n),
{
    (x << n) | (x >> (64 - n))
}

/// The 32-bit word stored little-endian at offset `i` of `s`.
pub open spec fn le_u32_at(s: Seq<u8>, i: int) -> u32
    recommends
        0 <= i,
        i + 4 <= s.len(),
{
    (s[i] as u32) | ((s[i + 1] as u32) << 8) | ((s[i + 2] as u32) << 16) | ((s[i + 3] as u32)
        << 24)
}

/// The 64-bit word stored little-endian at offset `i` of `s`.
pub open spec fn le_u64_at(s: Seq<u8>, i: int) -> u64
    recommends
        0 <= i,
        i + 8 <= s.len(),
{
    (s[i] as u64) | ((s[i + 1] as u64) << 8) | ((s[i + 2] as u64) << 16) | ((s[i + 3] as u64)
        << 24) | ((s[i + 4] as u64) << 32) | ((s[i + 5] as u64) << 40) | ((s[i + 6] as u64) << 48)
        | ((s[i + 7] as u64) << 56)
}

pub fn read_le_u32(data: &[u8], i: usize) -> (r: u32)
    requires
        i + 4 <= data@.len(),
    ensures
        r == le_u32_at(data@, i as int),
{
    (data[i] as u32) | ((data[i + 1] as u32) << 8) | ((data[i + 2] as u32) << 16) | ((data[i
        + 3] as u32) << 24)
}

pub fn read_le_u64(data: &[u8], i: usize) -> (r: u64)
    requires
        i + 8 <= data@.len(),
    ensures
        r == le_u64_at(data@, i as int),
{
    (data[i] as u64) | ((data[i + 1] as u64) << 8) | ((data[i + 2] as u64) << 16) | ((data[i
        + 3] as u64) << 24) | ((data[i + 4] as u64) << 32) | ((data[i + 5] as u64) << 40) | ((
    data[i + 6] as u64) << 48) | ((data[i + 7] as u64) << 56)
}

/// Append `data[from..to]` to `buf`.
pub(crate) fn push_range(buf: &mut Vec<u8>, data: &[u8], from: usize, to: usize)
    requires
        from <= to <= data@.len(),
    ensures
        final(buf)@ == old(buf)@.add(data@.subrange(from as int, to as int)),
{
    let ghost start = buf@;
    let mut j = from;
    while j < to
        invariant
            from <= j <= to <= data@.len(),
            buf@ == start.add(data@.subrange(from as int, j as int)),
        decreases to - j,
    {
        buf.push(data[j]);
        proof {
            assert(data@.subrange(from as int, j + 1 as int) =~= data@.subrange(
                from as int,
                j as int,
            ).push(data@[j as int]));
        }
        j = j + 1;
    }
    proof {
        assert(buf@ =~= start.add(data@.subrange(from as int, to as int)));
    }
}

} // verus!
