//! Little-endian decoding of the integers that a compound file stores.
use vstd::prelude::*;

verus! {

/// The 16-bit unsigned integer stored little-endian at `off`.
pub open spec fn le_u16(s: Seq<u8>, off: int) -> u16 {
    (s[off] as int + s[off + 1] as int * 0x100) as u16
}

/// The 32-bit unsigned integer stored little-endian at `off`.
pub open spec fn le_u32(s: Seq<u8>, off: int) -> u32 {
    (s[off] as int + s[off + 1] as int * 0x100 + s[off + 2] as int * 0x10000 + s[off + 3] as int
        * 0x1000000) as u32
}

/// The 64-bit unsigned integer stored little-endian at `off`.
pub open spec fn le_u64(s: Seq<u8>, off: int) -> u64 {
    (le_u32(s, off) as int + le_u32(s, off + 4) as int * 0x1_0000_0000) as u64
}

/// Reads the little-endian `u16` at `off`.
pub fn read_u16_le(s: &[u8], off: usize) -> (r: u16)
    requires
        off + 2 <= s.len(),
    ensures
        r == le_u16(s@, off as int),
{
    let b0 = s[off] as u16;
    let b1 = s[off + 1] as u16;
    b0 + b1 * 0x100
}

/// Reads the little-endian `u32` at `off`.
pub fn read_u32_le(s: &[u8], off: usize) -> (r: u32)
    requires
        off + 4 <= s.len(),
    ensures
        r == le_u32(s@, off as int),
{
    let b0 = s[off] as u32;
    let b1 = s[off + 1] as u32;
    let b2 = s[off + 2] as u32;
    let b3 = s[off + 3] as u32;
    b0 + b1 * 0x100 + b2 * 0x10000 + b3 * 0x1000000
}

/// Reads the little-endian `u64` at `off`.
pub fn read_u64_le(s: &[u8], off: usize) -> (r: u64)
    requires
        off + 8 <= s.len(),
    ensures
        r == le_u64(s@, off as int),
{
    let lo = read_u32_le(s, off) as u64;
    let hi = read_u32_le(s, off + 4) as u64;
    lo + hi * 0x1_0000_0000
}

/// Copies `N` bytes starting at `off` into an array.
pub fn read_array<const N: usize>(s: &[u8], off: usize) -> (a: [u8; N])
    requires
        off + N <= s.len(),
    ensures
        a@ == s@.subrange(off as int, off + N),
{
    let mut a = [0u8; N];
    let mut i: usize = 0;
    while i < N
        invariant
            i <= N,
            off + N <= s.len(),
            a@.len() == N,
            forall|j: int| 0 <= j < i ==> a@[j] == s@[off + j],
        decreases N - i,
    {
        a[i] = s[off + i];
        i = i + 1;
    }
    assert(a@ =~= s@.subrange(off as int, off + N));
    a
}

} // verus!
