//! Little-endian reads and writes over byte buffers.
use vstd::prelude::*;
use crate::error::YetiError;

verus! {

/// The `u16` stored little-endian at `i`.
pub open spec fn u16_at(s: Seq<u8>, i: int) -> u16 {
    (s[i] as int + s[i + 1] as int * 256) as u16
}

/// The `u32` stored little-endian at `i`.
pub open spec fn u32_at(s: Seq<u8>, i: int) -> u32 {
    (s[i] as int + s[i + 1] as int * 256 + s[i + 2] as int * 65536 + s[i + 3] as int
        * 16777216) as u32
}

/// The two little-endian bytes of `v`.
pub open spec fn le16(v: u16) -> Seq<u8> {
    seq![(v % 256) as u8, (v / 256) as u8]
}

/// The four little-endian bytes of `v`.
pub open spec fn le32(v: u32) -> Seq<u8> {
    seq![(v % 256) as u8, ((v / 256) % 256) as u8, ((v / 65536) % 256) as u8, (v / 16777216) as u8]
}

/// Whether `len` bytes starting at `address` lie inside a buffer of `n` bytes.
pub open spec fn in_bounds(address: int, len: int, n: int) -> bool {
    0 <= address && address + len <= n
}

/// The error for a read of `len` bytes at `address` past the end of the input.
pub open spec fn bounds_error(address: usize, len: usize) -> YetiError {
    YetiError::ParseBounds { address, len }
}

/// Reads `N` bytes starting at `address`.
pub fn transmute_to_array<const N: usize>(address: usize, input: &[u8]) -> (r: Result<[u8; N], YetiError>)
    ensures
        in_bounds(address as int, N as int, input@.len() as int) ==> r is Ok && r->Ok_0@
            == input@.subrange(address as int, address + N),
        !in_bounds(address as int, N as int, input@.len() as int) ==> r == Err::<[u8; N], YetiError>(
            bounds_error(address, N)),
{
    if address > input.len() || N > input.len() - address {
        return Err(YetiError::ParseBounds { address, len: N });
    }
    let mut out: [u8; N] = [0u8; N];
    let mut i: usize = 0;
    while i < N
        invariant
            0 <= i <= N,
            address + N <= input@.len(),
            input@.len() <= usize::MAX,
            out@.len() == N,
            forall|j: int| 0 <= j < i ==> out@[j] == input@[address + j],
        decreases N - i,
    {
        out[i] = input[address + i];
        i += 1;
    }
    assert(out@ =~= input@.subrange(address as int, address + N));
    Ok(out)
}

/// Reads the little-endian `u32` at `address`.
pub fn transmute_to_u32(address: usize, input: &[u8]) -> (r: Result<u32, YetiError>)
    ensures
        in_bounds(address as int, 4, input@.len() as int) ==> r == Ok::<u32, YetiError>(
            u32_at(input@, address as int)),
        !in_bounds(address as int, 4, input@.len() as int) ==> r == Err::<u32, YetiError>(
            bounds_error(address, 4)),
{
    if address > input.len() || 4 > input.len() - address {
        return Err(YetiError::ParseBounds { address, len: 4 });
    }
    Ok(input[address] as u32 + input[address + 1] as u32 * 256 + input[address + 2] as u32
        * 65536 + input[address + 3] as u32 * 16777216)
}

/// Reads the little-endian `u16` at `address`.
pub fn transmute_to_u16(address: usize, input: &[u8]) -> (r: Result<u16, YetiError>)
    ensures
        in_bounds(address as int, 2, input@.len() as int) ==> r == Ok::<u16, YetiError>(
            u16_at(input@, address as int)),
        !in_bounds(address as int, 2, input@.len() as int) ==> r == Err::<u16, YetiError>(
            bounds_error(address, 2)),
{
    if address > input.len() || 2 > input.len() - address {
        return Err(YetiError::ParseBounds { address, len: 2 });
    }
    Ok(input[address] as u16 + input[address + 1] as u16 * 256)
}

/// Reads the little-endian `u16` at `address`, which lies inside the input.
pub fn read_u16(input: &[u8], address: usize) -> (r: u16)
    requires
        address + 2 <= input@.len(),
    ensures
        r == u16_at(input@, address as int),
{
    input[address] as u16 + input[address + 1] as u16 * 256
}

/// Reads the little-endian `u32` at `address`, which lies inside the input.
pub fn read_u32(input: &[u8], address: usize) -> (r: u32)
    requires
        address + 4 <= input@.len(),
    ensures
        r == u32_at(input@, address as int),
{
    input[address] as u32 + input[address + 1] as u32 * 256 + input[address + 2] as u32 * 65536
        + input[address + 3] as u32 * 16777216
}

/// Appends the two little-endian bytes of `v`.
pub fn push_u16(out: &mut Vec<u8>, v: u16)
    ensures
        final(out)@ == old(out)@ + le16(v),
{
    out.push((v % 256) as u8);
    out.push((v / 256) as u8);
    assert(final(out)@ =~= old(out)@ + le16(v));
}

/// Appends the four little-endian bytes of `v`.
pub fn push_u32(out: &mut Vec<u8>, v: u32)
    ensures
        final(out)@ == old(out)@ + le32(v),
{
    out.push((v % 256) as u8);
    out.push(((v / 256) % 256) as u8);
    out.push(((v / 65536) % 256) as u8);
    out.push((v / 16777216) as u8);
    assert(final(out)@ =~= old(out)@ + le32(v));
}

/// Appends every byte of `bytes`.
pub fn push_all(out: &mut Vec<u8>, bytes: &[u8])
    ensures
        final(out)@ == old(out)@ + bytes@,
{
    let mut i: usize = 0;
    while i < bytes.len()
        invariant
            0 <= i <= bytes@.len(),
            out@ == old(out)@ + bytes@.subrange(0, i as int),
        decreases bytes@.len() - i,
    {
        out.push(bytes[i]);
        i += 1;
        assert(out@ =~= old(out)@ + bytes@.subrange(0, i as int));
    }
    assert(bytes@.subrange(0, bytes@.len() as int) =~= bytes@);
}

/// Writing back a `u16` read from two bytes gives those bytes.
pub proof fn lemma_le16_of_read(s: Seq<u8>, i: int)
    requires
        0 <= i,
        i + 2 <= s.len(),
    ensures
        le16(u16_at(s, i)) == s.subrange(i, i + 2),
{
    let b0 = s[i] as int;
    let b1 = s[i + 1] as int;
    let v = b0 + b1 * 256;
    assert(0 <= v < 65536);
    assert(v % 256 == b0 && v / 256 == b1) by (nonlinear_arith)
        requires
            v == b0 + b1 * 256,
            0 <= b0 < 256,
            0 <= b1 < 256,
    ;
    assert(le16(u16_at(s, i)) =~= s.subrange(i, i + 2));
}

/// Writing back a `u32` read from four bytes gives those bytes.
pub proof fn lemma_le32_of_read(s: Seq<u8>, i: int)
    requires
        0 <= i,
        i + 4 <= s.len(),
    ensures
        le32(u32_at(s, i)) == s.subrange(i, i + 4),
{
    let b0 = s[i] as int;
    let b1 = s[i + 1] as int;
    let b2 = s[i + 2] as int;
    let b3 = s[i + 3] as int;
    let v = b0 + b1 * 256 + b2 * 65536 + b3 * 16777216;
    assert(0 <= v < 0x1_0000_0000) by (nonlinear_arith)
        requires
            v == b0 + b1 * 256 + b2 * 65536 + b3 * 16777216,
            0 <= b0 < 256,
            0 <= b1 < 256,
            0 <= b2 < 256,
            0 <= b3 < 256,
    ;
    assert(v % 256 == b0 && (v / 256) % 256 == b1 && (v / 65536) % 256 == b2 && v / 16777216
        == b3) by (nonlinear_arith)
        requires
            v == b0 + b1 * 256 + b2 * 65536 + b3 * 16777216,
            0 <= b0 < 256,
            0 <= b1 < 256,
            0 <= b2 < 256,
            0 <= b3 < 256,
    ;
    assert(le32(u32_at(s, i)) =~= s.subrange(i, i + 4));
}

} // verus!
