//! Byte-level reading and writing for the container codec: bounds-checked
//! little-endian readers over an immutable buffer, appending writers, and the
//! FNV-1a checksum.
//!
//! Every reader takes a buffer and a position and either returns the value
//! and the position after it, or `None` when the buffer ends too early. None
//! of them can panic on untrusted input.

use vstd::bytes::*;
use vstd::prelude::*;

verus! {

/// FNV-1a 64-bit offset basis.
pub const FNV_OFFSET_BASIS: u64 = 0xcbf2_9ce4_8422_2325;

/// FNV-1a 64-bit prime.
pub const FNV_PRIME: u64 = 0x0000_0100_0000_01b3;

/// FNV-1a (64-bit) of `s`: start from the offset basis, and for each byte
/// xor it in and multiply by the prime, wrapping.
pub open spec fn fnv1a64_spec(s: Seq<u8>) -> u64
    decreases s.len(),
{
    if s.len() == 0 {
        FNV_OFFSET_BASIS
    } else {
        (fnv1a64_spec(s.drop_last()) ^ (s.last() as u64)).wrapping_mul(FNV_PRIME)
    }
}

/// FNV-1a (64-bit) checksum of `bytes`.
pub fn fnv1a64(bytes: &[u8]) -> (h: u64)
    ensures
        h == fnv1a64_spec(bytes@),
{
    let mut hash: u64 = FNV_OFFSET_BASIS;
    let n = bytes.len();
    let mut i: usize = 0;
    while i < n
        invariant
            n == bytes@.len(),
            i <= n,
            hash == fnv1a64_spec(bytes@.subrange(0, i as int)),
        decreases n - i,
    {
        proof {
            let next = bytes@.subrange(0, i + 1);
            assert(next.drop_last() =~= bytes@.subrange(0, i as int));
        }
        hash = hash ^ (bytes[i] as u64);
        hash = hash.wrapping_mul(FNV_PRIME);
        i = i + 1;
    }
    assert(bytes@.subrange(0, n as int) =~= bytes@);
    hash
}

// ---------------------------------------------------------------------
// reading
// ---------------------------------------------------------------------

/// The `len` bytes at `pos`, and the position after them, if the buffer
/// holds them.
pub open spec fn rd_take(buf: Seq<u8>, pos: int, len: int) -> Option<(Seq<u8>, int)> {
    if 0 <= pos && 0 <= len && pos + len <= buf.len() {
        Some((buf.subrange(pos, pos + len), pos + len))
    } else {
        None
    }
}

pub open spec fn rd_u8(buf: Seq<u8>, pos: int) -> Option<(u8, int)> {
    match rd_take(buf, pos, 1) {
        Some((b, p)) => Some((b[0], p)),
        None => None,
    }
}

pub open spec fn rd_u16(buf: Seq<u8>, pos: int) -> Option<(u16, int)> {
    match rd_take(buf, pos, 2) {
        Some((b, p)) => Some((spec_u16_from_le_bytes(b), p)),
        None => None,
    }
}

pub open spec fn rd_u32(buf: Seq<u8>, pos: int) -> Option<(u32, int)> {
    match rd_take(buf, pos, 4) {
        Some((b, p)) => Some((spec_u32_from_le_bytes(b), p)),
        None => None,
    }
}

pub open spec fn rd_u64(buf: Seq<u8>, pos: int) -> Option<(u64, int)> {
    match rd_take(buf, pos, 8) {
        Some((b, p)) => Some((spec_u64_from_le_bytes(b), p)),
        None => None,
    }
}

/// A `u32` little-endian length followed by that many bytes.
pub open spec fn rd_bytes(buf: Seq<u8>, pos: int) -> Option<(Seq<u8>, int)> {
    match rd_u32(buf, pos) {
        Some((len, p)) => rd_take(buf, p, len as int),
        None => None,
    }
}

/// Reads `len` bytes at `pos`.
pub fn take<'a>(buf: &'a [u8], pos: usize, len: usize) -> (r: Option<(&'a [u8], usize)>)
    requires
        pos <= buf@.len(),
    ensures
        match rd_take(buf@, pos as int, len as int) {
            Some((b, p)) => r matches Some((s, q)) && s@ == b && q == p,
            None => r is None,
        },
{
    if len > buf.len() - pos {
        None
    } else {
        Some((vstd::slice::slice_subrange(buf, pos, pos + len), pos + len))
    }
}

pub fn read_u8(buf: &[u8], pos: usize) -> (r: Option<(u8, usize)>)
    requires
        pos <= buf@.len(),
    ensures
        match rd_u8(buf@, pos as int) {
            Some((v, p)) => r matches Some((w, q)) && w == v && q == p,
            None => r is None,
        },
{
    match take(buf, pos, 1) {
        Some((b, p)) => Some((b[0], p)),
        None => None,
    }
}

pub fn read_u16(buf: &[u8], pos: usize) -> (r: Option<(u16, usize)>)
    requires
        pos <= buf@.len(),
    ensures
        match rd_u16(buf@, pos as int) {
            Some((v, p)) => r matches Some((w, q)) && w == v && q == p,
            None => r is None,
        },
{
    match take(buf, pos, 2) {
        Some((b, p)) => Some((u16_from_le_bytes(b), p)),
        None => None,
    }
}

pub fn read_u32(buf: &[u8], pos: usize) -> (r: Option<(u32, usize)>)
    requires
        pos <= buf@.len(),
    ensures
        match rd_u32(buf@, pos as int) {
            Some((v, p)) => r matches Some((w, q)) && w == v && q == p,
            None => r is None,
        },
{
    match take(buf, pos, 4) {
        Some((b, p)) => Some((u32_from_le_bytes(b), p)),
        None => None,
    }
}

pub fn read_u64(buf: &[u8], pos: usize) -> (r: Option<(u64, usize)>)
    requires
        pos <= buf@.len(),
    ensures
        match rd_u64(buf@, pos as int) {
            Some((v, p)) => r matches Some((w, q)) && w == v && q == p,
            None => r is None,
        },
{
    match take(buf, pos, 8) {
        Some((b, p)) => Some((u64_from_le_bytes(b), p)),
        None => None,
    }
}

/// Reads a `u32` length prefix and then that many bytes.
pub fn read_bytes<'a>(buf: &'a [u8], pos: usize) -> (r: Option<(&'a [u8], usize)>)
    requires
        pos <= buf@.len(),
    ensures
        match rd_bytes(buf@, pos as int) {
            Some((b, p)) => r matches Some((s, q)) && s@ == b && q == p,
            None => r is None,
        },
{
    let blen = buf.len();
    match read_u32(buf, pos) {
        Some((len, p)) => {
            if len as u64 > usize::MAX as u64 {
                assert(blen == buf@.len());
                None
            } else {
                take(buf, p, len as usize)
            }
        },
        None => None,
    }
}

// ---------------------------------------------------------------------
// writing
// ---------------------------------------------------------------------

/// A `u32` little-endian length (truncated to 32 bits) followed by the bytes.
pub open spec fn enc_bytes(b: Seq<u8>) -> Seq<u8> {
    spec_u32_to_le_bytes(b.len() as u32) + b
}

/// Appends `bytes` to `out`.
pub fn write_all(out: &mut Vec<u8>, bytes: &[u8])
    ensures
        final(out)@ == old(out)@ + bytes@,
{
    let n = bytes.len();
    let mut i: usize = 0;
    while i < n
        invariant
            n == bytes@.len(),
            i <= n,
            out@ == old(out)@ + bytes@.subrange(0, i as int),
        decreases n - i,
    {
        out.push(bytes[i]);
        i = i + 1;
        assert(out@ =~= old(out)@ + bytes@.subrange(0, i as int));
    }
    assert(bytes@.subrange(0, n as int) =~= bytes@);
}

pub fn write_u8(out: &mut Vec<u8>, v: u8)
    ensures
        final(out)@ == old(out)@ + seq![v],
{
    out.push(v);
}

pub fn write_u16(out: &mut Vec<u8>, v: u16)
    ensures
        final(out)@ == old(out)@ + spec_u16_to_le_bytes(v),
{
    let b = u16_to_le_bytes(v);
    write_all(out, b.as_slice());
}

pub fn write_u32(out: &mut Vec<u8>, v: u32)
    ensures
        final(out)@ == old(out)@ + spec_u32_to_le_bytes(v),
{
    let b = u32_to_le_bytes(v);
    write_all(out, b.as_slice());
}

pub fn write_u64(out: &mut Vec<u8>, v: u64)
    ensures
        final(out)@ == old(out)@ + spec_u64_to_le_bytes(v),
{
    let b = u64_to_le_bytes(v);
    write_all(out, b.as_slice());
}

/// Appends the length of `bytes` as a `u32` (truncating, as the format's
/// writer always has) and then the bytes.
pub fn write_bytes(out: &mut Vec<u8>, bytes: &[u8])
    ensures
        final(out)@ == old(out)@ + enc_bytes(bytes@),
{
    write_u32(out, bytes.len() as u32);
    write_all(out, bytes);
    assert(out@ =~= old(out)@ + enc_bytes(bytes@));
}

} // verus!
