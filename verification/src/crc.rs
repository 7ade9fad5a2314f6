//! The 32-bit checksum that closes every PSI section: polynomial
//! 0x04C11DB7, most significant bit first, register preset to all ones, no
//! final inversion.
use vstd::prelude::*;

verus! {

/// The register after one bit: shifted left, and reduced by the polynomial
/// where a one was shifted out.
pub open spec fn crc_shift(crc: u32) -> u32 {
    if crc & 0x8000_0000u32 != 0 {
        (crc << 1u32) ^ 0x04C1_1DB7u32
    } else {
        crc << 1u32
    }
}

/// The register after `n` bits.
pub open spec fn crc_bits(crc: u32, n: nat) -> u32
    decreases n,
{
    if n == 0 {
        crc
    } else {
        crc_shift(crc_bits(crc, (n - 1) as nat))
    }
}

/// The register after one byte, which enters at the top.
pub open spec fn crc_byte(crc: u32, b: u8) -> u32 {
    crc_bits(crc ^ ((b as u32) << 24u32), 8)
}

/// The register after the bytes of `s`, starting from `crc`.
pub open spec fn crc_from(crc: u32, s: Seq<u8>) -> u32
    decreases s.len(),
{
    if s.len() == 0 {
        crc
    } else {
        crc_byte(crc_from(crc, s.drop_last()), s.last())
    }
}

/// The checksum of `s`.
pub open spec fn crc32_of(s: Seq<u8>) -> u32 {
    crc_from(0xFFFF_FFFFu32, s)
}

fn crc_next(crc: u32, b: u8) -> (r: u32)
    ensures
        r == crc_byte(crc, b),
{
    let start: u32 = crc ^ ((b as u32) << 24u32);
    let mut c: u32 = start;
    let mut i: u32 = 0;
    while i < 8
        invariant
            i <= 8,
            c == crc_bits(start, i as nat),
        decreases 8 - i,
    {
        c = if c & 0x8000_0000u32 != 0 {
            (c << 1u32) ^ 0x04C1_1DB7u32
        } else {
            c << 1u32
        };
        i += 1;
    }
    c
}

/// The checksum of a run of bytes.
pub fn crc32(data: &[u8]) -> (r: u32)
    ensures
        r == crc32_of(data@),
{
    let mut c: u32 = 0xFFFF_FFFF;
    let mut i: usize = 0;
    while i < data.len()
        invariant
            i <= data@.len(),
            c == crc32_of(data@.subrange(0, i as int)),
        decreases data@.len() - i,
    {
        assert(data@.subrange(0, i + 1).drop_last() =~= data@.subrange(0, i as int));
        c = crc_next(c, data[i]);
        i += 1;
    }
    assert(data@.subrange(0, i as int) =~= data@);
    c
}

} // verus!
