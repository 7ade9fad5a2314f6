//! The transport-stream packet: 188 bytes, a four-byte header, an optional
//! adaptation field and the payload.
//!
//! Every field is given twice: as a spec function on the packet's bytes
//! (`Seq<u8>`, 188 long), and as an executable function on a slice, whose
//! contract equates the two.
use vstd::prelude::*;

verus! {

/// `p` has the length of a transport-stream packet.
pub open spec fn is_packet(p: Seq<u8>) -> bool {
    p.len() == 188
}

/// The `k`-th packet of a buffer of consecutive packets.
pub open spec fn packet_at(s: Seq<u8>, k: int) -> Seq<u8> {
    s.subrange(k * 188, k * 188 + 188)
}

/// The packet starts with the sync byte.
pub open spec fn has_sync(p: Seq<u8>) -> bool {
    p[0] == 0x47u8
}

/// The 13-bit packet identifier.
pub open spec fn pid_of(p: Seq<u8>) -> int {
    (p[1] as int % 32) * 256 + p[2] as int
}

/// The payload_unit_start_indicator bit.
pub open spec fn unit_start(p: Seq<u8>) -> bool {
    (p[1] as int / 64) % 2 == 1
}

/// The adaptation-field bit of adaptation_field_control.
pub open spec fn has_adaptation(p: Seq<u8>) -> bool {
    (p[3] as int / 32) % 2 == 1
}

/// The payload bit of adaptation_field_control.
pub open spec fn has_payload(p: Seq<u8>) -> bool {
    (p[3] as int / 16) % 2 == 1
}

/// The 4-bit continuity counter.
pub open spec fn continuity_of(p: Seq<u8>) -> int {
    p[3] as int % 16
}

/// The adaptation field is present, holds its flags byte, and the
/// discontinuity indicator is set in it.
pub open spec fn discontinuity(p: Seq<u8>) -> bool {
    has_adaptation(p) && p[4] >= 1 && p[5] as int / 128 == 1
}

/// The adaptation field is present, long enough for a program clock
/// reference, and its PCR flag is set.
pub open spec fn has_pcr(p: Seq<u8>) -> bool {
    has_adaptation(p) && p[4] >= 7 && (p[5] as int / 16) % 2 == 1
}

/// The program clock reference in 27 MHz ticks: the 33-bit base times 300
/// plus the 9-bit extension. Meaningful where `has_pcr` holds.
pub open spec fn pcr_of(p: Seq<u8>) -> int {
    (p[6] as int * 0x200_0000 + p[7] as int * 0x2_0000 + p[8] as int * 0x200 + p[9] as int * 2
        + p[10] as int / 128) * 300 + (p[10] as int % 2) * 256 + p[11] as int
}

/// Where the payload starts: behind the header, and behind the adaptation
/// field where there is one.
pub open spec fn payload_offset(p: Seq<u8>) -> int {
    if has_adaptation(p) {
        5 + p[4] as int
    } else {
        4
    }
}

/// The payload bytes; empty where the packet carries none or where the
/// adaptation field claims the whole packet or more.
pub open spec fn payload_of(p: Seq<u8>) -> Seq<u8> {
    if has_payload(p) && payload_offset(p) < 188 {
        p.subrange(payload_offset(p), 188)
    } else {
        Seq::empty()
    }
}

/// The packet identifier of a packet.
pub fn pid(pkt: &[u8]) -> (r: u16)
    requires
        is_packet(pkt@),
    ensures
        r == pid_of(pkt@),
        r < 8192,
{
    (pkt[1] % 32) as u16 * 256 + pkt[2] as u16
}

/// Whether a unit (a section, a PES packet) starts in the packet's payload.
pub fn payload_unit_start(pkt: &[u8]) -> (r: bool)
    requires
        is_packet(pkt@),
    ensures
        r == unit_start(pkt@),
{
    (pkt[1] / 64) % 2 == 1
}

/// Whether the packet has an adaptation field.
pub fn adaptation_present(pkt: &[u8]) -> (r: bool)
    requires
        is_packet(pkt@),
    ensures
        r == has_adaptation(pkt@),
{
    (pkt[3] / 32) % 2 == 1
}

/// Whether the packet has a payload.
pub fn payload_present(pkt: &[u8]) -> (r: bool)
    requires
        is_packet(pkt@),
    ensures
        r == has_payload(pkt@),
{
    (pkt[3] / 16) % 2 == 1
}

/// The continuity counter of a packet.
pub fn continuity_counter(pkt: &[u8]) -> (r: u8)
    requires
        is_packet(pkt@),
    ensures
        r == continuity_of(pkt@),
        r < 16,
{
    pkt[3] % 16
}

/// Whether the packet's adaptation field sets the discontinuity indicator.
pub fn discontinuity_indicator(pkt: &[u8]) -> (r: bool)
    requires
        is_packet(pkt@),
    ensures
        r == discontinuity(pkt@),
{
    adaptation_present(pkt) && pkt[4] >= 1 && pkt[5] / 128 == 1
}

/// Whether the packet carries a program clock reference.
pub fn pcr_present(pkt: &[u8]) -> (r: bool)
    requires
        is_packet(pkt@),
    ensures
        r == has_pcr(pkt@),
{
    adaptation_present(pkt) && pkt[4] >= 7 && (pkt[5] / 16) % 2 == 1
}

/// The program clock reference of a packet, `None` where it carries none.
pub fn pcr(pkt: &[u8]) -> (r: Option<u64>)
    requires
        is_packet(pkt@),
    ensures
        r.is_some() == has_pcr(pkt@),
        r.is_some() ==> r.unwrap() == pcr_of(pkt@),
        r.is_some() ==> r.unwrap() < 0x2_0000_0000 * 300 + 512,
{
    if !pcr_present(pkt) {
        return None;
    }
    let base: u64 = pkt[6] as u64 * 0x200_0000 + pkt[7] as u64 * 0x2_0000 + pkt[8] as u64 * 0x200
        + pkt[9] as u64 * 2 + (pkt[10] / 128) as u64;
    let extension: u64 = (pkt[10] % 2) as u64 * 256 + pkt[11] as u64;
    Some(base * 300 + extension)
}

/// The payload of a packet, as a part of the slice it was given.
pub fn payload(pkt: &[u8]) -> (r: &[u8])
    requires
        is_packet(pkt@),
    ensures
        r@ == payload_of(pkt@),
        r@.len() <= 184,
{
    if !payload_present(pkt) {
        return vstd::slice::slice_subrange(pkt, 0, 0);
    }
    let offset: usize = if adaptation_present(pkt) {
        5 + pkt[4] as usize
    } else {
        4
    };
    if offset < 188 {
        vstd::slice::slice_subrange(pkt, offset, 188)
    } else {
        vstd::slice::slice_subrange(pkt, 0, 0)
    }
}

/// The bytes of a run of buffers.
pub open spec fn bytes_of(v: Seq<Vec<u8>>) -> Seq<Seq<u8>> {
    Seq::new(v.len(), |i: int| v[i]@)
}

/// A buffer of `len` bytes holds whole packets and nothing else.
pub open spec fn aligned(len: int) -> bool {
    len % 188 == 0
}

} // verus!
