//! The packetized elementary stream packet: what one unit of audio or video
//! says in its header, and the bytes it carries.
use vstd::prelude::*;
use vstd::slice::{slice_subrange, slice_to_vec};
use vstd::string::StringExecFns;
use crate::text::{decimal, push_decimal, push_signed, signed_decimal};

verus! {

/// What a PES packet is.
pub struct PesView {
    pub stream_id: u8,
    pub packet_length: u16,
    pub pts: Option<i64>,
    pub dts: Option<i64>,
    pub payload: Seq<u8>,
}

/// ISO 13818-1 PES packet: the fields of table 2-18 that the extractor
/// reads, and the payload.
#[derive(Clone, Debug)]
pub struct PesPacket {
    /// The stream_id behind the start code.
    pub stream_id: u8,
    /// The PES_packet_length field; 0 where the unit's length is open.
    pub packet_length: u16,
    /// The presentation time stamp in 90 kHz ticks, 33 bits wide.
    pub pts: Option<i64>,
    /// The decoding time stamp in 90 kHz ticks, 33 bits wide.
    pub dts: Option<i64>,
    /// What follows the header.
    pub payload: Vec<u8>,
}

impl View for PesPacket {
    type V = PesView;

    open spec fn view(&self) -> PesView {
        PesView {
            stream_id: self.stream_id,
            packet_length: self.packet_length,
            pts: self.pts,
            dts: self.dts,
            payload: self.payload@,
        }
    }
}

/// The views of a run of PES packets.
pub open spec fn pes_views(v: Seq<PesPacket>) -> Seq<PesView> {
    Seq::new(v.len(), |i: int| v[i]@)
}

/// The packet that `PesPacket::new` makes: no stream, no time stamps, no
/// payload.
pub open spec fn blank_pes() -> PesView {
    PesView { stream_id: 0, packet_length: 0, pts: None, dts: None, payload: Seq::empty() }
}

/// The stream id is one of the 32 audio streams.
pub open spec fn audio_id(stream_id: u8) -> bool {
    0xC0 <= stream_id <= 0xDF
}

/// The stream id is one of the 16 video streams.
pub open spec fn video_id(stream_id: u8) -> bool {
    0xE0 <= stream_id <= 0xEF
}

/// Streams of this id have the optional header (flags, header length, time
/// stamps) behind the length field. Those without it are the program stream
/// map and directory, padding, private stream 2, ECM, EMM, DSM-CC and
/// H.222.1 type E.
pub open spec fn has_optional_header(stream_id: u8) -> bool {
    stream_id != 0xBC && stream_id != 0xBE && stream_id != 0xBF && stream_id != 0xF0 && stream_id
        != 0xF1 && stream_id != 0xF2 && stream_id != 0xF8 && stream_id != 0xFF
}

/// The 33-bit time stamp in the five bytes at `i`: three, fifteen and
/// fifteen bits, each run closed by a marker bit.
pub open spec fn timestamp_at(u: Seq<u8>, i: int) -> int {
    ((u[i] as int / 2) % 8) * 0x4000_0000 + u[i + 1] as int * 0x40_0000 + (u[i + 2] as int / 2)
        * 0x8000 + u[i + 3] as int * 0x80 + u[i + 4] as int / 2
}

/// The PTS_DTS_flags of a unit with the optional header.
pub open spec fn pts_dts_flags(u: Seq<u8>) -> int {
    u[7] as int / 64
}

/// How long the header of the unit is: up to where the payload starts.
pub open spec fn header_size(u: Seq<u8>) -> int {
    if has_optional_header(u[3]) {
        9 + u[8] as int
    } else {
        6
    }
}

/// `u` starts with the start-code prefix and holds a whole, coherent
/// header: with the optional header, its marker bits are `10`, the header
/// length stays within the unit, the flags are not the forbidden `01`, and
/// the header has room for the time stamps that the flags announce.
pub open spec fn unit_ok(u: Seq<u8>) -> bool {
    &&& u.len() >= 6
    &&& u[0] == 0 && u[1] == 0 && u[2] == 1
    &&& has_optional_header(u[3]) ==> {
        &&& u.len() >= 9
        &&& u[6] as int / 64 == 2
        &&& 9 + u[8] <= u.len()
        &&& pts_dts_flags(u) != 1
        &&& pts_dts_flags(u) >= 2 ==> u[8] >= 5
        &&& pts_dts_flags(u) == 3 ==> u[8] >= 10
    }
}

/// What the unit `u` says; `None` where its header is not whole and
/// coherent.
pub open spec fn pes_of(u: Seq<u8>) -> Option<PesView> {
    if !unit_ok(u) {
        None
    } else if has_optional_header(u[3]) {
        Some(
            PesView {
                stream_id: u[3],
                packet_length: (u[4] as int * 256 + u[5] as int) as u16,
                pts: if pts_dts_flags(u) >= 2 {
                    Some(timestamp_at(u, 9) as i64)
                } else {
                    None
                },
                dts: if pts_dts_flags(u) == 3 {
                    Some(timestamp_at(u, 14) as i64)
                } else {
                    None
                },
                payload: u.subrange(9 + u[8] as int, u.len() as int),
            },
        )
    } else {
        Some(
            PesView {
                stream_id: u[3],
                packet_length: (u[4] as int * 256 + u[5] as int) as u16,
                pts: None,
                dts: None,
                payload: u.subrange(6, u.len() as int),
            },
        )
    }
}

/// A time stamp as text: its value, or `none`.
pub open spec fn stamp_text(t: Option<i64>) -> Seq<char> {
    match t {
        Some(v) => signed_decimal(v as int),
        None => "none"@,
    }
}

/// The text `out` with one more line: the prefix, a name, a value.
pub open spec fn with_line(out: Seq<char>, prefix: Seq<char>, name: Seq<char>, value: Seq<char>)
    -> Seq<char> {
    out + prefix + name + value + "\n"@
}

/// The dump of a packet: one line for each header field and one for the
/// length of the payload, each behind the prefix.
pub open spec fn dump_text(p: PesView, prefix: Seq<char>) -> Seq<char> {
    let a = with_line(Seq::empty(), prefix, "stream_id = "@, decimal(p.stream_id as nat));
    let b = with_line(a, prefix, "packet_length = "@, decimal(p.packet_length as nat));
    let c = with_line(b, prefix, "pts = "@, stamp_text(p.pts));
    let d = with_line(c, prefix, "dts = "@, stamp_text(p.dts));
    with_line(d, prefix, "payload_bytes = "@, decimal(p.payload.len()))
}

fn push_stamp(out: &mut String, t: Option<i64>)
    ensures
        final(out)@ == old(out)@ + stamp_text(t),
{
    match t {
        Some(v) => push_signed(out, v),
        None => out.append("none"),
    }
}

/// Whether streams of this id have the optional header.
pub fn optional_header(stream_id: u8) -> (r: bool)
    ensures
        r == has_optional_header(stream_id),
{
    stream_id != 0xBC && stream_id != 0xBE && stream_id != 0xBF && stream_id != 0xF0 && stream_id
        != 0xF1 && stream_id != 0xF2 && stream_id != 0xF8 && stream_id != 0xFF
}

fn read_timestamp(u: &[u8], i: usize) -> (r: i64)
    requires
        i + 4 < u@.len(),
    ensures
        r == timestamp_at(u@, i as int),
        0 <= r < 0x2_0000_0000,
{
    ((u[i] / 2) % 8) as i64 * 0x4000_0000 + u[i + 1] as i64 * 0x40_0000 + (u[i + 2] / 2) as i64
        * 0x8000 + u[i + 3] as i64 * 0x80 + (u[i + 4] / 2) as i64
}

/// Reads one unit, from its start code to its last byte.
pub fn parse_pes(u: &[u8]) -> (r: Option<PesPacket>)
    ensures
        match r {
            Some(p) => pes_of(u@) == Some(p@),
            None => pes_of(u@).is_none(),
        },
{
    let len: usize = u.len();
    if len < 6 || u[0] != 0 || u[1] != 0 || u[2] != 1 {
        return None;
    }
    let stream_id: u8 = u[3];
    let packet_length: u16 = u[4] as u16 * 256 + u[5] as u16;
    if !optional_header(stream_id) {
        return Some(
            PesPacket {
                stream_id,
                packet_length,
                pts: None,
                dts: None,
                payload: slice_to_vec(slice_subrange(u, 6, len)),
            },
        );
    }
    if len < 9 || u[6] / 64 != 2 {
        return None;
    }
    let header_length: usize = u[8] as usize;
    let flags: u8 = u[7] / 64;
    if 9 + header_length > len || flags == 1 || (flags >= 2 && header_length < 5) || (flags == 3
        && header_length < 10) {
        return None;
    }
    let pts: Option<i64> = if flags >= 2 {
        Some(read_timestamp(u, 9))
    } else {
        None
    };
    let dts: Option<i64> = if flags == 3 {
        Some(read_timestamp(u, 14))
    } else {
        None
    };
    Some(
        PesPacket {
            stream_id,
            packet_length,
            pts,
            dts,
            payload: slice_to_vec(slice_subrange(u, 9 + header_length, len)),
        },
    )
}

impl PesPacket {
    /// A PES packet with no payload data.
    pub fn new() -> (r: Self)
        ensures
            r@ == blank_pes(),
    {
        PesPacket { stream_id: 0, packet_length: 0, pts: None, dts: None, payload: Vec::new() }
    }

    /// Determine if this PES packet represents audio.
    pub fn is_audio(&self) -> (r: bool)
        ensures
            r == audio_id(self@.stream_id),
    {
        0xC0 <= self.stream_id && self.stream_id <= 0xDF
    }

    /// Determine if this PES packet represents video.
    pub fn is_video(&self) -> (r: bool)
        ensures
            r == video_id(self@.stream_id),
    {
        0xE0 <= self.stream_id && self.stream_id <= 0xEF
    }

    /// The packet's header in readable form, each line behind `prefix`.
    pub fn dump(&self, prefix: &str) -> (r: String)
        ensures
            r@ == dump_text(self@, prefix@),
    {
        let mut out = String::new();
        out.append(prefix);
        out.append("stream_id = ");
        push_decimal(&mut out, self.stream_id as u64);
        out.append("\n");
        out.append(prefix);
        out.append("packet_length = ");
        push_decimal(&mut out, self.packet_length as u64);
        out.append("\n");
        out.append(prefix);
        out.append("pts = ");
        push_stamp(&mut out, self.pts);
        out.append("\n");
        out.append(prefix);
        out.append("dts = ");
        push_stamp(&mut out, self.dts);
        out.append("\n");
        out.append(prefix);
        out.append("payload_bytes = ");
        push_decimal(&mut out, self.payload.len() as u64);
        out.append("\n");
        out
    }

    /// A copy of the packet, payload included.
    pub fn copy(&self) -> (r: Self)
        ensures
            r@ == self@,
    {
        PesPacket {
            stream_id: self.stream_id,
            packet_length: self.packet_length,
            pts: self.pts,
            dts: self.dts,
            payload: slice_to_vec(self.payload.as_slice()),
        }
    }
}

impl Default for PesPacket {
    fn default() -> (r: Self)
        ensures
            r@ == blank_pes(),
    {
        PesPacket::new()
    }
}

/// No unit is audio and video at once.
pub proof fn lemma_audio_is_not_video(stream_id: u8)
    ensures
        !(audio_id(stream_id) && video_id(stream_id)),
{
}

/// The time stamps of a unit are 33 bits wide.
pub proof fn lemma_timestamps_are_33_bits(u: Seq<u8>)
    requires
        pes_of(u).is_some(),
    ensures
        pes_of(u).unwrap().pts.is_some() ==> 0 <= pes_of(u).unwrap().pts.unwrap() < 0x2_0000_0000,
        pes_of(u).unwrap().dts.is_some() ==> 0 <= pes_of(u).unwrap().dts.unwrap() < 0x2_0000_0000,
{
}

} // verus!
