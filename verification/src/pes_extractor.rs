//! The PES extractor: it takes the packets of one identifier out of a
//! transport stream, strings their payloads together, cuts the result into
//! the units of one stream id, and reads each unit.
use vstd::prelude::*;
use vstd::slice::slice_subrange;
use crate::counter::{bump, bumped};
use crate::error::Error;
use crate::packet::{
    aligned, bytes_of, is_packet, packet_at, payload, payload_of, pid, pid_of,
};
use crate::pes::{
    has_optional_header, header_size, optional_header, parse_pes, pes_of, pes_views, PesPacket,
    PesView,
};
use crate::psi::be16;

verus! {

/// The start code of the stream id stands at `i`: `00 00 01` and the id.
pub open spec fn start_code_at(b: Seq<u8>, i: int, stream_id: u8) -> bool {
    &&& 0 <= i
    &&& i + 4 <= b.len()
    &&& b[i] == 0
    &&& b[i + 1] == 0
    &&& b[i + 2] == 1
    &&& b[i + 3] == stream_id
}

/// The first offset from `from` on at which the start code stands.
pub open spec fn find_start(b: Seq<u8>, from: int, stream_id: u8) -> Option<int>
    decreases b.len() - from,
{
    if from < 0 || from + 4 > b.len() {
        None
    } else if start_code_at(b, from, stream_id) {
        Some(from)
    } else {
        find_start(b, from + 1, stream_id)
    }
}

/// What of `b` is still of use: everything from the first start code on,
/// or, where there is none, the last three bytes, which may be the
/// beginning of one.
pub open spec fn aligned_part(b: Seq<u8>, stream_id: u8) -> Seq<u8> {
    match find_start(b, 0, stream_id) {
        Some(i) => b.subrange(i, b.len() as int),
        None => if b.len() > 3 {
            b.subrange(b.len() - 3, b.len() as int)
        } else {
            b
        },
    }
}

/// How long the unit at the front of `a` is, once it is known to be whole.
/// A unit with a length field other than zero is whole when that many
/// bytes stand behind the field. One with a zero length field is whole
/// when its header is, and the next start code stands behind the header:
/// the unit ends there.
pub open spec fn first_unit(a: Seq<u8>, stream_id: u8) -> Option<int> {
    if !start_code_at(a, 0, stream_id) || a.len() < 6 {
        None
    } else if be16(a, 4) > 0 {
        if a.len() >= 6 + be16(a, 4) {
            Some(6 + be16(a, 4))
        } else {
            None
        }
    } else if has_optional_header(stream_id) && a.len() < 9 {
        None
    } else {
        find_start(a, header_size(a), stream_id)
    }
}

/// The whole units that were cut off a run of bytes, and what is left.
pub struct Drained {
    pub units: Seq<Seq<u8>>,
    pub rest: Seq<u8>,
}

/// Cuts the whole units off the front of `b`, in order, skipping what
/// stands before a start code.
pub open spec fn drain(b: Seq<u8>, stream_id: u8) -> Drained
    decreases b.len(),
{
    let a = aligned_part(b, stream_id);
    match first_unit(a, stream_id) {
        None => Drained { units: Seq::empty(), rest: a },
        Some(n) => if 0 < n <= a.len() <= b.len() {
            let d = drain(a.subrange(n, a.len() as int), stream_id);
            Drained { units: seq![a.subrange(0, n)] + d.units, rest: d.rest }
        } else {
            Drained { units: Seq::empty(), rest: a }
        },
    }
}

/// What the first `n` of the units say, in order; a unit with a broken
/// header says nothing.
pub open spec fn parsed_units(units: Seq<Seq<u8>>, n: nat) -> Seq<PesView>
    decreases n,
{
    if n == 0 {
        Seq::empty()
    } else {
        let before = parsed_units(units, (n - 1) as nat);
        match pes_of(units[n - 1]) {
            Some(v) => before.push(v),
            None => before,
        }
    }
}

/// The counter `c` once each unit with a broken header among the first
/// `n` is counted.
pub open spec fn malformed_after(c: u64, units: Seq<Seq<u8>>, n: nat) -> u64
    decreases n,
{
    if n == 0 {
        c
    } else {
        let before = malformed_after(c, units, (n - 1) as nat);
        if pes_of(units[n - 1]).is_none() {
            bump(before)
        } else {
            before
        }
    }
}

/// What an extractor holds.
pub struct ExtractorView {
    pub pid: u16,
    pub stream_id: u8,
    pub buffer_min: i32,
    pub buffer_max: i32,
    /// Payload bytes that belong to no whole unit yet.
    pub pending: Seq<u8>,
    /// How often the pending bytes outgrew `buffer_max` and were discarded.
    pub overflows: u64,
    /// How many units were discarded for a broken header.
    pub malformed: u64,
}

/// An extractor as `new` makes it.
pub open spec fn fresh_extractor(pid: u16, stream_id: u8, buffer_min: i32, buffer_max: i32)
    -> ExtractorView {
    ExtractorView {
        pid,
        stream_id,
        buffer_min,
        buffer_max,
        pending: Seq::empty(),
        overflows: 0,
        malformed: 0,
    }
}

/// The pending bytes are bounded, and `rest` is more than the bound.
pub open spec fn over_bound(x: ExtractorView, rest: Seq<u8>) -> bool {
    x.buffer_max >= 0 && rest.len() > x.buffer_max
}

/// An extractor and the units it has handed out.
pub struct Extracted {
    pub state: ExtractorView,
    pub units: Seq<PesView>,
}

/// The extractor after one packet, and the units that the packet
/// completed. A packet of another identifier, or without payload, changes
/// nothing. The payload of any other joins the pending bytes; the whole
/// units are cut off and read, those with a broken header are counted and
/// dropped; and where what is left is more than the bound allows, it is
/// discarded and the overflow counted.
pub open spec fn extractor_after(x: ExtractorView, p: Seq<u8>) -> Extracted {
    if pid_of(p) != x.pid || payload_of(p).len() == 0 {
        Extracted { state: x, units: Seq::empty() }
    } else {
        let d = drain(x.pending + payload_of(p), x.stream_id);
        let over = over_bound(x, d.rest);
        Extracted {
            state: ExtractorView {
                pending: if over {
                    Seq::empty()
                } else {
                    d.rest
                },
                overflows: if over {
                    bump(x.overflows)
                } else {
                    x.overflows
                },
                malformed: malformed_after(x.malformed, d.units, d.units.len()),
                ..x
            },
            units: parsed_units(d.units, d.units.len()),
        }
    }
}

/// The extractor after the first `n` packets of `s`, and the units that
/// they completed, in the order of their completion.
pub open spec fn extracted(x: ExtractorView, s: Seq<u8>, n: nat) -> Extracted
    decreases n,
{
    if n == 0 {
        Extracted { state: x, units: Seq::empty() }
    } else {
        let before = extracted(x, s, (n - 1) as nat);
        let step = extractor_after(before.state, packet_at(s, n - 1));
        Extracted { state: step.state, units: before.units + step.units }
    }
}

/// `scanned` is a sound note on the waiting bytes `b`: either it says
/// nothing, or `b` starts with a start code and a whole header, and no
/// start code stands between the header and `scanned`, nor can one come to
/// stand there when more bytes follow.
pub open spec fn scan_ok(b: Seq<u8>, stream_id: u8, scanned: int) -> bool {
    scanned == 0 || {
        &&& start_code_at(b, 0, stream_id)
        &&& 9 <= b.len()
        &&& 0 <= scanned
        &&& scanned + 3 <= b.len()
        &&& forall|j: int| header_size(b) <= j < scanned ==> !start_code_at(b, j, stream_id)
    }
}

/// Where no start code stands from `from` up to `to`, the search from
/// `from` finds what the search from `to` finds.
pub proof fn lemma_search_may_skip(b: Seq<u8>, from: int, to: int, stream_id: u8)
    requires
        0 <= from <= to,
        forall|j: int| from <= j < to ==> !start_code_at(b, j, stream_id),
    ensures
        find_start(b, from, stream_id) == find_start(b, to, stream_id),
    decreases to - from,
{
    if from < to {
        if from + 4 <= b.len() {
            lemma_search_may_skip(b, from + 1, to, stream_id);
        }
    }
}

/// A sound note stays sound when more bytes follow.
pub proof fn lemma_note_outlasts_growth(b: Seq<u8>, more: Seq<u8>, stream_id: u8, scanned: int)
    requires
        scan_ok(b, stream_id, scanned),
    ensures
        scan_ok(b + more, stream_id, scanned),
{
    if scanned != 0 {
        let c = b + more;
        assert forall|j: int| header_size(c) <= j < scanned implies !start_code_at(
            c,
            j,
            stream_id,
        ) by {
            assert(c[j] == b[j] && c[j + 1] == b[j + 1] && c[j + 2] == b[j + 2] && c[j + 3] == b[j
                + 3]);
            assert(!start_code_at(b, j, stream_id));
        }
    }
}

fn find_from(b: &[u8], from: usize, stream_id: u8) -> (r: Option<usize>)
    ensures
        match r {
            Some(i) => find_start(b@, from as int, stream_id) == Some(i as int) && from <= i && i
                + 4 <= b@.len(),
            None => find_start(b@, from as int, stream_id).is_none(),
        },
{
    let len: usize = b.len();
    if len < 4 {
        return None;
    }
    let mut i: usize = from;
    while i <= len - 4
        invariant
            from <= i,
            len == b@.len(),
            len >= 4,
            find_start(b@, i as int, stream_id) == find_start(b@, from as int, stream_id),
        decreases len - i,
    {
        if b[i] == 0 && b[i + 1] == 0 && b[i + 2] == 1 && b[i + 3] == stream_id {
            return Some(i);
        }
        i += 1;
    }
    None
}

fn align(buf: &mut Vec<u8>, stream_id: u8) -> (kept: bool)
    ensures
        final(buf)@ == aligned_part(old(buf)@, stream_id),
        final(buf)@.len() <= old(buf)@.len(),
        kept ==> final(buf)@ == old(buf)@,
        start_code_at(old(buf)@, 0, stream_id) ==> kept,
{
    let len: usize = buf.len();
    match find_from(buf.as_slice(), 0, stream_id) {
        Some(i) => {
            if i > 0 {
                let mut rest: Vec<u8> = buf.split_off(i);
                std::mem::swap(buf, &mut rest);
                false
            } else {
                true
            }
        },
        None => {
            if len > 3 {
                let mut rest: Vec<u8> = buf.split_off(len - 3);
                std::mem::swap(buf, &mut rest);
            }
            false
        },
    }
}

/// The length of the unit at the front of `a`, if it is whole, and a note
/// on how far `a` was searched in vain where it is not. `scanned` is such a
/// note from an earlier search: the search goes on from there.
fn first_unit_len(a: &[u8], stream_id: u8, scanned: usize) -> (r: (Option<usize>, usize))
    requires
        scan_ok(a@, stream_id, scanned as int),
    ensures
        match r.0 {
            Some(n) => first_unit(a@, stream_id) == Some(n as int) && 6 <= n <= a@.len(),
            None => first_unit(a@, stream_id).is_none() && scan_ok(a@, stream_id, r.1 as int),
        },
{
    let len: usize = a.len();
    if len < 6 || a[0] != 0 || a[1] != 0 || a[2] != 1 || a[3] != stream_id {
        return (None, 0);
    }
    let announced: usize = a[4] as usize * 256 + a[5] as usize;
    if announced > 0 {
        return if len >= 6 + announced {
            (Some(6 + announced), 0)
        } else {
            (None, 0)
        };
    }
    let header: usize = if optional_header(stream_id) {
        if len < 9 {
            return (None, 0);
        }
        9 + a[8] as usize
    } else {
        6
    };
    let from: usize = if scanned > header {
        scanned
    } else {
        header
    };
    proof {
        lemma_search_may_skip(a@, header as int, from as int, stream_id);
    }
    match find_from(a, from, stream_id) {
        Some(n) => (Some(n), 0),
        None => {
            proof {
                lemma_find_start_is_first(a@, header as int, stream_id);
            }
            if len >= 9 {
                (None, len - 3)
            } else {
                (None, 0)
            }
        },
    }
}

/// Cuts the whole units off the front of `buf`. `scanned` is the note on
/// `buf` from the last search; the note on what is left comes back.
fn drain_units(buf: &mut Vec<u8>, stream_id: u8, scanned: usize) -> (r: (Vec<Vec<u8>>, usize))
    requires
        scan_ok(old(buf)@, stream_id, scanned as int),
    ensures
        drain(old(buf)@, stream_id) == (Drained { units: bytes_of(r.0@), rest: final(buf)@ }),
        scan_ok(final(buf)@, stream_id, r.1 as int),
{
    let mut units: Vec<Vec<u8>> = Vec::new();
    let mut note: usize = scanned;
    loop
        invariant_except_break
            bytes_of(units@) + drain(buf@, stream_id).units == drain(old(buf)@, stream_id).units,
            drain(buf@, stream_id).rest == drain(old(buf)@, stream_id).rest,
            scan_ok(buf@, stream_id, note as int),
        ensures
            drain(old(buf)@, stream_id) == (Drained { units: bytes_of(units@), rest: buf@ }),
            scan_ok(buf@, stream_id, note as int),
        decreases buf@.len(),
    {
        let ghost before = buf@;
        let kept: bool = align(buf, stream_id);
        if !kept {
            note = 0;
        }
        let ghost a = buf@;
        let (first, searched) = first_unit_len(buf.as_slice(), stream_id, note);
        match first {
            None => {
                note = searched;
                break ;
            },
            Some(n) => {
                let mut unit: Vec<u8> = buf.split_off(n);
                std::mem::swap(buf, &mut unit);
                note = 0;
                proof {
                    let d = drain(a.subrange(n as int, a.len() as int), stream_id);
                    assert(drain(before, stream_id).units == seq![a.subrange(0, n as int)]
                        + d.units);
                    assert((bytes_of(units@) + seq![unit@]) + d.units =~= bytes_of(units@) + (
                    seq![unit@] + d.units));
                }
                units.push(unit);
            },
        }
    }
    (units, note)
}

fn read_units(units: &Vec<Vec<u8>>, out: &mut Vec<PesPacket>, malformed: u64) -> (r: u64)
    ensures
        pes_views(final(out)@) == pes_views(old(out)@) + parsed_units(
            bytes_of(units@),
            units@.len(),
        ),
        r == malformed_after(malformed, bytes_of(units@), units@.len()),
{
    let mut count: u64 = malformed;
    let mut i: usize = 0;
    while i < units.len()
        invariant
            i <= units@.len(),
            pes_views(out@) == pes_views(old(out)@) + parsed_units(bytes_of(units@), i as nat),
            count == malformed_after(malformed, bytes_of(units@), i as nat),
        decreases units@.len() - i,
    {
        match parse_pes(units[i].as_slice()) {
            Some(packet) => {
                proof {
                    let before = parsed_units(bytes_of(units@), i as nat);
                    assert((pes_views(old(out)@) + before).push(packet@) =~= pes_views(old(out)@)
                        + before.push(packet@));
                }
                out.push(packet);
            },
            None => {
                count = bumped(count);
            },
        }
        i += 1;
    }
    count
}

/// Parse and demux MPEG transport streams and produce fully formed PES
/// structures for analysis other work. Capable of parsing fixed length PES
/// packets or variable length packets (larger than 65536 bytes).
#[derive(Debug)]
pub struct PesExtractor {
    pid: u16,
    streamid: u8,
    buffer_min: i32,
    buffer_max: i32,
    pending: Vec<u8>,
    /// How far the waiting bytes were searched for the end of their unit.
    scanned: usize,
    overflows: u64,
    malformed: u64,
}

impl View for PesExtractor {
    type V = ExtractorView;

    closed spec fn view(&self) -> ExtractorView {
        ExtractorView {
            pid: self.pid,
            stream_id: self.streamid,
            buffer_min: self.buffer_min,
            buffer_max: self.buffer_max,
            pending: self.pending@,
            overflows: self.overflows,
            malformed: self.malformed,
        }
    }
}

impl PesExtractor {
    /// The extractor's note on how far it has searched the waiting bytes
    /// is sound.
    pub closed spec fn wf(&self) -> bool {
        scan_ok(self.pending@, self.streamid, self.scanned as int)
    }

    /// An extractor for the units of the PES StreamID `streamid` (e.g.
    /// `0xc0` for audio and `0xe0` for video) on the MPEG-TS transport PID
    /// `pid`.
    ///
    /// `buffer_max` bounds the bytes that may wait for their unit to become
    /// whole; a negative value sets no bound. `buffer_min`, where positive,
    /// is the room that is asked for them at the start; where it cannot be
    /// had, the extractor starts without it.
    pub fn new(pid: u16, streamid: u8, buffer_min: i32, buffer_max: i32) -> (r: Self)
        ensures
            r.wf(),
            r@ == fresh_extractor(pid, streamid, buffer_min, buffer_max),
    {
        let room: usize = if buffer_min > 0 {
            buffer_min as usize
        } else {
            0
        };
        let mut pending: Vec<u8> = Vec::new();
        let _ = pending.try_reserve(room);
        PesExtractor {
            pid,
            streamid,
            buffer_min,
            buffer_max,
            pending,
            scanned: 0,
            overflows: 0,
            malformed: 0,
        }
    }

    /// Returns the MPEG-TS transport PID the extractor was created with.
    pub fn pid(&self) -> (r: u16)
        ensures
            r == self@.pid,
    {
        self.pid
    }

    /// Returns the PES StreamID the extractor was created with.
    pub fn streamid(&self) -> (r: u8)
        ensures
            r == self@.stream_id,
    {
        self.streamid
    }

    /// Returns the PES ring buffer minimum size
    pub fn buffer_min(&self) -> (r: i32)
        ensures
            r == self@.buffer_min,
    {
        self.buffer_min
    }

    /// Returns the PES ring buffer maximum size
    pub fn buffer_max(&self) -> (r: i32)
        ensures
            r == self@.buffer_max,
    {
        self.buffer_max
    }

    /// How often the waiting bytes outgrew the bound and were discarded.
    pub fn overflows(&self) -> (r: u64)
        ensures
            r == self@.overflows,
    {
        self.overflows
    }

    /// How many units were dropped for a broken header.
    pub fn malformed(&self) -> (r: u64)
        ensures
            r == self@.malformed,
    {
        self.malformed
    }

    /// How many bytes wait for their unit to become whole.
    pub fn pending_len(&self) -> (r: usize)
        ensures
            r == self@.pending.len(),
    {
        self.pending.len()
    }

    /// Takes one packet, and appends the units that it completed to `out`.
    pub fn push_packet(&mut self, pkt: &[u8], out: &mut Vec<PesPacket>)
        requires
            old(self).wf(),
            is_packet(pkt@),
        ensures
            final(self).wf(),
            final(self)@ == extractor_after(old(self)@, pkt@).state,
            pes_views(final(out)@) == pes_views(old(out)@) + extractor_after(
                old(self)@,
                pkt@,
            ).units,
    {
        let pl = payload(pkt);
        if pid(pkt) != self.pid || pl.len() == 0 {
            return ;
        }
        self.pending.extend_from_slice(pl);
        assert(self.pending@ =~= old(self).pending@ + pl@);
        proof {
            lemma_note_outlasts_growth(old(self).pending@, pl@, self.streamid, self.scanned as int);
        }
        let (units, searched) = drain_units(&mut self.pending, self.streamid, self.scanned);
        self.scanned = searched;
        self.malformed = read_units(&units, out, self.malformed);
        let bounded: bool = self.buffer_max >= 0;
        if bounded && self.pending.len() > self.buffer_max as usize {
            self.pending.clear();
            self.scanned = 0;
            self.overflows = bumped(self.overflows);
        }
    }

    /// Write an entire MPTS into the framework, pid filtering and demuxing
    /// the stream, and returns the units that became whole, in the order in
    /// which they did.
    ///
    /// A buffer that is not a whole number of packets is refused, and the
    /// extractor is left as it was.
    pub fn write(&mut self, buf: &[u8]) -> (r: Result<Vec<PesPacket>, Error>)
        requires
            old(self).wf(),
        ensures
            final(self).wf(),
            !aligned(buf@.len() as int) ==> r.is_err() && r.unwrap_err() == (Error::PartialWrite {
                len: buf@.len() as usize,
            }) && final(self)@ == old(self)@,
            aligned(buf@.len() as int) ==> r.is_ok() && (Extracted {
                state: final(self)@,
                units: pes_views(r.unwrap()@),
            }) == extracted(old(self)@, buf@, (buf@.len() / 188) as nat),
    {
        let len: usize = buf.len();
        if len % 188 != 0 {
            return Err(Error::PartialWrite { len });
        }
        let count: usize = len / 188;
        let mut out: Vec<PesPacket> = Vec::new();
        let mut k: usize = 0;
        assert(pes_views(out@) =~= Seq::<PesView>::empty());
        while k < count
            invariant
                k <= count,
                count * 188 == buf@.len() <= usize::MAX,
                self.wf(),
                (Extracted { state: self@, units: pes_views(out@) }) == extracted(
                    old(self)@,
                    buf@,
                    k as nat,
                ),
            decreases count - k,
        {
            let pkt = slice_subrange(buf, k * 188, k * 188 + 188);
            self.push_packet(pkt, &mut out);
            k += 1;
        }
        Ok(out)
    }
}

/// What `find_start` finds is the first start code from `from` on.
pub proof fn lemma_find_start_is_first(b: Seq<u8>, from: int, stream_id: u8)
    requires
        0 <= from,
    ensures
        match find_start(b, from, stream_id) {
            Some(i) => from <= i && start_code_at(b, i, stream_id) && forall|j: int|
                from <= j < i ==> !start_code_at(b, j, stream_id),
            None => forall|j: int| from <= j ==> !start_code_at(b, j, stream_id),
        },
    decreases b.len() - from,
{
    if from + 4 <= b.len() && !start_code_at(b, from, stream_id) {
        lemma_find_start_is_first(b, from + 1, stream_id);
    }
}

/// Every unit that is cut off starts with the start code of the stream id
/// and holds at least the six bytes up to its length field.
pub proof fn lemma_units_start_with_code(b: Seq<u8>, stream_id: u8, i: int)
    requires
        0 <= i < drain(b, stream_id).units.len(),
    ensures
        start_code_at(drain(b, stream_id).units[i], 0, stream_id),
        drain(b, stream_id).units[i].len() >= 6,
    decreases b.len(),
{
    let a = aligned_part(b, stream_id);
    let n = first_unit(a, stream_id).unwrap();
    if be16(a, 4) == 0 {
        lemma_find_start_is_first(a, header_size(a), stream_id);
    }
    if i > 0 {
        lemma_units_start_with_code(a.subrange(n, a.len() as int), stream_id, i - 1);
    }
}

/// With a bound, the waiting bytes never outgrow it: an extractor that is
/// within its bound is within it after any packet.
pub proof fn lemma_pending_stays_bounded(x: ExtractorView, p: Seq<u8>)
    requires
        x.buffer_max >= 0,
        x.pending.len() <= x.buffer_max,
    ensures
        extractor_after(x, p).state.pending.len() <= x.buffer_max,
        extractor_after(x, p).state.buffer_max == x.buffer_max,
{
}

/// Taking `a` packets and then the `b` that follow them gives the units of
/// the one and then the units of the other, and leaves the extractor where
/// taking all `a + b` at once leaves it: how a stream is cut into writes
/// changes neither the units nor their order.
pub proof fn lemma_extracted_in_two_parts(x: ExtractorView, s: Seq<u8>, a: nat, b: nat)
    requires
        (a + b) * 188 <= s.len(),
    ensures
        ({
            let first = extracted(x, s, a);
            let second = extracted(first.state, s.subrange((a * 188) as int, s.len() as int), b);
            extracted(x, s, a + b) == (Extracted {
                state: second.state,
                units: first.units + second.units,
            })
        }),
    decreases b,
{
    let first = extracted(x, s, a);
    let rest = s.subrange((a * 188) as int, s.len() as int);
    if b > 0 {
        lemma_extracted_in_two_parts(x, s, a, (b - 1) as nat);
        assert(packet_at(rest, b - 1) =~= packet_at(s, a + b - 1));
        let before = extracted(first.state, rest, (b - 1) as nat);
        let step = extractor_after(before.state, packet_at(rest, b - 1));
        assert((first.units + before.units) + step.units =~= first.units + (before.units
            + step.units));
    }
}

} // verus!
