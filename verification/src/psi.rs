//! Program-specific information: what a whole section says, read as a
//! program association table or as a program map table.
//!
//! A section is a run of bytes: table id, a 12-bit length that counts what
//! follows it, a five-byte long-form header, the table's body, and a
//! checksum over everything before it.
use vstd::prelude::*;
use vstd::slice::{slice_subrange, slice_to_vec};
use crate::crc::{crc32, crc32_of};

verus! {

/// Table id of a program association table.
pub const TABLE_ID_PAT: u8 = 0;

/// Table id of a program map table.
pub const TABLE_ID_PMT: u8 = 2;

/// The 16-bit number at `i`, most significant byte first.
pub open spec fn be16(s: Seq<u8>, i: int) -> int {
    s[i] as int * 256 + s[i + 1] as int
}

/// The 32-bit number at `i`, most significant byte first.
pub open spec fn be32(s: Seq<u8>, i: int) -> int {
    ((s[i] as int * 256 + s[i + 1] as int) * 256 + s[i + 2] as int) * 256 + s[i + 3] as int
}

/// The 13-bit packet identifier in the two bytes at `i`.
pub open spec fn pid13(s: Seq<u8>, i: int) -> int {
    (s[i] as int % 32) * 256 + s[i + 1] as int
}

/// The 12-bit length in the two bytes at `i`.
pub open spec fn len12(s: Seq<u8>, i: int) -> int {
    (s[i] as int % 16) * 256 + s[i + 1] as int
}

/// The section_length field: how many bytes follow it.
pub open spec fn section_length(s: Seq<u8>) -> int {
    len12(s, 1)
}

/// How long the section that starts `s` is, header and checksum included.
pub open spec fn section_size(s: Seq<u8>) -> int {
    3 + section_length(s)
}

/// The 5-bit version_number of a section.
pub open spec fn version_of(s: Seq<u8>) -> int {
    (s[5] as int / 2) % 32
}

/// `s` is one whole section in the long form, and its checksum is the one
/// its bytes give. A section that is not is malformed.
pub open spec fn section_valid(s: Seq<u8>) -> bool {
    &&& s.len() >= 12
    &&& s.len() == section_size(s)
    &&& s[1] as int / 128 == 1
    &&& crc32_of(s.subrange(0, s.len() - 4)) == be32(s, s.len() - 4)
}

/// `s` is a valid section, and it is in force: current, not next.
pub open spec fn section_ok(s: Seq<u8>) -> bool {
    section_valid(s) && s[5] as int % 2 == 1
}

/// One line of a program association table.
#[derive(Clone, Copy, Debug, PartialEq, Eq, Structural)]
pub struct PatEntry {
    pub program_number: u16,
    pub pmt_pid: u16,
}

/// What a program association table says.
pub struct PatView {
    pub transport_stream_id: u16,
    pub version: u8,
    pub entries: Seq<PatEntry>,
}

/// A program association table, read from its section.
#[derive(Clone, Debug)]
pub struct Pat {
    pub transport_stream_id: u16,
    pub version: u8,
    /// The programs in the table's order; the network entry (program
    /// number 0) is not one.
    pub entries: Vec<PatEntry>,
}

impl View for Pat {
    type V = PatView;

    open spec fn view(&self) -> PatView {
        PatView {
            transport_stream_id: self.transport_stream_id,
            version: self.version,
            entries: self.entries@,
        }
    }
}

/// The table line in the four bytes at `pos`.
pub open spec fn pat_entry(s: Seq<u8>, pos: int) -> PatEntry {
    PatEntry { program_number: be16(s, pos) as u16, pmt_pid: pid13(s, pos + 2) as u16 }
}

/// The programs among the first `n` lines of the table in `s`.
pub open spec fn pat_entries(s: Seq<u8>, n: nat) -> Seq<PatEntry>
    decreases n,
{
    if n == 0 {
        Seq::empty()
    } else {
        let before = pat_entries(s, (n - 1) as nat);
        let pos = 8 + 4 * (n - 1);
        if be16(s, pos) == 0 {
            before
        } else {
            before.push(pat_entry(s, pos))
        }
    }
}

/// How many whole lines lie between the header and the checksum.
pub open spec fn pat_line_count(s: Seq<u8>) -> nat {
    ((s.len() - 12) / 4) as nat
}

/// What `s` says as a program association table; `None` where it is not a
/// valid section with that table id.
pub open spec fn pat_of(s: Seq<u8>) -> Option<PatView> {
    if section_ok(s) && s[0] == 0 {
        Some(
            PatView {
                transport_stream_id: be16(s, 3) as u16,
                version: version_of(s) as u8,
                entries: pat_entries(s, pat_line_count(s)),
            },
        )
    } else {
        None
    }
}

/// What an elementary stream of a program is.
pub struct EsView {
    pub pid: u16,
    pub stream_type: u8,
    pub descriptors: Seq<u8>,
}

/// An elementary stream of a program.
#[derive(Clone, Debug)]
pub struct ElementaryStream {
    pub pid: u16,
    pub stream_type: u8,
    /// The stream's descriptor loop, as it stands in the table.
    pub descriptors: Vec<u8>,
}

impl ElementaryStream {
    /// The stream's descriptors, one by one.
    pub fn descriptor_list(&self) -> (r: Vec<Descriptor>)
        ensures
            descriptor_views(r@) == descriptors_in(self@.descriptors, 0),
    {
        parse_descriptors(self.descriptors.as_slice())
    }
}

impl View for ElementaryStream {
    type V = EsView;

    open spec fn view(&self) -> EsView {
        EsView { pid: self.pid, stream_type: self.stream_type, descriptors: self.descriptors@ }
    }
}

/// The views of a run of elementary streams.
pub open spec fn es_views(v: Seq<ElementaryStream>) -> Seq<EsView> {
    Seq::new(v.len(), |i: int| v[i]@)
}

/// What a descriptor is: a tag, and the bytes that belong to it.
pub struct DescriptorView {
    pub tag: u8,
    pub data: Seq<u8>,
}

/// A descriptor of an elementary stream.
#[derive(Clone, Debug)]
pub struct Descriptor {
    pub tag: u8,
    pub data: Vec<u8>,
}

impl View for Descriptor {
    type V = DescriptorView;

    open spec fn view(&self) -> DescriptorView {
        DescriptorView { tag: self.tag, data: self.data@ }
    }
}

/// The views of a run of descriptors.
pub open spec fn descriptor_views(v: Seq<Descriptor>) -> Seq<DescriptorView> {
    Seq::new(v.len(), |i: int| v[i]@)
}

/// The descriptors in a descriptor loop from `pos` on, as long as whole
/// ones fit: each is a tag, a length, and that many bytes.
pub open spec fn descriptors_in(raw: Seq<u8>, pos: int) -> Seq<DescriptorView>
    decreases raw.len() - pos,
{
    if pos < 0 || pos + 2 > raw.len() || pos + 2 + raw[pos + 1] > raw.len() {
        Seq::empty()
    } else {
        seq![
            DescriptorView {
                tag: raw[pos],
                data: raw.subrange(pos + 2, pos + 2 + raw[pos + 1] as int),
            },
        ] + descriptors_in(raw, pos + 2 + raw[pos + 1] as int)
    }
}

/// What a program map table says.
pub struct PmtView {
    pub program_number: u16,
    pub version: u8,
    pub pcr_pid: u16,
    pub streams: Seq<EsView>,
}

/// A program map table, read from its section.
#[derive(Clone, Debug)]
pub struct Pmt {
    pub program_number: u16,
    pub version: u8,
    pub pcr_pid: u16,
    pub streams: Vec<ElementaryStream>,
}

impl View for Pmt {
    type V = PmtView;

    open spec fn view(&self) -> PmtView {
        PmtView {
            program_number: self.program_number,
            version: self.version,
            pcr_pid: self.pcr_pid,
            streams: es_views(self.streams@),
        }
    }
}

/// The stream entry at `pos`: type, identifier, and as many descriptor bytes
/// as its length field says.
pub open spec fn es_at(s: Seq<u8>, pos: int) -> EsView {
    EsView {
        pid: pid13(s, pos + 1) as u16,
        stream_type: s[pos],
        descriptors: s.subrange(pos + 5, pos + 5 + len12(s, pos + 3)),
    }
}

/// The stream entries from `pos` up to `end`, as long as whole ones fit.
pub open spec fn es_list(s: Seq<u8>, pos: int, end: int) -> Seq<EsView>
    decreases end - pos,
{
    if pos < 0 || pos + 5 > end || pos + 5 + len12(s, pos + 3) > end {
        Seq::empty()
    } else {
        seq![es_at(s, pos)] + es_list(s, pos + 5 + len12(s, pos + 3), end)
    }
}

/// What `s` says as a program map table; `None` where it is not a valid
/// section with that table id, or where its program descriptors do not fit.
pub open spec fn pmt_of(s: Seq<u8>) -> Option<PmtView> {
    if section_ok(s) && s[0] == 2 && s.len() >= 16 && 12 + len12(s, 10) <= s.len() - 4 {
        Some(
            PmtView {
                program_number: be16(s, 3) as u16,
                version: version_of(s) as u8,
                pcr_pid: pid13(s, 8) as u16,
                streams: es_list(s, 12 + len12(s, 10), s.len() - 4),
            },
        )
    } else {
        None
    }
}

fn read16(s: &[u8], i: usize) -> (r: u16)
    requires
        i + 1 < s@.len(),
    ensures
        r == be16(s@, i as int),
{
    s[i] as u16 * 256 + s[i + 1] as u16
}

fn read_pid(s: &[u8], i: usize) -> (r: u16)
    requires
        i + 1 < s@.len(),
    ensures
        r == pid13(s@, i as int),
        r < 8192,
{
    (s[i] % 32) as u16 * 256 + s[i + 1] as u16
}

fn read_len(s: &[u8], i: usize) -> (r: usize)
    requires
        i + 1 < s@.len(),
    ensures
        r == len12(s@, i as int),
        r < 4096,
{
    (s[i] % 16) as usize * 256 + s[i + 1] as usize
}

/// Whether `s` is one whole, current section with the right checksum.
pub fn check_section(s: &[u8]) -> (r: bool)
    ensures
        r == section_ok(s@),
{
    valid_section(s) && s[5] % 2 == 1
}

/// Whether `s` is one whole section with the right checksum.
pub fn valid_section(s: &[u8]) -> (r: bool)
    ensures
        r == section_valid(s@),
{
    let len: usize = s.len();
    if len < 12 {
        return false;
    }
    if len != 3 + read_len(s, 1) {
        return false;
    }
    if s[1] / 128 != 1 {
        return false;
    }
    let stored: u32 = ((s[len - 4] as u32 * 256 + s[len - 3] as u32) * 256 + s[len - 2] as u32)
        * 256 + s[len - 1] as u32;
    crc32(slice_subrange(s, 0, len - 4)) == stored
}

/// Reads a section as a program association table.
pub fn parse_pat(s: &[u8]) -> (r: Option<Pat>)
    ensures
        match r {
            Some(t) => pat_of(s@) == Some(t@),
            None => pat_of(s@).is_none(),
        },
{
    if valid_section(s) {
        read_pat(s)
    } else {
        None
    }
}

/// Reads a valid section as a program association table.
pub fn read_pat(s: &[u8]) -> (r: Option<Pat>)
    requires
        section_valid(s@),
    ensures
        match r {
            Some(t) => pat_of(s@) == Some(t@),
            None => pat_of(s@).is_none(),
        },
{
    if s[5] % 2 != 1 || s[0] != TABLE_ID_PAT {
        return None;
    }
    let lines: usize = (s.len() - 12) / 4;
    let mut entries: Vec<PatEntry> = Vec::new();
    let mut k: usize = 0;
    while k < lines
        invariant
            k <= lines,
            lines == pat_line_count(s@),
            12 <= s@.len() <= 4098,
            entries@ == pat_entries(s@, k as nat),
        decreases lines - k,
    {
        let pos: usize = 8 + 4 * k;
        let program_number: u16 = read16(s, pos);
        if program_number != 0 {
            entries.push(PatEntry { program_number, pmt_pid: read_pid(s, pos + 2) });
        }
        k += 1;
    }
    Some(Pat { transport_stream_id: read16(s, 3), version: (s[5] / 2) % 32, entries })
}

/// Reads a section as a program map table.
pub fn parse_pmt(s: &[u8]) -> (r: Option<Pmt>)
    ensures
        match r {
            Some(t) => pmt_of(s@) == Some(t@),
            None => pmt_of(s@).is_none(),
        },
{
    if valid_section(s) {
        read_pmt(s)
    } else {
        None
    }
}

/// Reads a valid section as a program map table.
pub fn read_pmt(s: &[u8]) -> (r: Option<Pmt>)
    requires
        section_valid(s@),
    ensures
        match r {
            Some(t) => pmt_of(s@) == Some(t@),
            None => pmt_of(s@).is_none(),
        },
{
    if s[5] % 2 != 1 || s[0] != TABLE_ID_PMT || s.len() < 16 {
        return None;
    }
    let end: usize = s.len() - 4;
    let start: usize = 12 + read_len(s, 10);
    if start > end {
        return None;
    }
    let mut streams: Vec<ElementaryStream> = Vec::new();
    let mut pos: usize = start;
    assert(es_views(streams@) + es_list(s@, pos as int, end as int) =~= es_list(
        s@,
        start as int,
        end as int,
    ));
    while pos + 5 <= end
        invariant
            start <= pos <= end,
            end == s@.len() - 4,
            s@.len() <= 4098,
            es_views(streams@) + es_list(s@, pos as int, end as int) == es_list(
                s@,
                start as int,
                end as int,
            ),
        ensures
            es_views(streams@) == es_list(s@, start as int, end as int),
        decreases end - pos,
    {
        let info: usize = read_len(s, pos + 3);
        if pos + 5 + info > end {
            break;
        }
        let stream = ElementaryStream {
            pid: read_pid(s, pos + 1),
            stream_type: s[pos],
            descriptors: slice_to_vec(slice_subrange(s, pos + 5, pos + 5 + info)),
        };
        proof {
            let next = pos + 5 + info;
            assert(es_list(s@, pos as int, end as int) == seq![es_at(s@, pos as int)] + es_list(
                s@,
                next,
                end as int,
            ));
            let rest = es_list(s@, next, end as int);
            assert((es_views(streams@) + seq![stream@]) + rest =~= es_views(streams@) + (
            seq![stream@] + rest));
        }
        streams.push(stream);
        pos = pos + 5 + info;
    }
    Some(
        Pmt {
            program_number: read16(s, 3),
            version: (s[5] / 2) % 32,
            pcr_pid: read_pid(s, 8),
            streams,
        },
    )
}

/// Reads the descriptors of a descriptor loop, in their order.
pub fn parse_descriptors(raw: &[u8]) -> (r: Vec<Descriptor>)
    ensures
        descriptor_views(r@) == descriptors_in(raw@, 0),
{
    let len: usize = raw.len();
    let mut out: Vec<Descriptor> = Vec::new();
    let mut pos: usize = 0;
    while pos < len && len - pos >= 2
        invariant
            pos <= len == raw@.len(),
            descriptor_views(out@) + descriptors_in(raw@, pos as int) == descriptors_in(raw@, 0),
        ensures
            descriptor_views(out@) == descriptors_in(raw@, 0),
        decreases len - pos,
    {
        let size: usize = raw[pos + 1] as usize;
        if len - pos - 2 < size {
            assert(descriptor_views(out@) + Seq::<DescriptorView>::empty() =~= descriptor_views(
                out@,
            ));
            break ;
        }
        let d = Descriptor {
            tag: raw[pos],
            data: slice_to_vec(slice_subrange(raw, pos + 2, pos + 2 + size)),
        };
        proof {
            let rest = descriptors_in(raw@, pos + 2 + size);
            assert((descriptor_views(out@) + seq![d@]) + rest =~= descriptor_views(out@) + (
            seq![d@] + rest));
        }
        out.push(d);
        pos = pos + 2 + size;
    }
    proof {
        if !(pos < len && len - pos >= 2) {
            assert(descriptor_views(out@) + Seq::<DescriptorView>::empty() =~= descriptor_views(
                out@,
            ));
        }
    }
    out
}

/// A copy of a run of bytes.
pub fn copy_bytes(v: &Vec<u8>) -> (r: Vec<u8>)
    ensures
        r@ == v@,
{
    slice_to_vec(v.as_slice())
}

/// A copy of a run of elementary streams.
pub fn copy_streams(v: &Vec<ElementaryStream>) -> (r: Vec<ElementaryStream>)
    ensures
        es_views(r@) == es_views(v@),
{
    let mut out: Vec<ElementaryStream> = Vec::new();
    let mut i: usize = 0;
    while i < v.len()
        invariant
            i <= v@.len(),
            out@.len() == i,
            forall|j: int| 0 <= j < i ==> out@[j]@ == v@[j]@,
        decreases v@.len() - i,
    {
        out.push(
            ElementaryStream {
                pid: v[i].pid,
                stream_type: v[i].stream_type,
                descriptors: copy_bytes(&v[i].descriptors),
            },
        );
        i += 1;
    }
    out
}

} // verus!
