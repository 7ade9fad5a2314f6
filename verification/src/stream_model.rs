//! The stream model: which programs a transport stream carries, and which
//! elementary streams each of them has, gathered packet by packet from the
//! program association table and the program map tables it refers to.
use vstd::prelude::*;
use vstd::slice::slice_subrange;
use crate::counter::{bump, bumped};
use crate::error::Error;
use crate::packet::{
    aligned, bytes_of, is_packet, packet_at, payload, payload_of, payload_unit_start, pid,
    pid_of, unit_start,
};
use crate::psi::{
    copy_streams, es_views, pat_of, pmt_of, read_pat, read_pmt, section_size, section_valid,
    valid_section, ElementaryStream, EsView, PatEntry, Pmt, PmtView,
};

verus! {

/// The packet identifier that carries the program association table.
pub const PAT_PID: u16 = 0;

/// The first byte of `b` is no table id but stuffing.
pub open spec fn is_stuffing(b: Seq<u8>) -> bool {
    b.len() > 0 && b[0] == 0xFFu8
}

/// `b` holds a whole section at its front.
pub open spec fn whole(b: Seq<u8>) -> bool {
    b.len() >= 3 && b.len() >= section_size(b)
}

/// The section in progress behind a run of bytes, and the whole sections
/// that stand before it.
pub struct Gathered {
    /// The section in progress, if any.
    pub assembly: Option<Seq<u8>>,
    /// The sections that became whole, in their order.
    pub sections: Seq<Seq<u8>>,
}

/// The sections of `b`, one behind the other from its first byte, up to
/// the stuffing or to the section that is not whole yet.
pub open spec fn sections_of(b: Seq<u8>) -> Gathered
    decreases b.len(),
{
    if b.len() == 0 || is_stuffing(b) {
        Gathered { assembly: None, sections: Seq::empty() }
    } else if !whole(b) {
        Gathered { assembly: Some(b), sections: Seq::empty() }
    } else {
        let rest = sections_of(b.subrange(section_size(b), b.len() as int));
        Gathered {
            assembly: rest.assembly,
            sections: seq![b.subrange(0, section_size(b))] + rest.sections,
        }
    }
}

/// A section in progress takes more bytes: every section that they make
/// whole is handed out. With nothing in progress the bytes are passed over.
pub open spec fn gather(a: Option<Seq<u8>>, more: Seq<u8>) -> Gathered {
    match a {
        None => Gathered { assembly: None, sections: Seq::empty() },
        Some(have) => sections_of(have + more),
    }
}

/// The assembly of one identifier takes a packet. A packet without payload
/// changes nothing. One that starts no section continues the section in
/// progress. One that starts a section gives the bytes before the pointer
/// target to the section in progress, and starts anew at the target; where
/// the pointer leads out of the packet, nothing is in progress afterwards.
pub open spec fn assemble(a: Option<Seq<u8>>, p: Seq<u8>) -> Gathered {
    let pl = payload_of(p);
    if pl.len() == 0 {
        Gathered { assembly: a, sections: Seq::empty() }
    } else if !unit_start(p) {
        gather(a, pl)
    } else if 1 + pl[0] > pl.len() {
        Gathered { assembly: None, sections: Seq::empty() }
    } else {
        let before = gather(a, pl.subrange(1, 1 + pl[0]));
        let behind = sections_of(pl.subrange(1 + pl[0], pl.len() as int));
        Gathered { assembly: behind.assembly, sections: before.sections + behind.sections }
    }
}

/// Puts the sections of one packet identifier together from the payloads of
/// its packets.
#[derive(Debug)]
pub struct SectionAssembler {
    active: bool,
    buf: Vec<u8>,
}

impl View for SectionAssembler {
    type V = Option<Seq<u8>>;

    closed spec fn view(&self) -> Option<Seq<u8>> {
        if self.active {
            Some(self.buf@)
        } else {
            None
        }
    }
}

impl SectionAssembler {
    /// An assembler with no section in progress.
    pub fn new() -> (r: Self)
        ensures
            r@.is_none(),
    {
        SectionAssembler { active: false, buf: Vec::new() }
    }

    /// Cuts the whole sections off the front of the buffer.
    fn cut_sections(&mut self, out: &mut Vec<Vec<u8>>)
        requires
            old(self).active,
        ensures
            final(self)@ == sections_of(old(self).buf@).assembly,
            bytes_of(final(out)@) == bytes_of(old(out)@) + sections_of(old(self).buf@).sections,
    {
        loop
            invariant_except_break
                self.active,
                sections_of(self.buf@).assembly == sections_of(old(self).buf@).assembly,
                bytes_of(out@) + sections_of(self.buf@).sections == bytes_of(old(out)@)
                    + sections_of(old(self).buf@).sections,
            ensures
                self@ == sections_of(old(self).buf@).assembly,
                bytes_of(out@) == bytes_of(old(out)@) + sections_of(old(self).buf@).sections,
            decreases self.buf@.len(),
        {
            let len: usize = self.buf.len();
            if len == 0 || self.buf[0] == 0xFF {
                self.active = false;
                break ;
            }
            if len < 3 {
                break ;
            }
            let size: usize = 3 + ((self.buf[1] % 16) as usize * 256 + self.buf[2] as usize);
            if len < size {
                break ;
            }
            let ghost b = self.buf@;
            let mut section: Vec<u8> = self.buf.split_off(size);
            std::mem::swap(&mut self.buf, &mut section);
            proof {
                let rest = sections_of(b.subrange(size as int, b.len() as int));
                assert((bytes_of(out@) + seq![section@]) + rest.sections =~= bytes_of(out@) + (
                seq![section@] + rest.sections));
            }
            out.push(section);
        }
    }

    fn take_more(&mut self, more: &[u8], out: &mut Vec<Vec<u8>>)
        ensures
            final(self)@ == gather(old(self)@, more@).assembly,
            bytes_of(final(out)@) == bytes_of(old(out)@) + gather(old(self)@, more@).sections,
    {
        if !self.active {
            return ;
        }
        self.buf.extend_from_slice(more);
        assert(self.buf@ =~= old(self).buf@ + more@);
        self.cut_sections(out);
    }

    fn start(&mut self, head: &[u8], out: &mut Vec<Vec<u8>>)
        ensures
            final(self)@ == sections_of(head@).assembly,
            bytes_of(final(out)@) == bytes_of(old(out)@) + sections_of(head@).sections,
    {
        self.buf.clear();
        self.buf.extend_from_slice(head);
        assert(self.buf@ =~= head@);
        self.active = true;
        self.cut_sections(out);
    }

    /// Takes one packet of the identifier, and hands out the sections that
    /// it made whole, in their order.
    pub fn push_packet(&mut self, pkt: &[u8]) -> (r: Vec<Vec<u8>>)
        requires
            is_packet(pkt@),
        ensures
            assemble(old(self)@, pkt@) == (Gathered {
                assembly: final(self)@,
                sections: bytes_of(r@),
            }),
    {
        let mut out: Vec<Vec<u8>> = Vec::new();
        assert(bytes_of(out@) =~= Seq::<Seq<u8>>::empty());
        let pl = payload(pkt);
        if pl.len() == 0 {
            return out;
        }
        if !payload_unit_start(pkt) {
            self.take_more(pl, &mut out);
            assert(Seq::<Seq<u8>>::empty() + gather(old(self)@, pl@).sections =~= gather(
                old(self)@,
                pl@,
            ).sections);
            return out;
        }
        let target: usize = 1 + pl[0] as usize;
        if target > pl.len() {
            self.active = false;
            return out;
        }
        self.take_more(slice_subrange(pl, 1, target), &mut out);
        assert(Seq::<Seq<u8>>::empty() + gather(
            old(self)@,
            pl@.subrange(1, target as int),
        ).sections =~= gather(old(self)@, pl@.subrange(1, target as int)).sections);
        self.start(slice_subrange(pl, target, pl.len()), &mut out);
        out
    }
}

/// What the model holds of one program of the association table.
pub struct SlotView {
    pub program_number: u16,
    pub pmt_pid: u16,
    /// The map-table section in progress, if any.
    pub assembly: Option<Seq<u8>>,
    /// The program's map table, in the version that was read last.
    pub pmt: Option<PmtView>,
}

/// A slot wants a section that is a valid map table of its program, where
/// it holds none yet or one of another version.
pub open spec fn slot_wants(slot: SlotView, section: Seq<u8>) -> bool {
    match pmt_of(section) {
        None => false,
        Some(t) => t.program_number == slot.program_number && (slot.pmt.is_none()
            || slot.pmt.unwrap().version != t.version),
    }
}

/// A slot is offered a section: it keeps the map table that it wants, in
/// place of the one it held, and passes over everything else.
pub open spec fn slot_takes(slot: SlotView, section: Seq<u8>) -> SlotView {
    if slot_wants(slot, section) {
        SlotView { pmt: pmt_of(section), ..slot }
    } else {
        slot
    }
}

/// A slot after a packet, and whether the packet gave it a map table.
pub struct SlotStep {
    pub slot: SlotView,
    pub stored: bool,
}

/// A slot is offered the first `n` of a run of sections, in their order.
pub open spec fn slot_takes_all(slot: SlotView, sections: Seq<Seq<u8>>, n: nat) -> SlotStep
    decreases n,
{
    if n == 0 {
        SlotStep { slot: slot, stored: false }
    } else {
        let before = slot_takes_all(slot, sections, (n - 1) as nat);
        SlotStep {
            slot: slot_takes(before.slot, sections[n - 1]),
            stored: before.stored || slot_wants(before.slot, sections[n - 1]),
        }
    }
}

/// A slot sees a packet: one of its map table's identifier goes through the
/// assembly, and the sections that come out are offered to the slot in
/// their order.
pub open spec fn slot_after(slot: SlotView, p: Seq<u8>) -> SlotStep {
    if pid_of(p) != slot.pmt_pid {
        SlotStep { slot: slot, stored: false }
    } else {
        let a = assemble(slot.assembly, p);
        slot_takes_all(SlotView { assembly: a.assembly, ..slot }, a.sections, a.sections.len())
    }
}

/// What a stream model holds.
pub struct ModelView {
    /// An association table was accepted.
    pub has_pat: bool,
    /// Its transport_stream_id.
    pub transport_stream_id: u16,
    /// Its version_number.
    pub version: u8,
    /// The association-table section in progress, if any.
    pub pat_assembly: Option<Seq<u8>>,
    /// One slot for each program of the accepted table, in its order.
    pub slots: Seq<SlotView>,
    /// The model became complete since the current write began.
    pub fresh: bool,
    /// How many malformed sections were dropped.
    pub malformed: u64,
}

/// The model before any packet.
pub open spec fn empty_model() -> ModelView {
    ModelView {
        has_pat: false,
        transport_stream_id: 0,
        version: 0,
        pat_assembly: None,
        slots: Seq::empty(),
        fresh: false,
        malformed: 0,
    }
}

/// The counter `c` once each malformed section among the first `n` is
/// counted: each that is not whole in the long form, or whose checksum is
/// wrong.
pub open spec fn count_malformed(c: u64, sections: Seq<Seq<u8>>, n: nat) -> u64
    decreases n,
{
    if n == 0 {
        c
    } else {
        let before = count_malformed(c, sections, (n - 1) as nat);
        if section_valid(sections[n - 1]) {
            before
        } else {
            bump(before)
        }
    }
}

/// The counter `c` once the malformed sections are counted that the packet
/// completes for a slot.
pub open spec fn slot_counts(c: u64, slot: SlotView, p: Seq<u8>) -> u64 {
    if pid_of(p) != slot.pmt_pid {
        c
    } else {
        let a = assemble(slot.assembly, p);
        count_malformed(c, a.sections, a.sections.len())
    }
}

/// The counter `c` once the malformed sections are counted that the packet
/// completes for the first `n` slots. A section on an identifier that
/// several programs share counts for each of them.
pub open spec fn counted_among(c: u64, slots: Seq<SlotView>, p: Seq<u8>, n: nat) -> u64
    decreases n,
{
    if n == 0 {
        c
    } else {
        slot_counts(counted_among(c, slots, p, (n - 1) as nat), slots[n - 1], p)
    }
}

/// Every program's map table was read.
pub open spec fn all_parsed(slots: Seq<SlotView>) -> bool {
    forall|i: int| 0 <= i < slots.len() ==> (#[trigger] slots[i]).pmt.is_some()
}

/// The slot of a program whose map table is still to come.
pub open spec fn slot_for(e: PatEntry) -> SlotView {
    SlotView { program_number: e.program_number, pmt_pid: e.pmt_pid, assembly: None, pmt: None }
}

/// The slots of the programs of an association table.
pub open spec fn slots_for(entries: Seq<PatEntry>) -> Seq<SlotView> {
    Seq::new(entries.len(), |i: int| slot_for(entries[i]))
}

/// The model is offered a section of the association table's identifier. A
/// valid table is accepted where none was accepted before or where its
/// version differs: whatever was gathered of the programs is discarded, and
/// the collection of their map tables starts anew. Everything else is
/// passed over.
pub open spec fn model_takes_pat(m: ModelView, section: Seq<u8>) -> ModelView {
    match pat_of(section) {
        None => m,
        Some(t) => if !m.has_pat || m.version != t.version {
            ModelView {
                has_pat: true,
                transport_stream_id: t.transport_stream_id,
                version: t.version,
                pat_assembly: m.pat_assembly,
                slots: slots_for(t.entries),
                fresh: t.entries.len() == 0,
                malformed: m.malformed,
            }
        } else {
            m
        },
    }
}

/// The model is offered the first `n` of a run of sections of the
/// association table's identifier, in their order.
pub open spec fn model_takes_pats(m: ModelView, sections: Seq<Seq<u8>>, n: nat) -> ModelView
    decreases n,
{
    if n == 0 {
        m
    } else {
        model_takes_pat(model_takes_pats(m, sections, (n - 1) as nat), sections[n - 1])
    }
}

/// Each slot after the packet.
pub open spec fn slots_after(slots: Seq<SlotView>, p: Seq<u8>) -> Seq<SlotView> {
    Seq::new(slots.len(), |i: int| slot_after(slots[i], p).slot)
}

/// The packet gave one of the first `n` slots a map table.
pub open spec fn stored_among(slots: Seq<SlotView>, p: Seq<u8>, n: nat) -> bool
    decreases n,
{
    n > 0 && (stored_among(slots, p, (n - 1) as nat) || slot_after(slots[n - 1], p).stored)
}

/// The model after one packet. A packet of the association table's
/// identifier goes through that table's assembly, and the sections that
/// come out are offered to the model. Any other packet is shown to every
/// slot; where it gives a slot a map table and no slot is without one
/// then, the model is fresh: it became complete, or it is complete and has
/// changed. The malformed sections among those that the packet completed
/// are counted.
pub open spec fn model_after(m: ModelView, p: Seq<u8>) -> ModelView {
    if pid_of(p) == 0 {
        let a = assemble(m.pat_assembly, p);
        ModelView {
            malformed: count_malformed(m.malformed, a.sections, a.sections.len()),
            ..model_takes_pats(
                ModelView { pat_assembly: a.assembly, ..m },
                a.sections,
                a.sections.len(),
            )
        }
    } else {
        let slots = slots_after(m.slots, p);
        ModelView {
            slots: slots,
            fresh: m.fresh || (m.has_pat && stored_among(m.slots, p, m.slots.len()) && all_parsed(
                slots,
            )),
            malformed: counted_among(m.malformed, m.slots, p, m.slots.len()),
            ..m
        }
    }
}

/// The model after the first `n` packets of `s`, in order.
pub open spec fn model_after_packets(m: ModelView, s: Seq<u8>, n: nat) -> ModelView
    decreases n,
{
    if n == 0 {
        m
    } else {
        model_after(model_after_packets(m, s, (n - 1) as nat), packet_at(s, n - 1))
    }
}

/// The model as a write finds it: not fresh.
pub open spec fn unflagged(m: ModelView) -> ModelView {
    ModelView { fresh: false, ..m }
}

/// Where the builder stands.
#[derive(Clone, Copy, Debug, PartialEq, Eq, Structural)]
pub enum ModelState {
    /// No association table was accepted, and none is in progress.
    AwaitingPat,
    /// No association table was accepted; a section of one is in progress.
    ParsingPat,
    /// An association table was accepted; map tables are missing.
    AwaitingPmts,
    /// The association table and every map table it refers to were read.
    Complete,
}

/// Where a model stands.
pub open spec fn state_of(m: ModelView) -> ModelState {
    if !m.has_pat {
        if m.pat_assembly.is_some() {
            ModelState::ParsingPat
        } else {
            ModelState::AwaitingPat
        }
    } else if all_parsed(m.slots) {
        ModelState::Complete
    } else {
        ModelState::AwaitingPmts
    }
}

/// What a program of a snapshot is.
pub struct ProgramView {
    pub program_number: u16,
    pub pmt_pid: u16,
    pub pcr_pid: u16,
    pub pmt_version: u8,
    pub streams: Seq<EsView>,
}

/// What a snapshot is.
pub struct TopologyView {
    pub transport_stream_id: u16,
    pub version: u8,
    pub programs: Seq<ProgramView>,
}

/// The program that a slot with its map table stands for.
pub open spec fn program_of(slot: SlotView) -> ProgramView {
    ProgramView {
        program_number: slot.program_number,
        pmt_pid: slot.pmt_pid,
        pcr_pid: slot.pmt.unwrap().pcr_pid,
        pmt_version: slot.pmt.unwrap().version,
        streams: slot.pmt.unwrap().streams,
    }
}

/// The snapshot of a complete model.
pub open spec fn topology_of(m: ModelView) -> TopologyView {
    TopologyView {
        transport_stream_id: m.transport_stream_id,
        version: m.version,
        programs: Seq::new(m.slots.len(), |i: int| program_of(m.slots[i])),
    }
}

/// A program of a snapshot.
#[derive(Clone, Debug)]
pub struct Program {
    pub program_number: u16,
    pub pmt_pid: u16,
    pub pcr_pid: u16,
    pub pmt_version: u8,
    pub streams: Vec<ElementaryStream>,
}

impl View for Program {
    type V = ProgramView;

    open spec fn view(&self) -> ProgramView {
        ProgramView {
            program_number: self.program_number,
            pmt_pid: self.pmt_pid,
            pcr_pid: self.pcr_pid,
            pmt_version: self.pmt_version,
            streams: es_views(self.streams@),
        }
    }
}

/// The views of a run of programs.
pub open spec fn program_views(v: Seq<Program>) -> Seq<ProgramView> {
    Seq::new(v.len(), |i: int| v[i]@)
}

/// A snapshot of the stream's topology. It belongs to whoever asked for
/// it; the builder keeps nothing of it.
#[derive(Clone, Debug)]
pub struct Topology {
    pub transport_stream_id: u16,
    pub version: u8,
    pub programs: Vec<Program>,
}

impl View for Topology {
    type V = TopologyView;

    open spec fn view(&self) -> TopologyView {
        TopologyView {
            transport_stream_id: self.transport_stream_id,
            version: self.version,
            programs: program_views(self.programs@),
        }
    }
}

impl Topology {
    /// How many programs the snapshot has.
    pub fn program_count(&self) -> (r: usize)
        ensures
            r == self@.programs.len(),
    {
        self.programs.len()
    }
}

#[derive(Debug)]
struct Slot {
    program_number: u16,
    pmt_pid: u16,
    assembler: SectionAssembler,
    pmt: Option<Pmt>,
}

spec fn opt_pmt(o: Option<Pmt>) -> Option<PmtView> {
    match o {
        Some(t) => Some(t@),
        None => None,
    }
}

impl View for Slot {
    type V = SlotView;

    closed spec fn view(&self) -> SlotView {
        SlotView {
            program_number: self.program_number,
            pmt_pid: self.pmt_pid,
            assembly: self.assembler@,
            pmt: opt_pmt(self.pmt),
        }
    }
}

spec fn slot_views(v: Seq<Slot>) -> Seq<SlotView> {
    Seq::new(v.len(), |i: int| v[i]@)
}

impl Slot {
    fn holds_version(&self, version: u8) -> (r: bool)
        ensures
            r == (self@.pmt.is_some() && self@.pmt.unwrap().version == version),
    {
        match &self.pmt {
            Some(held) => held.version == version,
            None => false,
        }
    }

    fn take(&mut self, section: &[u8]) -> (stored: bool)
        requires
            section_valid(section@),
        ensures
            final(self)@ == slot_takes(old(self)@, section@),
            stored == slot_wants(old(self)@, section@),
    {
        if let Some(table) = read_pmt(section) {
            if table.program_number == self.program_number && !self.holds_version(table.version) {
                self.pmt = Some(table);
                return true;
            }
        }
        false
    }

    /// Shows the slot a packet. `malformed` is the count of malformed
    /// sections so far; it comes back with those of this packet added.
    fn push_packet(&mut self, pkt: &[u8], id: u16, malformed: u64) -> (r: (bool, u64))
        requires
            is_packet(pkt@),
            id == pid_of(pkt@),
        ensures
            final(self)@ == slot_after(old(self)@, pkt@).slot,
            r.0 == slot_after(old(self)@, pkt@).stored,
            r.1 == slot_counts(malformed, old(self)@, pkt@),
    {
        if id != self.pmt_pid {
            return (false, malformed);
        }
        let sections = self.assembler.push_packet(pkt);
        let mut stored: bool = false;
        let mut count: u64 = malformed;
        let mut i: usize = 0;
        while i < sections.len()
            invariant
                i <= sections@.len(),
                id == pid_of(pkt@) == self.pmt_pid == old(self).pmt_pid,
                assemble(old(self)@.assembly, pkt@) == (Gathered {
                    assembly: self.assembler@,
                    sections: bytes_of(sections@),
                }),
                (SlotStep { slot: self@, stored: stored }) == slot_takes_all(
                    SlotView { assembly: self.assembler@, ..old(self)@ },
                    bytes_of(sections@),
                    i as nat,
                ),
                count == count_malformed(malformed, bytes_of(sections@), i as nat),
            decreases sections@.len() - i,
        {
            if valid_section(sections[i].as_slice()) {
                let here: bool = self.take(sections[i].as_slice());
                stored = stored || here;
            } else {
                count = bumped(count);
            }
            i += 1;
        }
        (stored, count)
    }
}

/// The Stream Model builder.
#[derive(Debug)]
pub struct StreamModel {
    has_pat: bool,
    transport_stream_id: u16,
    version: u8,
    pat_assembler: SectionAssembler,
    slots: Vec<Slot>,
    fresh: bool,
    malformed: u64,
}

impl View for StreamModel {
    type V = ModelView;

    closed spec fn view(&self) -> ModelView {
        ModelView {
            has_pat: self.has_pat,
            transport_stream_id: self.transport_stream_id,
            version: self.version,
            pat_assembly: self.pat_assembler@,
            slots: slot_views(self.slots@),
            fresh: self.fresh,
            malformed: self.malformed,
        }
    }
}

impl StreamModel {
    /// A builder that has seen no packet.
    pub fn new() -> (r: Self)
        ensures
            r@ == empty_model(),
    {
        let r = StreamModel {
            has_pat: false,
            transport_stream_id: 0,
            version: 0,
            pat_assembler: SectionAssembler::new(),
            slots: Vec::new(),
            fresh: false,
            malformed: 0,
        };
        assert(r@.slots =~= Seq::<SlotView>::empty());
        r
    }

    fn take_pat(&mut self, section: &[u8])
        requires
            section_valid(section@),
        ensures
            final(self)@ == model_takes_pat(old(self)@, section@),
    {
        {
            if let Some(table) = read_pat(section) {
                if !self.has_pat || self.version != table.version {
                    let mut slots: Vec<Slot> = Vec::new();
                    let mut i: usize = 0;
                    while i < table.entries.len()
                        invariant
                            i <= table.entries@.len(),
                            slots@.len() == i,
                            forall|j: int| 0 <= j < i ==> slots@[j]@ == slot_for(table.entries@[j]),
                        decreases table.entries@.len() - i,
                    {
                        let e: PatEntry = table.entries[i];
                        slots.push(
                            Slot {
                                program_number: e.program_number,
                                pmt_pid: e.pmt_pid,
                                assembler: SectionAssembler::new(),
                                pmt: None,
                            },
                        );
                        i += 1;
                    }
                    assert(slot_views(slots@) =~= slots_for(table.entries@));
                    self.has_pat = true;
                    self.transport_stream_id = table.transport_stream_id;
                    self.version = table.version;
                    self.fresh = table.entries.len() == 0;
                    self.slots = slots;
                }
            }
        }
    }

    fn every_slot_parsed(&self) -> (r: bool)
        ensures
            r == all_parsed(self@.slots),
    {
        let mut i: usize = 0;
        while i < self.slots.len()
            invariant
                i <= self.slots@.len(),
                forall|j: int| 0 <= j < i ==> (#[trigger] slot_views(self.slots@)[j]).pmt.is_some(),
            decreases self.slots@.len() - i,
        {
            if self.slots[i].pmt.is_none() {
                assert(slot_views(self.slots@)[i as int].pmt.is_none());
                return false;
            }
            i += 1;
        }
        true
    }

    /// Takes one packet.
    pub fn push_packet(&mut self, pkt: &[u8])
        requires
            is_packet(pkt@),
        ensures
            final(self)@ == model_after(old(self)@, pkt@),
    {
        let id: u16 = pid(pkt);
        if id == PAT_PID {
            let sections = self.pat_assembler.push_packet(pkt);
            let mut i: usize = 0;
            while i < sections.len()
                invariant
                    i <= sections@.len(),
                    pid_of(pkt@) == 0,
                    assemble(old(self)@.pat_assembly, pkt@) == (Gathered {
                        assembly: self.pat_assembler@,
                        sections: bytes_of(sections@),
                    }),
                    self@ == (ModelView {
                        malformed: count_malformed(
                            old(self)@.malformed,
                            bytes_of(sections@),
                            i as nat,
                        ),
                        ..model_takes_pats(
                            ModelView { pat_assembly: self.pat_assembler@, ..old(self)@ },
                            bytes_of(sections@),
                            i as nat,
                        )
                    }),
                decreases sections@.len() - i,
            {
                if valid_section(sections[i].as_slice()) {
                    self.take_pat(sections[i].as_slice());
                } else {
                    self.malformed = bumped(self.malformed);
                }
                i += 1;
            }
            return ;
        }
        let mut stored: bool = false;
        let mut i: usize = 0;
        while i < self.slots.len()
            invariant
                i <= self.slots@.len(),
                stored == stored_among(old(self)@.slots, pkt@, i as nat),
                self.malformed == counted_among(
                    old(self)@.malformed,
                    old(self)@.slots,
                    pkt@,
                    i as nat,
                ),
                is_packet(pkt@),
                id == pid_of(pkt@),
                self.slots@.len() == old(self).slots@.len(),
                self.has_pat == old(self).has_pat,
                self.transport_stream_id == old(self).transport_stream_id,
                self.version == old(self).version,
                self.pat_assembler == old(self).pat_assembler,
                self.fresh == old(self).fresh,
                forall|j: int|
                    0 <= j < i ==> self.slots@[j]@ == slot_after(old(self).slots@[j]@, pkt@).slot,
                forall|j: int| i <= j < self.slots@.len() ==> self.slots@[j] == old(self).slots@[j],
            decreases self.slots@.len() - i,
        {
            let (here, count) = self.slots[i].push_packet(pkt, id, self.malformed);
            stored = stored || here;
            self.malformed = count;
            i += 1;
        }
        assert(slot_views(self.slots@) =~= slots_after(old(self)@.slots, pkt@));
        if self.has_pat && stored && self.every_slot_parsed() {
            self.fresh = true;
        }
    }

    /// Takes a buffer of whole packets, and says whether the model became
    /// complete while it did, or, being complete, changed.
    ///
    /// A buffer that is not a whole number of packets is refused, and the
    /// model is left as it was.
    pub fn write(&mut self, buf: &[u8]) -> (r: Result<bool, Error>)
        ensures
            !aligned(buf@.len() as int) ==> r == Err::<bool, Error>(
                Error::PartialWrite { len: buf@.len() as usize },
            ) && final(self)@ == old(self)@,
            aligned(buf@.len() as int) ==> final(self)@ == model_after_packets(
                unflagged(old(self)@),
                buf@,
                (buf@.len() / 188) as nat,
            ) && r == Ok::<bool, Error>(final(self)@.fresh),
    {
        let len: usize = buf.len();
        if len % 188 != 0 {
            return Err(Error::PartialWrite { len });
        }
        let count: usize = len / 188;
        self.fresh = false;
        let mut k: usize = 0;
        while k < count
            invariant
                k <= count,
                count * 188 == buf@.len() <= usize::MAX,
                self@ == model_after_packets(unflagged(old(self)@), buf@, k as nat),
            decreases count - k,
        {
            let pkt = slice_subrange(buf, k * 188, k * 188 + 188);
            self.push_packet(pkt);
            k += 1;
        }
        Ok(self.fresh)
    }

    /// How many malformed sections were dropped: sections that were not
    /// whole in the long form, or whose checksum was wrong.
    pub fn malformed_sections(&self) -> (r: u64)
        ensures
            r == self@.malformed,
    {
        self.malformed
    }

    /// Where the builder stands.
    pub fn state(&self) -> (r: ModelState)
        ensures
            r == state_of(self@),
    {
        if !self.has_pat {
            if self.pat_assembler.active {
                ModelState::ParsingPat
            } else {
                ModelState::AwaitingPat
            }
        } else if self.every_slot_parsed() {
            ModelState::Complete
        } else {
            ModelState::AwaitingPmts
        }
    }

    /// A snapshot of the model, once it is complete.
    pub fn query_model(&self) -> (r: Option<Topology>)
        ensures
            match r {
                Some(t) => state_of(self@) == ModelState::Complete && t@ == topology_of(self@),
                None => state_of(self@) != ModelState::Complete,
            },
    {
        if !self.has_pat {
            return None;
        }
        let mut programs: Vec<Program> = Vec::new();
        let mut i: usize = 0;
        while i < self.slots.len()
            invariant
                i <= self.slots@.len(),
                programs@.len() == i,
                forall|j: int| 0 <= j < i ==> (#[trigger] slot_views(self.slots@)[j]).pmt.is_some(),
                forall|j: int| 0 <= j < i ==> programs@[j]@ == program_of(self.slots@[j]@),
            decreases self.slots@.len() - i,
        {
            match &self.slots[i].pmt {
                None => {
                    assert(slot_views(self.slots@)[i as int].pmt.is_none());
                    return None;
                },
                Some(table) => {
                    programs.push(
                        Program {
                            program_number: self.slots[i].program_number,
                            pmt_pid: self.slots[i].pmt_pid,
                            pcr_pid: table.pcr_pid,
                            pmt_version: table.version,
                            streams: copy_streams(&table.streams),
                        },
                    );
                },
            }
            i += 1;
        }
        let t = Topology {
            transport_stream_id: self.transport_stream_id,
            version: self.version,
            programs,
        };
        assert(t@.programs =~= topology_of(self@).programs);
        Some(t)
    }
}

/// Taking `a` packets and then the `b` that follow them is taking all
/// `a + b` at once: how a stream is cut into writes does not change the
/// model.
pub proof fn lemma_model_in_two_parts(m: ModelView, s: Seq<u8>, a: nat, b: nat)
    requires
        (a + b) * 188 <= s.len(),
    ensures
        model_after_packets(
            model_after_packets(m, s, a),
            s.subrange((a * 188) as int, s.len() as int),
            b,
        ) == model_after_packets(m, s, a + b),
    decreases b,
{
    if b > 0 {
        let rest = s.subrange((a * 188) as int, s.len() as int);
        lemma_model_in_two_parts(m, s, a, (b - 1) as nat);
        assert(packet_at(rest, b - 1) =~= packet_at(s, a + b - 1));
    }
}

/// A packet whose identifier is neither the association table's nor that
/// of a program's map table changes nothing.
pub proof fn lemma_other_packets_change_nothing(m: ModelView, p: Seq<u8>)
    requires
        pid_of(p) != 0,
        forall|i: int| 0 <= i < m.slots.len() ==> (#[trigger] m.slots[i]).pmt_pid != pid_of(p),
    ensures
        model_after(m, p) == m,
{
    assert(slots_after(m.slots, p) =~= m.slots);
    lemma_nothing_stored(m.slots, p, m.slots.len());
    lemma_nothing_counted(m.malformed, m.slots, p, m.slots.len());
}

/// Where the packet is of no slot's identifier, nothing is counted.
pub proof fn lemma_nothing_counted(c: u64, slots: Seq<SlotView>, p: Seq<u8>, n: nat)
    requires
        n <= slots.len(),
        forall|i: int| 0 <= i < n ==> (#[trigger] slots[i]).pmt_pid != pid_of(p),
    ensures
        counted_among(c, slots, p, n) == c,
    decreases n,
{
    if n > 0 {
        lemma_nothing_counted(c, slots, p, (n - 1) as nat);
    }
}

/// Where no slot is given a map table, none is stored among them.
pub proof fn lemma_nothing_stored(slots: Seq<SlotView>, p: Seq<u8>, n: nat)
    requires
        n <= slots.len(),
        forall|i: int| 0 <= i < n ==> !slot_after(#[trigger] slots[i], p).stored,
    ensures
        !stored_among(slots, p, n),
    decreases n,
{
    if n > 0 {
        lemma_nothing_stored(slots, p, (n - 1) as nat);
    }
}

/// A slot passes over a map table of the version that it holds: a table
/// that is sent again and again is stored once.
pub proof fn lemma_held_version_is_passed_over(slot: SlotView, section: Seq<u8>)
    requires
        slot.pmt.is_some(),
        pmt_of(section).is_some(),
        pmt_of(section).unwrap().version == slot.pmt.unwrap().version,
    ensures
        !slot_wants(slot, section),
        slot_takes(slot, section) == slot,
{
}

/// An association table of the version that the model already holds
/// changes nothing.
pub proof fn lemma_same_version_is_passed_over(m: ModelView, section: Seq<u8>)
    requires
        m.has_pat,
        pat_of(section).is_some(),
        pat_of(section).unwrap().version == m.version,
    ensures
        model_takes_pat(m, section) == m,
{
}

/// A section that is no valid table of its kind in force changes neither
/// the model nor a slot: among others a malformed one, whose assembly does
/// not disturb that of any other identifier.
pub proof fn lemma_malformed_is_dropped(m: ModelView, slot: SlotView, section: Seq<u8>)
    ensures
        pat_of(section).is_none() ==> model_takes_pat(m, section) == m,
        pmt_of(section).is_none() ==> slot_takes(slot, section) == slot,
        !section_valid(section) ==> pat_of(section).is_none() && pmt_of(section).is_none(),
{
}

/// Where the model was not fresh and is fresh after sections of the
/// association table's identifier, a table without programs was accepted.
pub proof fn lemma_fresh_by_an_empty_table(m: ModelView, sections: Seq<Seq<u8>>, n: nat)
    requires
        !m.fresh,
        model_takes_pats(m, sections, n).fresh,
    ensures
        model_takes_pats(m, sections, n).has_pat,
        model_takes_pats(m, sections, n).slots.len() == 0,
    decreases n,
{
    if n > 0 {
        let before = model_takes_pats(m, sections, (n - 1) as nat);
        if before.fresh {
            lemma_fresh_by_an_empty_table(m, sections, (n - 1) as nat);
        }
    }
}

/// A model is fresh after a packet only if it was fresh before, or if the
/// packet gave it a table that left it complete: the completion flag is
/// raised by a table that was stored, never by a packet that changed
/// nothing.
pub proof fn lemma_fresh_needs_a_table(m: ModelView, p: Seq<u8>)
    requires
        !m.fresh,
        model_after(m, p).fresh,
    ensures
        model_after(m, p) != m,
        state_of(model_after(m, p)) == ModelState::Complete,
{
    if pid_of(p) == 0 {
        let a = assemble(m.pat_assembly, p);
        lemma_fresh_by_an_empty_table(
            ModelView { pat_assembly: a.assembly, ..m },
            a.sections,
            a.sections.len(),
        );
    }
}

/// Every section that is handed out is whole and no more: it is as long
/// as its length field says.
pub proof fn lemma_sections_are_whole(b: Seq<u8>, i: int)
    requires
        0 <= i < sections_of(b).sections.len(),
    ensures
        sections_of(b).sections[i].len() >= 3,
        sections_of(b).sections[i].len() == section_size(sections_of(b).sections[i]),
    decreases b.len(),
{
    let first = b.subrange(0, section_size(b));
    if i > 0 {
        lemma_sections_are_whole(b.subrange(section_size(b), b.len() as int), i - 1);
    } else {
        assert(first[1] == b[1] && first[2] == b[2]);
    }
}

/// A section in progress is shorter than the longest section there can
/// be, 4098 bytes.
pub proof fn lemma_section_in_progress_is_short(b: Seq<u8>)
    ensures
        sections_of(b).assembly.is_some() ==> sections_of(b).assembly.unwrap().len() < 4098,
    decreases b.len(),
{
    if b.len() > 0 && !is_stuffing(b) && whole(b) {
        lemma_section_in_progress_is_short(b.subrange(section_size(b), b.len() as int));
    }
}

/// A section in progress stays shorter than the longest section there
/// can be, 4098 bytes, whatever the packets hold.
pub proof fn lemma_assembly_is_bounded(a: Option<Seq<u8>>, p: Seq<u8>)
    requires
        a.is_some() ==> a.unwrap().len() < 4098,
    ensures
        assemble(a, p).assembly.is_some() ==> assemble(a, p).assembly.unwrap().len() < 4098,
{
    let pl = payload_of(p);
    if pl.len() > 0 {
        if !unit_start(p) {
            if a.is_some() {
                lemma_section_in_progress_is_short(a.unwrap() + pl);
            }
        } else if 1 + pl[0] <= pl.len() {
            lemma_section_in_progress_is_short(pl.subrange(1 + pl[0], pl.len() as int));
        }
    }
}

} // verus!
