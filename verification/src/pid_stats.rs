//! Per-PID counters over a stream of packets: one entry for each of the 8192
//! packet identifiers, in a table that is allocated once.
use vstd::prelude::*;
use vstd::string::StringExecFns;
use crate::counter::{bump, bumped};
use crate::error::Error;
use crate::packet::{
    continuity_counter, continuity_of, discontinuity, discontinuity_indicator, has_payload,
    has_pcr, is_packet, packet_at, payload_present, pcr_present, pid, pid_of,
};
use crate::text::{decimal, digit_text, push_decimal};

verus! {

/// Number of packet identifiers, and of entries in the table.
pub const PID_COUNT: usize = 8192;

/// The counters of one packet identifier.
#[derive(Clone, Copy, Debug, PartialEq, Eq, Structural)]
pub struct PidStat {
    /// Packets seen.
    pub packet_count: u64,
    /// Continuity errors seen.
    pub cc_errors: u64,
    /// A packet carried a program clock reference.
    pub contains_pcr: bool,
    /// Continuity counter of the last packet seen.
    pub last_cc: u8,
}

/// What a collector holds: the table, and the errors of the whole stream.
pub struct StatsView {
    pub pids: Seq<PidStat>,
    pub cc_errors: u64,
}

/// The entry of a packet identifier that was never seen.
pub open spec fn zero_stat() -> PidStat {
    PidStat { packet_count: 0, cc_errors: 0, contains_pcr: false, last_cc: 0 }
}

/// The collector after `reset`: every entry zero.
pub open spec fn zero_stats() -> StatsView {
    StatsView { pids: Seq::new(8192, |i: int| zero_stat()), cc_errors: 0 }
}

/// What `reset` makes of a collector: the zero collector, whatever it held.
pub open spec fn reset_stats(v: StatsView) -> StatsView {
    zero_stats()
}

/// The identifier of null packets, whose continuity counter means
/// nothing.
pub const NULL_PID: u16 = 0x1FFF;

/// The counter that continues the sequence of an identifier: the successor
/// (modulo 16) of the last one for a packet with payload, the last one
/// again for a packet without.
pub open spec fn expected_cc(prev: PidStat, p: Seq<u8>) -> int {
    if has_payload(p) {
        (prev.last_cc + 1) % 16
    } else {
        prev.last_cc as int
    }
}

/// The packet breaks the continuity of its identifier: it is no null
/// packet, one came before it, its counter does not continue the sequence,
/// and it is not a repeat of the one before it with the discontinuity
/// indicator set.
pub open spec fn cc_error(prev: PidStat, p: Seq<u8>) -> bool {
    &&& prev.packet_count > 0
    &&& pid_of(p) != 0x1FFF
    &&& continuity_of(p) != expected_cc(prev, p)
    &&& !(continuity_of(p) == prev.last_cc && discontinuity(p))
}

/// The entry of a packet's identifier once the packet is counted.
pub open spec fn stat_after(prev: PidStat, p: Seq<u8>) -> PidStat {
    PidStat {
        packet_count: bump(prev.packet_count),
        cc_errors: if cc_error(prev, p) {
            bump(prev.cc_errors)
        } else {
            prev.cc_errors
        },
        contains_pcr: prev.contains_pcr || has_pcr(p),
        last_cc: continuity_of(p) as u8,
    }
}

/// The collector once one packet is counted.
pub open spec fn count_packet(v: StatsView, p: Seq<u8>) -> StatsView {
    let prev = v.pids[pid_of(p)];
    StatsView {
        pids: v.pids.update(pid_of(p), stat_after(prev, p)),
        cc_errors: if cc_error(prev, p) {
            bump(v.cc_errors)
        } else {
            v.cc_errors
        },
    }
}

/// The collector once the first `n` packets of `s` are counted, in order.
pub open spec fn count_packets(v: StatsView, s: Seq<u8>, n: nat) -> StatsView
    decreases n,
{
    if n == 0 {
        v
    } else {
        count_packet(count_packets(v, s, (n - 1) as nat), packet_at(s, n - 1))
    }
}

/// How many of the first `n` packets of `s` carry the identifier `pid`.
pub open spec fn occurrences(s: Seq<u8>, n: nat, pid: int) -> nat
    decreases n,
{
    if n == 0 {
        0
    } else {
        occurrences(s, (n - 1) as nat, pid) + if pid_of(packet_at(s, n - 1)) == pid {
            1nat
        } else {
            0nat
        }
    }
}

/// The text `out` with the line of one identifier behind it.
pub open spec fn with_pid_line(out: Seq<char>, id: nat, s: PidStat) -> Seq<char> {
    out + "pid "@ + decimal(id) + " packets "@ + decimal(s.packet_count as nat) + " cc_errors "@
        + decimal(s.cc_errors as nat) + " pcr "@ + digit_text(
        if s.contains_pcr {
            1
        } else {
            0
        },
    ) + "\n"@
}

/// The lines of the identifiers below `n` that were seen, in their order.
pub open spec fn pid_lines(v: StatsView, n: nat) -> Seq<char>
    decreases n,
{
    if n == 0 {
        Seq::empty()
    } else {
        let before = pid_lines(v, (n - 1) as nat);
        if v.pids[n - 1].packet_count == 0 {
            before
        } else {
            with_pid_line(before, (n - 1) as nat, v.pids[n - 1])
        }
    }
}

/// The dump of a collector: a line for each identifier that was seen, and
/// a last line with the continuity errors of the whole stream.
pub open spec fn stats_text(v: StatsView) -> Seq<char> {
    pid_lines(v, 8192) + "stream cc_errors "@ + decimal(v.cc_errors as nat) + "\n"@
}

/// The PID Statistics Collector.
#[derive(Debug)]
pub struct PidStats {
    pids: Vec<PidStat>,
    cc_errors: u64,
}

impl View for PidStats {
    type V = StatsView;

    closed spec fn view(&self) -> StatsView {
        StatsView { pids: self.pids@, cc_errors: self.cc_errors }
    }
}

impl PidStats {
    /// The table has its 8192 entries.
    pub open spec fn wf(&self) -> bool {
        self@.pids.len() == 8192
    }

    /// A collector that has seen nothing; `OutOfMemory` where the memory
    /// for its table cannot be had.
    pub fn new() -> (r: Result<Self, Error>)
        ensures
            match r {
                Ok(stats) => stats.wf() && stats@ == zero_stats(),
                Err(e) => e == Error::OutOfMemory,
            },
    {
        let mut table: Vec<PidStat> = Vec::new();
        let reserved: bool = table.try_reserve(PID_COUNT).is_ok();
        Self::with_table(table, reserved)
    }

    /// The collector on an empty table for which room was asked: a zeroed
    /// one where the room was had, `OutOfMemory` where it was not.
    pub fn with_table(table: Vec<PidStat>, reserved: bool) -> (r: Result<Self, Error>)
        requires
            table@.len() == 0,
        ensures
            reserved ==> r.is_ok() && r.unwrap().wf() && r.unwrap()@ == zero_stats(),
            !reserved ==> r.is_err() && r.unwrap_err() == Error::OutOfMemory,
    {
        if !reserved {
            return Err(Error::OutOfMemory);
        }
        let mut pids: Vec<PidStat> = table;
        let mut i: usize = 0;
        while i < PID_COUNT
            invariant
                i <= 8192,
                pids@.len() == i,
                forall|j: int| 0 <= j < i ==> pids@[j] == zero_stat(),
            decreases 8192 - i,
        {
            pids.push(PidStat { packet_count: 0, cc_errors: 0, contains_pcr: false, last_cc: 0 });
            i += 1;
        }
        assert(pids@ =~= zero_stats().pids);
        Ok(PidStats { pids, cc_errors: 0 })
    }

    /// Zeroes every entry and the stream's error count; the table stays
    /// where it is.
    pub fn reset(&mut self)
        requires
            old(self).wf(),
        ensures
            final(self).wf(),
            final(self)@ == reset_stats(old(self)@),
    {
        self.cc_errors = 0;
        let mut i: usize = 0;
        while i < PID_COUNT
            invariant
                i <= 8192,
                self.pids@.len() == 8192,
                self.cc_errors == 0,
                forall|j: int| 0 <= j < i ==> self.pids@[j] == zero_stat(),
            decreases 8192 - i,
        {
            self.pids.set(
                i,
                PidStat { packet_count: 0, cc_errors: 0, contains_pcr: false, last_cc: 0 },
            );
            i += 1;
        }
        assert(self.pids@ =~= zero_stats().pids);
    }

    /// Counts one packet.
    pub fn update_packet(&mut self, pkt: &[u8])
        requires
            old(self).wf(),
            is_packet(pkt@),
        ensures
            final(self).wf(),
            final(self)@ == count_packet(old(self)@, pkt@),
    {
        let id: usize = pid(pkt) as usize;
        let prev: PidStat = self.pids[id];
        let cc: u8 = continuity_counter(pkt);
        let expected: u8 = if payload_present(pkt) {
            (prev.last_cc % 16 + 1) % 16
        } else {
            prev.last_cc
        };
        let broken: bool = prev.packet_count > 0 && id != NULL_PID as usize && cc != expected && !(
        cc == prev.last_cc && discontinuity_indicator(pkt));
        let next = PidStat {
            packet_count: bumped(prev.packet_count),
            cc_errors: if broken {
                bumped(prev.cc_errors)
            } else {
                prev.cc_errors
            },
            contains_pcr: prev.contains_pcr || pcr_present(pkt),
            last_cc: cc,
        };
        self.pids.set(id, next);
        if broken {
            self.cc_errors = bumped(self.cc_errors);
        }
    }

    /// Counts the first `packet_count` packets of `packets`, in order.
    ///
    /// Where `packets` is too short to hold them, nothing is counted and the
    /// error says how long it was.
    pub fn update(&mut self, packets: &[u8], packet_count: u32) -> (r: Result<(), Error>)
        requires
            old(self).wf(),
        ensures
            final(self).wf(),
            packet_count * 188 <= packets@.len() ==> r.is_ok() && final(self)@ == count_packets(
                old(self)@,
                packets@,
                packet_count as nat,
            ),
            packet_count * 188 > packets@.len() ==> r == Err::<(), Error>(
                Error::ShortBuffer { len: packets@.len() as usize },
            ) && final(self)@ == old(self)@,
    {
        let n: usize = packets.len() / 188;
        if packet_count as usize > n {
            return Err(Error::ShortBuffer { len: packets.len() });
        }
        let count: usize = packet_count as usize;
        let mut k: usize = 0;
        while k < count
            invariant
                k <= count,
                count * 188 <= packets@.len() <= usize::MAX,
                self.wf(),
                self@ == count_packets(old(self)@, packets@, k as nat),
            decreases count - k,
        {
            let pkt = vstd::slice::slice_subrange(packets, k * 188, k * 188 + 188);
            self.update_packet(pkt);
            k += 1;
        }
        Ok(())
    }

    /// The counters in readable form.
    pub fn dump(&self) -> (r: String)
        requires
            self.wf(),
        ensures
            r@ == stats_text(self@),
    {
        let mut out = String::new();
        let mut i: usize = 0;
        while i < PID_COUNT
            invariant
                i <= 8192,
                self.wf(),
                out@ == pid_lines(self@, i as nat),
            decreases 8192 - i,
        {
            let s: PidStat = self.pids[i];
            if s.packet_count != 0 {
                out.append("pid ");
                push_decimal(&mut out, i as u64);
                out.append(" packets ");
                push_decimal(&mut out, s.packet_count);
                out.append(" cc_errors ");
                push_decimal(&mut out, s.cc_errors);
                out.append(" pcr ");
                out.append(if s.contains_pcr {
                    "1"
                } else {
                    "0"
                });
                out.append("\n");
            }
            i += 1;
        }
        out.append("stream cc_errors ");
        push_decimal(&mut out, self.cc_errors);
        out.append("\n");
        out
    }

    /// Packets seen with the identifier `pid`; none can carry one above 8191.
    pub fn packet_count(&self, pid: u16) -> (r: u64)
        requires
            self.wf(),
        ensures
            r == if pid < 8192 {
                self@.pids[pid as int].packet_count
            } else {
                0
            },
    {
        if (pid as usize) < PID_COUNT {
            self.pids[pid as usize].packet_count
        } else {
            0
        }
    }

    /// Continuity errors seen with the identifier `pid`.
    pub fn pid_cc_errors(&self, pid: u16) -> (r: u64)
        requires
            self.wf(),
        ensures
            r == if pid < 8192 {
                self@.pids[pid as int].cc_errors
            } else {
                0
            },
    {
        if (pid as usize) < PID_COUNT {
            self.pids[pid as usize].cc_errors
        } else {
            0
        }
    }

    /// Continuity errors seen in the whole stream.
    pub fn cc_errors(&self) -> (r: u64)
        ensures
            r == self@.cc_errors,
    {
        self.cc_errors
    }

    /// A packet with the identifier `pid` carried a program clock reference.
    pub fn contains_pcr(&self, pid: u16) -> (r: bool)
        requires
            self.wf(),
        ensures
            r == (pid < 8192 && self@.pids[pid as int].contains_pcr),
    {
        (pid as usize) < PID_COUNT && self.pids[pid as usize].contains_pcr
    }
}

/// Counting keeps the table at its 8192 entries.
pub proof fn lemma_count_keeps_table(v: StatsView, s: Seq<u8>, n: nat)
    requires
        v.pids.len() == 8192,
    ensures
        count_packets(v, s, n).pids.len() == 8192,
    decreases n,
{
    if n > 0 {
        lemma_count_keeps_table(v, s, (n - 1) as nat);
    }
}

/// Counting `m` packets and then the `n` that follow them is counting all
/// `m + n` at once: how a stream is cut into updates does not matter.
pub proof fn lemma_count_in_two_parts(v: StatsView, s: Seq<u8>, m: nat, n: nat)
    requires
        (m + n) * 188 <= s.len(),
    ensures
        count_packets(count_packets(v, s, m), s.subrange((m * 188) as int, s.len() as int), n)
            == count_packets(v, s, m + n),
    decreases n,
{
    if n > 0 {
        let rest = s.subrange((m * 188) as int, s.len() as int);
        lemma_count_in_two_parts(v, s, m, (n - 1) as nat);
        assert(packet_at(rest, n - 1) =~= packet_at(s, m + n - 1));
    }
}

/// After a reset, the same packets give the same counts, whatever the
/// collector had counted before.
pub proof fn lemma_reset_reproduces(before: StatsView, again: StatsView, s: Seq<u8>, n: nat)
    ensures
        count_packets(reset_stats(before), s, n) == count_packets(reset_stats(again), s, n),
{
}

/// After a reset, the packet count of an identifier is the number of packets
/// that carried it, as long as that number fits the counter.
pub proof fn lemma_packet_count_counts(s: Seq<u8>, n: nat, id: int)
    requires
        n * 188 <= s.len(),
        n <= u64::MAX,
        0 <= id < 8192,
    ensures
        occurrences(s, n, id) <= n,
        count_packets(zero_stats(), s, n).pids[id].packet_count == occurrences(s, n, id),
    decreases n,
{
    if n > 0 {
        lemma_packet_count_counts(s, (n - 1) as nat, id);
        lemma_count_keeps_table(zero_stats(), s, (n - 1) as nat);
    }
}

} // verus!
