//! The PCR smoother: it takes a transport stream as it arrives, cuts it into
//! chunks of one size, and gives each chunk the instant at which it is to
//! leave, by the program clock that the stream itself carries.
//!
//! The smoother neither waits nor sends. Whoever drives it writes packets
//! with their arrival time, asks for the next due time, and polls with the
//! current time for the chunks that are due.
use vstd::prelude::*;
use vstd::slice::slice_subrange;
use crate::error::Error;
use crate::packet::{aligned, has_pcr, is_packet, packet_at, pcr, pcr_of, pid, pid_of};

verus! {

/// Program clock ticks in a microsecond.
pub const PCR_TICKS_PER_US: u64 = 27;

/// How far, in microseconds, the program clock may run ahead of the time
/// that passed between two of its samples before the step counts as a
/// discontinuity.
pub const PCR_JUMP_SLACK_US: i64 = 1_000_000;

/// What a scheduled chunk is.
pub struct ChunkView {
    pub due_us: i64,
    pub data: Seq<u8>,
}

/// A chunk of the stream and the instant from which it may leave.
#[derive(Clone, Debug)]
pub struct Chunk {
    /// Wallclock instant in microseconds.
    pub due_us: i64,
    pub data: Vec<u8>,
}

impl View for Chunk {
    type V = ChunkView;

    open spec fn view(&self) -> ChunkView {
        ChunkView { due_us: self.due_us, data: self.data@ }
    }
}

/// The views of a run of chunks.
pub open spec fn chunk_views(v: Seq<Chunk>) -> Seq<ChunkView> {
    Seq::new(v.len(), |i: int| v[i]@)
}

/// What a smoother holds.
pub struct SmootherView {
    pub pcr_pid: u16,
    pub items_per_second: i32,
    pub write_size: i32,
    pub latency_ms: i32,
    /// Bytes written that do not make a chunk yet.
    pub pending: Seq<u8>,
    /// The chunks that wait for their instant, oldest first.
    pub queue: Seq<ChunkView>,
    /// The program clock is tied to the wallclock.
    pub anchored: bool,
    /// The clock sample at which it was tied, in 27 MHz ticks.
    pub anchor_pcr: u64,
    /// The arrival time of that sample, in microseconds.
    pub anchor_us: i64,
    /// The latest clock sample.
    pub last_pcr: u64,
    /// The arrival time of the latest clock sample.
    pub last_pcr_us: i64,
    /// A chunk was scheduled before.
    pub scheduled: bool,
    /// The due time of the chunk that was scheduled last.
    pub last_due: i64,
}

/// A smoother as `new` makes it.
pub open spec fn fresh_smoother(
    pcr_pid: u16,
    items_per_second: i32,
    write_size: i32,
    latency_ms: i32,
) -> SmootherView {
    SmootherView {
        pcr_pid,
        items_per_second,
        write_size,
        latency_ms,
        pending: Seq::empty(),
        queue: Seq::empty(),
        anchored: false,
        anchor_pcr: 0,
        anchor_us: 0,
        last_pcr: 0,
        last_pcr_us: 0,
        scheduled: false,
        last_due: 0,
    }
}

/// The configuration makes sense: a chunk has a size, the cadence is
/// positive, and the latency is not negative.
pub open spec fn config_ok(items_per_second: i32, write_size: i32, latency_ms: i32) -> bool {
    items_per_second > 0 && write_size > 0 && latency_ms >= 0
}

/// Everything that holds of a smoother at all times, but for the length of
/// the pending bytes.
pub open spec fn wf_loose(v: SmootherView) -> bool {
    &&& config_ok(v.items_per_second, v.write_size, v.latency_ms)
    &&& v.anchored ==> v.anchor_pcr <= v.last_pcr
    &&& forall|i: int| 0 <= i < v.queue.len() ==> (#[trigger] v.queue[i]).data.len() == v.write_size
    &&& forall|i: int, j: int|
        0 <= i <= j < v.queue.len() ==> (#[trigger] v.queue[i]).due_us <= (
        #[trigger] v.queue[j]).due_us
    &&& v.queue.len() > 0 ==> v.scheduled
    &&& forall|i: int| 0 <= i < v.queue.len() ==> (#[trigger] v.queue[i]).due_us <= v.last_due
}

/// What holds of a smoother at all times: its configuration makes sense,
/// the pending bytes are less than a chunk, every chunk in the queue has
/// the configured size, and the queue is in the order of its due times.
pub open spec fn wf(v: SmootherView) -> bool {
    wf_loose(v) && v.pending.len() < v.write_size
}

/// `x` as an `i64`, or the nearest end of its range.
pub open spec fn clamp64(x: int) -> i64 {
    if x < i64::MIN {
        i64::MIN
    } else if x > i64::MAX {
        i64::MAX
    } else {
        x as i64
    }
}

/// The least distance between the due times of two chunks, in
/// microseconds.
pub open spec fn interval_us(v: SmootherView) -> int {
    1_000_000int / (v.items_per_second as int)
}

/// The latency in microseconds.
pub open spec fn latency_us(v: SmootherView) -> int {
    v.latency_ms * 1000
}

/// The clock sample `c`, arriving at `now_us`, does not continue the
/// program clock: it lies before the latest sample, or further ahead of it
/// than the time that passed since, and the slack on top.
pub open spec fn pcr_jump(v: SmootherView, c: u64, now_us: i64) -> bool {
    c < v.last_pcr || (c - v.last_pcr) / 27 > (now_us - v.last_pcr_us) + 1_000_000
}

/// The recovered clock after a packet that arrives at `now_us`. A clock
/// sample on the configured identifier is taken as the latest; the first
/// one, and one that does not continue the clock, ties the clock to the
/// wallclock anew.
pub open spec fn clock_after(v: SmootherView, p: Seq<u8>, now_us: i64) -> SmootherView {
    if pid_of(p) == v.pcr_pid && has_pcr(p) {
        let c = pcr_of(p) as u64;
        if !v.anchored || pcr_jump(v, c, now_us) {
            SmootherView {
                anchored: true,
                anchor_pcr: c,
                anchor_us: now_us,
                last_pcr: c,
                last_pcr_us: now_us,
                ..v
            }
        } else {
            SmootherView { last_pcr: c, last_pcr_us: now_us, ..v }
        }
    } else {
        v
    }
}

/// The wallclock instant that belongs to the latest clock sample; before
/// any sample, the arrival time.
pub open spec fn stream_time(v: SmootherView, now_us: i64) -> int {
    if v.anchored {
        v.anchor_us + (v.last_pcr - v.anchor_pcr) / 27
    } else {
        now_us as int
    }
}

/// The due time of the next chunk: the latency behind the stream's time,
/// but no nearer to the chunk before it than the cadence allows.
pub open spec fn due_for(v: SmootherView, now_us: i64) -> i64 {
    let ideal = stream_time(v, now_us) + latency_us(v);
    if v.scheduled && v.last_due + interval_us(v) > ideal {
        clamp64(v.last_due + interval_us(v))
    } else {
        clamp64(ideal)
    }
}

/// Cuts the pending bytes into chunks as long as they make one, and puts
/// each at the end of the queue with its due time.
pub open spec fn cut(v: SmootherView, now_us: i64) -> SmootherView
    decreases v.pending.len(),
{
    if v.write_size <= 0 || v.pending.len() < v.write_size {
        v
    } else {
        let due = due_for(v, now_us);
        cut(
            SmootherView {
                pending: v.pending.subrange(v.write_size as int, v.pending.len() as int),
                queue: v.queue.push(
                    ChunkView { due_us: due, data: v.pending.subrange(0, v.write_size as int) },
                ),
                scheduled: true,
                last_due: due,
                ..v
            },
            now_us,
        )
    }
}

/// The smoother after a packet that arrives at `now_us`: the clock takes
/// the packet's sample, the packet joins the pending bytes, and the chunks
/// that they make are scheduled.
pub open spec fn smoother_after(v: SmootherView, p: Seq<u8>, now_us: i64) -> SmootherView {
    let c = clock_after(v, p, now_us);
    cut(SmootherView { pending: c.pending + p, ..c }, now_us)
}

/// The smoother after the first `n` packets of `s`, all arriving at
/// `now_us`.
pub open spec fn smoother_after_packets(v: SmootherView, s: Seq<u8>, n: nat, now_us: i64)
    -> SmootherView
    decreases n,
{
    if n == 0 {
        v
    } else {
        smoother_after(
            smoother_after_packets(v, s, (n - 1) as nat, now_us),
            packet_at(s, n - 1),
            now_us,
        )
    }
}

/// The queue has room for the chunks of another packet: it holds less
/// than a second's worth of chunks at the configured cadence.
pub open spec fn has_room(v: SmootherView) -> bool {
    v.queue.len() < v.items_per_second
}

/// The bytes of the chunks of a queue, in order.
pub open spec fn queued_bytes(q: Seq<ChunkView>) -> Seq<u8>
    decreases q.len(),
{
    if q.len() == 0 {
        Seq::empty()
    } else {
        queued_bytes(q.drop_last()) + q.last().data
    }
}

/// Every byte that the smoother holds, in the order in which it was
/// written.
pub open spec fn held(v: SmootherView) -> Seq<u8> {
    queued_bytes(v.queue) + v.pending
}

/// `k` chunks at the front of the queue are due at `now_us`, and the one
/// behind them, if there is one, is not.
pub open spec fn due_count(q: Seq<ChunkView>, now_us: i64, k: int) -> bool {
    &&& 0 <= k <= q.len()
    &&& forall|i: int| 0 <= i < k ==> (#[trigger] q[i]).due_us <= now_us
    &&& k < q.len() ==> q[k].due_us > now_us
}

/// Two smoothers are configured alike.
pub open spec fn same_config(a: SmootherView, b: SmootherView) -> bool {
    &&& a.pcr_pid == b.pcr_pid
    &&& a.items_per_second == b.items_per_second
    &&& a.write_size == b.write_size
    &&& a.latency_ms == b.latency_ms
}

/// The bytes of a queue, chunk by chunk: those of its front and those of
/// its back.
pub proof fn lemma_queued_bytes_split(q: Seq<ChunkView>, k: int)
    requires
        0 <= k <= q.len(),
    ensures
        queued_bytes(q) == queued_bytes(q.subrange(0, k)) + queued_bytes(
            q.subrange(k, q.len() as int),
        ),
    decreases q.len() - k,
{
    let back = q.subrange(k, q.len() as int);
    if k == q.len() {
        assert(q.subrange(0, k) =~= q);
    } else {
        lemma_queued_bytes_split(q.drop_last(), k);
        assert(q.drop_last().subrange(0, k) =~= q.subrange(0, k));
        assert(q.drop_last().subrange(k, q.len() - 1) =~= back.drop_last());
        assert((queued_bytes(q.subrange(0, k)) + queued_bytes(back.drop_last())) + q.last().data
            =~= queued_bytes(q.subrange(0, k)) + (queued_bytes(back.drop_last()) + q.last().data));
    }
}

/// Cutting keeps every byte in its place, and leaves a smoother that is
/// well-formed.
pub proof fn lemma_cut_keeps_bytes(v: SmootherView, now_us: i64)
    requires
        wf_loose(v),
    ensures
        wf(cut(v, now_us)),
        held(cut(v, now_us)) == held(v),
        same_config(cut(v, now_us), v),
    decreases v.pending.len(),
{
    if v.pending.len() >= v.write_size {
        let due = due_for(v, now_us);
        let chunk = ChunkView { due_us: due, data: v.pending.subrange(0, v.write_size as int) };
        let next = SmootherView {
            pending: v.pending.subrange(v.write_size as int, v.pending.len() as int),
            queue: v.queue.push(chunk),
            scheduled: true,
            last_due: due,
            ..v
        };
        lemma_due_is_not_early(v, now_us);
        lemma_cut_keeps_bytes(next, now_us);
        assert(next.queue.drop_last() =~= v.queue);
    }
}

/// A chunk is due no earlier than the latency behind the stream's time,
/// and no nearer to the chunk before it than the cadence allows.
pub proof fn lemma_due_is_not_early(v: SmootherView, now_us: i64)
    requires
        v.items_per_second > 0,
    ensures
        interval_us(v) >= 0,
        due_for(v, now_us) >= clamp64(stream_time(v, now_us) + latency_us(v)),
        v.scheduled ==> due_for(v, now_us) >= clamp64(v.last_due + interval_us(v)),
        v.scheduled ==> due_for(v, now_us) >= v.last_due,
{
    vstd::arithmetic::div_mod::lemma_div_pos_is_pos(1_000_000, v.items_per_second as int);
}

/// A packet adds its 188 bytes behind those that the smoother holds, and
/// nothing else changes what it holds: no byte is lost, doubled or moved.
pub proof fn lemma_packet_is_kept(v: SmootherView, p: Seq<u8>, now_us: i64)
    requires
        wf(v),
    ensures
        wf(smoother_after(v, p, now_us)),
        held(smoother_after(v, p, now_us)) == held(v) + p,
        same_config(smoother_after(v, p, now_us), v),
{
    let c = clock_after(v, p, now_us);
    let joined = SmootherView { pending: c.pending + p, ..c };
    lemma_cut_keeps_bytes(joined, now_us);
}

/// A run of packets adds its bytes behind those that the smoother holds.
pub proof fn lemma_packets_are_kept(v: SmootherView, s: Seq<u8>, n: nat, now_us: i64)
    requires
        wf(v),
        n * 188 <= s.len(),
    ensures
        wf(smoother_after_packets(v, s, n, now_us)),
        held(smoother_after_packets(v, s, n, now_us)) == held(v) + s.subrange(0, (n * 188) as int),
    decreases n,
{
    if n > 0 {
        let before = smoother_after_packets(v, s, (n - 1) as nat, now_us);
        lemma_packets_are_kept(v, s, (n - 1) as nat, now_us);
        lemma_packet_is_kept(before, packet_at(s, n - 1), now_us);
        assert((held(v) + s.subrange(0, (n - 1) * 188)) + packet_at(s, n - 1) =~= held(v)
            + s.subrange(0, (n * 188) as int));
    }
}

fn clamp(x: i128) -> (r: i64)
    ensures
        r == clamp64(x as int),
{
    if x < i64::MIN as i128 {
        i64::MIN
    } else if x > i64::MAX as i128 {
        i64::MAX
    } else {
        x as i64
    }
}

/// Paces a transport stream by its program clock.
#[derive(Debug)]
pub struct PcrSmoother {
    pcr_pid: u16,
    items_per_second: i32,
    write_size: i32,
    latency_ms: i32,
    pending: Vec<u8>,
    queue: Vec<Chunk>,
    anchored: bool,
    anchor_pcr: u64,
    anchor_us: i64,
    last_pcr: u64,
    last_pcr_us: i64,
    scheduled: bool,
    last_due: i64,
}

impl View for PcrSmoother {
    type V = SmootherView;

    closed spec fn view(&self) -> SmootherView {
        SmootherView {
            pcr_pid: self.pcr_pid,
            items_per_second: self.items_per_second,
            write_size: self.write_size,
            latency_ms: self.latency_ms,
            pending: self.pending@,
            queue: chunk_views(self.queue@),
            anchored: self.anchored,
            anchor_pcr: self.anchor_pcr,
            anchor_us: self.anchor_us,
            last_pcr: self.last_pcr,
            last_pcr_us: self.last_pcr_us,
            scheduled: self.scheduled,
            last_due: self.last_due,
        }
    }
}

impl PcrSmoother {
    /// A smoother for the stream whose program clock runs on `pcr_pid`. It
    /// cuts the stream into chunks of `write_size` bytes, lets at most
    /// `items_per_second` of them become due in a second, holds each back
    /// by `latency_ms`, and takes no more packets while as many chunks as
    /// may leave in a second wait in its queue.
    ///
    /// A configuration that makes no sense is refused.
    pub fn new(pcr_pid: u16, items_per_second: i32, write_size: i32, latency_ms: i32) -> (r: Result<
        Self,
        Error,
    >)
        ensures
            config_ok(items_per_second, write_size, latency_ms) ==> r.is_ok() && wf(r.unwrap()@)
                && r.unwrap()@ == fresh_smoother(pcr_pid, items_per_second, write_size, latency_ms),
            !config_ok(items_per_second, write_size, latency_ms) ==> r.is_err() && r.unwrap_err()
                == Error::InvalidConfig,
    {
        if items_per_second <= 0 || write_size <= 0 || latency_ms < 0 {
            return Err(Error::InvalidConfig);
        }
        let s = PcrSmoother {
            pcr_pid,
            items_per_second,
            write_size,
            latency_ms,
            pending: Vec::new(),
            queue: Vec::new(),
            anchored: false,
            anchor_pcr: 0,
            anchor_us: 0,
            last_pcr: 0,
            last_pcr_us: 0,
            scheduled: false,
            last_due: 0,
        };
        assert(s@.queue =~= Seq::<ChunkView>::empty());
        Ok(s)
    }

    /// Returns the cadence the smoother was created with.
    pub fn items_per_second(&self) -> (r: i32)
        ensures
            r == self@.items_per_second,
    {
        self.items_per_second
    }

    /// Returns the chunk size the smoother was created with.
    pub fn write_size(&self) -> (r: i32)
        ensures
            r == self@.write_size,
    {
        self.write_size
    }

    /// Returns the identifier of the program clock the smoother was
    /// created with.
    pub fn pcr_pid(&self) -> (r: u16)
        ensures
            r == self@.pcr_pid,
    {
        self.pcr_pid
    }

    /// Returns the latency the smoother was created with.
    pub fn latency_ms(&self) -> (r: i32)
        ensures
            r == self@.latency_ms,
    {
        self.latency_ms
    }

    /// How many bytes wait to make a chunk.
    pub fn pending_len(&self) -> (r: usize)
        ensures
            r == self@.pending.len(),
    {
        self.pending.len()
    }

    /// How many chunks wait for their instant.
    pub fn queued_chunks(&self) -> (r: usize)
        ensures
            r == self@.queue.len(),
    {
        self.queue.len()
    }

    /// The instant from which the oldest chunk may leave; `None` where no
    /// chunk waits.
    pub fn next_due(&self) -> (r: Option<i64>)
        ensures
            r == if self@.queue.len() > 0 {
                Some(self@.queue[0].due_us)
            } else {
                None
            },
    {
        if self.queue.len() > 0 {
            Some(self.queue[0].due_us)
        } else {
            None
        }
    }

    fn take_sample(&mut self, pkt: &[u8], now_us: i64)
        requires
            is_packet(pkt@),
        ensures
            final(self)@ == clock_after(old(self)@, pkt@, now_us),
    {
        if pid(pkt) != self.pcr_pid {
            return ;
        }
        if let Some(c) = pcr(pkt) {
            let jump: bool = !self.anchored || c < self.last_pcr || ((c - self.last_pcr)
                / PCR_TICKS_PER_US) as i128 > (now_us as i128 - self.last_pcr_us as i128)
                + PCR_JUMP_SLACK_US as i128;
            if jump {
                self.anchored = true;
                self.anchor_pcr = c;
                self.anchor_us = now_us;
            }
            self.last_pcr = c;
            self.last_pcr_us = now_us;
        }
    }

    fn next_due_time(&self, now_us: i64) -> (r: i64)
        requires
            wf_loose(self@),
        ensures
            r == due_for(self@, now_us),
    {
        let stream: i128 = if self.anchored {
            self.anchor_us as i128 + ((self.last_pcr - self.anchor_pcr) / PCR_TICKS_PER_US) as i128
        } else {
            now_us as i128
        };
        let ideal: i128 = stream + self.latency_ms as i128 * 1000;
        let interval: i128 = (1_000_000 / self.items_per_second) as i128;
        if self.scheduled && self.last_due as i128 + interval > ideal {
            clamp(self.last_due as i128 + interval)
        } else {
            clamp(ideal)
        }
    }

    fn cut_chunks(&mut self, now_us: i64)
        requires
            wf_loose(old(self)@),
        ensures
            final(self)@ == cut(old(self)@, now_us),
    {
        let size: usize = self.write_size as usize;
        while self.pending.len() >= size
            invariant
                wf_loose(self@),
                size == self.write_size,
                cut(self@, now_us) == cut(old(self)@, now_us),
            decreases self.pending@.len(),
        {
            let ghost before = self@;
            let due: i64 = self.next_due_time(now_us);
            let mut data: Vec<u8> = self.pending.split_off(size);
            std::mem::swap(&mut self.pending, &mut data);
            proof {
                lemma_due_is_not_early(before, now_us);
                let ghost chunk = ChunkView { due_us: due, data: data@ };
                assert(chunk_views(self.queue@.push(Chunk { due_us: due, data }))
                    =~= before.queue.push(chunk));
            }
            self.queue.push(Chunk { due_us: due, data });
            self.scheduled = true;
            self.last_due = due;
        }
    }

    /// Takes one packet that arrived at `now_us`, whether the queue has
    /// room or not.
    pub fn push_packet(&mut self, pkt: &[u8], now_us: i64)
        requires
            wf(old(self)@),
            is_packet(pkt@),
        ensures
            wf(final(self)@),
            final(self)@ == smoother_after(old(self)@, pkt@, now_us),
            held(final(self)@) == held(old(self)@) + pkt@,
    {
        self.take_sample(pkt, now_us);
        self.pending.extend_from_slice(pkt);
        assert(self.pending@ =~= old(self).pending@ + pkt@);
        self.cut_chunks(now_us);
        proof {
            lemma_packet_is_kept(old(self)@, pkt@, now_us);
        }
    }

    /// Whether the queue has room for the chunks of another packet.
    pub fn room(&self) -> (r: bool)
        requires
            wf(self@),
        ensures
            r == has_room(self@),
    {
        self.queue.len() < self.items_per_second as usize
    }

    /// Takes a buffer of whole packets that arrived at `now_us`, packet by
    /// packet as long as the queue has room, and returns how many bytes it
    /// took. What it did not take is for the caller to offer again, once
    /// chunks have left.
    ///
    /// A buffer that is not a whole number of packets is refused, and the
    /// smoother is left as it was.
    pub fn write(&mut self, buf: &[u8], now_us: i64) -> (r: Result<usize, Error>)
        requires
            wf(old(self)@),
        ensures
            wf(final(self)@),
            !aligned(buf@.len() as int) ==> r == Err::<usize, Error>(
                Error::PartialWrite { len: buf@.len() as usize },
            ) && final(self)@ == old(self)@,
            aligned(buf@.len() as int) ==> r.is_ok() && r.unwrap() % 188 == 0 && r.unwrap()
                <= buf@.len(),
            aligned(buf@.len() as int) ==> final(self)@ == smoother_after_packets(
                old(self)@,
                buf@,
                (r.unwrap() / 188) as nat,
                now_us,
            ),
            aligned(buf@.len() as int) ==> r.unwrap() == buf@.len() || !has_room(final(self)@),
            aligned(buf@.len() as int) ==> forall|j: nat|
                j < r.unwrap() / 188 ==> has_room(
                    #[trigger] smoother_after_packets(old(self)@, buf@, j, now_us),
                ),
            aligned(buf@.len() as int) ==> held(final(self)@) == held(old(self)@) + buf@.subrange(
                0,
                r.unwrap() as int,
            ),
    {
        let len: usize = buf.len();
        if len % 188 != 0 {
            return Err(Error::PartialWrite { len });
        }
        let count: usize = len / 188;
        let mut k: usize = 0;
        while k < count && self.room()
            invariant
                k <= count,
                count * 188 == buf@.len() <= usize::MAX,
                wf(self@),
                self@ == smoother_after_packets(old(self)@, buf@, k as nat, now_us),
                forall|j: nat|
                    j < k ==> has_room(
                        #[trigger] smoother_after_packets(old(self)@, buf@, j, now_us),
                    ),
            decreases count - k,
        {
            let pkt = slice_subrange(buf, k * 188, k * 188 + 188);
            self.push_packet(pkt, now_us);
            k += 1;
        }
        proof {
            lemma_packets_are_kept(old(self)@, buf@, k as nat, now_us);
        }
        Ok(k * 188)
    }

    /// Hands out the chunks that are due at `now_us`, oldest first. A chunk
    /// stays until its instant has come, and no chunk leaves before one
    /// that was written earlier.
    pub fn poll(&mut self, now_us: i64) -> (r: Vec<Chunk>)
        requires
            wf(old(self)@),
        ensures
            wf(final(self)@),
            due_count(old(self)@.queue, now_us, r@.len() as int),
            chunk_views(r@) == old(self)@.queue.subrange(0, r@.len() as int),
            final(self)@ == (SmootherView {
                queue: old(self)@.queue.subrange(r@.len() as int, old(self)@.queue.len() as int),
                ..old(self)@
            }),
            forall|i: int|
                0 <= i < r@.len() ==> (#[trigger] r@[i]).data@.len() == old(self)@.write_size,
            held(old(self)@) == queued_bytes(chunk_views(r@)) + held(final(self)@),
    {
        let mut k: usize = 0;
        while k < self.queue.len() && self.queue[k].due_us <= now_us
            invariant
                k <= self.queue@.len(),
                forall|i: int|
                    0 <= i < k ==> (#[trigger] chunk_views(self.queue@)[i]).due_us <= now_us,
            decreases self.queue@.len() - k,
        {
            k += 1;
        }
        let mut out: Vec<Chunk> = self.queue.split_off(k);
        std::mem::swap(&mut self.queue, &mut out);
        proof {
            let q = old(self)@.queue;
            assert(chunk_views(out@) =~= q.subrange(0, k as int));
            assert(chunk_views(self.queue@) =~= q.subrange(k as int, q.len() as int));
            lemma_queued_bytes_split(q, k as int);
            assert((queued_bytes(q.subrange(0, k as int)) + queued_bytes(
                q.subrange(k as int, q.len() as int),
            )) + self.pending@ =~= queued_bytes(q.subrange(0, k as int)) + (queued_bytes(
                q.subrange(k as int, q.len() as int),
            ) + self.pending@));
            assert forall|i: int| 0 <= i < out@.len() implies (#[trigger] out@[i]).data@.len()
                == old(self)@.write_size by {
                assert(q[i].data == out@[i].data@);
            }
        }
        out
    }
}

/// After a poll, no chunk that is left is due: the queue is in the order
/// of its due times, so what stands behind a chunk that is not due is not
/// due either.
pub proof fn lemma_nothing_due_is_left(v: SmootherView, now_us: i64, k: int, i: int)
    requires
        wf(v),
        due_count(v.queue, now_us, k),
        k <= i < v.queue.len(),
    ensures
        v.queue[i].due_us > now_us,
{
}

/// A queue of whole chunks holds as many bytes as it has chunks, times the
/// chunk size.
pub proof fn lemma_queue_holds_whole_chunks(q: Seq<ChunkView>, size: int)
    requires
        forall|i: int| 0 <= i < q.len() ==> (#[trigger] q[i]).data.len() == size,
    ensures
        queued_bytes(q).len() == q.len() * size,
    decreases q.len(),
{
    if q.len() > 0 {
        lemma_queue_holds_whole_chunks(q.drop_last(), size);
        assert(q.len() * size == (q.len() - 1) * size + size) by (nonlinear_arith);
    }
}

/// The queue is bounded: a packet is taken by `write` only while the queue
/// holds less than `items_per_second` chunks, and no packet makes more than
/// 188 of them.
pub proof fn lemma_queue_is_bounded(v: SmootherView, p: Seq<u8>, now_us: i64)
    requires
        wf(v),
        has_room(v),
        p.len() == 188,
    ensures
        smoother_after(v, p, now_us).queue.len() <= v.queue.len() + 188,
        smoother_after(v, p, now_us).queue.len() < v.items_per_second + 188,
{
    let w = smoother_after(v, p, now_us);
    let size = v.write_size as int;
    lemma_packet_is_kept(v, p, now_us);
    lemma_queue_holds_whole_chunks(v.queue, size);
    lemma_queue_holds_whole_chunks(w.queue, size);
    let added = w.queue.len() - v.queue.len();
    assert(w.queue.len() * size + w.pending.len() == v.queue.len() * size + v.pending.len() + 188);
    assert(added * size == w.queue.len() * size - v.queue.len() * size) by (nonlinear_arith)
        requires
            added == w.queue.len() - v.queue.len(),
    ;
    assert(added <= 188) by (nonlinear_arith)
        requires
            added * size < size + 188,
            size >= 1,
    ;
}

} // verus!
