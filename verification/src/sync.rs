//! Finding where the packets start in a buffer that is not aligned to them.
use vstd::prelude::*;
use crate::packet::{has_sync, packet_at};
use crate::TS_SYNC_BYTE;

verus! {

/// Sync bytes stand at `i` and at the two packet strides behind it: three
/// packets in a row start there, as far as their first bytes tell.
pub open spec fn sync_at(s: Seq<u8>, i: int) -> bool {
    &&& 0 <= i
    &&& i + 376 < s.len()
    &&& s[i] == 0x47u8
    &&& s[i + 188] == 0x47u8
    &&& s[i + 376] == 0x47u8
}

/// `i` is the first offset of `s` at which `sync_at` holds.
pub open spec fn is_first_sync(s: Seq<u8>, i: int) -> bool {
    &&& sync_at(s, i)
    &&& forall|j: int| 0 <= j < i ==> !sync_at(s, j)
}

/// The offset of the first byte from which sync bytes recur at the packet
/// stride over three packets, or `None` where the buffer has no such offset.
pub fn find_sync_position(buf: &[u8]) -> (r: Option<usize>)
    ensures
        match r {
            Some(n) => is_first_sync(buf@, n as int),
            None => forall|j: int| !sync_at(buf@, j),
        },
{
    let len: usize = buf.len();
    if len < 377 {
        return None;
    }
    let last: usize = len - 376;
    let mut i: usize = 0;
    while i < last
        invariant
            len == buf@.len(),
            last == len - 376,
            len >= 377,
            i <= last,
            forall|j: int| 0 <= j < i ==> !sync_at(buf@, j),
        decreases last - i,
    {
        if buf[i] == TS_SYNC_BYTE && buf[i + 188] == TS_SYNC_BYTE && buf[i + 376] == TS_SYNC_BYTE {
            return Some(i);
        }
        i += 1;
    }
    None
}

/// At most one offset is the first.
pub proof fn lemma_first_sync_is_unique(s: Seq<u8>, i: int, j: int)
    requires
        is_first_sync(s, i),
        is_first_sync(s, j),
    ensures
        i == j,
{
}

/// Where `k >= 3` packets, each starting with the sync byte, follow a run of
/// other bytes in which the three-packet pattern does not show earlier, the
/// first sync position is the length of that run.
pub proof fn lemma_sync_behind_garbage(garbage: Seq<u8>, packets: Seq<u8>, k: nat)
    requires
        k >= 3,
        packets.len() == k * 188,
        forall|i: int| 0 <= i < k ==> has_sync(#[trigger] packet_at(packets, i)),
        forall|j: int| 0 <= j < garbage.len() ==> !sync_at(garbage + packets, j),
    ensures
        is_first_sync(garbage + packets, garbage.len() as int),
{
    let s = garbage + packets;
    let n = garbage.len() as int;
    assert(has_sync(packet_at(packets, 0)) && s[n] == packet_at(packets, 0)[0]);
    assert(has_sync(packet_at(packets, 1)) && s[n + 188] == packet_at(packets, 1)[0]);
    assert(has_sync(packet_at(packets, 2)) && s[n + 376] == packet_at(packets, 2)[0]);
}

} // verus!
