//! Sentinel blocks in received data: sixteen bytes, of which the first eight are
//! fixed and the other eight are known. A block of which only the second half is
//! wrong was damaged on the way.
//!
//! A block may be spread over several fragments of one ACL packet. So the last
//! bytes of a fragment are carried over to the next one.

use vstd::prelude::*;

use crate::action::{asks, logged, Action, Actions};
use crate::consts::{ACL_PB_CONTINUING, BTSDIO_FWBUF_SIZE, HCI_PACKET_TYPE_ACL};
use crate::report::Report;
use crate::ring::ring_moved;
use crate::util::{law_wrapped_sum, read_u16, u16_at, wrapped_sum};

verus! {

/// The first half of a block, "R4D_PING".
pub const SENTINEL_HEAD: [u8; 8] = [0x52, 0x34, 0x44, 0x5f, 0x50, 0x49, 0x4e, 0x47];

/// The second half of a block.
pub const SENTINEL_TAIL: [u8; 8] = [0, 1, 2, 3, 4, 5, 6, 7];

/// The length of a block.
pub const BLOCK_LEN: usize = 16;

/// How many bytes are carried over: one less than a block, so that no block is
/// seen twice.
pub const CARRY_LEN: usize = 15;

/// How often a summary is reported.
pub const SENTINEL_SUMMARY_EVERY: u32 = 2048;

/// Whether a block starts at `i`.
pub open spec fn block_at(data: Seq<u8>, i: int) -> bool {
    0 <= i && i + BLOCK_LEN <= data.len() && data.subrange(i, i + 8) == SENTINEL_HEAD@
}

/// Whether a damaged block starts at `i`.
pub open spec fn damaged_at(data: Seq<u8>, i: int) -> bool {
    block_at(data, i) && data.subrange(i + 8, i + 16) != SENTINEL_TAIL@
}

/// How many blocks start before `n`.
pub open spec fn blocks_before(data: Seq<u8>, n: int) -> int
    decreases n,
{
    if n <= 0 {
        0
    } else {
        blocks_before(data, n - 1) + if block_at(data, n - 1) {
            1int
        } else {
            0
        }
    }
}

/// How many damaged blocks start before `n`.
pub open spec fn damaged_before(data: Seq<u8>, n: int) -> int
    decreases n,
{
    if n <= 0 {
        0
    } else {
        damaged_before(data, n - 1) + if damaged_at(data, n - 1) {
            1int
        } else {
            0
        }
    }
}

/// How many blocks there are.
pub open spec fn blocks(data: Seq<u8>) -> int {
    blocks_before(data, data.len() as int)
}

/// How many damaged blocks there are.
pub open spec fn damaged(data: Seq<u8>) -> int {
    damaged_before(data, data.len() as int)
}

/// Whether the first damaged block starts at `i`.
pub open spec fn first_damaged(data: Seq<u8>, i: int) -> bool {
    damaged_at(data, i) && damaged_before(data, i) == 0
}

fn is_head(data: &[u8], i: usize) -> (yes: bool)
    requires
        i + BLOCK_LEN <= data@.len(),
    ensures
        yes == block_at(data@, i as int),
{
    assert(i + BLOCK_LEN <= data.len());
    let ghost got = data@.subrange(i as int, i + 8);
    let mut j: usize = 0;
    while j < 8
        invariant
            j <= 8,
            i + BLOCK_LEN <= data@.len(),
            i + BLOCK_LEN <= usize::MAX,
            got == data@.subrange(i as int, i + 8),
            forall|k: int| 0 <= k < j ==> got[k] == SENTINEL_HEAD@[k],
        decreases 8 - j,
    {
        assert(got[j as int] == data@[i + j]);
        if data[i + j] != SENTINEL_HEAD[j] {
            return false;
        }
        j = j + 1;
    }
    assert(got =~= SENTINEL_HEAD@);
    true
}

/// The first position at which the second half of a block is wrong; 8 if it is
/// right.
fn wrong_tail_index(data: &[u8], i: usize) -> (index: usize)
    requires
        i + BLOCK_LEN <= data@.len(),
    ensures
        index <= 8,
        index == 8 <==> data@.subrange(i + 8, i + 16) == SENTINEL_TAIL@,
        forall|k: int| 0 <= k < index ==> #[trigger] data@[i + 8 + k] == SENTINEL_TAIL@[k],
        index < 8 ==> data@[i + 8 + index] != SENTINEL_TAIL@[index as int],
{
    assert(i + BLOCK_LEN <= data.len());
    let ghost got = data@.subrange(i + 8, i + 16);
    let mut j: usize = 0;
    while j < 8 && data[i + 8 + j] == SENTINEL_TAIL[j]
        invariant
            j <= 8,
            i + BLOCK_LEN <= data@.len(),
            i + BLOCK_LEN <= usize::MAX,
            got == data@.subrange(i + 8, i + 16),
            forall|k: int| 0 <= k < j ==> got[k] == SENTINEL_TAIL@[k],
            forall|k: int| 0 <= k < j ==> #[trigger] data@[i + 8 + k] == SENTINEL_TAIL@[k],
        decreases 8 - j,
    {
        assert(got[j as int] == data@[i + 8 + j]);
        j = j + 1;
    }
    if j == 8 {
        assert(got =~= SENTINEL_TAIL@);
    } else {
        assert(got[j as int] == data@[i + 8 + j]);
    }
    j
}

/// What a scan found: how many blocks and how many damaged ones, both modulo
/// 2^32, and the place of the first damaged one with its second half.
pub struct Scan {
    pub hits: u32,
    pub mismatches: u32,
    pub first_mismatch: Option<(usize, [u8; 8])>,
}

/// Looks for sentinel blocks.
pub fn scan_sentinel_blocks(payload: &[u8]) -> (scan: Scan)
    ensures
        scan.hits == blocks(payload@) % 0x1_0000_0000,
        scan.mismatches == damaged(payload@) % 0x1_0000_0000,
        (match scan.first_mismatch {
            Some((i, tail)) => {
                &&& first_damaged(payload@, i as int)
                &&& tail@ == payload@.subrange(i + 8, i + 16)
            },
            None => damaged(payload@) == 0,
        }),
{
    let n: usize = payload.len();
    let mut hits: u32 = 0;
    let mut mismatches: u32 = 0;
    let mut first_mismatch: Option<(usize, [u8; 8])> = None;
    let mut i: usize = 0;
    while i < n
        invariant
            i <= n,
            n == payload@.len(),
            hits == blocks_before(payload@, i as int) % 0x1_0000_0000,
            mismatches == damaged_before(payload@, i as int) % 0x1_0000_0000,
            0 <= damaged_before(payload@, i as int),
            (match first_mismatch {
                Some((f, tail)) => {
                    &&& first_damaged(payload@, f as int)
                    &&& tail@ == payload@.subrange(f + 8, f + 16)
                    &&& damaged_before(payload@, i as int) > 0
                },
                None => damaged_before(payload@, i as int) == 0,
            }),
        decreases n - i,
    {
        if n - i >= BLOCK_LEN && is_head(payload, i) {
            hits = hits.wrapping_add(1);
            if wrong_tail_index(payload, i) < 8 {
                mismatches = mismatches.wrapping_add(1);
                if first_mismatch.is_none() {
                    let tail: [u8; 8] = [
                        payload[i + 8],
                        payload[i + 9],
                        payload[i + 10],
                        payload[i + 11],
                        payload[i + 12],
                        payload[i + 13],
                        payload[i + 14],
                        payload[i + 15],
                    ];
                    assert(tail@ =~= payload@.subrange(i + 8, i + 16));
                    first_mismatch = Some((i, tail));
                }
            }
        }
        i = i + 1;
    }
    Scan { hits, mismatches, first_mismatch }
}

/// The last bytes of some data, as many as are carried over.
pub open spec fn carried(data: Seq<u8>) -> Seq<u8> {
    if data.len() <= CARRY_LEN {
        data
    } else {
        data.skip(data.len() - CARRY_LEN)
    }
}

/// Blocks and damaged blocks, counted up to `m + k` in some data and up to `k`
/// in its part from `m` on.
proof fn lemma_blocks_shifted(data: Seq<u8>, part: Seq<u8>, m: int, k: int)
    requires
        0 <= m <= data.len(),
        0 <= k,
        part == data.skip(m),
    ensures
        blocks_before(data, m + k) == blocks_before(data, m) + blocks_before(part, k),
        damaged_before(data, m + k) == damaged_before(data, m) + damaged_before(part, k),
    decreases k,
{
    if k > 0 {
        lemma_blocks_shifted(data, part, m, k - 1);
        let i = k - 1;
        if i + BLOCK_LEN <= part.len() {
            assert(part.subrange(i, i + 8) =~= data.subrange(m + i, m + i + 8));
            assert(part.subrange(i + 8, i + 16) =~= data.subrange(m + i + 8, m + i + 16));
        }
    }
}

/// Blocks counted in some data and in the same data with more behind it, as far
/// as every block counted ends within the shorter one.
proof fn lemma_blocks_extended(data: Seq<u8>, longer: Seq<u8>, n: int)
    requires
        data.len() <= longer.len(),
        data == longer.take(data.len() as int),
        n <= data.len() - CARRY_LEN,
    ensures
        blocks_before(data, n) == blocks_before(longer, n),
        damaged_before(data, n) == damaged_before(longer, n),
    decreases n,
{
    if n > 0 {
        lemma_blocks_extended(data, longer, n - 1);
        let i = n - 1;
        assert(data.subrange(i, i + 8) =~= longer.subrange(i, i + 8));
        assert(data.subrange(i + 8, i + 16) =~= longer.subrange(i + 8, i + 16));
    }
}

/// No block starts so late that it would not fit.
proof fn lemma_no_late_blocks(data: Seq<u8>, n: int)
    requires
        n >= data.len() - CARRY_LEN,
        n >= 0,
    ensures
        n <= data.len() ==> blocks_before(data, n) == blocks(data),
        n <= data.len() ==> damaged_before(data, n) == damaged(data),
    decreases data.len() - n,
{
    if n < data.len() {
        lemma_no_late_blocks(data, n + 1);
        assert(!block_at(data, n));
    }
}

/// Scanning data in two pieces, with the end of the first carried over to the
/// second, finds each block exactly once.
pub proof fn law_stitched_scan(a: Seq<u8>, b: Seq<u8>)
    ensures
        blocks(a + b) == blocks(a) + blocks(carried(a) + b),
        damaged(a + b) == damaged(a) + damaged(carried(a) + b),
        carried(a + b) == carried(carried(a) + b),
{
    let whole = a + b;
    let m = if a.len() <= CARRY_LEN {
        0
    } else {
        a.len() - CARRY_LEN
    };
    let part = carried(a) + b;
    assert(part =~= whole.skip(m));
    lemma_blocks_shifted(whole, part, m, part.len() as int);
    assert(whole.take(a.len() as int) =~= a);
    if a.len() > CARRY_LEN {
        lemma_blocks_extended(a, whole, m);
    }
    lemma_no_late_blocks(a, m);
    assert(carried(whole) =~= carried(part));
}

/// A fragment of an ACL packet.
pub struct Fragment {
    /// The connection.
    pub handle: u16,
    /// Whether it continues the fragment before it.
    pub continuing: bool,
    /// Its data, as far as it is there.
    pub data: Seq<u8>,
}

/// The fragment in a received packet without its type byte.
pub open spec fn fragment(kind: u8, payload: Seq<u8>) -> Option<Fragment> {
    if kind == HCI_PACKET_TYPE_ACL && payload.len() >= 4 {
        let flags = u16_at(payload, 0);
        let len = u16_at(payload, 2);
        Some(
            Fragment {
                handle: (flags % 0x1000) as u16,
                continuing: flags / 0x1000 % 4 == ACL_PB_CONTINUING,
                data: if len <= payload.len() - 4 {
                    payload.subrange(4, 4 + len)
                } else {
                    payload.skip(4)
                },
            },
        )
    } else {
        None
    }
}

/// What the search for sentinel blocks keeps from one packet to the next.
pub struct Sentinel {
    pub packets: u32,
    pub blocks: u32,
    pub mismatch: u32,
    /// The last bytes of the fragment before.
    pub carry: Vec<u8>,
    /// Where in the ring each of them was.
    pub carry_ring_off: Vec<u32>,
    /// The connection that they belong to.
    pub carry_handle: u16,
    /// Whether the packet before was an ACL packet.
    pub carry_active: bool,
}

/// What the search for sentinel blocks keeps from one packet to the next.
pub struct SentinelView {
    pub packets: u32,
    pub blocks: u32,
    pub mismatch: u32,
    pub carry: Seq<u8>,
    pub ring_off: Seq<u32>,
    pub handle: u16,
    pub active: bool,
}

impl View for Sentinel {
    type V = SentinelView;

    open spec fn view(&self) -> SentinelView {
        SentinelView {
            packets: self.packets,
            blocks: self.blocks,
            mismatch: self.mismatch,
            carry: self.carry@,
            ring_off: self.carry_ring_off@,
            handle: self.carry_handle,
            active: self.carry_active,
        }
    }
}

/// A damaged block in received data.
#[derive(Clone, Copy)]
pub struct SentinelHit {
    /// Where it starts in the data of the fragment; 0 if before it.
    pub acl_offset: usize,
    /// Whether it starts in the fragment before.
    pub cross_boundary: bool,
    /// The first wrong byte of its second half.
    pub tail_index: usize,
    /// The value of that byte.
    pub bulk: u8,
    /// Where in the ring that byte is.
    pub ring_offset: u32,
    /// The second half.
    pub got_tail: [u8; 8],
}

/// The last elements of a list, as many as are carried over.
pub open spec fn carried_positions(list: Seq<u32>) -> Seq<u32> {
    if list.len() <= CARRY_LEN {
        list
    } else {
        list.skip(list.len() - CARRY_LEN)
    }
}

/// Whether `hit` describes the block at `i` in `data`, of which the first `from`
/// bytes were carried, and each byte of which is at a place in the ring.
pub open spec fn described(
    data: Seq<u8>,
    places: Seq<u32>,
    from: int,
    i: int,
    hit: SentinelHit,
) -> bool {
    let t = hit.tail_index as int;
    &&& hit.cross_boundary == (i < from)
    &&& hit.acl_offset == if i < from {
        0
    } else {
        i - from
    }
    &&& hit.got_tail@ == data.subrange(i + 8, i + 16)
    &&& 0 <= t < 8
    &&& hit.got_tail@.take(t) == SENTINEL_TAIL@.take(t)
    &&& hit.got_tail@[t] != SENTINEL_TAIL@[t]
    &&& hit.bulk == hit.got_tail@[t]
    &&& hit.ring_offset == places[i + 8 + t]
}

impl SentinelView {
    /// As many positions as bytes are carried, at most as many as may be, and
    /// each of them in the ring.
    pub open spec fn wf(self) -> bool {
        &&& self.carry.len() == self.ring_off.len()
        &&& self.carry.len() <= CARRY_LEN
        &&& forall|i: int|
            0 <= i < self.ring_off.len() ==> #[trigger] self.ring_off[i] < BTSDIO_FWBUF_SIZE
    }

    /// Whether a fragment continues what is carried.
    pub open spec fn continues(self, f: Fragment) -> bool {
        f.continuing && self.active && self.handle == f.handle
    }

    /// The data in which blocks are looked for: what is carried, if the fragment
    /// continues it, and the fragment.
    pub open spec fn stitched(self, f: Fragment) -> Seq<u8> {
        if self.continues(f) {
            self.carry + f.data
        } else {
            f.data
        }
    }

    /// How much of that data was carried.
    pub open spec fn stitched_from(self, f: Fragment) -> int {
        if self.continues(f) {
            self.carry.len() as int
        } else {
            0
        }
    }

    /// Where in the ring each byte of that data is; the packet stands there from
    /// `start` on.
    pub open spec fn positions(self, f: Fragment, start: u32) -> Seq<u32> {
        let own = Seq::new(f.data.len(), |i: int| ring_moved(start, 4 + i));
        if self.continues(f) {
            self.ring_off + own
        } else {
            own
        }
    }

    /// What is kept after a packet.
    pub open spec fn observed(self, kind: u8, payload: Seq<u8>, start: u32) -> SentinelView {
        match fragment(kind, payload) {
            Some(f) => {
                let data = self.stitched(f);
                SentinelView {
                    packets: wrapped_sum(self.packets, 1),
                    blocks: wrapped_sum(self.blocks, blocks(data)),
                    mismatch: wrapped_sum(self.mismatch, damaged(data)),
                    carry: carried(data),
                    ring_off: carried_positions(self.positions(f, start)),
                    handle: f.handle,
                    active: true,
                }
            },
            None => SentinelView {
                packets: wrapped_sum(self.packets, 1),
                carry: seq![],
                ring_off: seq![],
                active: false,
                ..self
            },
        }
    }

    /// Whether `hit` describes the block at `i` in the data searched.
    pub open spec fn describes(self, f: Fragment, start: u32, i: int, hit: SentinelHit) -> bool {
        described(self.stitched(f), self.positions(f, start), self.stitched_from(f), i, hit)
    }

    /// Whether `hit` is the first damaged block that a packet brings to light,
    /// or `None` if it brings none.
    pub open spec fn finds(
        self,
        kind: u8,
        payload: Seq<u8>,
        start: u32,
        hit: Option<SentinelHit>,
    ) -> bool {
        match fragment(kind, payload) {
            Some(f) => {
                let data = self.stitched(f);
                match hit {
                    Some(hit) => exists|i: int| #[trigger]
                        first_damaged(data, i) && self.describes(f, start, i, hit),
                    None => damaged(data) == 0,
                }
            },
            None => hit is None,
        }
    }

    /// The first damaged block that a packet brings to light.
    pub open spec fn found(self, kind: u8, payload: Seq<u8>, start: u32) -> Option<SentinelHit> {
        choose|hit: Option<SentinelHit>| self.finds(kind, payload, start, hit)
    }

    /// There is at most one first damaged block.
    proof fn lemma_found(self, kind: u8, payload: Seq<u8>, start: u32, hit: Option<SentinelHit>)
        requires
            self.finds(kind, payload, start, hit),
        ensures
            hit == self.found(kind, payload, start),
    {
        let found = self.found(kind, payload, start);
        if let Some(f) = fragment(kind, payload) {
            let data = self.stitched(f);
            if hit is Some {
                let i = choose|i: int| #[trigger]
                    first_damaged(data, i) && self.describes(f, start, i, hit->Some_0);
                lemma_damaged_counts(data, i);
                assert(found is Some);
                let j = choose|j: int| #[trigger]
                    first_damaged(data, j) && self.describes(f, start, j, found->Some_0);
                lemma_first_damaged_unique(data, i, j);
                let a = hit->Some_0;
                let b = found->Some_0;
                assert(a.got_tail =~= b.got_tail);
                let t = a.tail_index as int;
                let u = b.tail_index as int;
                if t < u {
                    assert(b.got_tail@.take(u)[t] == SENTINEL_TAIL@.take(u)[t]);
                } else if u < t {
                    assert(a.got_tail@.take(t)[u] == SENTINEL_TAIL@.take(t)[u]);
                }
                assert(a == b);
            } else if found is Some {
                let j = choose|j: int| #[trigger]
                    first_damaged(data, j) && self.describes(f, start, j, found->Some_0);
                lemma_damaged_counts(data, j);
            }
        }
    }

    /// The summary, when one is due.
    pub open spec fn summary(self) -> Option<Report> {
        if self.packets % SENTINEL_SUMMARY_EVERY == 0 {
            Some(
                Report::SentinelSummary {
                    packets: self.packets,
                    blocks: self.blocks,
                    mismatches: self.mismatch,
                },
            )
        } else {
            None
        }
    }
}

/// Counts of damaged blocks only grow.
proof fn lemma_damaged_grows(data: Seq<u8>, m: int, n: int)
    requires
        m <= n,
    ensures
        0 <= damaged_before(data, m) <= damaged_before(data, n),
    decreases n,
{
    lemma_counts_nonnegative(data, m);
    if m < n && n > 0 {
        lemma_damaged_grows(data, m, n - 1);
    }
}

/// Where there is a damaged block, it is counted.
proof fn lemma_damaged_counts(data: Seq<u8>, i: int)
    requires
        damaged_at(data, i),
    ensures
        damaged(data) > 0,
{
    lemma_damaged_grows(data, 0, i);
    lemma_damaged_grows(data, i + 1, data.len() as int);
}

proof fn lemma_first_damaged_unique(data: Seq<u8>, i: int, j: int)
    requires
        first_damaged(data, i),
        first_damaged(data, j),
    ensures
        i == j,
{
    if i < j {
        lemma_damaged_grows(data, 0, i);
        lemma_damaged_grows(data, i + 1, j);
    } else if j < i {
        lemma_damaged_grows(data, 0, j);
        lemma_damaged_grows(data, j + 1, i);
    }
}

impl Sentinel {
    /// Reports a summary, when one is due.
    pub fn summarise(&self, acts: &mut Actions)
        ensures
            final(acts)@ == old(acts)@ + logged(self@.summary()),
            asks(final(acts)@) == asks(old(acts)@),
    {
        if self.packets % SENTINEL_SUMMARY_EVERY == 0 {
            acts.push(
                Action::Log {
                    report: Report::SentinelSummary {
                        packets: self.packets,
                        blocks: self.blocks,
                        mismatches: self.mismatch,
                    },
                },
            );
        }
        assert(acts@ =~= old(acts)@ + logged(self@.summary()));
    }

    /// Nothing seen yet.
    pub fn new() -> (s: Self)
        ensures
            s@ == (SentinelView {
                packets: 0,
                blocks: 0,
                mismatch: 0,
                carry: seq![],
                ring_off: seq![],
                handle: 0,
                active: false,
            }),
            s@.wf(),
    {
        let s: Sentinel = Sentinel {
            packets: 0,
            blocks: 0,
            mismatch: 0,
            carry: Vec::new(),
            carry_ring_off: Vec::new(),
            carry_handle: 0,
            carry_active: false,
        };
        assert(s@.carry =~= seq![]);
        assert(s@.ring_off =~= seq![]);
        s
    }

    /// Puts the data of a fragment behind what is carried; the packet stands in
    /// the ring from `start` on.
    fn stitch(&mut self, data: &[u8], start: u32)
        requires
            start < BTSDIO_FWBUF_SIZE,
            data@.len() <= BTSDIO_FWBUF_SIZE,
        ensures
            final(self)@ == (SentinelView {
                carry: old(self)@.carry + data@,
                ring_off: old(self)@.ring_off + Seq::new(
                    data@.len(),
                    |i: int| ring_moved(start, 4 + i),
                ),
                ..old(self)@
            }),
    {
        let n: usize = data.len();
        let ghost from = self@;
        let ghost places = Seq::new(data@.len(), |i: int| ring_moved(start, 4 + i));
        let mut i: usize = 0;
        while i < n
            invariant
                i <= n,
                n == data@.len(),
                n <= BTSDIO_FWBUF_SIZE,
                start < BTSDIO_FWBUF_SIZE,
                places == Seq::new(data@.len(), |i: int| ring_moved(start, 4 + i)),
                self@ == (SentinelView {
                    carry: from.carry + data@.take(i as int),
                    ring_off: from.ring_off + places.take(i as int),
                    ..from
                }),
            decreases n - i,
        {
            let place: u32 = (start + 4 + i as u32) % BTSDIO_FWBUF_SIZE;
            assert(place == places[i as int]);
            self.carry.push(data[i]);
            self.carry_ring_off.push(place);
            i = i + 1;
            assert(self@.carry =~= from.carry + data@.take(i as int));
            assert(self@.ring_off =~= from.ring_off + places.take(i as int));
        }
        assert(data@.take(n as int) =~= data@);
        assert(places.take(n as int) =~= places);
    }

    /// Describes the damaged block at `offset`, where the data searched starts
    /// with `carry_len` bytes of the fragment before.
    fn describe(&self, carry_len: usize, offset: usize, got_tail: [u8; 8]) -> (hit: SentinelHit)
        requires
            damaged_at(self.carry@, offset as int),
            got_tail@ == self.carry@.subrange(offset + 8, offset + 16),
            self.carry_ring_off@.len() == self.carry@.len(),
        ensures
            described(self.carry@, self.carry_ring_off@, carry_len as int, offset as int, hit),
    {
        assert(offset + 16 <= self.carry.len());
        let tail_index: usize = wrong_tail_index(self.carry.as_slice(), offset);
        let acl_offset: usize = if offset < carry_len {
            0
        } else {
            offset - carry_len
        };
        proof {
            let data = self.carry@;
            assert forall|k: int| 0 <= k < tail_index implies #[trigger] got_tail@[k]
                == SENTINEL_TAIL@[k] by {
                assert(got_tail@[k] == data[offset + 8 + k]);
            }
            assert(got_tail@[tail_index as int] == data[offset + 8 + tail_index]);
            assert(got_tail@.take(tail_index as int) =~= SENTINEL_TAIL@.take(tail_index as int));
        }
        SentinelHit {
            acl_offset,
            cross_boundary: offset < carry_len,
            tail_index,
            bulk: got_tail[tail_index],
            ring_offset: self.carry_ring_off[offset + 8 + tail_index],
            got_tail,
        }
    }

    /// Keeps the last bytes only.
    fn trim(&mut self)
        requires
            old(self)@.carry.len() == old(self)@.ring_off.len(),
        ensures
            final(self)@ == (SentinelView {
                carry: carried(old(self)@.carry),
                ring_off: carried_positions(old(self)@.ring_off),
                ..old(self)@
            }),
    {
        let total_len: usize = self.carry.len();
        if total_len > CARRY_LEN {
            let cut: usize = total_len - CARRY_LEN;
            let carry: Vec<u8> = self.carry.split_off(cut);
            let ring_off: Vec<u32> = self.carry_ring_off.split_off(cut);
            assert(carry@ =~= carried(old(self)@.carry));
            assert(ring_off@ =~= carried_positions(old(self)@.ring_off));
            self.carry = carry;
            self.carry_ring_off = ring_off;
        }
    }

    /// Forgets what is carried.
    fn forget(&mut self)
        ensures
            final(self)@ == (SentinelView { carry: seq![], ring_off: seq![], ..old(self)@ }),
    {
        self.carry = Vec::new();
        self.carry_ring_off = Vec::new();
        assert(self@.carry =~= seq![]);
        assert(self@.ring_off =~= seq![]);
    }

    /// Searches what is carried, which starts with `carry_len` bytes of the
    /// fragment before.
    fn search(&mut self, carry_len: usize) -> (hit: Option<SentinelHit>)
        requires
            old(self)@.carry.len() == old(self)@.ring_off.len(),
        ensures
            final(self)@ == (SentinelView {
                blocks: wrapped_sum(old(self)@.blocks, blocks(old(self)@.carry)),
                mismatch: wrapped_sum(old(self)@.mismatch, damaged(old(self)@.carry)),
                ..old(self)@
            }),
            (match hit {
                Some(hit) => exists|i: int| #[trigger]
                    first_damaged(old(self)@.carry, i) && described(
                        old(self)@.carry,
                        old(self)@.ring_off,
                        carry_len as int,
                        i,
                        hit,
                    ),
                None => damaged(old(self)@.carry) == 0,
            }),
    {
        let scan: Scan = scan_sentinel_blocks(self.carry.as_slice());
        self.blocks = self.blocks.wrapping_add(scan.hits);
        self.mismatch = self.mismatch.wrapping_add(scan.mismatches);
        match scan.first_mismatch {
            None => None,
            Some((offset, got_tail)) => {
                assert(first_damaged(self.carry@, offset as int));
                Some(self.describe(carry_len, offset, got_tail))
            },
        }
    }

    /// Searches a fragment, and carries its end over.
    fn take_fragment(
        &mut self,
        handle: u16,
        continuing: bool,
        data: &[u8],
        start: u32,
    ) -> (hit: Option<SentinelHit>)
        requires
            old(self)@.wf(),
            start < BTSDIO_FWBUF_SIZE,
            data@.len() <= BTSDIO_FWBUF_SIZE,
        ensures
            ({
                let f = Fragment { handle, continuing, data: data@ };
                let all = old(self)@.stitched(f);
                &&& final(self)@ == (SentinelView {
                    packets: old(self)@.packets,
                    blocks: wrapped_sum(old(self)@.blocks, blocks(all)),
                    mismatch: wrapped_sum(old(self)@.mismatch, damaged(all)),
                    carry: carried(all),
                    ring_off: carried_positions(old(self)@.positions(f, start)),
                    handle,
                    active: true,
                })
                &&& match hit {
                    Some(hit) => exists|i: int| #[trigger]
                        first_damaged(all, i) && old(self)@.describes(f, start, i, hit),
                    None => damaged(all) == 0,
                }
            }),
            hit matches Some(h) ==> h.ring_offset < BTSDIO_FWBUF_SIZE,
            final(self)@.wf(),
    {
        let ghost f = Fragment { handle, continuing, data: data@ };
        if !continuing || !self.carry_active || self.carry_handle != handle {
            self.forget();
        }
        let carry_len: usize = self.carry.len();
        self.stitch(data, start);
        assert(self.carry@ =~= old(self)@.stitched(f));
        assert(self.carry_ring_off@ =~= old(self)@.positions(f, start));
        let hit: Option<SentinelHit> = self.search(carry_len);
        self.trim();
        self.carry_handle = handle;
        self.carry_active = true;
        hit
    }

    /// Searches a received packet, which stands in the ring from `start` on, for
    /// sentinel blocks.
    pub fn observe(&mut self, kind: u8, payload: &[u8], start: u32) -> (hit: Option<SentinelHit>)
        requires
            old(self)@.wf(),
            start < BTSDIO_FWBUF_SIZE,
            payload@.len() <= BTSDIO_FWBUF_SIZE,
        ensures
            final(self)@ == old(self)@.observed(kind, payload@, start),
            hit == old(self)@.found(kind, payload@, start),
            old(self)@.finds(kind, payload@, start, hit),
            hit matches Some(h) ==> h.ring_offset < BTSDIO_FWBUF_SIZE,
            final(self)@.wf(),
    {
        let n: usize = payload.len();
        if kind != HCI_PACKET_TYPE_ACL || n < 4 {
            self.packets = self.packets.wrapping_add(1);
            self.forget();
            self.carry_active = false;
            proof {
                old(self)@.lemma_found(kind, payload@, start, None);
            }
            return None;
        }
        let ghost f = fragment(kind, payload@)->Some_0;
        let flags: u16 = read_u16(payload, 0);
        let handle: u16 = flags % 0x1000;
        let continuing: bool = (flags / 0x1000) % 4 == ACL_PB_CONTINUING;
        let declared: usize = read_u16(payload, 2) as usize;
        let acl_len: usize = if declared <= n - 4 {
            declared
        } else {
            n - 4
        };
        let acl_data: &[u8] = &payload[4..4 + acl_len];
        assert(acl_data@ =~= f.data);
        let hit: Option<SentinelHit> = self.take_fragment(handle, continuing, acl_data, start);
        self.packets = self.packets.wrapping_add(1);
        assert(f == (Fragment { handle, continuing, data: acl_data@ }));
        proof {
            old(self)@.lemma_found(kind, payload@, start, hit);
        }
        hit
    }
}

/// A received packet without its type byte, and where in the ring it stands.
pub struct Received {
    pub kind: u8,
    pub payload: Seq<u8>,
    pub start: u32,
}

impl Received {
    /// The fragment in it.
    pub open spec fn fragment(self) -> Option<Fragment> {
        fragment(self.kind, self.payload)
    }
}

/// What is kept after some packets.
pub open spec fn observed_all(kept: SentinelView, list: Seq<Received>) -> SentinelView
    decreases list.len(),
{
    if list.len() == 0 {
        kept
    } else {
        let last = list.last();
        observed_all(kept, list.drop_last()).observed(last.kind, last.payload, last.start)
    }
}

/// Whether some packets are the fragments of one ACL packet, in order.
pub open spec fn fragments_of_one(list: Seq<Received>) -> bool {
    &&& list.len() > 0
    &&& forall|i: int| 0 <= i < list.len() ==> (#[trigger] list[i]).fragment() is Some
    &&& forall|i: int|
        0 <= i < list.len() ==> (#[trigger] list[i]).fragment()->Some_0.handle
            == list[0].fragment()->Some_0.handle
    &&& forall|i: int|
        0 <= i < list.len() ==> (#[trigger] list[i]).fragment()->Some_0.continuing == (i > 0)
}

/// The data of some fragments, put together.
pub open spec fn whole_data(list: Seq<Received>) -> Seq<u8>
    decreases list.len(),
{
    if list.len() == 0 {
        seq![]
    } else {
        whole_data(list.drop_last()) + list.last().fragment()->Some_0.data
    }
}

proof fn lemma_counts_nonnegative(data: Seq<u8>, n: int)
    ensures
        blocks_before(data, n) >= 0,
        damaged_before(data, n) >= 0,
    decreases n,
{
    if n > 0 {
        lemma_counts_nonnegative(data, n - 1);
    }
}

/// However an ACL packet is cut into fragments, the blocks in it are counted as
/// if it had come in one piece.
pub proof fn law_fragments_are_stitched(kept: SentinelView, list: Seq<Received>)
    requires
        fragments_of_one(list),
    ensures
        ({
            let after = observed_all(kept, list);
            let data = whole_data(list);
            &&& after.blocks == wrapped_sum(kept.blocks, blocks(data))
            &&& after.mismatch == wrapped_sum(kept.mismatch, damaged(data))
            &&& after.carry == carried(data)
            &&& after.active
            &&& after.handle == list[0].fragment()->Some_0.handle
        }),
    decreases list.len(),
{
    reveal_with_fuel(observed_all, 2);
    reveal_with_fuel(whole_data, 2);
    let before = list.drop_last();
    let f = list.last().fragment()->Some_0;
    assert(list.last() == list[list.len() - 1]);
    if before.len() == 0 {
        assert(!f.continuing);
        assert(whole_data(before) + f.data =~= f.data);
    } else {
        assert forall|i: int| 0 <= i < before.len() implies #[trigger] before[i] == list[i] by {}
        law_fragments_are_stitched(kept, before);
        let data = whole_data(before);
        law_stitched_scan(data, f.data);
        let part = carried(data) + f.data;
        lemma_counts_nonnegative(data, data.len() as int);
        lemma_counts_nonnegative(part, part.len() as int);
        law_wrapped_sum(kept.blocks, blocks(data), blocks(part));
        law_wrapped_sum(kept.mismatch, damaged(data), damaged(part));
    }
}

/// A block is "R4D_PING" with eight more bytes behind it; it is damaged if those
/// are not 0 to 7.
pub proof fn law_block_bytes(data: Seq<u8>, i: int)
    ensures
        block_at(data, i) <==> {
            &&& 0 <= i
            &&& i + 16 <= data.len()
            &&& data[i] == 0x52 && data[i + 1] == 0x34 && data[i + 2] == 0x44 && data[i + 3] == 0x5f
            &&& data[i + 4] == 0x50 && data[i + 5] == 0x49 && data[i + 6] == 0x4e
                && data[i + 7] == 0x47
        },
        damaged_at(data, i) <==> block_at(data, i) && exists|k: int|
            0 <= k < 8 && #[trigger] data[i + 8 + k] != k,
{
    if 0 <= i && i + 16 <= data.len() {
        let head = data.subrange(i, i + 8);
        let tail = data.subrange(i + 8, i + 16);
        assert(forall|k: int| 0 <= k < 8 ==> #[trigger] head[k] == data[i + k]);
        assert(forall|k: int| 0 <= k < 8 ==> #[trigger] tail[k] == data[i + 8 + k]);
        if data[i] == 0x52 && data[i + 1] == 0x34 && data[i + 2] == 0x44 && data[i + 3] == 0x5f
            && data[i + 4] == 0x50 && data[i + 5] == 0x49 && data[i + 6] == 0x4e && data[i + 7]
            == 0x47 {
            assert(head =~= SENTINEL_HEAD@);
        } else if head == SENTINEL_HEAD@ {
            assert(head[0] == SENTINEL_HEAD@[0] && head[1] == SENTINEL_HEAD@[1] && head[2]
                == SENTINEL_HEAD@[2] && head[3] == SENTINEL_HEAD@[3] && head[4]
                == SENTINEL_HEAD@[4] && head[5] == SENTINEL_HEAD@[5] && head[6]
                == SENTINEL_HEAD@[6] && head[7] == SENTINEL_HEAD@[7]);
        }
        assert(SENTINEL_TAIL@ =~= Seq::new(8, |k: int| k as u8));
        if exists|k: int| 0 <= k < 8 && #[trigger] data[i + 8 + k] != k {
            let k = choose|k: int| 0 <= k < 8 && #[trigger] data[i + 8 + k] != k;
            assert(tail[k] != SENTINEL_TAIL@[k]);
        } else {
            assert(tail =~= SENTINEL_TAIL@);
        }
    }
}

/// Each byte that more data brings counts one more block exactly if it completes
/// one, and one more damaged block exactly if that is damaged. Without data there
/// is none.
pub proof fn law_blocks_counted(data: Seq<u8>, byte: u8)
    ensures
        blocks(Seq::empty()) == 0,
        damaged(Seq::empty()) == 0,
        blocks(data.push(byte)) == blocks(data) + if block_at(data.push(byte), data.len() - 15) {
            1int
        } else {
            0
        },
        damaged(data.push(byte)) == damaged(data) + if damaged_at(
            data.push(byte),
            data.len() - 15,
        ) {
            1int
        } else {
            0
        },
{
    let longer = data.push(byte);
    let m = data.len() - 15;
    assert(longer.take(data.len() as int) =~= data);
    if m >= 0 {
        lemma_blocks_extended(data, longer, m);
        lemma_no_late_blocks(data, m);
        lemma_no_late_blocks(longer, m + 1);
    } else {
        lemma_no_late_blocks(data, 0);
        lemma_no_late_blocks(longer, 0);
    }
}

/// The first damaged block is damaged, and there is none before it.
pub proof fn law_first_damaged(data: Seq<u8>, i: int, j: int)
    requires
        first_damaged(data, i),
    ensures
        damaged_at(data, i),
        damaged_at(data, j) ==> i <= j,
{
    if damaged_at(data, j) && j < i {
        lemma_damaged_grows(data, 0, j);
        lemma_damaged_grows(data, j + 1, i);
    }
}

/// An ACL fragment has its connection in the lower twelve bits of its first two
/// bytes, its place in the packet in the next two bits, its length in the next two
/// bytes, and its data behind them, as far as it is there.
pub proof fn law_fragment_bytes(kind: u8, payload: Seq<u8>)
    ensures
        fragment(kind, payload) is Some <==> kind == 2 && payload.len() >= 4,
        fragment(kind, payload) matches Some(f) ==> {
            let len = payload[2] + 256 * payload[3];
            &&& f.handle == payload[0] + 256 * (payload[1] % 16)
            &&& f.continuing <==> payload[1] / 16 % 4 == 1
            &&& f.data.len() == if len < payload.len() - 4 {
                len
            } else {
                payload.len() - 4
            }
            &&& forall|i: int| 0 <= i < f.data.len() ==> #[trigger] f.data[i] == payload[4 + i]
        },
{
    if kind == 2 && payload.len() >= 4 {
        let lo = payload[0] as int;
        let hi = payload[1] as int;
        let flags = lo + 256 * hi;
        assert(flags == 0x1000 * (hi / 16) + (lo + 256 * (hi % 16)));
        assert(flags % 0x1000 == lo + 256 * (hi % 16));
        assert(flags / 0x1000 == hi / 16);
    }
}

/// A fragment is searched behind the last fifteen bytes before it, if it continues
/// the same connection and the packet before it was a fragment too; otherwise it is
/// searched alone. The packet counts once, and each block and each damaged one that
/// the search finds counts once. The last fifteen bytes are kept for the next
/// fragment, with their positions in the ring.
pub proof fn law_search(kept: SentinelView, kind: u8, payload: Seq<u8>, start: u32)
    requires
        kept.wf(),
    ensures
        ({
            let after = kept.observed(kind, payload, start);
            &&& after.packets == (kept.packets + 1) % 0x1_0000_0000
            &&& match fragment(kind, payload) {
                Some(f) => {
                    let data = searched_data(kept, f);
                    let from = data.len() - f.data.len();
                    let cut = data.len() - after.carry.len();
                    &&& after.blocks == (kept.blocks + blocks(data)) % 0x1_0000_0000
                    &&& after.mismatch == (kept.mismatch + damaged(data)) % 0x1_0000_0000
                    &&& after.active
                    &&& after.handle == f.handle
                    &&& after.carry.len() == if data.len() < 15 {
                        data.len()
                    } else {
                        15
                    }
                    &&& after.ring_off.len() == after.carry.len()
                    &&& forall|i: int|
                        0 <= i < after.carry.len() ==> #[trigger] after.carry[i] == data[cut + i]
                    &&& forall|i: int|
                        0 <= i < after.carry.len() ==> #[trigger] after.ring_off[i] == if cut + i
                            < from {
                            kept.ring_off[cut + i] as int
                        } else {
                            (start + 4 + cut + i - from) % 4096
                        }
                },
                None => {
                    &&& after.blocks == kept.blocks
                    &&& after.mismatch == kept.mismatch
                    &&& !after.active
                    &&& after.handle == kept.handle
                    &&& after.carry.len() == 0 && after.ring_off.len() == 0
                },
            }
        }),
{
    if let Some(f) = fragment(kind, payload) {
        lemma_counts_nonnegative(kept.stitched(f), kept.stitched(f).len() as int);
    }
}

/// The data in which a fragment is searched for blocks: the fragment, behind what
/// is kept of the one before if it continues that.
pub open spec fn searched_data(kept: SentinelView, f: Fragment) -> Seq<u8> {
    if f.continuing && kept.active && kept.handle == f.handle {
        kept.carry + f.data
    } else {
        f.data
    }
}

/// Whether a hit says of the block at `i` in some data where it starts, what its
/// second half is, which byte of that is the first wrong one, and where in the ring
/// that byte is. The first `from` bytes of the data are those with the positions
/// `places`; the others stand behind the first four bytes from `start` on.
pub open spec fn points_at(
    data: Seq<u8>,
    places: Seq<u32>,
    from: int,
    start: u32,
    i: int,
    hit: SentinelHit,
) -> bool {
    let t = hit.tail_index as int;
    &&& 0 <= t < 8
    &&& hit.cross_boundary <==> i < from
    &&& hit.cross_boundary ==> hit.acl_offset == 0
    &&& !hit.cross_boundary ==> from + hit.acl_offset == i
    &&& forall|k: int| 0 <= k < 8 ==> #[trigger] hit.got_tail@[k] == data[i + 8 + k]
    &&& forall|k: int| 0 <= k < t ==> #[trigger] hit.got_tail@[k] == k
    &&& hit.bulk == data[i + 8 + t]
    &&& hit.bulk != t
    &&& i + 8 + t < from ==> hit.ring_offset == places[i + 8 + t]
    &&& i + 8 + t >= from ==> hit.ring_offset == (start + 4 + (i + 8 + t - from)) % 4096
}

/// What a search finds is the first damaged block in the data that it searches, and
/// it finds nothing exactly if no block is damaged.
pub proof fn law_search_finds(
    kept: SentinelView,
    kind: u8,
    payload: Seq<u8>,
    start: u32,
    hit: Option<SentinelHit>,
)
    requires
        kept.wf(),
        kept.finds(kind, payload, start, hit),
    ensures
        kept.found(kind, payload, start) == hit,
        fragment(kind, payload) is None ==> hit is None,
        fragment(kind, payload) matches Some(f) ==> {
            let data = searched_data(kept, f);
            let from = data.len() - f.data.len();
            match hit {
                None => damaged(data) == 0,
                Some(hit) => exists|i: int| #[trigger]
                    first_damaged(data, i) && points_at(data, kept.ring_off, from, start, i, hit),
            }
        },
{
    kept.lemma_found(kind, payload, start, hit);
    if let Some(f) = fragment(kind, payload) {
        if let Some(hit) = hit {
            let data = kept.stitched(f);
            let i = choose|i: int| #[trigger]
                first_damaged(data, i) && kept.describes(f, start, i, hit);
            let t = hit.tail_index as int;
            assert(data == searched_data(kept, f));
            assert(first_damaged(data, i));
            assert(SENTINEL_TAIL@ =~= Seq::new(8, |k: int| k as u8));
            assert forall|k: int| 0 <= k < t implies #[trigger] hit.got_tail@[k] == k by {
                assert(hit.got_tail@.take(t)[k] == SENTINEL_TAIL@.take(t)[k]);
            }
            assert(hit.got_tail@[t] == data[i + 8 + t]);
            let from = data.len() - f.data.len();
            assert(from == kept.stitched_from(f));
            assert(points_at(data, kept.ring_off, from, start, i, hit));
        }
    }
}

/// Each 2048th packet the counts are reported.
pub proof fn law_search_summary(kept: SentinelView)
    ensures
        kept.packets % 2048 != 0 ==> kept.summary() is None,
        kept.packets % 2048 == 0 ==> kept.summary() == Some(
            Report::SentinelSummary {
                packets: kept.packets,
                blocks: kept.blocks,
                mismatches: kept.mismatch,
            },
        ),
{
}

} // verus!
