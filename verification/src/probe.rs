//! Probes of received packets: reading a packet, or single bytes of it, a second
//! time and comparing the two.

use vstd::arithmetic::div_mod::*;
use vstd::prelude::*;

use crate::action::{
    answered, asks, block_of, fits, logged, Action, ActionView, Actions, Ask, Reply,
};
use crate::consts::{BTSDIO_FWBUF_SIZE, HCI_PACKET_TYPE_ACL};
use crate::diff::{diff_of, law_diff};
use crate::memory::{loaded, Memory};
use crate::report::Report;
use crate::repro::{
    acl_sdu, is_repro_payload, starts_with_magic, REPRO_MAGIC, REPRO_TEST_PACKET_LEN,
};
use crate::ring::{
    blocks_of_memory, joined, law_ring_reads_load, ring_loaded, ring_moved, ring_reads,
};
use crate::sentinel::{fragment, law_fragment_bytes};
use crate::util::{read_u16, u16_at, wrapped_sum};

verus! {

/// One packet in this many is read twice.
pub const READBACK_EVERY: u32 = 32;

/// Single bytes of one packet in this many are read again.
pub const BYTE_PROBE_EVERY: u32 = 64;

/// How often the probes report a summary.
pub const PROBE_SUMMARY_EVERY: u32 = 2048;

/// How much is read at a time when a packet is read again.
pub const CHUNK_LEN: usize = 64;

/// How much is read next, of `n` bytes from position `p` on.
pub open spec fn chunk_len(p: u32, n: int) -> int {
    let to_wrap = BTSDIO_FWBUF_SIZE - p;
    let k = if n <= to_wrap {
        n
    } else {
        to_wrap
    };
    if k <= CHUNK_LEN {
        k
    } else {
        CHUNK_LEN as int
    }
}

/// The reads that get `n` bytes out of the ring at `base`, from position `p` on,
/// in small pieces.
pub open spec fn chunk_reads(base: u32, p: u32, n: int) -> Seq<ActionView>
    decreases n,
{
    if n <= 0 || p >= BTSDIO_FWBUF_SIZE {
        seq![]
    } else {
        let k = chunk_len(p, n);
        seq![ActionView::ReadBlock { addr: (base + p) as u32, len: k as usize }] + chunk_reads(
            base,
            ring_moved(p, k),
            n - k,
        )
    }
}

/// The shapes of the replies to [`chunk_reads`].
pub open spec fn chunk_asks(p: u32, n: int) -> Seq<Ask>
    decreases n,
{
    if n <= 0 || p >= BTSDIO_FWBUF_SIZE {
        seq![]
    } else {
        let k = chunk_len(p, n);
        seq![Ask::Block(k as nat)] + chunk_asks(ring_moved(p, k), n - k)
    }
}

/// Asks for `n` bytes out of the ring, in small pieces.
pub fn read_in_chunks(acts: &mut Actions, base: u32, p: u32, n: usize)
    requires
        p < BTSDIO_FWBUF_SIZE,
        base + BTSDIO_FWBUF_SIZE <= u32::MAX,
        n <= BTSDIO_FWBUF_SIZE,
    ensures
        final(acts)@ == old(acts)@ + chunk_reads(base, p, n as int),
        asks(final(acts)@) == asks(old(acts)@) + chunk_asks(p, n as int),
{
    let ghost all = acts@ + chunk_reads(base, p, n as int);
    let ghost all_asks = asks(acts@) + chunk_asks(p, n as int);
    let mut ptr: u32 = p;
    let mut compared: usize = 0;
    while compared < n
        invariant
            compared <= n <= BTSDIO_FWBUF_SIZE,
            ptr < BTSDIO_FWBUF_SIZE,
            base + BTSDIO_FWBUF_SIZE <= u32::MAX,
            all == acts@ + chunk_reads(base, ptr, n - compared),
            all_asks == asks(acts@) + chunk_asks(ptr, n - compared),
        decreases n - compared,
    {
        let to_wrap: usize = (BTSDIO_FWBUF_SIZE - ptr) as usize;
        let left: usize = n - compared;
        let mut k: usize = if left <= to_wrap {
            left
        } else {
            to_wrap
        };
        if k > CHUNK_LEN {
            k = CHUNK_LEN;
        }
        let ghost before = acts@;
        acts.push(Action::ReadBlock { addr: base + ptr, len: k });
        proof {
            let rest = chunk_reads(base, ring_moved(ptr, k as int), left - k);
            let rest_asks = chunk_asks(ring_moved(ptr, k as int), left - k);
            assert(acts@ + rest =~= before + chunk_reads(base, ptr, left as int));
            assert(asks(acts@) + rest_asks =~= asks(before) + chunk_asks(ptr, left as int));
        }
        compared = compared + k;
        ptr = (ptr + k as u32) % BTSDIO_FWBUF_SIZE;
    }
    assert(acts@ + Seq::<ActionView>::empty() =~= acts@);
    assert(asks(acts@) + Seq::<Ask>::empty() =~= asks(acts@));
}

proof fn lemma_joined_front(first: Reply, rest: Seq<Reply>)
    ensures
        joined(seq![first] + rest) == block_of(first) + joined(rest),
    decreases rest.len(),
{
    let all = seq![first] + rest;
    if rest.len() == 0 {
        assert(all.drop_last() =~= seq![]);
        reveal_with_fuel(joined, 2);
        assert(joined(all) =~= block_of(first) + joined(rest));
    } else {
        lemma_joined_front(first, rest.drop_last());
        assert(all.drop_last() =~= seq![first] + rest.drop_last());
        assert(all.last() == rest.last());
        assert(joined(all) =~= block_of(first) + joined(rest));
    }
}

/// The replies to reads in small pieces hold as many bytes together as were
/// asked for.
pub proof fn lemma_chunks_joined_len(replies: Seq<Reply>, p: u32, n: int)
    requires
        p < BTSDIO_FWBUF_SIZE,
        0 <= n,
        answered(chunk_asks(p, n), replies),
    ensures
        joined(replies).len() == n,
        forall|i: int| 0 <= i < replies.len() ==> #[trigger] replies[i] is Block,
    decreases n,
{
    if n > 0 {
        let k = chunk_len(p, n);
        let rest = replies.skip(1);
        let more = chunk_asks(ring_moved(p, k), n - k);
        assert(replies[0] is Block);
        assert forall|i: int| #![trigger rest[i]] 0 <= i < rest.len() implies fits(
            more[i],
            rest[i],
        ) by {
            assert(rest[i] == replies[i + 1]);
            assert(chunk_asks(p, n)[i + 1] == more[i]);
        }
        lemma_chunks_joined_len(rest, ring_moved(p, k), n - k);
        lemma_joined_front(replies[0], rest);
        assert(replies =~= seq![replies[0]] + rest);
        assert forall|i: int| 0 <= i < replies.len() implies #[trigger] replies[i] is Block by {
            if i > 0 {
                assert(replies[i] == rest[i - 1]);
            }
        }
    }
}

/// The reads in small pieces give the bytes of the ring that they are meant for.
pub proof fn law_chunk_reads_load(mem: Memory, base: u32, p: u32, n: nat, replies: Seq<Reply>)
    requires
        p < BTSDIO_FWBUF_SIZE,
        base + BTSDIO_FWBUF_SIZE <= u32::MAX,
        n <= BTSDIO_FWBUF_SIZE,
        blocks_of_memory(mem, chunk_reads(base, p, n as int), replies),
    ensures
        joined(replies) == ring_loaded(mem, base as int, p as int, n),
    decreases n,
{
    let size = BTSDIO_FWBUF_SIZE as int;
    let want = ring_loaded(mem, base as int, p as int, n);
    if n > 0 {
        let k = chunk_len(p, n as int);
        let q = ring_moved(p, k);
        let reads = chunk_reads(base, p, n as int);
        let rest = replies.skip(1);
        let more = chunk_reads(base, q, n - k);
        assert forall|i: int|
            #![trigger rest[i]]
            0 <= i < more.len() implies block_of(rest[i]) == loaded(
            mem,
            more[i]->ReadBlock_addr as int,
            more[i]->ReadBlock_len as nat,
        ) by {
            assert(rest[i] == replies[i + 1]);
            assert(reads[i + 1] == more[i]);
        }
        law_chunk_reads_load(mem, base, q, (n - k) as nat, rest);
        lemma_joined_front(replies[0], rest);
        assert(replies =~= seq![replies[0]] + rest);
        let first = block_of(replies[0]);
        let tail = ring_loaded(mem, base as int, q as int, (n - k) as nat);
        assert forall|i: int| 0 <= i < n implies (first + tail)[i] == want[i] by {
            if i < k {
                lemma_small_mod((p + i) as nat, size as nat);
            } else {
                lemma_add_mod_noop(p + k, i - k, size);
                lemma_add_mod_noop((p + k) % size, i - k, size);
                lemma_mod_twice(p + k, size);
            }
        }
        assert(first + tail =~= want);
    } else {
        assert(joined(replies) =~= want);
    }
}

/// A packet that stands untouched in the ring reads the same twice.
pub proof fn law_untouched_packet_reads_the_same(
    mem: Memory,
    base: u32,
    p: u32,
    n: nat,
    first: Seq<Reply>,
    second: Seq<Reply>,
)
    requires
        p < BTSDIO_FWBUF_SIZE,
        base + BTSDIO_FWBUF_SIZE <= u32::MAX,
        n <= BTSDIO_FWBUF_SIZE,
        blocks_of_memory(mem, ring_reads(base, p, n as int), first),
        blocks_of_memory(mem, chunk_reads(base, p, n as int), second),
    ensures
        diff_of(joined(first), joined(second)).mismatches == 0,
{
    law_ring_reads_load(mem, base, p, n, first);
    law_chunk_reads_load(mem, base, p, n, second);
    law_diff(joined(first), joined(second));
}

/// What a report says of a received packet; each field has all bits set where
/// the packet does not have it.
#[derive(Clone, Copy, PartialEq, Eq, Structural, Debug)]
pub struct PacketMeta {
    pub acl_handle: u16,
    pub acl_pb: u8,
    pub l2cap_cid: u16,
    pub repro_seq: u32,
}

/// What a report says of a received packet without its type byte.
pub open spec fn packet_meta(kind: u8, payload: Seq<u8>) -> PacketMeta {
    match fragment(kind, payload) {
        None => PacketMeta {
            acl_handle: 0xffff,
            acl_pb: 0xff,
            l2cap_cid: 0xffff,
            repro_seq: u32::MAX,
        },
        Some(f) => PacketMeta {
            acl_handle: f.handle,
            acl_pb: (u16_at(payload, 0) / 0x1000 % 4) as u8,
            l2cap_cid: if f.data.len() < 4 {
                0xffff
            } else {
                u16_at(f.data, 2) as u16
            },
            repro_seq: match acl_sdu(f.data) {
                Some(sdu) if is_repro_payload(sdu) => u16_at(sdu, 8) as u32,
                _ => u32::MAX,
            },
        },
    }
}

/// Gathers what a report says of a received packet without its type byte.
pub fn probe_rx_packet_meta(hci_packet_type: u8, payload_valid: &[u8]) -> (meta: PacketMeta)
    ensures
        meta == packet_meta(hci_packet_type, payload_valid@),
{
    let mut meta: PacketMeta = PacketMeta {
        acl_handle: 0xffff,
        acl_pb: 0xff,
        l2cap_cid: 0xffff,
        repro_seq: u32::MAX,
    };
    let n: usize = payload_valid.len();
    if hci_packet_type != HCI_PACKET_TYPE_ACL || n < 4 {
        return meta;
    }
    let ghost f = fragment(hci_packet_type, payload_valid@)->Some_0;
    let acl_flags: u16 = read_u16(payload_valid, 0);
    meta.acl_handle = acl_flags % 0x1000;
    meta.acl_pb = ((acl_flags / 0x1000) % 4) as u8;
    let declared: usize = read_u16(payload_valid, 2) as usize;
    let acl_len: usize = if declared <= n - 4 {
        declared
    } else {
        n - 4
    };
    let acl_payload: &[u8] = &payload_valid[4..4 + acl_len];
    assert(acl_payload@ =~= f.data);
    if acl_len < 4 {
        return meta;
    }
    let l2cap_len: usize = read_u16(acl_payload, 0) as usize;
    meta.l2cap_cid = read_u16(acl_payload, 2);
    if acl_len < 4 + l2cap_len || l2cap_len < 2 {
        return meta;
    }
    let sdu_len: usize = read_u16(acl_payload, 4) as usize;
    if sdu_len != REPRO_TEST_PACKET_LEN || l2cap_len < 2 + sdu_len {
        return meta;
    }
    let sdu: &[u8] = &acl_payload[6..6 + sdu_len];
    assert(sdu@ == acl_sdu(f.data)->Some_0);
    if starts_with_magic(sdu) {
        meta.repro_seq = read_u16(sdu, 8) as u32;
    }
    meta
}

/// The packets read twice. Every count wraps around.
#[derive(Clone, Copy, PartialEq, Eq, Structural, Debug)]
pub struct RxReadback {
    /// The packets received.
    pub packets: u32,
    /// Those read twice.
    pub sampled: u32,
    /// Those that did not read the same twice.
    pub mismatch_packets: u32,
    /// The bytes that did not.
    pub mismatch_bytes: u32,
}

impl RxReadback {
    /// Nothing counted yet.
    pub fn new() -> (counters: Self)
        ensures
            counters == (RxReadback { packets: 0, sampled: 0, mismatch_packets: 0, mismatch_bytes: 0 }),
    {
        RxReadback { packets: 0, sampled: 0, mismatch_packets: 0, mismatch_bytes: 0 }
    }

    /// Whether the packet counted last is to be read twice.
    pub open spec fn due(self) -> bool {
        self.packets % READBACK_EVERY == 0
    }

    /// The counts with one more packet.
    pub open spec fn counted(self) -> RxReadback {
        let counted = RxReadback { packets: wrapped_sum(self.packets, 1), ..self };
        if counted.due() {
            RxReadback { sampled: wrapped_sum(self.sampled, 1), ..counted }
        } else {
            counted
        }
    }

    /// Counts a packet, and says whether it is to be read twice.
    pub fn count(&mut self) -> (due: bool)
        ensures
            *final(self) == old(self).counted(),
            due == final(self).due(),
    {
        self.packets = self.packets.wrapping_add(1);
        let due: bool = self.packets % READBACK_EVERY == 0;
        if due {
            self.sampled = self.sampled.wrapping_add(1);
        }
        due
    }

    /// The counts with one more packet in which some bytes differed.
    pub open spec fn differed(self, mismatches: u16) -> RxReadback {
        RxReadback {
            mismatch_packets: wrapped_sum(self.mismatch_packets, 1),
            mismatch_bytes: wrapped_sum(self.mismatch_bytes, mismatches as int),
            ..self
        }
    }

    /// Counts a packet in which some bytes differed.
    pub fn count_difference(&mut self, mismatches: u16)
        ensures
            *final(self) == old(self).differed(mismatches),
    {
        self.mismatch_packets = self.mismatch_packets.wrapping_add(1);
        self.mismatch_bytes = self.mismatch_bytes.wrapping_add(mismatches as u32);
    }

    /// The summary, when one is due.
    pub open spec fn summary(self) -> Option<Report> {
        if self.packets % PROBE_SUMMARY_EVERY == 0 {
            Some(
                Report::RxReadbackSummary {
                    packets: self.packets,
                    sampled: self.sampled,
                    bad: self.mismatch_packets,
                    bad_bytes: self.mismatch_bytes,
                },
            )
        } else {
            None
        }
    }

    /// Reports a summary, when one is due.
    pub fn summarise(&self, acts: &mut Actions)
        ensures
            final(acts)@ == old(acts)@ + logged(self.summary()),
            asks(final(acts)@) == asks(old(acts)@),
    {
        if self.packets % PROBE_SUMMARY_EVERY == 0 {
            acts.push(
                Action::Log {
                    report: Report::RxReadbackSummary {
                        packets: self.packets,
                        sampled: self.sampled,
                        bad: self.mismatch_packets,
                        bad_bytes: self.mismatch_bytes,
                    },
                },
            );
        }
        assert(acts@ =~= old(acts)@ + logged(self.summary()));
    }
}

/// One of the two bytes that are read again.
#[derive(Clone, Copy, PartialEq, Eq, Structural, Debug)]
pub enum ProbedByte {
    O4,
    O9,
}

impl ProbedByte {
    /// Where in a packet the byte stands.
    pub open spec fn at(self) -> usize {
        match self {
            ProbedByte::O4 => 4,
            ProbedByte::O9 => 9,
        }
    }

    /// Where in a packet the byte stands.
    pub fn offset(&self) -> (offset: usize)
        ensures
            offset == self.at(),
    {
        match self {
            ProbedByte::O4 => 4,
            ProbedByte::O9 => 9,
        }
    }
}

/// The bytes read again. Every count wraps around.
#[derive(Clone, Copy, PartialEq, Eq, Structural, Debug)]
pub struct ByteProbe {
    /// The packets received.
    pub packets: u32,
    /// How often the byte at 4 was read again, and how often it differed.
    pub checked_o4: u32,
    pub mismatch_o4: u32,
    /// How often the byte at 9 was read again, and how often it differed.
    pub checked_o9: u32,
    pub mismatch_o9: u32,
}

impl ByteProbe {
    /// Nothing counted yet.
    pub fn new() -> (probe: Self)
        ensures
            probe == (ByteProbe {
                packets: 0,
                checked_o4: 0,
                mismatch_o4: 0,
                checked_o9: 0,
                mismatch_o9: 0,
            }),
    {
        ByteProbe { packets: 0, checked_o4: 0, mismatch_o4: 0, checked_o9: 0, mismatch_o9: 0 }
    }

    /// Whether bytes of the packet counted last are to be read again.
    pub open spec fn due(self) -> bool {
        self.packets % BYTE_PROBE_EVERY == 0
    }

    /// The counts with one more packet.
    pub open spec fn counted(self) -> ByteProbe {
        ByteProbe { packets: wrapped_sum(self.packets, 1), ..self }
    }

    /// Counts a packet, and says whether bytes of it are to be read again.
    pub fn count(&mut self) -> (due: bool)
        ensures
            *final(self) == old(self).counted(),
            due == final(self).due(),
    {
        self.packets = self.packets.wrapping_add(1);
        self.packets % BYTE_PROBE_EVERY == 0
    }

    /// The counts after a byte was read again.
    pub open spec fn checked(self, byte: ProbedByte, differs: bool) -> ByteProbe {
        let more = if differs {
            1int
        } else {
            0
        };
        match byte {
            ProbedByte::O4 => ByteProbe {
                checked_o4: wrapped_sum(self.checked_o4, 1),
                mismatch_o4: wrapped_sum(self.mismatch_o4, more),
                ..self
            },
            ProbedByte::O9 => ByteProbe {
                checked_o9: wrapped_sum(self.checked_o9, 1),
                mismatch_o9: wrapped_sum(self.mismatch_o9, more),
                ..self
            },
        }
    }

    /// Counts a byte that was read again.
    pub fn check(&mut self, byte: ProbedByte, differs: bool)
        ensures
            *final(self) == old(self).checked(byte, differs),
    {
        let more: u32 = if differs {
            1
        } else {
            0
        };
        match byte {
            ProbedByte::O4 => {
                self.checked_o4 = self.checked_o4.wrapping_add(1);
                self.mismatch_o4 = self.mismatch_o4.wrapping_add(more);
            },
            ProbedByte::O9 => {
                self.checked_o9 = self.checked_o9.wrapping_add(1);
                self.mismatch_o9 = self.mismatch_o9.wrapping_add(more);
            },
        }
    }

    /// The summary, when one is due.
    pub open spec fn summary(self) -> Option<Report> {
        if self.packets % PROBE_SUMMARY_EVERY == 0 {
            Some(
                Report::ByteProbeSummary {
                    packets: self.packets,
                    checked_o4: self.checked_o4,
                    mismatch_o4: self.mismatch_o4,
                    checked_o9: self.checked_o9,
                    mismatch_o9: self.mismatch_o9,
                },
            )
        } else {
            None
        }
    }

    /// Reports a summary, when one is due.
    pub fn summarise(&self, acts: &mut Actions)
        ensures
            final(acts)@ == old(acts)@ + logged(self.summary()),
            asks(final(acts)@) == asks(old(acts)@),
    {
        if self.packets % PROBE_SUMMARY_EVERY == 0 {
            acts.push(
                Action::Log {
                    report: Report::ByteProbeSummary {
                        packets: self.packets,
                        checked_o4: self.checked_o4,
                        mismatch_o4: self.mismatch_o4,
                        checked_o9: self.checked_o9,
                        mismatch_o9: self.mismatch_o9,
                    },
                },
            );
        }
        assert(acts@ =~= old(acts)@ + logged(self.summary()));
    }
}

/// Pieces of at most 64 bytes are read one after the other, each inside the ring;
/// only the last one, and one that reaches the end of the ring, may be shorter.
pub proof fn law_small_pieces(base: u32, p: u32, n: int, i: int)
    requires
        p < 4096,
        0 <= n <= 4096,
        base <= 0xffff_efff,
        0 <= i < chunk_reads(base, p, n).len(),
    ensures
        ({
            let reads = chunk_reads(base, p, n);
            let len = reads[i]->ReadBlock_len as int;
            let at = reads[i]->ReadBlock_addr as int;
            &&& reads[i] is ReadBlock
            &&& 1 <= len <= 64
            &&& base <= at && at + len <= base + 4096
            &&& len < 64 ==> i == reads.len() - 1 || at + len == base + 4096
            &&& i == 0 ==> at == base + p
            &&& i + 1 < reads.len() ==> reads[i + 1]->ReadBlock_addr == if at + len == base + 4096 {
                base as int
            } else {
                at + len
            }
        }),
    decreases n,
{
    let k = chunk_len(p, n);
    let q = ring_moved(p, k);
    let rest = chunk_reads(base, q, n - k);
    let reads = chunk_reads(base, p, n);
    assert(q == if p + k == 4096 {
        0
    } else {
        p + k
    });
    if i > 0 {
        law_small_pieces(base, q, n - k, i - 1);
        assert(reads[i] == rest[i - 1]);
        if i + 1 < reads.len() {
            assert(reads[i + 1] == rest[i]);
        }
    } else if reads.len() > 1 {
        law_small_pieces(base, q, n - k, 0);
        assert(reads[1] == rest[0]);
    }
}

/// What a report says of a received packet: of an ACL fragment its connection and
/// its place in the packet; of its data, if there is enough of it, the channel; and
/// the number of the test packet in it, if there is a whole one.
pub proof fn law_packet_meta(kind: u8, payload: Seq<u8>)
    ensures
        ({
            let meta = packet_meta(kind, payload);
            let acl = kind == 2 && payload.len() >= 4;
            let len = payload[2] + 256 * payload[3];
            let data = if len < payload.len() - 4 {
                len
            } else {
                payload.len() - 4
            };
            let frame = payload[4] + 256 * payload[5];
            let test = acl && data >= 226 && 222 <= frame <= data - 4 && payload[8] == 220
                && payload[9] == 0 && payload.subrange(10, 18) == seq![
                0x52u8,
                0x34,
                0x44,
                0x5f,
                0x53,
                0x50,
                0x49,
                0x21,
            ];
            &&& meta.acl_handle == if acl {
                payload[0] + 256 * (payload[1] % 16)
            } else {
                0xffff
            }
            &&& meta.acl_pb == if acl {
                payload[1] as int / 16 % 4
            } else {
                0xff
            }
            &&& meta.l2cap_cid == if acl && data >= 4 {
                payload[6] + 256 * payload[7]
            } else {
                0xffff
            }
            &&& meta.repro_seq == if test {
                payload[18] + 256 * payload[19]
            } else {
                0xffff_ffff
            }
        }),
{
    if let Some(f) = fragment(kind, payload) {
        law_fragment_bytes(kind, payload);
        let lo = payload[0] as int;
        let hi = payload[1] as int;
        assert((lo + 256 * hi) / 0x1000 == hi / 16);
        if f.data.len() >= 226 {
            let sdu = f.data.subrange(6, 226);
            assert(sdu.take(8) =~= payload.subrange(10, 18));
            assert(sdu[8] == payload[18] && sdu[9] == payload[19]);
            assert(REPRO_MAGIC@ =~= seq![0x52u8, 0x34, 0x44, 0x5f, 0x53, 0x50, 0x49, 0x21]);
        }
    }
}

/// Every packet counts once, and each 32nd is read twice; one that then differs
/// counts as one, and every byte that differs counts once.
pub proof fn law_packets_counted(counters: RxReadback, mismatches: u16)
    ensures
        ({
            let after = counters.counted();
            let packets = (counters.packets + 1) % 0x1_0000_0000;
            &&& after.packets == packets
            &&& after.due() <==> packets % 32 == 0
            &&& packets % 32 == 0 ==> after.sampled == (counters.sampled + 1) % 0x1_0000_0000
            &&& packets % 32 != 0 ==> after.sampled == counters.sampled
            &&& after.mismatch_packets == counters.mismatch_packets
            &&& after.mismatch_bytes == counters.mismatch_bytes
        }),
        ({
            let after = counters.differed(mismatches);
            &&& after.packets == counters.packets
            &&& after.sampled == counters.sampled
            &&& after.mismatch_packets == (counters.mismatch_packets + 1) % 0x1_0000_0000
            &&& after.mismatch_bytes == (counters.mismatch_bytes + mismatches) % 0x1_0000_0000
        }),
        counters.packets % 2048 != 0 ==> counters.summary() is None,
        counters.packets % 2048 == 0 ==> counters.summary() == Some(
            Report::RxReadbackSummary {
                packets: counters.packets,
                sampled: counters.sampled,
                bad: counters.mismatch_packets,
                bad_bytes: counters.mismatch_bytes,
            },
        ),
{
}

} // verus!
