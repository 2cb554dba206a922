//! The circular buffers through which packets pass, and the frames in them.
//!
//! A frame is a header of four bytes (the length of the packet behind its type
//! byte, lowest byte first, and the type byte) and the packet, filled up to a
//! multiple of four bytes. It may wrap around the end of the buffer.

use vstd::arithmetic::div_mod::*;
use vstd::prelude::*;

use crate::action::{answered, asks, block_of, Action, ActionView, Actions, Ask, Reply};
use crate::consts::BTSDIO_FWBUF_SIZE;
use crate::memory::{loaded, performed_all, Memory};
use crate::util::rounded_up;

verus! {

/// A position in a ring: inside it, and on a word boundary.
pub open spec fn ring_pointer(p: u32) -> bool {
    p < BTSDIO_FWBUF_SIZE && p % 4 == 0
}

/// Whether a pointer value is one that a ring pointer can have.
pub fn is_ring_pointer(p: u32) -> (ok: bool)
    ensures
        ok == ring_pointer(p),
{
    p < BTSDIO_FWBUF_SIZE && p % 4 == 0
}

/// The position `n` bytes on.
pub open spec fn ring_moved(p: u32, n: int) -> u32 {
    ((p + n) % BTSDIO_FWBUF_SIZE as int) as u32
}

/// The position `n` bytes on.
pub fn ring_move(p: u32, n: u32) -> (moved: u32)
    requires
        p + n <= u32::MAX,
    ensures
        moved == ring_moved(p, n as int),
        moved < BTSDIO_FWBUF_SIZE,
        ring_pointer(p) && n % 4 == 0 ==> ring_pointer(moved),
{
    (p + n) % BTSDIO_FWBUF_SIZE
}

/// How many bytes wait between the reader and the writer.
pub open spec fn ring_used(read: u32, write: u32) -> int {
    (write - read) % BTSDIO_FWBUF_SIZE as int
}

/// How many bytes may be written: the writer always stays one word behind the
/// reader, so that a full ring does not look like an empty one.
pub open spec fn ring_free(read: u32, write: u32) -> int {
    (read - (write + 4)) % BTSDIO_FWBUF_SIZE as int
}

proof fn lemma_wrapping_difference(a: u32, b: u32)
    ensures
        a.wrapping_sub(b) as int % BTSDIO_FWBUF_SIZE as int == (a - b) % BTSDIO_FWBUF_SIZE as int,
{
    if a < b {
        assert(a.wrapping_sub(b) == a - b + 0x1_0000_0000);
        lemma_mod_multiples_vanish(0x10_0000, a - b, 0x1000);
    }
}

/// How many bytes wait between the reader and the writer.
pub fn used(read: u32, write: u32) -> (n: u32)
    ensures
        n == ring_used(read, write),
        n < BTSDIO_FWBUF_SIZE,
{
    proof {
        lemma_wrapping_difference(write, read);
    }
    write.wrapping_sub(read) % BTSDIO_FWBUF_SIZE
}

/// How many bytes may be written.
pub fn free(read: u32, write: u32) -> (n: u32)
    requires
        write + 4 <= u32::MAX,
    ensures
        n == ring_free(read, write),
        n < BTSDIO_FWBUF_SIZE,
{
    proof {
        lemma_wrapping_difference(read, (write + 4) as u32);
    }
    read.wrapping_sub(write + 4) % BTSDIO_FWBUF_SIZE
}

/// The writes that put `data` into the ring at `base`, from position `p` on.
pub open spec fn ring_writes(base: u32, p: u32, data: Seq<u8>) -> Seq<ActionView> {
    if p + data.len() > BTSDIO_FWBUF_SIZE {
        let n = BTSDIO_FWBUF_SIZE - p;
        seq![
            ActionView::WriteBlock { addr: (base + p) as u32, data: data.take(n) },
            ActionView::WriteBlock { addr: base, data: data.skip(n) },
        ]
    } else {
        seq![ActionView::WriteBlock { addr: (base + p) as u32, data }]
    }
}

/// The reads that get `n` bytes out of the ring at `base`, from position `p` on.
pub open spec fn ring_reads(base: u32, p: u32, n: int) -> Seq<ActionView> {
    if p + n > BTSDIO_FWBUF_SIZE {
        let k = BTSDIO_FWBUF_SIZE - p;
        seq![
            ActionView::ReadBlock { addr: (base + p) as u32, len: k as usize },
            ActionView::ReadBlock { addr: base, len: (n - k) as usize },
        ]
    } else {
        seq![ActionView::ReadBlock { addr: (base + p) as u32, len: n as usize }]
    }
}

/// The shapes of the replies to [`ring_reads`].
pub open spec fn ring_asks(p: u32, n: int) -> Seq<Ask> {
    if p + n > BTSDIO_FWBUF_SIZE {
        let k = BTSDIO_FWBUF_SIZE - p;
        seq![Ask::Block(k as nat), Ask::Block((n - k) as nat)]
    } else {
        seq![Ask::Block(n as nat)]
    }
}

/// Asks for `data` to be put into the ring.
pub fn ring_write(acts: &mut Actions, base: u32, p: u32, data: &[u8])
    requires
        p < BTSDIO_FWBUF_SIZE,
        base + BTSDIO_FWBUF_SIZE <= u32::MAX,
        data@.len() <= BTSDIO_FWBUF_SIZE,
    ensures
        final(acts)@ == old(acts)@ + ring_writes(base, p, data@),
        asks(final(acts)@) == asks(old(acts)@),
{
    if p as usize + data.len() > BTSDIO_FWBUF_SIZE as usize {
        let n: usize = (BTSDIO_FWBUF_SIZE - p) as usize;
        let first: Vec<u8> = vstd::slice::slice_to_vec(&data[0..n]);
        let second: Vec<u8> = vstd::slice::slice_to_vec(&data[n..data.len()]);
        assert(first@ =~= data@.take(n as int));
        assert(second@ =~= data@.skip(n as int));
        acts.push(Action::WriteBlock { addr: base + p, data: first });
        acts.push(Action::WriteBlock { addr: base, data: second });
    } else {
        acts.push(Action::WriteBlock { addr: base + p, data: vstd::slice::slice_to_vec(data) });
    }
    assert(acts@ =~= old(acts)@ + ring_writes(base, p, data@));
}

/// Asks for `n` bytes out of the ring.
pub fn ring_read(acts: &mut Actions, base: u32, p: u32, n: usize)
    requires
        p < BTSDIO_FWBUF_SIZE,
        base + BTSDIO_FWBUF_SIZE <= u32::MAX,
        n <= BTSDIO_FWBUF_SIZE,
    ensures
        final(acts)@ == old(acts)@ + ring_reads(base, p, n as int),
        asks(final(acts)@) == asks(old(acts)@) + ring_asks(p, n as int),
{
    if p as usize + n > BTSDIO_FWBUF_SIZE as usize {
        let k: usize = (BTSDIO_FWBUF_SIZE - p) as usize;
        acts.push(Action::ReadBlock { addr: base + p, len: k });
        acts.push(Action::ReadBlock { addr: base, len: n - k });
    } else {
        acts.push(Action::ReadBlock { addr: base + p, len: n });
    }
    assert(acts@ =~= old(acts)@ + ring_reads(base, p, n as int));
    assert(asks(acts@) =~= asks(old(acts)@) + ring_asks(p, n as int));
}

/// The memory after `data` was put into the ring at `base`, from position `p` on.
pub open spec fn ring_stored(mem: Memory, base: int, p: int, data: Seq<u8>) -> Memory {
    |a: int|
        {
            let i = (a - base - p) % BTSDIO_FWBUF_SIZE as int;
            if base <= a < base + BTSDIO_FWBUF_SIZE && i < data.len() {
                data[i]
            } else {
                mem(a)
            }
        }
}

/// The `n` bytes in the ring at `base` from position `p` on.
pub open spec fn ring_loaded(mem: Memory, base: int, p: int, n: nat) -> Seq<u8> {
    Seq::new(n, |i: int| mem(base + (p + i) % BTSDIO_FWBUF_SIZE as int))
}

/// The header of a frame.
pub open spec fn frame_header(len: int, kind: u8) -> Seq<u8> {
    seq![(len % 256) as u8, (len / 0x100 % 256) as u8, (len / 0x1_0000 % 256) as u8, kind]
}

/// The length in a header.
pub open spec fn header_len(header: Seq<u8>) -> int {
    header[0] + 0x100 * header[1] + 0x1_0000 * header[2]
}

/// How many bytes the packet in a frame takes up in the ring.
pub open spec fn padded_len(len: int) -> int {
    rounded_up(len, 4)
}

/// The bytes in a list of replies, put together.
pub open spec fn joined(replies: Seq<Reply>) -> Seq<u8>
    decreases replies.len(),
{
    if replies.len() == 0 {
        seq![]
    } else {
        joined(replies.drop_last()) + block_of(replies.last())
    }
}

/// The replies to reads of `n` bytes out of a ring hold `n` bytes together.
pub proof fn lemma_joined_len(replies: Seq<Reply>, p: u32, n: int)
    requires
        p < BTSDIO_FWBUF_SIZE,
        0 <= n,
        answered(ring_asks(p, n), replies),
    ensures
        joined(replies).len() == n,
{
    reveal_with_fuel(joined, 3);
    assert(replies[0] is Block);
    if p + n > BTSDIO_FWBUF_SIZE {
        assert(replies[1] is Block);
        assert(replies.drop_last().drop_last() =~= seq![]);
        assert(replies.drop_last().last() == replies[0]);
    } else {
        assert(replies.drop_last() =~= seq![]);
    }
}

/// Puts the bytes in a list of replies together.
pub fn join_blocks(replies: &Vec<Reply>, count: usize) -> (bytes: Vec<u8>)
    requires
        count <= replies@.len(),
        forall|i: int| 0 <= i < count ==> #[trigger] replies@[i] is Block,
    ensures
        bytes@ == joined(replies@.take(count as int)),
{
    let mut bytes: Vec<u8> = Vec::new();
    let mut i: usize = 0;
    while i < count
        invariant
            i <= count <= replies@.len(),
            forall|i: int| 0 <= i < count ==> #[trigger] replies@[i] is Block,
            bytes@ == joined(replies@.take(i as int)),
        decreases count - i,
    {
        let ghost before = bytes@;
        proof {
            assert(replies@.take(i + 1).drop_last() =~= replies@.take(i as int));
        }
        if let Reply::Block(block) = &replies[i] {
            let mut j: usize = 0;
            while j < block.len()
                invariant
                    j <= block@.len(),
                    bytes@ == before + block@.take(j as int),
                decreases block@.len() - j,
            {
                bytes.push(block[j]);
                j = j + 1;
                assert(bytes@ =~= before + block@.take(j as int));
            }
            assert(block@.take(block@.len() as int) =~= block@);
        }
        i = i + 1;
    }
    bytes
}

/// Whether the replies to a list of reads are what memory holds.
pub open spec fn blocks_of_memory(
    mem: Memory,
    reads: Seq<ActionView>,
    replies: Seq<Reply>,
) -> bool {
    &&& replies.len() == reads.len()
    &&& forall|i: int|
        #![trigger replies[i]]
        0 <= i < reads.len() ==> block_of(replies[i]) == loaded(
            mem,
            reads[i]->ReadBlock_addr as int,
            reads[i]->ReadBlock_len as nat,
        )
}

/// The writes into a ring change the bytes of the ring that they are meant for,
/// and nothing else.
pub proof fn law_ring_writes_store(mem: Memory, base: u32, p: u32, data: Seq<u8>)
    requires
        p < BTSDIO_FWBUF_SIZE,
        base + BTSDIO_FWBUF_SIZE <= u32::MAX,
        data.len() <= BTSDIO_FWBUF_SIZE,
    ensures
        performed_all(mem, ring_writes(base, p, data)) == ring_stored(mem, base as int, p as int, data),
{
    let writes = ring_writes(base, p, data);
    let a = performed_all(mem, writes);
    let b = ring_stored(mem, base as int, p as int, data);
    let size = BTSDIO_FWBUF_SIZE as int;
    reveal_with_fuel(performed_all, 3);
    if p + data.len() > BTSDIO_FWBUF_SIZE {
        assert(writes.drop_last().drop_last() =~= seq![]);
    } else {
        assert(writes.drop_last() =~= seq![]);
    }
    assert forall|x: int| #[trigger] a(x) == b(x) by {
        if base <= x < base + size {
            let d = x - base - p;
            if d < 0 {
                lemma_mod_add_multiples_vanish(d, size);
                lemma_small_mod((d + size) as nat, size as nat);
            } else {
                lemma_small_mod(d as nat, size as nat);
            }
        }
    }
    assert(a =~= b);
}

/// The reads out of a ring give the bytes of the ring that they are meant for.
pub proof fn law_ring_reads_load(mem: Memory, base: u32, p: u32, n: nat, replies: Seq<Reply>)
    requires
        p < BTSDIO_FWBUF_SIZE,
        base + BTSDIO_FWBUF_SIZE <= u32::MAX,
        n <= BTSDIO_FWBUF_SIZE,
        blocks_of_memory(mem, ring_reads(base, p, n as int), replies),
    ensures
        joined(replies) == ring_loaded(mem, base as int, p as int, n),
{
    let size = BTSDIO_FWBUF_SIZE as int;
    reveal_with_fuel(joined, 3);
    if p + n > BTSDIO_FWBUF_SIZE {
        assert(replies.drop_last().drop_last() =~= seq![]);
        assert(replies.drop_last().last() == replies[0]);
    } else {
        assert(replies.drop_last() =~= seq![]);
    }
    let got = joined(replies);
    let want = ring_loaded(mem, base as int, p as int, n);
    assert forall|i: int| 0 <= i < n implies got[i] == want[i] by {
        if p + i < size {
            lemma_small_mod((p + i) as nat, size as nat);
        } else {
            lemma_mod_add_multiples_vanish(p + i - size, size);
            lemma_small_mod((p + i - size) as nat, size as nat);
        }
    }
    assert(got =~= want);
}

/// Every access to a ring stays inside it.
pub proof fn law_ring_access_inside(base: u32, p: u32, data: Seq<u8>, n: int)
    requires
        p < BTSDIO_FWBUF_SIZE,
        base + BTSDIO_FWBUF_SIZE <= u32::MAX,
        data.len() <= BTSDIO_FWBUF_SIZE,
        0 <= n <= BTSDIO_FWBUF_SIZE,
    ensures
        forall|i: int|
            #![trigger ring_writes(base, p, data)[i]]
            0 <= i < ring_writes(base, p, data).len() ==> {
                let write = ring_writes(base, p, data)[i];
                &&& base <= write->WriteBlock_addr < base + BTSDIO_FWBUF_SIZE
                &&& write->WriteBlock_addr + write->WriteBlock_data.len() <= base + BTSDIO_FWBUF_SIZE
            },
        forall|i: int|
            #![trigger ring_reads(base, p, n)[i]]
            0 <= i < ring_reads(base, p, n).len() ==> {
                let read = ring_reads(base, p, n)[i];
                &&& base <= read->ReadBlock_addr < base + BTSDIO_FWBUF_SIZE
                &&& read->ReadBlock_addr + read->ReadBlock_len <= base + BTSDIO_FWBUF_SIZE
            },
{
}

/// What was put into a ring is what comes out of it.
pub proof fn law_ring_load_after_store(mem: Memory, base: int, p: int, data: Seq<u8>)
    requires
        0 <= p < BTSDIO_FWBUF_SIZE,
        data.len() <= BTSDIO_FWBUF_SIZE,
    ensures
        ring_loaded(ring_stored(mem, base, p, data), base, p, data.len()) == data,
{
    let size = BTSDIO_FWBUF_SIZE as int;
    let got = ring_loaded(ring_stored(mem, base, p, data), base, p, data.len());
    assert forall|i: int| 0 <= i < data.len() implies got[i] == data[i] by {
        lemma_position(p, i);
    }
    assert(got =~= data);
}

/// The way from a position to one `i` bytes on is `i` again.
proof fn lemma_position(p: int, i: int)
    requires
        0 <= p < BTSDIO_FWBUF_SIZE,
        0 <= i < BTSDIO_FWBUF_SIZE,
    ensures
        0 <= (p + i) % (BTSDIO_FWBUF_SIZE as int) < BTSDIO_FWBUF_SIZE,
        ((p + i) % BTSDIO_FWBUF_SIZE as int - p) % BTSDIO_FWBUF_SIZE as int == i,
{
    let size = BTSDIO_FWBUF_SIZE as int;
    if p + i < size {
        lemma_small_mod((p + i) as nat, size as nat);
        lemma_small_mod(i as nat, size as nat);
    } else {
        lemma_mod_add_multiples_vanish(p + i - size, size);
        lemma_small_mod((p + i - size) as nat, size as nat);
        lemma_mod_add_multiples_vanish(i - size, size);
        lemma_small_mod(i as nat, size as nat);
    }
}

/// Two pieces put into a ring one behind the other are one piece.
pub proof fn law_ring_store_in_pieces(mem: Memory, base: int, p: int, a: Seq<u8>, b: Seq<u8>)
    requires
        0 <= p < BTSDIO_FWBUF_SIZE,
        a.len() + b.len() <= BTSDIO_FWBUF_SIZE,
    ensures
        ring_stored(
            ring_stored(mem, base, p, a),
            base,
            (p + a.len()) % BTSDIO_FWBUF_SIZE as int,
            b,
        ) == ring_stored(mem, base, p, a + b),
{
    let size = BTSDIO_FWBUF_SIZE as int;
    let q = (p + a.len()) % size;
    let left = ring_stored(ring_stored(mem, base, p, a), base, q, b);
    let right = ring_stored(mem, base, p, a + b);
    assert forall|x: int| #[trigger] left(x) == right(x) by {
        let i = (x - base - p) % size;
        let j = (x - base - q) % size;
        // `j` is the way from `q`, `i` the way from `p`, and `q` lies `a.len()` on.
        assert(j == (i - a.len()) % size) by {
            lemma_sub_mod_noop(x - base - p, a.len() as int, size);
            lemma_sub_mod_noop_right(x - base, p + a.len(), size);
        }
        lemma_mod_bound(x - base - p, size);
        if i >= a.len() {
            lemma_small_mod((i - a.len()) as nat, size as nat);
        } else {
            lemma_mod_add_multiples_vanish(i - a.len(), size);
            lemma_small_mod((i - a.len() + size) as nat, size as nat);
        }
    }
    assert(left =~= right);
}

/// What may be written does not touch what waits to be read, and leaves at
/// least a word between the writer and the reader.
pub proof fn law_free_bytes_are_free(read: u32, write: u32, n: int)
    requires
        ring_pointer(read),
        ring_pointer(write),
        0 <= n <= ring_free(read, write),
    ensures
        ring_used(read, write) + ring_free(read, write) == BTSDIO_FWBUF_SIZE - 4,
        ring_used(read, ring_moved(write, n)) == ring_used(read, write) + n,
        forall|i: int, j: int|
            0 <= i < n && 0 <= j < ring_used(read, write) ==> #[trigger] ring_moved(write, i)
                != #[trigger] ring_moved(read, j),
{
    let size = BTSDIO_FWBUF_SIZE as int;
    let waiting = ring_used(read, write);
    let r = read as int;
    let w = write as int;
    if w >= r {
        lemma_small_mod((w - r) as nat, size as nat);
    } else {
        lemma_mod_add_multiples_vanish(w - r, size);
        lemma_small_mod((w - r + size) as nat, size as nat);
    }
    if r - w - 4 >= 0 {
        lemma_small_mod((r - w - 4) as nat, size as nat);
    } else {
        lemma_mod_add_multiples_vanish(r - w - 4, size);
        lemma_small_mod((r - w - 4 + size) as nat, size as nat);
    }
    assert(waiting + ring_free(read, write) == size - 4);
    lemma_position(w, n);
    lemma_position(r, waiting);
    lemma_distance(r, w, n);
    assert forall|i: int, j: int|
        0 <= i < n && 0 <= j < waiting implies #[trigger] ring_moved(write, i) != #[trigger] ring_moved(
        read,
        j,
    ) by {
        lemma_distance(r, w, i);
        lemma_position(r, j);
        lemma_position(w, i);
        let x = (w + i) % size;
        assert((x - r) % size == waiting + i);
        assert(((r + j) % size - r) % size == j);
    }
}

/// Seen from `r`, a position `n` bytes behind `w` lies `n` bytes behind `w`, as
/// long as the way does not come round.
proof fn lemma_distance(r: int, w: int, n: int)
    requires
        0 <= r < BTSDIO_FWBUF_SIZE,
        0 <= w < BTSDIO_FWBUF_SIZE,
        0 <= n,
        (w - r) % BTSDIO_FWBUF_SIZE as int + n < BTSDIO_FWBUF_SIZE,
    ensures
        ((w + n) % BTSDIO_FWBUF_SIZE as int - r) % BTSDIO_FWBUF_SIZE as int == (w - r)
            % BTSDIO_FWBUF_SIZE as int + n,
{
    let size = BTSDIO_FWBUF_SIZE as int;
    lemma_sub_mod_noop_right(r, w + n, size);
    lemma_mod_bound(w - r, size);
    lemma_add_mod_noop(w - r, n, size);
    lemma_small_mod(((w - r) % size + n) as nat, size as nat);
    lemma_mod_adds(w - r, n, size);
    lemma_sub_mod_noop(w + n, r, size);
    assert(((w + n) % size - r) % size == (w + n - r) % size) by {
        lemma_sub_mod_noop((w + n) % size, r, size);
        lemma_mod_twice(w + n, size);
    }
    assert((w - r + n) % size == ((w - r) % size + n % size) % size);
    lemma_small_mod(n as nat, size as nat);
}

/// A header holds the length and the type that it was made of.
pub proof fn law_frame_header(len: int, kind: u8)
    requires
        0 <= len < 0x100_0000,
    ensures
        header_len(frame_header(len, kind)) == len,
        frame_header(len, kind)[3] == kind,
{
}

/// A frame in a ring reads back as the packet that was framed: the header gives
/// the length and the type, and the bytes behind the header give the packet.
pub proof fn law_frame_round_trip(
    mem: Memory,
    base: int,
    p: u32,
    len: int,
    kind: u8,
    payload: Seq<u8>,
)
    requires
        p < BTSDIO_FWBUF_SIZE,
        0 <= len < 0x100_0000,
        payload.len() == padded_len(len),
        4 + payload.len() <= BTSDIO_FWBUF_SIZE,
    ensures
        ({
            let written = ring_stored(
                ring_stored(mem, base, p as int, frame_header(len, kind)),
                base,
                ring_moved(p, 4) as int,
                payload,
            );
            let header = ring_loaded(written, base, p as int, 4);
            &&& header_len(header) == len
            &&& header[3] == kind
            &&& ring_loaded(
                written,
                base,
                ring_moved(p, 4) as int,
                padded_len(header_len(header)) as nat,
            ) == payload
        }),
{
    let size = BTSDIO_FWBUF_SIZE as int;
    let head = frame_header(len, kind);
    let inner = ring_stored(mem, base, p as int, head);
    let q = ring_moved(p, 4) as int;
    let written = ring_stored(inner, base, q, payload);
    let frame = head + payload;
    law_ring_store_in_pieces(mem, base, p as int, head, payload);
    law_ring_load_after_store(mem, base, p as int, frame);
    let all = ring_loaded(written, base, p as int, frame.len());
    let header = ring_loaded(written, base, p as int, 4);
    assert(all == frame);
    assert(header =~= head) by {
        assert forall|i: int| 0 <= i < 4 implies header[i] == head[i] by {
            assert(header[i] == all[i]);
            assert(all[i] == frame[i]);
        }
    }
    law_frame_header(len, kind);
    law_ring_load_after_store(inner, base, q, payload);
}

/// The bytes between two positions lead from the one to the other; those that may
/// be written lead from the writer to one word before the reader. A position moved
/// on stays in the ring.
pub proof fn law_ring_distances(read: u32, write: u32, n: int)
    requires
        0 <= n,
    ensures
        0 <= ring_used(read, write) < 4096,
        (read + ring_used(read, write)) % 4096 == write % 4096,
        0 <= ring_free(read, write) < 4096,
        (write + ring_free(read, write) + 4) % 4096 == read % 4096,
        ring_moved(write, n) < 4096,
        (write + n - ring_moved(write, n)) % 4096 == 0,
        ring_pointer(write) <==> write < 4096 && write % 4 == 0,
{
}

/// A frame header holds the length of the packet, lowest byte first, and its type;
/// the packet takes up whole words.
pub proof fn law_header_bytes(len: int, kind: u8, header: Seq<u8>)
    requires
        0 <= len < 0x100_0000,
    ensures
        frame_header(len, kind).len() == 4,
        frame_header(len, kind)[0] + 0x100 * frame_header(len, kind)[1] + 0x1_0000 * frame_header(
            len,
            kind,
        )[2] == len,
        frame_header(len, kind)[3] == kind,
        header_len(header) == header[0] + 0x100 * header[1] + 0x1_0000 * header[2],
        padded_len(len) % 4 == 0,
        len <= padded_len(len) < len + 4,
{
}

/// What is read from a ring is read in one piece, or in two if it wraps around.
pub proof fn law_ring_read_pieces(base: u32, p: u32, n: int)
    requires
        p < 4096,
        0 <= n <= 4096,
        base <= 0xffff_efff,
    ensures
        p + n <= 4096 ==> ring_reads(base, p, n) =~= seq![
            ActionView::ReadBlock { addr: (base + p) as u32, len: n as usize },
        ],
        p + n > 4096 ==> ring_reads(base, p, n) =~= seq![
            ActionView::ReadBlock { addr: (base + p) as u32, len: (4096 - p) as usize },
            ActionView::ReadBlock { addr: base, len: (p + n - 4096) as usize },
        ],
{
}

/// What is written to a ring is written in one piece, or in two if it wraps around.
pub proof fn law_ring_write_pieces(base: u32, p: u32, data: Seq<u8>)
    requires
        p < 4096,
        data.len() <= 4096,
        base <= 0xffff_efff,
    ensures
        p + data.len() <= 4096 ==> ring_writes(base, p, data) =~= seq![
            ActionView::WriteBlock { addr: (base + p) as u32, data },
        ],
        p + data.len() > 4096 ==> ring_writes(base, p, data) =~= seq![
            ActionView::WriteBlock { addr: (base + p) as u32, data: data.take(4096 - p) },
            ActionView::WriteBlock { addr: base, data: data.skip(4096 - p) },
        ],
{
}

} // verus!
