//! Firmware images as lists of records: where the data of each record belongs.

use vstd::prelude::*;

use crate::action::ActionView;
use crate::firmware::{address_offset, law_line_read_consumes, line_read, LineRead, LineState};
use crate::memory::{performed_all, Memory};
use crate::report::Fault;
use crate::upload::{
    first_record, first_state, image_records, law_upload_stores_image, next_record, padded,
    padding_reads, records, stored_all, upload_run, words_read, UploadStage, UploadView,
};
use crate::util::u32_bytes;

verus! {

/// One record of an image.
pub struct HexRecord {
    pub kind: u8,
    pub addr: u16,
    pub data: Seq<u8>,
}

impl HexRecord {
    /// The bytes of a record: the length of its data, its address with the high
    /// byte first, its type, and the data.
    pub open spec fn encoded(self) -> Seq<u8> {
        seq![
            self.data.len() as u8,
            (self.addr / 256) as u8,
            (self.addr % 256) as u8,
            self.kind,
        ] + self.data
    }

    /// A record holds data, and one that sets an address holds that address.
    pub open spec fn valid(self) -> bool {
        &&& 1 <= self.data.len() <= 255
        &&& self.kind == 2 || self.kind == 4 ==> self.data.len() >= 2
        &&& self.kind == 5 ==> self.data.len() >= 4
    }

    /// Whether a record sets what is added to the addresses of the data records
    /// behind it.
    pub open spec fn sets_offset(self) -> bool {
        self.kind == 2 || self.kind == 4 || self.kind == 5
    }

    /// What a record that sets an address adds to the addresses of the data
    /// records behind it: a high half-word, a segment, or a base.
    pub open spec fn offset(self) -> int {
        if self.kind == 4 {
            0x1_0000 * (256 * self.data[0] + self.data[1])
        } else if self.kind == 2 {
            16 * (256 * self.data[0] + self.data[1])
        } else {
            0x100_0000 * self.data[0] + 0x1_0000 * self.data[1] + 0x100 * self.data[2]
                + self.data[3]
        }
    }
}

/// The bytes of a list of records, one after the other.
pub open spec fn encoded_all(list: Seq<HexRecord>) -> Seq<u8>
    decreases list.len(),
{
    if list.len() == 0 {
        seq![]
    } else {
        list[0].encoded() + encoded_all(list.drop_first())
    }
}

/// Whether record `j` is the last one before record `i` that sets an address.
pub open spec fn governs(list: Seq<HexRecord>, j: int, i: int) -> bool {
    &&& 0 <= j < i <= list.len()
    &&& list[j].sets_offset()
    &&& forall|k: int| j < k < i ==> !(#[trigger] list[k]).sets_offset()
}

/// Whether no record before record `i` sets an address.
pub open spec fn ungoverned(list: Seq<HexRecord>, i: int) -> bool {
    forall|k: int| 0 <= k < i ==> !(#[trigger] list[k]).sets_offset()
}

/// Whether `place` is where the data of record `i` belongs, if `start` is added
/// to addresses before the first record that sets one: at its own address, plus
/// what the last record before it that sets an address adds. A base holds for one
/// data record only.
pub open spec fn belongs_at(list: Seq<HexRecord>, start: int, i: int, place: int) -> bool {
    &&& ungoverned(list, i) ==> place == list[i].addr + start
    &&& forall|j: int|
        #![trigger governs(list, j, i)]
        governs(list, j, i) && list[j].kind != 5 ==> place == list[i].addr + list[j].offset()
    &&& forall|j: int|
        #![trigger governs(list, j, i)]
        governs(list, j, i) && list[j].kind == 5 ==> place == list[i].addr + (if exists|k: int|
            j < k < i && (#[trigger] list[k]).kind == 0 {
            0
        } else {
            list[j].offset()
        })
}

/// What an address state adds to the address of a data record.
pub open spec fn carried_offset(state: LineState) -> int {
    if state.addr_mode == 1 {
        0x1_0000 * state.hi_addr
    } else if state.addr_mode == 2 {
        16 * state.hi_addr
    } else {
        0
    }
}

/// Whether an address state, and the base in force, are those in front of record
/// `i`, if the first record was met in the state `start`.
spec fn in_step(
    list: Seq<HexRecord>,
    start: LineState,
    i: int,
    state: LineState,
    base: u32,
) -> bool {
    &&& state.ds.len() >= 255
    &&& ungoverned(list, i) ==> state.addr_mode == start.addr_mode && state.hi_addr == start.hi_addr
        && base == 0
    &&& forall|j: int|
        #![trigger governs(list, j, i)]
        governs(list, j, i) ==> {
            &&& list[j].kind == 4 ==> state.addr_mode == 1 && 0x1_0000 * state.hi_addr
                == list[j].offset()
            &&& list[j].kind == 2 ==> state.addr_mode == 2 && 16 * state.hi_addr == list[j].offset()
            &&& list[j].kind == 5 ==> state.addr_mode == 3 && base as int == if exists|k: int|
                j < k < i && (#[trigger] list[k]).kind == 0 {
                0
            } else {
                list[j].offset()
            }
        }
}

/// Either no record before record `i` sets an address, or one is the last that
/// does.
proof fn lemma_governed(list: Seq<HexRecord>, i: int) -> (j: int)
    requires
        0 <= i <= list.len(),
    ensures
        j < 0 ==> ungoverned(list, i),
        j >= 0 ==> governs(list, j, i),
    decreases i,
{
    if i == 0 {
        -1
    } else if list[i - 1].sets_offset() {
        i - 1
    } else {
        let j = lemma_governed(list, i - 1);
        j
    }
}

/// Where a data record belongs is settled.
proof fn lemma_place(list: Seq<HexRecord>, start: LineState, i: int, state: LineState, base: u32)
    requires
        0 <= i < list.len(),
        in_step(list, start, i, state, base),
    ensures
        belongs_at(
            list,
            carried_offset(start),
            i,
            list[i].addr + address_offset(state, base),
        ),
        forall|place: int|
            belongs_at(list, carried_offset(start), i, place) ==> place == list[i].addr
                + address_offset(state, base),
{
    let j = lemma_governed(list, i);
    assert forall|a: int, b: int| governs(list, a, i) && governs(list, b, i) implies a == b by {
        if a < b {
            assert(!list[b].sets_offset());
        } else if b < a {
            assert(!list[a].sets_offset());
        }
    }
    if j >= 0 {
        assert(!ungoverned(list, i)) by {
            assert(list[j].sets_offset());
        }
    } else {
        assert forall|a: int| !governs(list, a, i) by {
            if governs(list, a, i) {
                assert(!list[a].sets_offset());
            }
        }
    }
}

/// Reading one record keeps step.
proof fn lemma_step(
    list: Seq<HexRecord>,
    start: LineState,
    i: int,
    state: LineState,
    base: u32,
    next: LineState,
    next_base: u32,
)
    requires
        0 <= i < list.len(),
        list[i].valid(),
        in_step(list, start, i, state, base),
        next.ds.len() >= 255,
        list[i].kind == 4 ==> next.addr_mode == 1 && 0x1_0000 * next.hi_addr == list[i].offset(),
        list[i].kind == 2 ==> next.addr_mode == 2 && 16 * next.hi_addr == list[i].offset(),
        list[i].kind == 5 ==> next.addr_mode == 3 && next_base == list[i].offset(),
        !list[i].sets_offset() ==> next.addr_mode == state.addr_mode && next.hi_addr
            == state.hi_addr && next_base == if list[i].kind == 0 {
            0
        } else {
            base
        },
    ensures
        in_step(list, start, i + 1, next, next_base),
{
    assert forall|j: int| #[trigger] governs(list, j, i + 1) implies j == i || governs(
        list,
        j,
        i,
    ) by {}
    if list[i].sets_offset() {
        assert(!ungoverned(list, i + 1));
        assert forall|j: int| #[trigger] governs(list, j, i + 1) implies j == i by {
            if j < i {
                assert(!list[i].sets_offset());
            }
        }
    } else {
        assert(ungoverned(list, i + 1) ==> ungoverned(list, i));
        assert forall|j: int| #[trigger]
            governs(list, j, i + 1) && list[j].kind == 5 implies next_base as int == (if exists|
            k: int,
        |
            j < k < i + 1 && (#[trigger] list[k]).kind == 0 {
            0
        } else {
            list[j].offset()
        }) by {
            assert(governs(list, j, i));
            if list[i].kind == 0 {
                assert(j < i < i + 1 && list[i].kind == 0);
            } else if exists|k: int| j < k < i && (#[trigger] list[k]).kind == 0 {
                let k = choose|k: int| j < k < i && (#[trigger] list[k]).kind == 0;
                assert(j < k < i + 1 && list[k].kind == 0);
            }
        }
    }
}

/// The bytes of a list are those of its first record, and the others behind it.
proof fn lemma_first_bytes(list: Seq<HexRecord>, i: int, tail: Seq<u8>)
    requires
        0 <= i < list.len(),
        list[i].valid(),
    ensures
        ({
            let input = encoded_all(list.skip(i)) + tail;
            let n = list[i].data.len() as int;
            &&& input.len() >= 4 + n
            &&& input[0] == n
            &&& 256 * input[1] + input[2] == list[i].addr
            &&& input[3] == list[i].kind
            &&& input.subrange(4, 4 + n) == list[i].data
            &&& input.skip(4 + n) == encoded_all(list.skip(i + 1)) + tail
        }),
{
    let input = encoded_all(list.skip(i)) + tail;
    let n = list[i].data.len() as int;
    assert(list.skip(i)[0] == list[i]);
    assert(list.skip(i).drop_first() =~= list.skip(i + 1));
    assert(input =~= list[i].encoded() + encoded_all(list.skip(i + 1)) + tail);
    assert(input.subrange(4, 4 + n) =~= list[i].data);
    assert(input.skip(4 + n) =~= encoded_all(list.skip(i + 1)) + tail);
}

/// The next data record from record `i` on, or the end of the list.
pub open spec fn next_data(list: Seq<HexRecord>, i: int) -> int
    decreases list.len() - i,
{
    if i >= list.len() {
        list.len() as int
    } else if list[i].kind == 0 {
        i
    } else {
        next_data(list, i + 1)
    }
}

/// Whether reading on from record `i` gives the next data record, at its place.
spec fn reads_next(
    list: Seq<HexRecord>,
    start: LineState,
    tail: Seq<u8>,
    i: int,
    read: Option<LineRead>,
) -> bool {
    let m = next_data(list, i);
    if m < list.len() {
        read matches Some(read) ==> {
            &&& read.count == list[m].data.len()
            &&& read.state.ds.take(read.count as int) == list[m].data
            &&& read.rest == encoded_all(list.skip(m + 1)) + tail
            &&& belongs_at(list, carried_offset(start), m, read.state.dest_addr as int)
            &&& in_step(list, start, m + 1, read.state, 0)
        }
    } else {
        tail.len() >= 4 && tail[0] == 0 ==> (read matches Some(read) && read.count == 0)
    }
}

/// Reading on fails only where the place of the data does not fit in 32 bits.
spec fn reads_fail(
    list: Seq<HexRecord>,
    start: LineState,
    i: int,
    read: Option<LineRead>,
) -> bool {
    let m = next_data(list, i);
    m < list.len() && read is None ==> forall|place: int|
        belongs_at(list, carried_offset(start), m, place) ==> place > u32::MAX
}

proof fn lemma_reads_next(
    list: Seq<HexRecord>,
    start: LineState,
    tail: Seq<u8>,
    i: int,
    state: LineState,
    base: u32,
)
    requires
        0 <= i <= list.len(),
        forall|k: int| 0 <= k < list.len() ==> (#[trigger] list[k]).valid(),
        in_step(list, start, i, state, base),
    ensures
        next_data(list, i) <= list.len(),
        i <= next_data(list, i),
        next_data(list, i) < list.len() ==> list[next_data(list, i)].kind == 0,
        reads_next(
            list,
            start,
            tail,
            i,
            line_read(encoded_all(list.skip(i)) + tail, state, base),
        ),
        reads_fail(list, start, i, line_read(encoded_all(list.skip(i)) + tail, state, base)),
    decreases list.len() - i,
{
    let input = encoded_all(list.skip(i)) + tail;
    if i == list.len() {
        assert(input =~= tail);
    } else {
        let record = list[i];
        assert(record.valid());
        lemma_first_bytes(list, i, tail);
        let n = record.data.len() as int;
        let rest = input.skip(4 + n);
        let ds = input.subrange(4, 4 + n) + state.ds.skip(n);
        let loaded = LineState { ds, ..state };
        assert(ds.take(n) =~= record.data);
        assert(ds[0] == record.data[0]);
        assert(record.sets_offset() ==> ds[1] == record.data[1]);
        assert(record.kind == 5 ==> ds[2] == record.data[2] && ds[3] == record.data[3]);
        if record.kind == 4 {
            let next = LineState {
                hi_addr: (256 * ds[0] + ds[1]) as u16,
                addr_mode: 1,
                ..loaded
            };
            lemma_step(list, start, i, state, base, next, base);
            lemma_reads_next(list, start, tail, i + 1, next, base);
        } else if record.kind == 2 {
            let next = LineState {
                hi_addr: (256 * ds[0] + ds[1]) as u16,
                addr_mode: 2,
                ..loaded
            };
            lemma_step(list, start, i, state, base, next, base);
            lemma_reads_next(list, start, tail, i + 1, next, base);
        } else if record.kind == 5 {
            let next = LineState { addr_mode: 3, ..loaded };
            lemma_step(list, start, i, state, base, next, record.offset() as u32);
            lemma_reads_next(list, start, tail, i + 1, next, record.offset() as u32);
        } else if record.kind == 0 {
            lemma_place(list, start, i, state, base);
            if let Some(read) = line_read(input, state, base) {
                lemma_step(list, start, i, state, base, read.state, 0);
            }
        } else {
            lemma_step(list, start, i, state, base, loaded, base);
            lemma_reads_next(list, start, tail, i + 1, loaded, base);
        }
    }
}

/// Reading on from any address state gives the next data record of the image,
/// and its place: its own address, plus what the last record before it that sets
/// an address adds, or what was added before if there is none. It fails only
/// where that place does not fit in 32 bits.
pub proof fn law_next_data_record(list: Seq<HexRecord>, state: LineState, tail: Seq<u8>)
    requires
        forall|k: int| 0 <= k < list.len() ==> (#[trigger] list[k]).valid(),
        state.ds.len() >= 255,
        next_data(list, 0) < list.len(),
    ensures
        ({
            let m = next_data(list, 0);
            match line_read(encoded_all(list) + tail, state, 0) {
                Some(read) => {
                    &&& read.count == list[m].data.len()
                    &&& read.state.ds.take(read.count as int) == list[m].data
                    &&& read.rest == encoded_all(list.skip(m + 1)) + tail
                    &&& belongs_at(list, carried_offset(state), m, read.state.dest_addr as int)
                },
                None => forall|place: int|
                    belongs_at(list, carried_offset(state), m, place) ==> place > u32::MAX,
            }
        }),
{
    assert(list.skip(0) =~= list);
    lemma_reads_next(list, state, tail, 0, state, 0);
}

/// A data record behind one that sets the high half-word of addresses belongs at
/// its own address behind that half-word, whatever the address state was before.
pub proof fn law_extended_address(
    at: u16,
    h: u8,
    l: u8,
    more: Seq<u8>,
    address: u16,
    data: Seq<u8>,
    tail: Seq<u8>,
    state: LineState,
    base: u32,
)
    requires
        more.len() <= 253,
        1 <= data.len() <= 255,
        state.ds.len() >= 255,
    ensures
        ({
            let sets = seq![
                (2 + more.len()) as u8,
                (at / 256) as u8,
                (at % 256) as u8,
                4,
                h,
                l,
            ] + more;
            let holds = seq![
                data.len() as u8,
                (address / 256) as u8,
                (address % 256) as u8,
                0,
            ] + data;
            line_read(sets + holds + tail, state, base) matches Some(read) && {
                &&& read.count == data.len()
                &&& read.rest == tail
                &&& read.state.dest_addr == 0x1_0000 * (256 * h + l) + address
                &&& read.state.ds.take(read.count as int) == data
            }
        }),
{
    let k = 2 + more.len() as int;
    let sets = seq![k as u8, (at / 256) as u8, (at % 256) as u8, 4, h, l] + more;
    let holds = seq![data.len() as u8, (address / 256) as u8, (address % 256) as u8, 0] + data;
    let input = sets + holds + tail;
    let n = data.len() as int;
    reveal_with_fuel(line_read, 3);
    let rest = input.skip(4 + k);
    assert(rest =~= holds + tail);
    assert(rest.skip(1)[0] == rest[1] && rest.skip(1)[1] == rest[2]);
    assert(rest.subrange(4, 4 + n) =~= data);
    assert(rest.skip(4 + n) =~= tail);
    let ds = input.subrange(4, 4 + k) + state.ds.skip(k);
    assert(ds[0] == h && ds[1] == l);
    assert((rest.subrange(4, 4 + n) + ds.skip(n)).take(n) =~= data);
}

/// An input that ends inside a record cannot be read on.
pub proof fn law_cut_short(input: Seq<u8>, state: LineState, base: u32)
    requires
        input.len() < 4 || (input[0] > 0 && input.len() < 4 + input[0]),
    ensures
        line_read(input, state, base) is None,
{
}

/// Whether `places` are the places of the data records from record `i` on, in
/// order.
pub open spec fn placed(
    list: Seq<HexRecord>,
    i: int,
    places: Seq<(int, Seq<u8>)>,
) -> bool
    decreases list.len() - i,
{
    if i >= list.len() {
        places.len() == 0
    } else if list[i].kind == 0 {
        &&& places.len() > 0
        &&& belongs_at(list, 0, i, places[0].0 - 0x1900_0000)
        &&& places[0].1 == list[i].data
        &&& placed(list, i + 1, places.drop_first())
    } else {
        placed(list, i + 1, places)
    }
}

/// Whether every data record, widened to whole words, lies in the address space
/// and has at most 256 bytes.
pub open spec fn all_fit(list: Seq<HexRecord>) -> bool {
    forall|i: int, place: int|
        #![trigger belongs_at(list, 0, i, place)]
        0 <= i < list.len() && list[i].kind == 0 && belongs_at(list, 0, i, place) ==> {
            &&& 0x1900_0000 + place + list[i].data.len() <= 0xffff_fffc
            &&& place % 4 + list[i].data.len() <= 256
        }
}

proof fn lemma_skip_to_data(list: Seq<HexRecord>, i: int, places: Seq<(int, Seq<u8>)>)
    requires
        0 <= i <= list.len(),
    ensures
        placed(list, i, places) == placed(list, next_data(list, i), places),
    decreases list.len() - i,
{
    if i < list.len() && list[i].kind != 0 {
        lemma_skip_to_data(list, i + 1, places);
    }
}

proof fn lemma_records(list: Seq<HexRecord>, tail: Seq<u8>, i: int, state: LineState)
    requires
        0 <= i <= list.len(),
        forall|k: int| 0 <= k < list.len() ==> (#[trigger] list[k]).valid(),
        all_fit(list),
        tail.len() >= 4,
        tail[0] == 0,
        in_step(list, first_state(), i, state, 0),
        state.ds.len() == 256,
    ensures
        placed(list, i, records(encoded_all(list.skip(i)) + tail, state)),
    decreases list.len() - i,
{
    let input = encoded_all(list.skip(i)) + tail;
    let m = next_data(list, i);
    lemma_reads_next(list, first_state(), tail, i, state, 0);
    lemma_skip_to_data(list, i, records(input, state));
    law_line_read_consumes(input, state, 0);
    if m < list.len() {
        lemma_some_place(list, m);
        let read = line_read(input, state, 0)->Some_0;
        assert(carried_offset(first_state()) == 0);
        assert(belongs_at(list, 0, m, read.state.dest_addr as int));
        assert(list[m].valid());
        lemma_records(list, tail, m + 1, read.state);
        let all = records(input, state);
        assert(all.drop_first() =~= records(read.rest, read.state));
    }
}

/// Every record has a place.
proof fn lemma_some_place(list: Seq<HexRecord>, i: int)
    requires
        0 <= i < list.len(),
        all_fit(list),
        list[i].kind == 0,
    ensures
        exists|place: int| belongs_at(list, 0, i, place) && place <= u32::MAX,
{
    let j = lemma_governed(list, i);
    assert forall|a: int, b: int| governs(list, a, i) && governs(list, b, i) implies a == b by {
        if a < b {
            assert(!list[b].sets_offset());
        } else if b < a {
            assert(!list[a].sets_offset());
        }
    }
    let place = if j < 0 {
        list[i].addr as int
    } else if list[j].kind == 5 && exists|k: int| j < k < i && (#[trigger] list[k]).kind == 0 {
        list[i].addr as int
    } else {
        list[i].addr + list[j].offset()
    };
    if j >= 0 {
        assert(list[j].sets_offset());
        assert(!ungoverned(list, i));
    } else {
        assert forall|a: int| !governs(list, a, i) by {
            if governs(list, a, i) {
                assert(!list[a].sets_offset());
            }
        }
    }
    assert(belongs_at(list, 0, i, place));
}

/// Reading on to the next record of an image that is well formed.
proof fn lemma_next_upload(list: Seq<HexRecord>, tail: Seq<u8>, i: int, state: LineState)
    requires
        0 <= i <= list.len(),
        forall|k: int| 0 <= k < list.len() ==> (#[trigger] list[k]).valid(),
        all_fit(list),
        tail.len() >= 4,
        tail[0] == 0,
        in_step(list, first_state(), i, state, 0),
        state.ds.len() == 256,
    ensures
        ({
            let upload = next_record(encoded_all(list.skip(i)) + tail, state).0;
            let m = next_data(list, i);
            &&& i <= m <= list.len()
            &&& m == list.len() ==> upload.stage is Done
            &&& m < list.len() ==> {
                &&& upload.stage is Record
                &&& upload.rest == encoded_all(list.skip(m + 1)) + tail
                &&& in_step(list, first_state(), m + 1, upload.state, 0)
                &&& upload.state.ds.len() == 256
            }
        }),
{
    let input = encoded_all(list.skip(i)) + tail;
    let m = next_data(list, i);
    lemma_reads_next(list, first_state(), tail, i, state, 0);
    law_line_read_consumes(input, state, 0);
    if m < list.len() {
        lemma_some_place(list, m);
        let read = line_read(input, state, 0)->Some_0;
        assert(carried_offset(first_state()) == 0);
        assert(belongs_at(list, 0, m, read.state.dest_addr as int));
        assert(list[m].valid());
    }
}

/// How an upload goes on behind a record.
proof fn lemma_upload_goes_on(upload: UploadView, mem: Memory) -> (after: Memory)
    requires
        upload.stage is Record,
    ensures
        ({
            let next = next_record(upload.rest, upload.state).0;
            upload_run(upload, mem).0 == if next.stage is Record {
                upload_run(next, after).0
            } else {
                next.stage
            }
        }),
{
    let words = words_read(mem, padding_reads(upload.dest(), upload.count as int));
    let (next, reads) = next_record(upload.rest, upload.state);
    law_line_read_consumes(upload.rest, upload.state, 0);
    performed_all(mem, seq![upload.write(words)] + reads)
}

/// The upload of an image that is well formed comes to its end.
proof fn lemma_upload_ends(
    list: Seq<HexRecord>,
    tail: Seq<u8>,
    i: int,
    state: LineState,
    mem: Memory,
)
    requires
        0 <= i <= list.len(),
        forall|k: int| 0 <= k < list.len() ==> (#[trigger] list[k]).valid(),
        all_fit(list),
        tail.len() >= 4,
        tail[0] == 0,
        in_step(list, first_state(), i, state, 0),
        state.ds.len() == 256,
    ensures
        upload_run(next_record(encoded_all(list.skip(i)) + tail, state).0, mem).0 is Done,
    decreases list.len() - i,
{
    let upload = next_record(encoded_all(list.skip(i)) + tail, state).0;
    let m = next_data(list, i);
    lemma_next_upload(list, tail, i, state);
    if m < list.len() {
        let after = lemma_upload_goes_on(upload, mem);
        lemma_next_upload(list, tail, m + 1, upload.state);
        lemma_upload_ends(list, tail, m + 1, upload.state, after);
    }
}

/// The upload of an image ends well, and leaves each data record of the image in
/// its place in the memory of the Bluetooth core, and the rest of memory as it
/// was. The image starts with the length of its version, the version and one more
/// byte, and ends with a record without data.
pub proof fn law_image_is_stored(
    version: Seq<u8>,
    gap: u8,
    list: Seq<HexRecord>,
    tail: Seq<u8>,
    mem: Memory,
)
    requires
        version.len() <= 255,
        forall|k: int| 0 <= k < list.len() ==> (#[trigger] list[k]).valid(),
        all_fit(list),
        tail.len() >= 4,
        tail[0] == 0,
    ensures
        ({
            let firmware = seq![version.len() as u8] + version + seq![gap] + encoded_all(list) + tail;
            let (stage, after) = upload_run(first_record(firmware).0, mem);
            &&& stage is Done
            &&& placed(list, 0, image_records(firmware))
            &&& after == stored_all(mem, image_records(firmware))
        }),
{
    let firmware = seq![version.len() as u8] + version + seq![gap] + encoded_all(list) + tail;
    assert(firmware.skip(firmware[0] + 2) =~= encoded_all(list) + tail);
    assert(list.skip(0) =~= list);
    law_upload_stores_image(firmware, mem);
    lemma_records(list, tail, 0, first_state());
    lemma_upload_ends(list, tail, 0, first_state(), mem);
}

/// A record is written only if, widened to whole words, it lies in the address
/// space and has at most 256 bytes; a record that does not, and an image that
/// cannot be read on, end the upload. The words that a record starts and ends in
/// are read where it does not fill them, and nothing else is.
pub proof fn law_records_refused(rest: Seq<u8>, state: LineState)
    ensures
        ({
            let (upload, reads) = next_record(rest, state);
            match line_read(rest, state, 0) {
                Some(read) => {
                    let n = read.count as int;
                    let dest = 0x1900_0000 + read.state.dest_addr;
                    let fits = dest + n <= 0xffff_fffc && dest % 4 + n <= 256;
                    &&& n == 0 ==> upload.stage is Done
                    &&& n > 0 && fits ==> upload.stage is Record
                    &&& n > 0 && !fits ==> upload.stage == UploadStage::Failed(Fault::FirmwareRecord)
                    &&& upload.stage is Record ==> {
                        let first = ActionView::Read32 { addr: (dest / 4 * 4) as u32 };
                        let last = ActionView::Read32 { addr: ((dest + n) / 4 * 4) as u32 };
                        &&& dest % 4 == 0 && (dest + n) % 4 == 0 ==> reads =~= seq![]
                        &&& dest % 4 != 0 && (dest + n) % 4 == 0 ==> reads =~= seq![first]
                        &&& dest % 4 == 0 && (dest + n) % 4 != 0 ==> reads =~= seq![last]
                        &&& dest % 4 != 0 && (dest + n) % 4 != 0 ==> reads =~= seq![first, last]
                    }
                    &&& !(upload.stage is Record) ==> reads.len() == 0
                },
                None => upload.stage == UploadStage::Failed(Fault::FirmwareImage) && reads.len()
                    == 0,
            }
        }),
{
    if let Some(read) = line_read(rest, state, 0) {
        let n = read.count as int;
        let dest = 0x1900_0000 + read.state.dest_addr;
        assert(dest - dest % 4 == dest / 4 * 4);
        assert((dest + n) - (dest + n) % 4 == (dest + n) / 4 * 4);
    }
}

/// The records of an image start behind its version and one more byte. Before the
/// first of them nothing is added to addresses, and the data buffer holds zeros.
pub proof fn law_first_record(firmware: Seq<u8>)
    requires
        firmware.len() >= 1,
        firmware.len() >= firmware[0] + 2,
    ensures
        ({
            let state = LineState {
                addr_mode: 1,
                hi_addr: 0,
                dest_addr: 0,
                ds: Seq::new(256, |i: int| 0u8),
            };
            first_record(firmware) == next_record(firmware.skip(firmware[0] + 2), state)
        }),
{
    assert(first_state().ds =~= Seq::new(256, |i: int| 0u8));
}

/// An image without room for its version and the byte behind it is not uploaded.
pub proof fn law_version_cut_short(firmware: Seq<u8>)
    requires
        firmware.len() == 0 || firmware.len() < firmware[0] + 2,
    ensures
        first_record(firmware).0.stage == UploadStage::Failed(Fault::FirmwareImage),
        first_record(firmware).1.len() == 0,
{
}

/// Reading on takes one record after the other. Its data goes to the start of the
/// data buffer, and the rest of the buffer stays. A record of type 4 or 2 sets the
/// high half-word or the segment from the first two bytes of the buffer, one of type
/// 5 the base from the first four, if the buffer has as many; a record of type 0 ends
/// the reading at its place, one without data at the end of the image; any other is
/// passed over.
pub proof fn law_record_by_record(input: Seq<u8>, state: LineState, base: u32)
    requires
        input.len() >= 4,
        input.len() >= 4 + input[0],
    ensures
        ({
            let n = input[0] as int;
            let kind = input[3];
            let rest = input.skip(4 + n);
            let ds = Seq::new(
                state.ds.len(),
                |i: int|
                    if i < n {
                        input[4 + i]
                    } else {
                        state.ds[i]
                    },
            );
            let half = (256 * ds[0] + ds[1]) as u16;
            let full = (0x100_0000 * ds[0] + 0x1_0000 * ds[1] + 0x100 * ds[2] + ds[3]) as u32;
            let place = 256 * input[1] + input[2] + if state.addr_mode == 3 {
                base as int
            } else {
                carried_offset(state)
            };
            let read = line_read(input, state, base);
            if n == 0 {
                read == Some(LineRead { rest, state, count: 0 })
            } else if state.ds.len() < n {
                read is None
            } else if (kind == 4 || kind == 2) && state.ds.len() < 2 || kind == 5 && state.ds.len()
                < 4 {
                read is None
            } else if kind == 4 {
                read == line_read(rest, LineState { addr_mode: 1, hi_addr: half, ds, ..state }, base)
            } else if kind == 2 {
                read == line_read(rest, LineState { addr_mode: 2, hi_addr: half, ds, ..state }, base)
            } else if kind == 5 {
                read == line_read(rest, LineState { addr_mode: 3, ds, ..state }, full)
            } else if kind != 0 {
                read == line_read(rest, LineState { ds, ..state }, base)
            } else if place > 0xffff_ffff {
                read is None
            } else {
                read == Some(
                    LineRead {
                        rest,
                        state: LineState { dest_addr: place as u32, ds, ..state },
                        count: n as u32,
                    },
                )
            }
        }),
{
    let n = input[0] as int;
    let ds = Seq::new(
        state.ds.len(),
        |i: int|
            if i < n {
                input[4 + i]
            } else {
                state.ds[i]
            },
    );
    if n <= state.ds.len() {
        assert(input.subrange(4, 4 + n) + state.ds.skip(n) =~= ds);
    }
}

/// The byte at `k` in a word, lowest byte first.
pub open spec fn byte_in_word(word: u32, k: int) -> int {
    if k == 0 {
        word as int % 256
    } else if k == 1 {
        word as int / 256 % 256
    } else if k == 2 {
        word as int / 0x1_0000 % 256
    } else {
        word as int / 0x100_0000 % 256
    }
}

proof fn lemma_padded(dest: int, data: Seq<u8>, first: u32, last: u32, i: int)
    requires
        0 <= dest,
    ensures
        ({
            let wide = padded(dest, data, u32_bytes(first), u32_bytes(last));
            let start = dest / 4 * 4;
            let end = (dest + data.len() + 3) / 4 * 4;
            &&& wide.len() == end - start
            &&& start <= i < dest ==> wide[i - start] == byte_in_word(first, i % 4)
            &&& dest <= i < dest + data.len() ==> wide[i - start] == data[i - dest]
            &&& dest + data.len() <= i < end ==> wide[i - start] == byte_in_word(last, i % 4)
        }),
{
    let wide = padded(dest, data, u32_bytes(first), u32_bytes(last));
    let start = dest / 4 * 4;
    let after = dest + data.len();
    let end = (after + 3) / 4 * 4;
    let head = dest % 4;
    let tail = after % 4;
    assert(start == dest - head);
    assert(tail == 0 ==> end == after);
    assert(tail != 0 ==> end == after - tail + 4);
    let a = u32_bytes(first).take(head);
    let c = if tail == 0 {
        Seq::empty()
    } else {
        u32_bytes(last).skip(tail)
    };
    assert(wide == a + data + c);
    if start <= i < dest {
        assert(i % 4 == i - start);
        assert(wide[i - start] == u32_bytes(first)[i - start]);
    } else if after <= i < end {
        assert(i % 4 == i - after + tail);
        assert(wide[i - start] == u32_bytes(last)[i - after + tail]);
    }
}

/// A record is written as whole words: the bytes in front of it and behind it in
/// its first and last word are those that were read there, lowest byte first.
pub proof fn law_whole_words(upload: UploadView, words: Seq<u32>, i: int)
    requires
        upload.wf(),
        upload.stage is Record,
    ensures
        ({
            let write = upload.write(words);
            let dest = 0x1900_0000 + upload.state.dest_addr;
            let n = upload.count as int;
            let start = dest / 4 * 4;
            let end = (dest + n + 3) / 4 * 4;
            let data = write->WriteBlock_data;
            let last = words[if dest % 4 == 0 { 0 } else { 1int }];
            &&& write is WriteBlock
            &&& write->WriteBlock_addr == start
            &&& data.len() == end - start
            &&& start <= i < dest ==> data[i - start] == byte_in_word(words[0], i % 4)
            &&& dest <= i < dest + n ==> data[i - start] == upload.state.ds[i - dest]
            &&& dest + n <= i < end ==> data[i - start] == byte_in_word(last, i % 4)
        }),
{
    let dest = 0x1900_0000 + upload.state.dest_addr;
    let last = words[if dest % 4 == 0 { 0 } else { 1int }];
    assert(dest / 4 * 4 == dest - dest % 4);
    lemma_padded(dest, upload.record(), words[0], last, i);
}

} // verus!
