//! Uploading a firmware image: each data record is widened to whole words with
//! what the memory around it holds, and then written.

use vstd::prelude::*;

use crate::action::{answered, asks, word_in, words_of, Action, ActionView, Actions, Ask, Reply};
use crate::consts::{BLUETOOTH_BASE_ADDRESS, BTFW_ADDR_MODE_EXTENDED};
use crate::firmware::{
    law_line_read_consumes, line_read, next_patch_line, CybtFwCb, HexFileData, LineState,
};
use crate::memory::{law_word_bytes, loaded, performed, performed_all, stored, word_at, Memory};
use crate::report::Fault;
use crate::util::{is_aligned, round_down, rounded_up, u32_bytes, u32_to_bytes};

verus! {

/// Size of the buffer for one record, and of the one for a record with padding.
pub const RECORD_BUFFER_SIZE: usize = 256;

/// Where the upload stands.
#[derive(Clone, Copy, PartialEq, Eq, Structural)]
pub enum UploadStage {
    /// A record has been read, and the words around it have been asked for.
    Record,
    /// The end of the image was reached.
    Done,
    /// The image cannot be uploaded.
    Failed(Fault),
}

/// An upload in progress.
pub struct FirmwareUpload<'a> {
    /// What follows the last record read.
    pub rest: &'a [u8],
    pub addr_mode: i32,
    pub hi_addr: u16,
    pub dest_addr: u32,
    /// The data of the last record read, in its first `count` bytes.
    pub data: [u8; RECORD_BUFFER_SIZE],
    pub count: u32,
    pub stage: UploadStage,
}

/// An upload in progress.
pub struct UploadView {
    pub rest: Seq<u8>,
    pub state: LineState,
    pub count: u32,
    pub stage: UploadStage,
}

impl View for FirmwareUpload<'_> {
    type V = UploadView;

    open spec fn view(&self) -> UploadView {
        UploadView {
            rest: self.rest@,
            state: LineState {
                addr_mode: self.addr_mode,
                hi_addr: self.hi_addr,
                dest_addr: self.dest_addr,
                ds: self.data@,
            },
            count: self.count,
            stage: self.stage,
        }
    }
}

/// The address of a record on the bus.
pub open spec fn bus_address(dest_addr: u32) -> int {
    dest_addr + BLUETOOTH_BASE_ADDRESS
}

/// Whether a record of `n` bytes, widened to whole words, lies in the address
/// space and fits the staging buffer.
pub open spec fn record_fits(dest_addr: u32, n: int) -> bool {
    let dest = bus_address(dest_addr);
    let start = dest - dest % 4;
    let end = rounded_up(dest + n, 4);
    end <= u32::MAX && end - start <= RECORD_BUFFER_SIZE
}

/// A record widened to whole words: `first` is the word in which it starts,
/// `last` the one in which it ends.
pub open spec fn padded(dest: int, data: Seq<u8>, first: Seq<u8>, last: Seq<u8>) -> Seq<u8> {
    let tail = (dest + data.len()) % 4;
    first.take(dest % 4) + data + if tail == 0 {
        Seq::empty()
    } else {
        last.skip(tail)
    }
}

/// The reads of the words in which a record starts and ends, where it does not
/// fill them.
pub open spec fn padding_reads(dest: int, n: int) -> Seq<ActionView> {
    let end = dest + n;
    (if dest % 4 == 0 {
        seq![]
    } else {
        seq![ActionView::Read32 { addr: (dest - dest % 4) as u32 }]
    }) + (if end % 4 == 0 {
        seq![]
    } else {
        seq![ActionView::Read32 { addr: (end - end % 4) as u32 }]
    })
}

impl UploadView {
    /// The bytes of the record last read.
    pub open spec fn record(self) -> Seq<u8> {
        self.state.ds.take(self.count as int)
    }

    /// The address of the record last read.
    pub open spec fn dest(self) -> int {
        bus_address(self.state.dest_addr)
    }

    /// A record that was read lies in the buffer and can be written.
    pub open spec fn wf(self) -> bool {
        &&& self.state.ds.len() == RECORD_BUFFER_SIZE
        &&& self.stage is Record ==> {
            &&& 0 < self.count <= u8::MAX
            &&& record_fits(self.state.dest_addr, self.count as int)
        }
    }

    /// How many words the upload waits for.
    pub open spec fn awaited(self) -> Seq<Ask> {
        if self.stage is Record {
            asks(padding_reads(self.dest(), self.count as int))
        } else {
            seq![]
        }
    }

    /// The write of the record last read, given the words around it.
    pub open spec fn write(self, words: Seq<u32>) -> ActionView {
        let dest = self.dest();
        let first = u32_bytes(words[0]);
        let last = u32_bytes(words[if dest % 4 == 0 { 0 } else { 1int }]);
        ActionView::WriteBlock {
            addr: (dest - dest % 4) as u32,
            data: padded(dest, self.record(), first, last),
        }
    }
}

/// One word is awaited for each end of a record that does not fill its word.
broadcast proof fn lemma_padding_asks(dest: int, n: int)
    ensures
        #[trigger] asks(padding_reads(dest, n)) == (if dest % 4 == 0 {
            seq![]
        } else {
            seq![Ask::Word]
        }) + (if (dest + n) % 4 == 0 {
            seq![]
        } else {
            seq![Ask::Word]
        }),
{
    let reads = padding_reads(dest, n);
    reveal_with_fuel(asks, 3);
    if dest % 4 != 0 && (dest + n) % 4 != 0 {
        assert(reads.drop_last().drop_last() =~= seq![]);
    } else if dest % 4 != 0 || (dest + n) % 4 != 0 {
        assert(reads.drop_last() =~= seq![]);
    }
    assert(asks(reads) =~= (if dest % 4 == 0 {
        seq![]
    } else {
        seq![Ask::Word]
    }) + (if (dest + n) % 4 == 0 {
        seq![]
    } else {
        seq![Ask::Word]
    }));
}

/// Reads on to the next record: the upload after it, and the words asked for.
pub open spec fn next_record(rest: Seq<u8>, state: LineState) -> (UploadView, Seq<ActionView>) {
    match line_read(rest, state, 0) {
        None => (
            UploadView { rest, state, count: 0, stage: UploadStage::Failed(Fault::FirmwareImage) },
            seq![],
        ),
        Some(read) => {
            let n = read.count as int;
            if n == 0 {
                (
                    UploadView {
                        rest: read.rest,
                        state: read.state,
                        count: 0,
                        stage: UploadStage::Done,
                    },
                    seq![],
                )
            } else if !record_fits(read.state.dest_addr, n) {
                (
                    UploadView {
                        rest: read.rest,
                        state: read.state,
                        count: read.count,
                        stage: UploadStage::Failed(Fault::FirmwareRecord),
                    },
                    seq![],
                )
            } else {
                (
                    UploadView {
                        rest: read.rest,
                        state: read.state,
                        count: read.count,
                        stage: UploadStage::Record,
                    },
                    padding_reads(bus_address(read.state.dest_addr), n),
                )
            }
        },
    }
}

/// The state before the first record of an image.
pub open spec fn first_state() -> LineState {
    LineState {
        addr_mode: BTFW_ADDR_MODE_EXTENDED,
        hi_addr: 0,
        dest_addr: 0,
        ds: Seq::new(RECORD_BUFFER_SIZE as nat, |i: int| 0u8),
    }
}

/// The start of an image: the records behind the version string, and the state
/// before the first of them.
pub open spec fn first_record(firmware: Seq<u8>) -> (UploadView, Seq<ActionView>) {
    let state = first_state();
    if firmware.len() < 1 || firmware.len() < firmware[0] + 2 {
        (
            UploadView {
                rest: firmware,
                state,
                count: 0,
                stage: UploadStage::Failed(Fault::FirmwareImage),
            },
            seq![],
        )
    } else {
        next_record(firmware.skip(firmware[0] + 2), state)
    }
}

impl<'a> FirmwareUpload<'a> {
    /// Asks for the words around the record that was read, if it can be written.
    fn ask_for_padding(&mut self, acts: &mut Actions)
        requires
            0 < old(self).count <= u8::MAX,
        ensures
            final(self).stage == if record_fits(old(self).dest_addr, old(self).count as int) {
                UploadStage::Record
            } else {
                UploadStage::Failed(Fault::FirmwareRecord)
            },
            final(self)@ == (UploadView { stage: final(self).stage, ..old(self)@ }),
            final(acts)@ == old(acts)@ + if final(self).stage is Record {
                padding_reads(final(self)@.dest(), final(self).count as int)
            } else {
                Seq::empty()
            },
            asks(final(acts)@) == asks(old(acts)@) + final(self)@.awaited(),
    {
        broadcast use lemma_padding_asks;

        self.stage = UploadStage::Failed(Fault::FirmwareRecord);
        if self.dest_addr > u32::MAX - BLUETOOTH_BASE_ADDRESS {
            return ;
        }
        let dest: u32 = self.dest_addr + BLUETOOTH_BASE_ADDRESS;
        if self.count > u32::MAX - dest {
            return ;
        }
        let start: u32 = round_down(dest, 4);
        let end: u32 = dest + self.count;
        let end_word: u32 = round_down(end, 4);
        let end_aligned: bool = is_aligned(end, 4);
        if !end_aligned && end_word > u32::MAX - 4 {
            return ;
        }
        let padded_end: u32 = if end_aligned {
            end
        } else {
            end_word + 4
        };
        if padded_end - start > RECORD_BUFFER_SIZE as u32 {
            return ;
        }
        self.stage = UploadStage::Record;
        if !is_aligned(dest, 4) {
            acts.push(Action::Read32 { addr: start });
        }
        if !end_aligned {
            acts.push(Action::Read32 { addr: end_word });
        }
        assert(acts@ =~= old(acts)@ + padding_reads(dest as int, self.count as int));
        assert(asks(acts@) =~= asks(old(acts)@) + self@.awaited());
    }

    /// Reads on to the next record.
    fn read_on(&mut self, acts: &mut Actions)
        ensures
            ({
                let (next, reads) = next_record(old(self)@.rest, old(self)@.state);
                &&& final(self).stage == next.stage
                &&& !(next.stage is Failed) ==> final(self)@ == next
                &&& final(acts)@ == old(acts)@ + reads
                &&& asks(final(acts)@) == asks(old(acts)@) + final(self)@.awaited()
            }),
            final(self)@.wf(),
    {
        proof {
            law_line_read_consumes(self@.rest, self@.state, 0);
            assert(acts@ + Seq::<ActionView>::empty() =~= acts@);
            assert(asks(acts@) + Seq::<Ask>::empty() =~= asks(acts@));
        }
        let mut cb: CybtFwCb<'a> = CybtFwCb { p_next_line_start: self.rest };
        let mut hfd: HexFileData = HexFileData {
            addr_mode: self.addr_mode,
            hi_addr: self.hi_addr,
            dest_addr: self.dest_addr,
            p_ds: &mut self.data,
        };
        let read: Option<u32> = next_patch_line(&mut cb, &mut hfd);
        let addr_mode: i32 = hfd.addr_mode;
        let hi_addr: u16 = hfd.hi_addr;
        let dest_addr: u32 = hfd.dest_addr;
        self.rest = cb.p_next_line_start;
        self.addr_mode = addr_mode;
        self.hi_addr = hi_addr;
        self.dest_addr = dest_addr;
        match read {
            None => {
                self.count = 0;
                self.stage = UploadStage::Failed(Fault::FirmwareImage);
            },
            Some(count) => {
                self.count = count;
                if count == 0 {
                    self.stage = UploadStage::Done;
                } else {
                    self.ask_for_padding(acts);
                }
            },
        }
    }

    /// Starts to upload an image: passes over its version string and reads on
    /// to the first record.
    pub fn start(firmware: &'a [u8], acts: &mut Actions) -> (upload: Self)
        ensures
            ({
                let (next, reads) = first_record(firmware@);
                &&& upload.stage == next.stage
                &&& !(next.stage is Failed) ==> upload@ == next
                &&& final(acts)@ == old(acts)@ + reads
                &&& asks(final(acts)@) == asks(old(acts)@) + upload@.awaited()
            }),
            upload@.wf(),
    {
        let mut upload: FirmwareUpload<'a> = FirmwareUpload {
            rest: firmware,
            addr_mode: BTFW_ADDR_MODE_EXTENDED,
            hi_addr: 0,
            dest_addr: 0,
            data: [0; RECORD_BUFFER_SIZE],
            count: 0,
            stage: UploadStage::Failed(Fault::FirmwareImage),
        };
        assert(upload.data@ =~= Seq::new(RECORD_BUFFER_SIZE as nat, |i: int| 0u8));
        assert(acts@ + Seq::<ActionView>::empty() =~= acts@);
        assert(asks(acts@) + Seq::<Ask>::empty() =~= asks(acts@));
        if firmware.len() < 1 {
            return upload;
        }
        let version_length: usize = firmware[0] as usize;
        if firmware.len() < version_length + 2 {
            return upload;
        }
        upload.rest = &firmware[version_length + 2..firmware.len()];
        assert(upload.rest@ =~= firmware@.skip(firmware@[0] + 2));
        upload.read_on(acts);
        upload
    }

    /// The record last read, widened to whole words.
    fn pad(&self, dest: u32, replies: &Vec<Reply>) -> (data: Vec<u8>)
        requires
            self@.wf(),
            self.stage is Record,
            dest == self@.dest(),
            answered(self@.awaited(), replies@),
        ensures
            (ActionView::WriteBlock { addr: (dest - dest as int % 4) as u32, data: data@ })
                == self@.write(words_of(replies@)),
    {
        broadcast use lemma_padding_asks;

        let ghost words = words_of(replies@);
        let mut data: Vec<u8> = Vec::new();
        let lead: usize = (dest % 4) as usize;
        let mut next: usize = 0;
        if lead != 0 {
            assert(replies@[0] is Word);
            let first: [u8; 4] = u32_to_bytes(word_in(replies, 0));
            next = 1;
            let mut i: usize = 0;
            while i < lead
                invariant
                    i <= lead < 4,
                    data@ == first@.take(i as int),
                decreases lead - i,
            {
                data.push(first[i]);
                i = i + 1;
                assert(data@ =~= first@.take(i as int));
            }
        }
        assert(data@ =~= u32_bytes(words[0]).take(lead as int));
        let ghost before = data@;
        let count: usize = self.count as usize;
        let mut i: usize = 0;
        while i < count
            invariant
                i <= count <= RECORD_BUFFER_SIZE,
                data@ == before + self.data@.take(i as int),
            decreases count - i,
        {
            data.push(self.data[i]);
            i = i + 1;
            assert(data@ =~= before + self.data@.take(i as int));
        }
        let ghost before = data@;
        let tail: usize = ((dest + self.count) % 4) as usize;
        if tail != 0 {
            assert(replies@[next as int] is Word);
            let last: [u8; 4] = u32_to_bytes(word_in(replies, next));
            let mut i: usize = tail;
            while i < 4
                invariant
                    tail <= i <= 4,
                    data@ == before + last@.subrange(tail as int, i as int),
                decreases 4 - i,
            {
                data.push(last[i]);
                i = i + 1;
                assert(data@ =~= before + last@.subrange(tail as int, i as int));
            }
            assert(last@.subrange(tail as int, 4) =~= last@.skip(tail as int));
        }
        assert(data@ =~= padded(
            dest as int,
            self@.record(),
            u32_bytes(words[0]),
            u32_bytes(words[if dest as int % 4 == 0 { 0 } else { 1int }]),
        ));
        data
    }

    /// Writes the record last read, and reads on to the next one.
    pub fn resume(&mut self, replies: &Vec<Reply>, acts: &mut Actions)
        requires
            old(self)@.wf(),
            old(self).stage is Record,
            answered(old(self)@.awaited(), replies@),
        ensures
            ({
                let (next, reads) = next_record(old(self)@.rest, old(self)@.state);
                &&& final(self).stage == next.stage
                &&& !(next.stage is Failed) ==> final(self)@ == next
                &&& final(acts)@ == old(acts)@.push(old(self)@.write(words_of(replies@))) + reads
                &&& asks(final(acts)@) == asks(old(acts)@) + final(self)@.awaited()
            }),
            final(self)@.wf(),
    {
        let dest: u32 = self.dest_addr + BLUETOOTH_BASE_ADDRESS;
        let data: Vec<u8> = self.pad(dest, replies);
        acts.push(Action::WriteBlock { addr: round_down(dest, 4), data });
        self.read_on(acts);
    }
}

/// Writing a record widened with what memory holds around it changes memory as
/// writing the record alone would, and is a write of whole words.
pub proof fn law_padding_keeps_memory(
    mem: Memory,
    dest: int,
    data: Seq<u8>,
    first: Seq<u8>,
    last: Seq<u8>,
)
    requires
        dest % 4 != 0 ==> first == loaded(mem, dest - dest % 4, 4),
        first.len() == 4,
        (dest + data.len()) % 4 != 0 ==> last == loaded(
            mem,
            dest + data.len() - (dest + data.len()) % 4,
            4,
        ),
        last.len() == 4,
    ensures
        stored(mem, dest - dest % 4, padded(dest, data, first, last)) == stored(mem, dest, data),
        padded(dest, data, first, last).len() == rounded_up(dest + data.len(), 4) - (dest - dest % 4),
        padded(dest, data, first, last).len() % 4 == 0,
{
    let start = dest - dest % 4;
    let end = dest + data.len();
    let wide = padded(dest, data, first, last);
    let a = stored(mem, start, wide);
    let b = stored(mem, dest, data);
    assert forall|x: int| #[trigger] a(x) == b(x) by {
        if start <= x < dest {
            assert(wide[x - start] == first[x - start]);
        } else if dest <= x < end {
            assert(wide[x - start] == data[x - dest]);
        } else if end <= x < start + wide.len() {
            assert(wide[x - start] == last[x - end + end % 4]);
        }
    }
    assert(a =~= b);
}

/// The words that memory gives for a list of reads.
pub open spec fn words_read(mem: Memory, reads: Seq<ActionView>) -> Seq<u32> {
    Seq::new(reads.len(), |i: int| word_at(mem, reads[i]->Read32_addr as int))
}

/// What an upload comes to when memory answers its reads: its last stage, and
/// the memory after it.
pub open spec fn upload_run(upload: UploadView, mem: Memory) -> (UploadStage, Memory)
    decreases upload.rest.len(),
{
    if upload.stage is Record {
        let words = words_read(mem, padding_reads(upload.dest(), upload.count as int));
        let (next, reads) = next_record(upload.rest, upload.state);
        let after = performed_all(mem, seq![upload.write(words)] + reads);
        proof {
            law_line_read_consumes(upload.rest, upload.state, 0);
        }
        if next.stage is Record {
            upload_run(next, after)
        } else {
            (next.stage, after)
        }
    } else {
        (upload.stage, mem)
    }
}

/// The data records from some place in an image on, each with its address on
/// the bus, up to the end of the image or the first record that cannot be
/// written.
pub open spec fn records(rest: Seq<u8>, state: LineState) -> Seq<(int, Seq<u8>)>
    decreases rest.len(),
{
    match line_read(rest, state, 0) {
        Some(read) => {
            if read.count == 0 || !record_fits(read.state.dest_addr, read.count as int) {
                seq![]
            } else {
                proof {
                    law_line_read_consumes(rest, state, 0);
                }
                seq![(bus_address(read.state.dest_addr), read.state.ds.take(read.count as int))]
                    + records(read.rest, read.state)
            }
        },
        None => seq![],
    }
}

/// The data records of an image: those behind its version string and the byte
/// after it.
pub open spec fn image_records(firmware: Seq<u8>) -> Seq<(int, Seq<u8>)> {
    records(firmware.skip(firmware[0] + 2), first_state())
}

/// The memory after a list of records was written, the first one first.
pub open spec fn stored_all(mem: Memory, list: Seq<(int, Seq<u8>)>) -> Memory
    decreases list.len(),
{
    if list.len() == 0 {
        mem
    } else {
        stored_all(stored(mem, list[0].0, list[0].1), list.drop_first())
    }
}

/// Reads that follow a write leave memory as the write has left it.
pub proof fn lemma_reads_keep_memory(mem: Memory, dest: int, n: int, write: ActionView)
    ensures
        performed_all(mem, seq![write] + padding_reads(dest, n)) == performed(mem, write),
        performed_all(mem, seq![write] + Seq::<ActionView>::empty()) == performed(mem, write),
{
    reveal_with_fuel(performed_all, 4);
    let all = seq![write] + padding_reads(dest, n);
    assert(seq![write].drop_last() =~= Seq::<ActionView>::empty());
    assert(seq![write] + Seq::<ActionView>::empty() =~= seq![write]);
    if padding_reads(dest, n).len() == 0 {
        assert(all =~= seq![write]);
    } else if padding_reads(dest, n).len() == 1 {
        assert(all.drop_last() =~= seq![write]);
    } else {
        assert(all.drop_last().drop_last() =~= seq![write]);
    }
}

/// One record: with the words that memory holds around it, the write that an
/// upload asks for changes memory as writing the record alone would.
pub proof fn law_record_write(upload: UploadView, mem: Memory)
    requires
        upload.wf(),
        upload.stage is Record,
    ensures
        ({
            let words = words_read(mem, padding_reads(upload.dest(), upload.count as int));
            performed(mem, upload.write(words)) == stored(mem, upload.dest(), upload.record())
        }),
{
    let dest = upload.dest();
    let n = upload.count as int;
    let words = words_read(mem, padding_reads(dest, n));
    let first = u32_bytes(words[0]);
    let last = u32_bytes(words[if dest % 4 == 0 { 0 } else { 1int }]);
    law_word_bytes(mem, dest - dest % 4);
    law_word_bytes(mem, dest + n - (dest + n) % 4);
    law_padding_keeps_memory(mem, dest, upload.record(), first, last);
}

proof fn lemma_upload_run(upload: UploadView, mem: Memory)
    requires
        upload.wf(),
        upload.stage is Record,
    ensures
        upload_run(upload, mem).1 == stored_all(
            stored(mem, upload.dest(), upload.record()),
            records(upload.rest, upload.state),
        ),
    decreases upload.rest.len(),
{
    let dest = upload.dest();
    let n = upload.count as int;
    let words = words_read(mem, padding_reads(dest, n));
    let (next, reads) = next_record(upload.rest, upload.state);
    let write = upload.write(words);
    let after = stored(mem, dest, upload.record());
    law_record_write(upload, mem);
    law_line_read_consumes(upload.rest, upload.state, 0);
    lemma_reads_keep_memory(mem, next.dest(), next.count as int, write);
    if next.stage is Record {
        lemma_upload_run(next, after);
        let list = records(upload.rest, upload.state);
        assert(list.drop_first() =~= records(next.rest, next.state));
    }
}

/// An upload writes every data record of the image to its place, in order, and
/// nothing else.
pub proof fn law_upload_stores_image(firmware: Seq<u8>, mem: Memory)
    requires
        1 <= firmware.len(),
        firmware[0] + 2 <= firmware.len(),
    ensures
        upload_run(first_record(firmware).0, mem).1 == stored_all(mem, image_records(firmware)),
{
    let state = first_state();
    let rest = firmware.skip(firmware[0] + 2);
    let upload = first_record(firmware).0;
    law_line_read_consumes(rest, state, 0);
    if upload.stage is Record {
        lemma_upload_run(upload, mem);
        let list = records(rest, state);
        assert(list.drop_first() =~= records(upload.rest, upload.state));
    }
}

} // verus!
