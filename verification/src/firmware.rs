//! Firmware images: a sequence of records, each with a length, an address, a
//! type and that many bytes of data.

use vstd::prelude::*;

use crate::consts::{
    BTFW_ADDR_MODE_EXTENDED, BTFW_ADDR_MODE_LINEAR32, BTFW_ADDR_MODE_SEGMENT,
    BTFW_HEX_LINE_TYPE_ABSOLUTE_32BIT_ADDRESS, BTFW_HEX_LINE_TYPE_DATA,
    BTFW_HEX_LINE_TYPE_EXTENDED_ADDRESS, BTFW_HEX_LINE_TYPE_EXTENDED_SEGMENT_ADDRESS,
};

verus! {

/// The part of a firmware image that has not been read yet.
pub struct CybtFwCb<'a> {
    pub p_next_line_start: &'a [u8],
}

/// The address state of a firmware image, and the data of the last record.
pub struct HexFileData<'a> {
    pub addr_mode: i32,
    pub hi_addr: u16,
    pub dest_addr: u32,
    pub p_ds: &'a mut [u8],
}

/// The address state of a firmware image, and the data of the last record.
pub struct LineState {
    pub addr_mode: i32,
    pub hi_addr: u16,
    pub dest_addr: u32,
    pub ds: Seq<u8>,
}

impl View for HexFileData<'_> {
    type V = LineState;

    open spec fn view(&self) -> LineState {
        LineState {
            addr_mode: self.addr_mode,
            hi_addr: self.hi_addr,
            dest_addr: self.dest_addr,
            ds: self.p_ds@,
        }
    }
}

/// The big-endian 16-bit integer at the start of `s`.
pub open spec fn be16(s: Seq<u8>) -> int {
    256 * s[0] + s[1]
}

/// The big-endian 32-bit integer at the start of `s`.
pub open spec fn be32(s: Seq<u8>) -> int {
    0x100_0000 * s[0] + 0x1_0000 * s[1] + 0x100 * s[2] + s[3]
}

/// What the address mode adds to the address of a data record.
pub open spec fn address_offset(state: LineState, base: u32) -> int {
    if state.addr_mode == BTFW_ADDR_MODE_EXTENDED {
        0x1_0000 * state.hi_addr
    } else if state.addr_mode == BTFW_ADDR_MODE_SEGMENT {
        16 * state.hi_addr
    } else if state.addr_mode == BTFW_ADDR_MODE_LINEAR32 {
        base as int
    } else {
        0
    }
}

/// What reading on to the next data record gives.
pub struct LineRead {
    /// What follows the record.
    pub rest: Seq<u8>,
    /// The address state after it.
    pub state: LineState,
    /// How many bytes of data it holds; 0 at the end of the image.
    pub count: u32,
}

/// Reads records up to the next data record, or up to an empty record, which
/// ends the image. Records of other types change the address state: `base` is
/// the last 32-bit base address seen on the way. There is no result where a
/// record is cut short, does not fit the data buffer, or leads to an address of
/// more than 32 bits.
pub open spec fn line_read(input: Seq<u8>, state: LineState, base: u32) -> Option<LineRead>
    decreases input.len(),
{
    if input.len() < 4 {
        None
    } else {
        let n = input[0] as int;
        let addr = be16(input.skip(1));
        let kind = input[3];
        if n == 0 {
            Some(LineRead { rest: input.skip(4), state, count: 0 })
        } else if input.len() < 4 + n || state.ds.len() < n {
            None
        } else {
            let rest = input.skip(4 + n);
            let ds = input.subrange(4, 4 + n) + state.ds.skip(n);
            let loaded = LineState { ds, ..state };
            if kind == BTFW_HEX_LINE_TYPE_EXTENDED_ADDRESS {
                if ds.len() < 2 {
                    None
                } else {
                    let next = LineState {
                        hi_addr: be16(ds) as u16,
                        addr_mode: BTFW_ADDR_MODE_EXTENDED,
                        ..loaded
                    };
                    line_read(rest, next, base)
                }
            } else if kind == BTFW_HEX_LINE_TYPE_EXTENDED_SEGMENT_ADDRESS {
                if ds.len() < 2 {
                    None
                } else {
                    let next = LineState {
                        hi_addr: be16(ds) as u16,
                        addr_mode: BTFW_ADDR_MODE_SEGMENT,
                        ..loaded
                    };
                    line_read(rest, next, base)
                }
            } else if kind == BTFW_HEX_LINE_TYPE_ABSOLUTE_32BIT_ADDRESS {
                if ds.len() < 4 {
                    None
                } else {
                    let next = LineState { addr_mode: BTFW_ADDR_MODE_LINEAR32, ..loaded };
                    line_read(rest, next, be32(ds) as u32)
                }
            } else if kind == BTFW_HEX_LINE_TYPE_DATA {
                let dest = addr + address_offset(state, base);
                if dest > u32::MAX {
                    None
                } else {
                    let next = LineState { dest_addr: dest as u32, ..loaded };
                    Some(LineRead { rest, state: next, count: n as u32 })
                }
            } else {
                line_read(rest, loaded, base)
            }
        }
    }
}

/// Reading on consumes at least a record header and the data that is returned,
/// fills no more of the data buffer than a record can hold, and leaves behind
/// the record's own bytes.
pub proof fn law_line_read_consumes(input: Seq<u8>, state: LineState, base: u32)
    ensures
        line_read(input, state, base) matches Some(read) ==> {
            &&& read.count <= u8::MAX
            &&& read.count <= read.state.ds.len()
            &&& read.state.ds.len() == state.ds.len()
            &&& read.rest.len() + 4 + read.count <= input.len()
            &&& read.rest == input.skip(input.len() - read.rest.len())
            &&& read.state.ds.take(read.count as int) == input.subrange(
                input.len() - read.rest.len() - read.count,
                input.len() - read.rest.len(),
            )
        },
    decreases input.len(),
{
    if input.len() >= 4 && input[0] != 0 && input.len() >= 4 + input[0] && state.ds.len() >= input[0] {
        let n = input[0] as int;
        let rest = input.skip(4 + n);
        let ds = input.subrange(4, 4 + n) + state.ds.skip(n);
        let loaded = LineState { ds, ..state };
        let extended = LineState {
            hi_addr: be16(ds) as u16,
            addr_mode: BTFW_ADDR_MODE_EXTENDED,
            ..loaded
        };
        let segment = LineState {
            hi_addr: be16(ds) as u16,
            addr_mode: BTFW_ADDR_MODE_SEGMENT,
            ..loaded
        };
        let linear = LineState { addr_mode: BTFW_ADDR_MODE_LINEAR32, ..loaded };
        law_line_read_consumes(rest, extended, base);
        law_line_read_consumes(rest, segment, base);
        law_line_read_consumes(rest, linear, be32(ds) as u32);
        law_line_read_consumes(rest, loaded, base);
        if let Some(read) = line_read(input, state, base) {
            if input[3] == BTFW_HEX_LINE_TYPE_DATA {
                assert(read.state.ds.take(n) =~= input.subrange(4, 4 + n));
                assert(read.rest =~= input.skip(input.len() - read.rest.len()));
            } else {
                let m = read.rest.len();
                assert(rest.skip(rest.len() - m) =~= input.skip(input.len() - m));
                assert(rest.subrange(rest.len() - m - read.count, rest.len() - m)
                    =~= input.subrange(input.len() - m - read.count, input.len() - m));
            }
        }
    } else if input.len() >= 4 && input[0] == 0 {
        assert(state.ds.take(0) =~= input.subrange(4, 4));
    }
}

/// Reads on to the next data record, if the image and the data buffer allow it.
pub fn next_patch_line<'a>(
    p_btfw_cb: &mut CybtFwCb<'a>,
    hfd: &mut HexFileData,
) -> (count: Option<u32>)
    ensures
        (match line_read(old(p_btfw_cb).p_next_line_start@, old(hfd)@, 0) {
            Some(read) => {
                &&& count == Some(read.count)
                &&& final(p_btfw_cb).p_next_line_start@ == read.rest
                &&& final(hfd)@ == read.state
            },
            None => count is None,
        }),
        final(hfd).p_ds@.len() == old(hfd).p_ds@.len(),
        final(final(hfd).p_ds)@ == final(old(hfd).p_ds)@,
{
    let mut abs_base_addr32: u32 = 0;
    let ghost target = line_read(p_btfw_cb.p_next_line_start@, hfd@, 0);
    loop
        invariant
            target == line_read(p_btfw_cb.p_next_line_start@, hfd@, abs_base_addr32),
            hfd.p_ds@.len() == old(hfd).p_ds@.len(),
            final(hfd.p_ds)@ == final(old(hfd).p_ds)@,
            target == line_read(old(p_btfw_cb).p_next_line_start@, old(hfd)@, 0),
        decreases p_btfw_cb.p_next_line_start@.len(),
    {
        let input: &'a [u8] = p_btfw_cb.p_next_line_start;
        let ghost before = hfd@;
        if input.len() < 4 {
            return None;
        }
        let num_bytes: usize = input[0] as usize;
        let addr: u32 = 256 * input[1] as u32 + input[2] as u32;
        let line_type: u8 = input[3];
        assert(be16(input@.skip(1)) == addr);
        if num_bytes == 0 {
            p_btfw_cb.p_next_line_start = &input[4..input.len()];
            assert(p_btfw_cb.p_next_line_start@ =~= input@.skip(4));
            return Some(0);
        }
        if input.len() < 4 + num_bytes || hfd.p_ds.len() < num_bytes {
            return None;
        }
        let mut i: usize = 0;
        while i < num_bytes
            invariant
                i <= num_bytes <= hfd.p_ds@.len(),
                num_bytes <= u8::MAX,
                input@.len() >= 4 + num_bytes,
                hfd.p_ds@.len() == before.ds.len(),
                final(hfd.p_ds)@ == final(old(hfd).p_ds)@,
                hfd.addr_mode == before.addr_mode,
                hfd.hi_addr == before.hi_addr,
                hfd.dest_addr == before.dest_addr,
                forall|j: int| 0 <= j < i ==> hfd.p_ds@[j] == input@[4 + j],
                forall|j: int| i <= j < hfd.p_ds@.len() ==> hfd.p_ds@[j] == before.ds[j],
            decreases num_bytes - i,
        {
            hfd.p_ds[i] = input[4 + i];
            i = i + 1;
        }
        p_btfw_cb.p_next_line_start = &input[4 + num_bytes..input.len()];
        assert(p_btfw_cb.p_next_line_start@ =~= input@.skip(4 + num_bytes));
        assert(hfd.p_ds@ =~= input@.subrange(4, 4 + num_bytes) + before.ds.skip(num_bytes as int));
        if line_type == BTFW_HEX_LINE_TYPE_EXTENDED_ADDRESS {
            if hfd.p_ds.len() < 2 {
                return None;
            }
            hfd.hi_addr = 256 * hfd.p_ds[0] as u16 + hfd.p_ds[1] as u16;
            hfd.addr_mode = BTFW_ADDR_MODE_EXTENDED;
        } else if line_type == BTFW_HEX_LINE_TYPE_EXTENDED_SEGMENT_ADDRESS {
            if hfd.p_ds.len() < 2 {
                return None;
            }
            hfd.hi_addr = 256 * hfd.p_ds[0] as u16 + hfd.p_ds[1] as u16;
            hfd.addr_mode = BTFW_ADDR_MODE_SEGMENT;
        } else if line_type == BTFW_HEX_LINE_TYPE_ABSOLUTE_32BIT_ADDRESS {
            if hfd.p_ds.len() < 4 {
                return None;
            }
            abs_base_addr32 = 0x100_0000 * hfd.p_ds[0] as u32 + 0x1_0000 * hfd.p_ds[1] as u32
                + 0x100 * hfd.p_ds[2] as u32 + hfd.p_ds[3] as u32;
            hfd.addr_mode = BTFW_ADDR_MODE_LINEAR32;
        } else if line_type == BTFW_HEX_LINE_TYPE_DATA {
            let offset: u32 = if hfd.addr_mode == BTFW_ADDR_MODE_EXTENDED {
                0x1_0000 * hfd.hi_addr as u32
            } else if hfd.addr_mode == BTFW_ADDR_MODE_SEGMENT {
                16 * hfd.hi_addr as u32
            } else if hfd.addr_mode == BTFW_ADDR_MODE_LINEAR32 {
                abs_base_addr32
            } else {
                0
            };
            if offset > u32::MAX - addr {
                return None;
            }
            hfd.dest_addr = addr + offset;
            return Some(num_bytes as u32);
        }
    }
}

/// Reads on to the next data record, and gives the number of its bytes: 0 at the
/// end of the image.
pub fn read_firmware_patch_line<'a>(
    p_btfw_cb: &mut CybtFwCb<'a>,
    hfd: &mut HexFileData,
) -> (count: u32)
    requires
        line_read(old(p_btfw_cb).p_next_line_start@, old(hfd)@, 0) is Some,
    ensures
        ({
            let read = line_read(old(p_btfw_cb).p_next_line_start@, old(hfd)@, 0)->Some_0;
            &&& count == read.count
            &&& final(p_btfw_cb).p_next_line_start@ == read.rest
            &&& final(hfd)@ == read.state
        }),
        final(hfd).p_ds@.len() == old(hfd).p_ds@.len(),
        final(final(hfd).p_ds)@ == final(old(hfd).p_ds)@,
{
    match next_patch_line(p_btfw_cb, hfd) {
        Some(count) => count,
        None => 0,
    }
}

} // verus!
