//! Diagnostics that the transport emits.

use vstd::prelude::*;

verus! {

/// Around which access to the host control register a sample was taken.
#[derive(Clone, Copy, PartialEq, Eq, Structural, Debug)]
pub enum SamplePhase {
    Read,
    Write,
}

/// Where a packet was looked at on its way out.
#[derive(Clone, Copy, PartialEq, Eq, Structural, Debug)]
pub enum DiagPoint {
    Driver,
    Runner,
}

/// What an inspection of an outgoing test packet has to say.
#[derive(Clone, Copy, PartialEq, Eq, Structural, Debug)]
pub enum DiagReport {
    /// The packet was damaged.
    Bad {
        seq: u16,
        offset: u16,
        got: u8,
        expected: u8,
        mismatches: u16,
        bad: u32,
        checked: u32,
    },
    /// A summary, now and again.
    Summary { checked: u32, bad: u32 },
}

/// One diagnostic.
#[derive(Clone, Copy, PartialEq, Eq, Debug)]
pub enum Report {
    /// The host control register holds bits that nobody may set.
    HostCtrlInvalidBits { phase: SamplePhase, op: u32, hw: u32, cache: u32 },
    /// The host control register differs from its cached value.
    HostCtrlMismatch { phase: SamplePhase, op: u32, hw: u32, cache: u32, mismatches: u32 },
    /// A summary of the samples of the host control register.
    HostCtrlSampled { samples: u32, mismatches: u32 },
    /// Two reads of a ring pointer in a row gave different values.
    PointerUnstable { pointer: u32, first: u32, second: u32 },
    /// A ring pointer never read back as it was written.
    PointerNotWritten { pointer: u32, value: u32 },
    /// There is no room for a packet in the outgoing ring.
    TxQueueFull { len: u32, available: u32 },
    /// The incoming ring holds less than a whole packet.
    RxIncomplete,
    /// An outgoing test packet was inspected.
    TxDiag { at: DiagPoint, diag: DiagReport },
    /// An outgoing test packet did not read back as it was written.
    TxReadbackBad {
        seq: u16,
        offset: u16,
        payload_offset: u16,
        in_header: bool,
        got: u8,
        expected: u8,
        mismatched: u16,
        bad: u32,
        checked: u32,
    },
    /// A summary of the outgoing packets that were read back.
    TxReadbackSummary { checked: u32, bad: u32 },
    /// A received packet did not read the same twice.
    RxReadbackBad {
        hci_type: u8,
        acl_handle: u16,
        acl_pb: u8,
        l2cap_cid: u16,
        repro_seq: u32,
        len: u32,
        rounded_len: u32,
        offset: u16,
        ring_offset: u32,
        got: u8,
        expected: u8,
        single: u8,
        mismatched: u16,
        bad: u32,
        sampled: u32,
    },
    /// A summary of the received packets that were read twice.
    RxReadbackSummary { packets: u32, sampled: u32, bad: u32, bad_bytes: u32 },
    /// A sentinel block in received data was damaged.
    SentinelBad {
        acl_offset: usize,
        cross_boundary: bool,
        tail_index: usize,
        bulk: u8,
        single: u8,
        ring_offset: u32,
        got_tail: [u8; 8],
    },
    /// A summary of the sentinel blocks seen.
    SentinelSummary { packets: u32, blocks: u32, mismatches: u32 },
    /// One byte read alone differs from the same byte read with its packet.
    ByteProbeBad { probe_offset: usize, bulk: u8, single: u8, ring_offset: u32 },
    /// A summary of the single-byte probes.
    ByteProbeSummary {
        packets: u32,
        checked_o4: u32,
        mismatch_o4: u32,
        checked_o9: u32,
        mismatch_o9: u32,
    },
}

/// Why an operation cannot go on.
#[derive(Clone, Copy, PartialEq, Eq, Structural, Debug)]
pub enum Fault {
    /// The firmware image is cut short or malformed.
    FirmwareImage,
    /// A firmware record does not fit its destination or the staging buffer.
    FirmwareRecord,
    /// The Bluetooth core did not report the awaited state in time.
    PollTimeout,
    /// The Bluetooth core gave no usable address for the shared buffers.
    RamBase,
    /// Bits of the host control register are set that nobody may set.
    HostCtrlBits,
    /// The host control register differs from its cached value.
    HostCtrlCache,
    /// A ring pointer is out of range or not aligned.
    RingPointer,
    /// A packet to be sent holds nothing.
    TxEmpty,
    /// A packet to be sent does not fit its buffer once padded.
    TxTooLong,
    /// A received packet does not fit its buffer once padded.
    RxTooLong,
}

} // verus!
