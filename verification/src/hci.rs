//! HCI packets on their way between the channels and the host stack.

use vstd::prelude::*;

use bt_hci::FromHciBytes;

use crate::consts::BT_HCI_MTU;
use crate::options::Options;
use crate::packet::BtPacketBuf;
use crate::report::{DiagPoint, Report};
use crate::repro::{
    hci_packet_diag, inspect_repro_hci_packet, placed, tx_diag_record_driver, DiagCounters,
};
use crate::util::u16_at;

verus! {

/// What kind of I/O error occurred.
#[derive(Clone, Copy, PartialEq, Eq, Structural, Debug)]
pub enum ErrorKind {
    /// Unspecified.
    Other,
    /// A packet is too short.
    InvalidInput,
    /// A packet holds an invalid value.
    InvalidData,
}

/// HCI transport error.
#[derive(Clone, Copy, PartialEq, Eq, Structural, Debug)]
pub enum Error {
    /// I/O error.
    Io(ErrorKind),
}

impl Error {
    /// The kind of the error.
    pub fn kind(&self) -> (kind: ErrorKind)
        ensures
            *self == Error::Io(kind),
    {
        match self {
            Error::Io(kind) => *kind,
        }
    }
}

/// Why bytes are not an HCI packet.
#[derive(Clone, Copy, PartialEq, Eq, Structural, Debug)]
pub enum HciBytesError {
    /// There are too few of them, or too many.
    InvalidSize,
    /// One of them has an invalid value.
    InvalidValue,
}

impl From<HciBytesError> for Error {
    fn from(e: HciBytesError) -> (error: Self) {
        match e {
            HciBytesError::InvalidSize => Error::Io(ErrorKind::InvalidInput),
            HciBytesError::InvalidValue => Error::Io(ErrorKind::InvalidData),
        }
    }
}

impl vstd::std_specs::convert::FromSpecImpl<HciBytesError> for Error {
    open spec fn obeys_from_spec() -> bool {
        true
    }

    open spec fn from_spec(e: HciBytesError) -> Self {
        match e {
            HciBytesError::InvalidSize => Error::Io(ErrorKind::InvalidInput),
            HciBytesError::InvalidValue => Error::Io(ErrorKind::InvalidData),
        }
    }
}

/// The kinds of HCI packets.
#[derive(Clone, Copy, PartialEq, Eq, Structural, Debug)]
pub enum PacketKind {
    Cmd,
    AclData,
    SyncData,
    Event,
    IsoData,
}

/// A packet from the controller, as `bt_hci` has it.
#[verifier::external_type_specification]
#[verifier::external_body]
pub struct ExControllerToHostPacket<'a>(bt_hci::ControllerToHostPacket<'a>);

/// The kind that a type byte stands for.
pub open spec fn kind_of(byte: u8) -> Option<PacketKind> {
    if byte == 1 {
        Some(PacketKind::Cmd)
    } else if byte == 2 {
        Some(PacketKind::AclData)
    } else if byte == 3 {
        Some(PacketKind::SyncData)
    } else if byte == 4 {
        Some(PacketKind::Event)
    } else if byte == 5 {
        Some(PacketKind::IsoData)
    } else {
        None
    }
}

/// The packet kind in some bytes, or why there is none.
pub open spec fn kind_in(data: Seq<u8>) -> Result<PacketKind, HciBytesError> {
    if data.len() == 0 {
        Err(HciBytesError::InvalidSize)
    } else {
        match kind_of(data[0]) {
            Some(kind) => if data.len() == 1 {
                Ok(kind)
            } else {
                Err(HciBytesError::InvalidSize)
            },
            None => Err(HciBytesError::InvalidValue),
        }
    }
}

/// Calls `PacketKind::from_hci_bytes_complete` of `bt_hci`. It takes the bytes
/// 1 to 5 for the five kinds and any other first byte for an invalid value, and
/// it refuses an input that is not one byte long.
#[verifier::external_body]
fn packet_kind(data: &[u8]) -> (kind: Result<PacketKind, HciBytesError>)
    ensures
        kind == kind_in(data@),
{
    match bt_hci::PacketKind::from_hci_bytes_complete(data) {
        Ok(bt_hci::PacketKind::Cmd) => Ok(PacketKind::Cmd),
        Ok(bt_hci::PacketKind::AclData) => Ok(PacketKind::AclData),
        Ok(bt_hci::PacketKind::SyncData) => Ok(PacketKind::SyncData),
        Ok(bt_hci::PacketKind::Event) => Ok(PacketKind::Event),
        Ok(bt_hci::PacketKind::IsoData) => Ok(PacketKind::IsoData),
        Err(bt_hci::FromHciBytesError::InvalidSize) => Err(HciBytesError::InvalidSize),
        Err(bt_hci::FromHciBytesError::InvalidValue) => Err(HciBytesError::InvalidValue),
    }
}

/// The packet of a given kind that `bt_hci` makes of some bytes, or its error.
pub uninterp spec fn controller_packet(kind: PacketKind, data: Seq<u8>) -> Result<
    bt_hci::ControllerToHostPacket<'static>,
    HciBytesError,
>;

/// Whether `data` holds a header of `header` bytes and then `len` bytes more.
pub open spec fn holds(data: Seq<u8>, header: int, len: int) -> bool {
    data.len() >= header && data.len() >= header + len
}

/// How long the header in the data of an isochronous packet is: there is one in
/// a complete packet and in a first fragment, with or without a time stamp.
pub open spec fn iso_data_header(data: Seq<u8>) -> int {
    let flags = data[1] / 16;
    if flags % 2 != 0 {
        0
    } else if flags / 4 % 2 != 0 {
        8
    } else {
        4
    }
}

/// Why bytes are no packet of the given kind, if they are none: commands never
/// come from the controller, and every other packet must be as long as its
/// header says.
pub open spec fn packet_refusal(kind: PacketKind, data: Seq<u8>) -> Option<HciBytesError> {
    let complete = match kind {
        PacketKind::Cmd => true,
        PacketKind::AclData => holds(data, 4, u16_at(data, 2)),
        PacketKind::SyncData => holds(data, 3, data[2] as int),
        PacketKind::Event => holds(data, 2, data[1] as int),
        PacketKind::IsoData => {
            holds(data, 4, u16_at(data, 2)) && u16_at(data, 2) >= iso_data_header(data)
        },
    };
    if kind == PacketKind::Cmd {
        Some(HciBytesError::InvalidValue)
    } else if !complete {
        Some(HciBytesError::InvalidSize)
    } else {
        None
    }
}

/// Calls `ControllerToHostPacket::from_hci_bytes_with_kind` of `bt_hci`, and
/// leaves out the bytes behind the packet. Its result depends on nothing but
/// the kind and the bytes; it is an error exactly where [`packet_refusal`] says
/// so, and that error. (`bt_hci` builds for little-endian machines only.) What
/// the packet holds is not stated further.
#[verifier::external_body]
fn packet_with_kind<'a>(kind: PacketKind, data: &'a [u8]) -> (packet: Result<
    bt_hci::ControllerToHostPacket<'a>,
    HciBytesError,
>)
    ensures
        packet == controller_packet(kind, data@),
        (match packet {
            Ok(_) => packet_refusal(kind, data@) is None,
            Err(e) => packet_refusal(kind, data@) == Some(e),
        }),
{
    let kind = match kind {
        PacketKind::Cmd => bt_hci::PacketKind::Cmd,
        PacketKind::AclData => bt_hci::PacketKind::AclData,
        PacketKind::SyncData => bt_hci::PacketKind::SyncData,
        PacketKind::Event => bt_hci::PacketKind::Event,
        PacketKind::IsoData => bt_hci::PacketKind::IsoData,
    };
    match bt_hci::ControllerToHostPacket::from_hci_bytes_with_kind(kind, data) {
        Ok((packet, _)) => Ok(packet),
        Err(bt_hci::FromHciBytesError::InvalidSize) => Err(HciBytesError::InvalidSize),
        Err(bt_hci::FromHciBytesError::InvalidValue) => Err(HciBytesError::InvalidValue),
    }
}

/// A parsed packet with its error as one of the transport.
pub open spec fn as_read<'a>(
    packet: Result<bt_hci::ControllerToHostPacket<'a>, HciBytesError>,
) -> Result<bt_hci::ControllerToHostPacket<'a>, Error> {
    match packet {
        Ok(packet) => Ok(packet),
        Err(HciBytesError::InvalidSize) => Err(Error::Io(ErrorKind::InvalidInput)),
        Err(HciBytesError::InvalidValue) => Err(Error::Io(ErrorKind::InvalidData)),
    }
}

/// Turns the error of a parsed packet into one of the transport.
pub fn finish_read<'a>(
    packet: Result<bt_hci::ControllerToHostPacket<'a>, HciBytesError>,
) -> (result: Result<bt_hci::ControllerToHostPacket<'a>, Error>)
    ensures
        result == as_read(packet),
        (match packet {
            Ok(packet) => result == Ok::<bt_hci::ControllerToHostPacket<'a>, Error>(packet),
            Err(HciBytesError::InvalidSize) => result == Err::<
                bt_hci::ControllerToHostPacket<'a>,
                Error,
            >(Error::Io(ErrorKind::InvalidInput)),
            Err(HciBytesError::InvalidValue) => result == Err::<
                bt_hci::ControllerToHostPacket<'a>,
                Error,
            >(Error::Io(ErrorKind::InvalidData)),
        }),
{
    match packet {
        Ok(packet) => Ok(packet),
        Err(e) => Err(Error::from(e)),
    }
}

/// The outcome of parsing a packet with its type byte in front.
pub open spec fn parsed(packet: Seq<u8>) -> Result<bt_hci::ControllerToHostPacket<'static>, Error> {
    match kind_in(packet.take(1)) {
        Ok(kind) => as_read(controller_packet(kind, packet.skip(1))),
        Err(e) => as_read(Err(e)),
    }
}

/// Why a packet with its type byte in front cannot be parsed.
pub open spec fn parse_refusal(packet: Seq<u8>) -> Option<HciBytesError> {
    match kind_in(packet.take(1)) {
        Ok(kind) => packet_refusal(kind, packet.skip(1)),
        Err(e) => Some(e),
    }
}

/// The bytes that are parsed when a packet has been copied to the start of `rx`:
/// the packet or, where it is empty, the type byte that was there before.
pub open spec fn read_bytes(buf: Seq<u8>, rx: Seq<u8>) -> Seq<u8> {
    if buf.len() == 0 {
        rx.take(1)
    } else {
        buf
    }
}

/// Reads a received packet: copies it to the start of `rx` and parses it there.
pub fn read<'a>(buf: &BtPacketBuf, rx: &'a mut [u8]) -> (result: Result<
    bt_hci::ControllerToHostPacket<'a>,
    Error,
>)
    requires
        buf.wf(),
        buf.len < old(rx)@.len(),
        buf.len >= 1 || kind_of(old(rx)@[0]) is None,
    ensures
        final(rx)@ == buf@ + old(rx)@.skip(buf.len as int),
        result == parsed(read_bytes(buf@, old(rx)@)),
        (match result {
            Ok(_) => parse_refusal(read_bytes(buf@, old(rx)@)) is None,
            Err(e) => parse_refusal(read_bytes(buf@, old(rx)@)) matches Some(cause) && as_read(
                Err(cause),
            ) == Err::<
                bt_hci::ControllerToHostPacket<'a>,
                Error,
            >(e),
        }),
        // An ACL packet is given out exactly when it is as long as its header says.
        buf.len >= 1 && buf@[0] == 2 ==> (result is Ok <==> buf.len >= 5 && buf.len - 5 >= buf@[3]
            + 256 * buf@[4]),
        buf.len >= 1 && buf@[0] == 2 && result is Ok ==> controller_packet(
            PacketKind::AclData,
            buf@.subrange(1, buf.len as int),
        ) == Ok::<bt_hci::ControllerToHostPacket<'a>, HciBytesError>(result->Ok_0),
        // So is a synchronous one,
        buf.len >= 1 && buf@[0] == 3 ==> (result is Ok <==> buf.len >= 4 && buf.len - 4 >= buf@[3]),
        buf.len >= 1 && buf@[0] == 3 && result is Ok ==> controller_packet(
            PacketKind::SyncData,
            buf@.subrange(1, buf.len as int),
        ) == Ok::<bt_hci::ControllerToHostPacket<'a>, HciBytesError>(result->Ok_0),
        // an event,
        buf.len >= 1 && buf@[0] == 4 ==> (result is Ok <==> buf.len >= 3 && buf.len - 3 >= buf@[2]),
        buf.len >= 1 && buf@[0] == 4 && result is Ok ==> controller_packet(
            PacketKind::Event,
            buf@.subrange(1, buf.len as int),
        ) == Ok::<bt_hci::ControllerToHostPacket<'a>, HciBytesError>(result->Ok_0),
        // and an isochronous one, which may have a header of its own in its data.
        buf.len >= 1 && buf@[0] == 5 ==> (result is Ok <==> {
            &&& buf.len >= 5
            &&& buf.len - 5 >= buf@[3] + 256 * buf@[4]
            &&& buf@[2] / 16 % 2 == 0 ==> buf@[3] + 256 * buf@[4] >= if buf@[2] / 64 % 2 == 0 {
                4int
            } else {
                8
            }
        }),
        buf.len >= 1 && buf@[0] == 5 && result is Ok ==> controller_packet(
            PacketKind::IsoData,
            buf@.subrange(1, buf.len as int),
        ) == Ok::<bt_hci::ControllerToHostPacket<'a>, HciBytesError>(result->Ok_0),
        // A packet of one of these types that is refused is too short,
        buf.len >= 1 && 2 <= buf@[0] <= 5 && !(result is Ok) ==> result == Err::<
            bt_hci::ControllerToHostPacket<'a>,
            Error,
        >(Error::Io(ErrorKind::InvalidInput)),
        // and no other type comes from the controller.
        buf.len == 0 || buf@[0] < 2 || buf@[0] > 5 ==> result == Err::<
            bt_hci::ControllerToHostPacket<'a>,
            Error,
        >(Error::Io(ErrorKind::InvalidData)),
{
    let n: usize = buf.len;
    let mut i: usize = 0;
    while i < n
        invariant
            i <= n,
            n == buf.len,
            n <= BT_HCI_MTU,
            n < rx@.len(),
            rx@.len() == old(rx)@.len(),
            forall|j: int| 0 <= j < i ==> rx@[j] == buf.buf@[j],
            forall|j: int| i <= j < rx@.len() ==> rx@[j] == old(rx)@[j],
        decreases n - i,
    {
        rx[i] = buf.buf[i];
        i = i + 1;
    }
    assert(rx@ =~= buf@ + old(rx)@.skip(n as int));
    assert(rx@.subrange(0, 1) =~= read_bytes(buf@, old(rx)@).take(1));
    if n >= 1 {
        assert(rx@.subrange(1, n as int) =~= buf@.skip(1));
        assert(buf@.subrange(1, n as int) =~= buf@.skip(1));
    }
    match packet_kind(&rx[0..1]) {
        Ok(kind) => finish_read(packet_with_kind(kind, &rx[1..n])),
        Err(e) => finish_read(Err(e)),
    }
}

/// Ends the serialisation of an outgoing packet into `buf`. `unused` is the
/// number of bytes left free at the end of the buffer, or `None` where the
/// packet did not fit; in that case the buffer is left alone. A test packet is
/// inspected where the options ask for it.
pub fn write(
    buf: &mut BtPacketBuf,
    unused: Option<usize>,
    opts: &Options,
    counters: &mut DiagCounters,
) -> (result: Result<Option<Report>, Error>)
    requires
        unused matches Some(n) ==> n <= BT_HCI_MTU,
    ensures
        (match unused {
            None => {
                &&& result == Err::<Option<Report>, Error>(Error::Io(ErrorKind::Other))
                &&& *final(buf) == *old(buf)
                &&& *final(counters) == *old(counters)
            },
            Some(n) => {
                &&& final(buf).len == BT_HCI_MTU - n
                &&& final(buf).buf == old(buf).buf
                &&& (match hci_packet_diag(final(buf)@) {
                    Some(diag) if opts.tx_repro_diag => {
                        &&& *final(counters) == old(counters).counted(diag.mismatches != 0)
                        &&& result == Ok::<_, Error>(
                            placed(DiagPoint::Driver, final(counters).report(diag)),
                        )
                    },
                    _ => {
                        &&& *final(counters) == *old(counters)
                        &&& result == Ok::<Option<Report>, Error>(None)
                    },
                })
            },
        }),
        result is Ok ==> final(buf).wf(),
        unused matches Some(n) ==> final(buf).len == 1024 - n,
        unused matches Some(n) ==> result is Ok,
        result matches Ok(Some(report)) ==> report is TxDiag && report->TxDiag_at == DiagPoint::Driver,
{
    match unused {
        None => Err(Error::Io(ErrorKind::Other)),
        Some(n) => {
            buf.finish(n);
            if opts.tx_repro_diag {
                let len: usize = buf.len;
                let packet: &[u8] = &buf.buf.as_slice()[0..len];
                assert(packet@ =~= buf@);
                match inspect_repro_hci_packet(packet) {
                    Some(diag) => Ok(tx_diag_record_driver(counters, diag)),
                    None => Ok(None),
                }
            } else {
                Ok(None)
            }
        },
    }
}

} // verus!
