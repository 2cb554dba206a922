//! Test packets with a known content, by which damage on the way out is found.

use vstd::prelude::*;

use crate::consts::HCI_PACKET_TYPE_ACL;
use crate::diff::{compare, diff_of, law_diff, law_diff_counts, law_diff_found, Diff};
use crate::report::{DiagPoint, DiagReport, Report};
use crate::util::{read_u16, u16_at};

verus! {

/// The first bytes of every test packet, "R4D_SPI!".
pub const REPRO_MAGIC: [u8; 8] = [0x52, 0x34, 0x44, 0x5f, 0x53, 0x50, 0x49, 0x21];

/// The length of a test packet.
pub const REPRO_TEST_PACKET_LEN: usize = 220;

/// The length of its header.
pub const REPRO_HEADER_LEN: usize = 16;

/// The byte that the test packet with number `seq` has at `offset`.
pub open spec fn expected_byte(offset: int, seq: u16) -> u8 {
    if offset < 8 {
        REPRO_MAGIC@[offset]
    } else if offset == 8 {
        (seq % 256) as u8
    } else if offset == 9 {
        (seq / 256) as u8
    } else if offset == 10 {
        (REPRO_TEST_PACKET_LEN % 256) as u8
    } else if offset == 11 {
        (REPRO_TEST_PACKET_LEN / 256) as u8
    } else if offset == 12 {
        0xa5u8 ^ (seq % 256) as u8
    } else if offset == 13 {
        0x5au8 ^ (seq / 256) as u8
    } else if offset == 14 {
        0x3c
    } else if offset == 15 {
        0xc3
    } else {
        ((offset - REPRO_HEADER_LEN + seq) % 256) as u8
    }
}

/// The test packet with number `seq`.
pub open spec fn repro_packet(seq: u16) -> Seq<u8> {
    Seq::new(REPRO_TEST_PACKET_LEN as nat, |i: int| expected_byte(i, seq))
}

/// The byte that the test packet with number `seq` has at `offset`.
pub fn repro_expected_byte(offset: usize, seq: u16) -> (byte: u8)
    ensures
        byte == expected_byte(offset as int, seq),
{
    if offset < 8 {
        REPRO_MAGIC[offset]
    } else if offset == 8 {
        (seq % 256) as u8
    } else if offset == 9 {
        (seq / 256) as u8
    } else if offset == 10 {
        (REPRO_TEST_PACKET_LEN % 256) as u8
    } else if offset == 11 {
        (REPRO_TEST_PACKET_LEN / 256) as u8
    } else if offset == 12 {
        0xa5 ^ (seq % 256) as u8
    } else if offset == 13 {
        0x5a ^ (seq / 256) as u8
    } else if offset == 14 {
        0x3c
    } else if offset == 15 {
        0xc3
    } else {
        let index: usize = (offset - REPRO_HEADER_LEN) % 256;
        ((index + seq as usize) % 256) as u8
    }
}

/// What an inspection of a test packet found.
#[derive(Clone, Copy, PartialEq, Eq, Structural, Debug)]
pub struct ReproDiag {
    pub seq: u16,
    pub mismatches: u16,
    pub first_offset: u16,
    pub first_expected: u8,
    pub first_actual: u8,
}

/// What an inspection of the test packet with number `seq` found.
pub open spec fn repro_diag(seq: u16, diff: Diff) -> ReproDiag {
    ReproDiag {
        seq,
        mismatches: diff.mismatches,
        first_offset: diff.first_offset,
        first_expected: diff.first_expected,
        first_actual: diff.first_actual,
    }
}

/// Whether bytes are to be taken for a test packet, damaged or not.
pub open spec fn is_repro_payload(payload: Seq<u8>) -> bool {
    payload.len() == REPRO_TEST_PACKET_LEN && payload.take(8) == REPRO_MAGIC@
}

/// The inspection of a test packet.
pub open spec fn payload_diag(payload: Seq<u8>) -> Option<ReproDiag> {
    if is_repro_payload(payload) {
        let seq = u16_at(payload, 8) as u16;
        Some(repro_diag(seq, diff_of(repro_packet(seq), payload)))
    } else {
        None
    }
}

/// The unit of data of test packet size that the first L2CAP frame in an ACL
/// payload starts with.
pub open spec fn acl_sdu(acl_payload: Seq<u8>) -> Option<Seq<u8>> {
    let l2cap_len = u16_at(acl_payload, 0);
    if acl_payload.len() >= 6 + REPRO_TEST_PACKET_LEN && l2cap_len >= 2 + REPRO_TEST_PACKET_LEN
        && acl_payload.len() >= 4 + l2cap_len && u16_at(acl_payload, 4) == REPRO_TEST_PACKET_LEN {
        Some(acl_payload.subrange(6, 6 + REPRO_TEST_PACKET_LEN))
    } else {
        None
    }
}

/// The inspection of the test packet in an ACL payload.
pub open spec fn acl_payload_diag(acl_payload: Seq<u8>) -> Option<ReproDiag> {
    match acl_sdu(acl_payload) {
        Some(sdu) => payload_diag(sdu),
        None => None,
    }
}

/// The payload of a complete ACL packet, which has its type byte in front.
pub open spec fn hci_acl_payload(packet: Seq<u8>) -> Option<Seq<u8>> {
    let acl_len = u16_at(packet, 3);
    if packet.len() >= 5 && packet[0] == HCI_PACKET_TYPE_ACL && packet.len() >= 5 + acl_len {
        Some(packet.subrange(5, 5 + acl_len))
    } else {
        None
    }
}

/// The inspection of the test packet in an HCI packet.
pub open spec fn hci_packet_diag(packet: Seq<u8>) -> Option<ReproDiag> {
    match hci_acl_payload(packet) {
        Some(payload) => acl_payload_diag(payload),
        None => None,
    }
}

/// Whether `payload` starts with the magic bytes.
pub fn starts_with_magic(payload: &[u8]) -> (yes: bool)
    requires
        payload@.len() >= 8,
    ensures
        yes == (payload@.take(8) == REPRO_MAGIC@),
{
    let mut i: usize = 0;
    while i < 8
        invariant
            i <= 8 <= payload@.len(),
            forall|j: int| 0 <= j < i ==> payload@[j] == REPRO_MAGIC@[j],
        decreases 8 - i,
    {
        if payload[i] != REPRO_MAGIC[i] {
            assert(payload@.take(8)[i as int] != REPRO_MAGIC@[i as int]);
            return false;
        }
        i = i + 1;
    }
    assert(payload@.take(8) =~= REPRO_MAGIC@);
    true
}

/// Inspects a test packet.
pub fn inspect_repro_payload(payload: &[u8]) -> (diag: Option<ReproDiag>)
    ensures
        diag == payload_diag(payload@),
{
    if payload.len() != REPRO_TEST_PACKET_LEN || !starts_with_magic(payload) {
        return None;
    }
    let seq: u16 = read_u16(payload, 8);
    let mut expected: Vec<u8> = Vec::new();
    let mut i: usize = 0;
    while i < REPRO_TEST_PACKET_LEN
        invariant
            i <= REPRO_TEST_PACKET_LEN,
            expected@ == repro_packet(seq).take(i as int),
        decreases REPRO_TEST_PACKET_LEN - i,
    {
        expected.push(repro_expected_byte(i, seq));
        i = i + 1;
        assert(expected@ =~= repro_packet(seq).take(i as int));
    }
    assert(expected@ =~= repro_packet(seq));
    let diff: Diff = compare(expected.as_slice(), payload);
    Some(
        ReproDiag {
            seq,
            mismatches: diff.mismatches,
            first_offset: diff.first_offset,
            first_expected: diff.first_expected,
            first_actual: diff.first_actual,
        },
    )
}

/// Inspects the test packet in an ACL payload.
pub fn inspect_repro_acl_payload(acl_payload: &[u8]) -> (diag: Option<ReproDiag>)
    ensures
        diag == acl_payload_diag(acl_payload@),
{
    if acl_payload.len() < 4 + 2 + REPRO_TEST_PACKET_LEN {
        return None;
    }
    let l2cap_len: usize = read_u16(acl_payload, 0) as usize;
    if l2cap_len < 2 + REPRO_TEST_PACKET_LEN || acl_payload.len() < 4 + l2cap_len {
        return None;
    }
    let sdu_len: usize = read_u16(acl_payload, 4) as usize;
    if sdu_len != REPRO_TEST_PACKET_LEN {
        return None;
    }
    inspect_repro_payload(&acl_payload[6..6 + sdu_len])
}

/// Inspects the test packet in an HCI packet.
pub fn inspect_repro_hci_packet(packet: &[u8]) -> (diag: Option<ReproDiag>)
    ensures
        diag == hci_packet_diag(packet@),
{
    if packet.len() < 5 || packet[0] != HCI_PACKET_TYPE_ACL {
        return None;
    }
    let acl_len: usize = read_u16(packet, 3) as usize;
    if packet.len() < 5 + acl_len {
        return None;
    }
    inspect_repro_acl_payload(&packet[5..5 + acl_len])
}

/// An intact test packet passes its inspection, and nothing else with its
/// number does.
pub proof fn law_intact_packet(seq: u16, payload: Seq<u8>)
    ensures
        payload_diag(repro_packet(seq)) == Some(
            ReproDiag { seq, mismatches: 0, first_offset: 0, first_expected: 0, first_actual: 0 },
        ),
        payload_diag(payload) matches Some(diag) ==> (diag.mismatches == 0 <==> payload
            == repro_packet(diag.seq)),
{
    let packet = repro_packet(seq);
    assert(packet.take(8) =~= REPRO_MAGIC@);
    assert(u16_at(packet, 8) == seq);
    law_diff(packet, packet);
    if is_repro_payload(payload) {
        let number = u16_at(payload, 8) as u16;
        law_diff(repro_packet(number), payload);
    }
}

/// A test packet starts with "R4D_SPI!", its number, its length and the number
/// again, each byte of it masked, lower byte first; the bytes behind its header
/// count up from the number, and wrap around.
pub proof fn law_test_packet(seq: u16, i: int)
    ensures
        repro_packet(seq).len() == 220,
        repro_packet(seq).take(8) == seq![0x52u8, 0x34, 0x44, 0x5f, 0x53, 0x50, 0x49, 0x21],
        expected_byte(8, seq) + 256 * expected_byte(9, seq) == seq,
        expected_byte(10, seq) + 256 * expected_byte(11, seq) == 220,
        expected_byte(12, seq) ^ expected_byte(8, seq) == 0xa5,
        expected_byte(13, seq) ^ expected_byte(9, seq) == 0x5a,
        expected_byte(14, seq) == 0x3c,
        expected_byte(15, seq) == 0xc3,
        expected_byte(16, seq) == seq % 256,
        16 <= i < 219 ==> expected_byte(i + 1, seq) == (expected_byte(i, seq) + 1) % 256,
        0 <= i < 220 ==> repro_packet(seq)[i] == expected_byte(i, seq),
{
    assert(repro_packet(seq).take(8) =~= seq![
        0x52u8,
        0x34,
        0x44,
        0x5f,
        0x53,
        0x50,
        0x49,
        0x21,
    ]);
    assert(forall|a: u8, b: u8| #![auto] (a ^ b) ^ b == a) by (bit_vector);
}

/// Of bytes of the length of a test packet that start as one, the inspection
/// reads the number, and compares every byte with the test packet of that number:
/// one more byte damaged behind the number counts one more, and the first damaged
/// byte is named. Other bytes are not inspected.
pub proof fn law_inspection(payload: Seq<u8>, i: int, byte: u8)
    ensures
        payload_diag(payload) is Some <==> payload.len() == 220 && payload.take(8) == seq![
            0x52u8,
            0x34,
            0x44,
            0x5f,
            0x53,
            0x50,
            0x49,
            0x21,
        ],
        payload_diag(payload) matches Some(diag) ==> {
            let packet = repro_packet(diag.seq);
            let at = diag.first_offset as int;
            &&& diag.seq == payload[8] + 256 * payload[9]
            &&& if payload == packet {
                diag.mismatches == 0 && at == 0 && diag.first_expected == 0 && diag.first_actual == 0
            } else {
                &&& 1 <= diag.mismatches <= 220
                &&& 0 <= at < 220
                &&& diag.first_expected == packet[at]
                &&& diag.first_actual == payload[at]
                &&& packet[at] != payload[at]
                &&& forall|j: int| 0 <= j < at ==> packet[j] == payload[j]
            }
            &&& 10 <= i < 220 && payload[i] == packet[i] && byte != packet[i] ==> (payload_diag(
                payload.update(i, byte),
            ) matches Some(worse) && worse.seq == diag.seq && worse.mismatches == diag.mismatches
                + 1)
        },
{
    let magic = seq![0x52u8, 0x34, 0x44, 0x5f, 0x53, 0x50, 0x49, 0x21];
    assert(REPRO_MAGIC@ =~= magic);
    if let Some(diag) = payload_diag(payload) {
        let packet = repro_packet(diag.seq);
        law_diff(packet, payload);
        law_diff_found(packet, payload);
        if 10 <= i < 220 && payload[i] == packet[i] && byte != packet[i] {
            let worse = payload.update(i, byte);
            law_diff_counts(packet, payload, i, byte);
            law_diff(packet, worse);
            assert(worse.take(8) =~= payload.take(8));
        }
    }
}

/// A test packet is looked for in one place of an HCI packet: in the first unit
/// of data of an ACL packet that holds a whole L2CAP frame.
pub proof fn law_where_inspected(packet: Seq<u8>)
    ensures
        ({
            let acl = packet[3] + 256 * packet[4];
            let l2cap = packet[5] + 256 * packet[6];
            let found = packet.len() >= 231 && packet[0] == 2 && 226 <= acl <= packet.len() - 5
                && 222 <= l2cap <= acl - 4 && packet[9] == 220 && packet[10] == 0;
            hci_packet_diag(packet) == if found {
                payload_diag(packet.subrange(11, 231))
            } else {
                None
            }
        }),
{
    if let Some(payload) = hci_acl_payload(packet) {
        assert(payload.len() >= 226 ==> payload.subrange(6, 226) =~= packet.subrange(11, 231));
    }
}

/// A test packet in an ACL payload is the first unit of data of a whole L2CAP frame.
pub proof fn law_where_inspected_in_payload(payload: Seq<u8>)
    ensures
        ({
            let l2cap = payload[0] + 256 * payload[1];
            let found = payload.len() >= 226 && 222 <= l2cap <= payload.len() - 4 && payload[4]
                == 220 && payload[5] == 0;
            acl_payload_diag(payload) == if found {
                payload_diag(payload.subrange(6, 226))
            } else {
                None
            }
        }),
{
}

/// Every packet that is counted counts once, and a damaged one once more as
/// damaged. A damaged packet is always reported, with the counts and what was
/// found; an intact one only each 1024th time, with the counts.
pub proof fn law_counting(counters: DiagCounters, diag: ReproDiag)
    ensures
        ({
            let damaged = diag.mismatches != 0;
            let after = counters.counted(damaged);
            &&& after.checked == (counters.checked + 1) % 0x1_0000_0000
            &&& after.bad == if damaged {
                (counters.bad + 1) % 0x1_0000_0000
            } else {
                counters.bad as int
            }
            &&& damaged ==> after.report(diag) == Some(
                DiagReport::Bad {
                    seq: diag.seq,
                    offset: diag.first_offset,
                    got: diag.first_actual,
                    expected: diag.first_expected,
                    mismatches: diag.mismatches,
                    bad: after.bad,
                    checked: after.checked,
                },
            )
            &&& !damaged && (counters.checked + 1) % 1024 == 0 ==> after.report(diag) == Some(
                DiagReport::Summary { checked: after.checked, bad: counters.bad },
            )
            &&& !damaged && (counters.checked + 1) % 1024 != 0 ==> after.report(diag) is None
        }),
{
}

/// How many test packets were inspected, and how many of them were damaged;
/// both wrap around.
#[derive(Clone, Copy, PartialEq, Eq, Structural, Debug)]
pub struct DiagCounters {
    pub checked: u32,
    pub bad: u32,
}

/// How often a summary is reported.
pub const SUMMARY_EVERY: u32 = 1024;

impl DiagCounters {
    /// Nothing counted yet.
    pub fn new() -> (counters: Self)
        ensures
            counters == (DiagCounters { checked: 0, bad: 0 }),
    {
        DiagCounters { checked: 0, bad: 0 }
    }

    /// One more packet has been counted.
    pub open spec fn counted(self, damaged: bool) -> DiagCounters {
        DiagCounters {
            checked: self.checked.wrapping_add(1),
            bad: if damaged {
                self.bad.wrapping_add(1)
            } else {
                self.bad
            },
        }
    }

    /// Counts one more packet.
    pub fn count(&mut self, damaged: bool)
        ensures
            *final(self) == old(self).counted(damaged),
    {
        self.checked = self.checked.wrapping_add(1);
        if damaged {
            self.bad = self.bad.wrapping_add(1);
        }
    }

    /// What to report of a packet, once it has been counted.
    pub open spec fn report(self, diag: ReproDiag) -> Option<DiagReport> {
        if diag.mismatches != 0 {
            Some(
                DiagReport::Bad {
                    seq: diag.seq,
                    offset: diag.first_offset,
                    got: diag.first_actual,
                    expected: diag.first_expected,
                    mismatches: diag.mismatches,
                    bad: self.bad,
                    checked: self.checked,
                },
            )
        } else if self.checked % SUMMARY_EVERY == 0 {
            Some(DiagReport::Summary { checked: self.checked, bad: self.bad })
        } else {
            None
        }
    }

    /// Counts one more packet, and says what to report of it.
    fn record(&mut self, diag: ReproDiag) -> (report: Option<DiagReport>)
        ensures
            *final(self) == old(self).counted(diag.mismatches != 0),
            report == final(self).report(diag),
    {
        self.count(diag.mismatches != 0);
        if diag.mismatches != 0 {
            Some(
                DiagReport::Bad {
                    seq: diag.seq,
                    offset: diag.first_offset,
                    got: diag.first_actual,
                    expected: diag.first_expected,
                    mismatches: diag.mismatches,
                    bad: self.bad,
                    checked: self.checked,
                },
            )
        } else if self.checked % SUMMARY_EVERY == 0 {
            Some(DiagReport::Summary { checked: self.checked, bad: self.bad })
        } else {
            None
        }
    }
}

/// The report of an inspection at some place.
pub open spec fn placed(at: DiagPoint, diag: Option<DiagReport>) -> Option<Report> {
    match diag {
        Some(diag) => Some(Report::TxDiag { at, diag }),
        None => None,
    }
}

/// Records an inspection in the driver, where packets come in.
pub fn tx_diag_record_driver(
    counters: &mut DiagCounters,
    diag: ReproDiag,
) -> (report: Option<Report>)
    ensures
        *final(counters) == old(counters).counted(diag.mismatches != 0),
        report == placed(DiagPoint::Driver, final(counters).report(diag)),
        report is Some <==> final(counters).report(diag) is Some,
        report matches Some(r) ==> r == (Report::TxDiag {
            at: DiagPoint::Driver,
            diag: final(counters).report(diag)->Some_0,
        }),
{
    match counters.record(diag) {
        Some(diag) => Some(Report::TxDiag { at: DiagPoint::Driver, diag }),
        None => None,
    }
}

/// Records an inspection in the runner, where packets go out.
pub fn tx_diag_record_runner(
    counters: &mut DiagCounters,
    diag: ReproDiag,
) -> (report: Option<Report>)
    ensures
        *final(counters) == old(counters).counted(diag.mismatches != 0),
        report == placed(DiagPoint::Runner, final(counters).report(diag)),
        report is Some <==> final(counters).report(diag) is Some,
        report matches Some(r) ==> r == (Report::TxDiag {
            at: DiagPoint::Runner,
            diag: final(counters).report(diag)->Some_0,
        }),
{
    match counters.record(diag) {
        Some(diag) => Some(Report::TxDiag { at: DiagPoint::Runner, diag }),
        None => None,
    }
}

} // verus!
