use bt_hci::ControllerToHostPacket;
use cyw43_bluetooth::consts::{
    BTFW_ADDR_MODE_EXTENDED, BTFW_ADDR_MODE_LINEAR32, BTFW_ADDR_MODE_SEGMENT, BT_HCI_MTU,
};
use cyw43_bluetooth::diff::{compare, Diff};
use cyw43_bluetooth::firmware::{
    next_patch_line, read_firmware_patch_line, CybtFwCb, HexFileData,
};
use cyw43_bluetooth::hci::{finish_read, read, Error, ErrorKind, HciBytesError};
use cyw43_bluetooth::host_ctrl::{bt_signal_intr, host_ctrl_bits_allowed, HostCtrl, HostCtrlChange};
use cyw43_bluetooth::options::Options;
use cyw43_bluetooth::packet::BtPacketBuf;
use cyw43_bluetooth::probe::{probe_rx_packet_meta, PacketMeta};
use cyw43_bluetooth::report::{DiagPoint, DiagReport, Fault, Report};
use cyw43_bluetooth::repro::{
    inspect_repro_acl_payload, inspect_repro_hci_packet, inspect_repro_payload, repro_expected_byte,
    starts_with_magic, tx_diag_record_driver, tx_diag_record_runner, DiagCounters, ReproDiag,
};
use cyw43_bluetooth::ring::{free, is_ring_pointer, ring_move, used};
use cyw43_bluetooth::sentinel::{scan_sentinel_blocks, Sentinel};
use cyw43_bluetooth::util::{is_aligned, read_u16, round_down, round_up, u32_to_bytes};

fn packet_of(data: &[u8]) -> BtPacketBuf {
    let mut packet = BtPacketBuf::new();
    packet.store(data);
    packet
}

fn test_packet(seq: u16) -> Vec<u8> {
    (0..220).map(|i| repro_expected_byte(i, seq)).collect()
}

/// An ACL packet with a test packet in it, without its type byte.
fn acl_with_test_packet(seq: u16) -> Vec<u8> {
    let sdu = test_packet(seq);
    let mut acl = vec![0x40, 0x20];
    acl.extend_from_slice(&226u16.to_le_bytes());
    acl.extend_from_slice(&222u16.to_le_bytes());
    acl.extend_from_slice(&0x0041u16.to_le_bytes());
    acl.extend_from_slice(&220u16.to_le_bytes());
    acl.extend_from_slice(&sdu);
    acl
}

#[test]
fn words_and_alignment() {
    assert!(is_aligned(8, 4));
    assert!(!is_aligned(9, 4));
    assert_eq!(round_down(11, 4), 8);
    assert_eq!(round_up(11, 4), 12);
    assert_eq!(round_up(12, 4), 12);
    assert_eq!(round_up(0, 4), 0);
    assert_eq!(read_u16(&[0xff, 0x34, 0x12], 1), 0x1234);
    assert_eq!(u32_to_bytes(0x1234_5678), [0x78, 0x56, 0x34, 0x12]);
}

#[test]
fn new_packet_is_empty() {
    let packet = BtPacketBuf::new();
    assert_eq!(packet.len, 0);
    assert_eq!(packet.buf.len(), BT_HCI_MTU);
    assert!(packet.buf.iter().all(|b| *b == 0));
}

#[test]
fn stored_packet_keeps_what_lies_behind() {
    let mut packet = packet_of(&[1, 2, 3, 4]);
    packet.store(&[9, 8]);
    assert_eq!(packet.len, 2);
    assert_eq!(packet.buf[..5], [9, 8, 3, 4, 0]);
    packet.finish(BT_HCI_MTU - 3);
    assert_eq!(packet.len, 3);
}

#[test]
fn ring_arithmetic() {
    assert!(is_ring_pointer(0));
    assert!(is_ring_pointer(0xffc));
    assert!(!is_ring_pointer(0x1000));
    assert!(!is_ring_pointer(2));
    assert_eq!(ring_move(0xffc, 8), 4);
    assert_eq!(used(0xff0, 0x10), 0x20);
    assert_eq!(used(0x10, 0x10), 0);
    assert_eq!(free(0x10, 0x10), 0xffc);
    assert_eq!(free(0x10, 0x0c), 0);
    assert_eq!(free(0, 0xff8), 4);
    // What is waiting and what is free make up the ring but for one word.
    assert_eq!(used(0xff0, 0x10) + free(0xff0, 0x10), 0xffc);
}

#[test]
fn data_record_is_read() {
    let image = [2, 0x12, 0x34, 0, 0xaa, 0xbb, 0, 0, 0, 1];
    let mut ds = [0u8; 256];
    let mut cb = CybtFwCb { p_next_line_start: &image };
    let mut hfd = HexFileData {
        addr_mode: BTFW_ADDR_MODE_EXTENDED,
        hi_addr: 3,
        dest_addr: 0,
        p_ds: &mut ds,
    };
    assert_eq!(read_firmware_patch_line(&mut cb, &mut hfd), 2);
    assert_eq!(hfd.dest_addr, 0x3_1234);
    assert_eq!(hfd.p_ds[..3], [0xaa, 0xbb, 0]);
    assert_eq!(cb.p_next_line_start, [0, 0, 0, 1]);
    assert_eq!(read_firmware_patch_line(&mut cb, &mut hfd), 0);
    assert!(cb.p_next_line_start.is_empty());
}

#[test]
fn address_records_set_the_mode() {
    let image = [
        2, 0, 0, 4, 0x00, 0x05, // extended address
        1, 0x00, 0x10, 0, 0x11, // data
        2, 0, 0, 2, 0x01, 0x00, // segment address
        1, 0x00, 0x20, 0, 0x22, // data
        4, 0, 0, 5, 0x00, 0x10, 0x00, 0x00, // absolute address
        1, 0x00, 0x30, 0, 0x33, // data
    ];
    let mut ds = [0u8; 256];
    let mut cb = CybtFwCb { p_next_line_start: &image };
    let mut hfd = HexFileData {
        addr_mode: BTFW_ADDR_MODE_EXTENDED,
        hi_addr: 0,
        dest_addr: 0,
        p_ds: &mut ds,
    };
    assert_eq!(next_patch_line(&mut cb, &mut hfd), Some(1));
    assert_eq!((hfd.addr_mode, hfd.dest_addr), (BTFW_ADDR_MODE_EXTENDED, 0x5_0010));
    assert_eq!(next_patch_line(&mut cb, &mut hfd), Some(1));
    assert_eq!((hfd.addr_mode, hfd.dest_addr), (BTFW_ADDR_MODE_SEGMENT, 0x1000 + 0x20));
    assert_eq!(next_patch_line(&mut cb, &mut hfd), Some(1));
    assert_eq!((hfd.addr_mode, hfd.dest_addr), (BTFW_ADDR_MODE_LINEAR32, 0x10_0030));
    assert_eq!(hfd.p_ds[0], 0x33);
}

#[test]
fn record_cut_short_is_no_record() {
    let image = [3, 0, 0, 0, 1, 2];
    let mut ds = [0u8; 256];
    let mut cb = CybtFwCb { p_next_line_start: &image };
    let mut hfd = HexFileData {
        addr_mode: BTFW_ADDR_MODE_EXTENDED,
        hi_addr: 0,
        dest_addr: 0,
        p_ds: &mut ds,
    };
    assert_eq!(next_patch_line(&mut cb, &mut hfd), None);
    let mut cb = CybtFwCb { p_next_line_start: &[] };
    assert_eq!(next_patch_line(&mut cb, &mut hfd), None);
}

#[test]
fn expected_bytes_of_test_packets() {
    assert_eq!(
        (0..8).map(|i| repro_expected_byte(i, 0)).collect::<Vec<u8>>(),
        b"R4D_SPI!"
    );
    let header: Vec<u8> = (8..16).map(|i| repro_expected_byte(i, 0x1234)).collect();
    assert_eq!(header, [0x34, 0x12, 220, 0, 0xa5 ^ 0x34, 0x5a ^ 0x12, 0x3c, 0xc3]);
    assert_eq!(repro_expected_byte(16, 0x1234), 0x34);
    assert_eq!(repro_expected_byte(219, 0x1234), 0xff);
    assert!(starts_with_magic(&test_packet(7)));
    assert!(!starts_with_magic(&[0; 8]));
}

#[test]
fn intact_test_packet_has_no_mismatch() {
    let packet = test_packet(0xfeff);
    let diag = inspect_repro_payload(&packet).unwrap();
    assert_eq!(diag.seq, 0xfeff);
    assert_eq!(diag.mismatches, 0);
    assert_eq!(inspect_repro_payload(&packet[..219]), None);
    let mut other = packet.clone();
    other[0] = 0;
    assert_eq!(inspect_repro_payload(&other), None);
}

#[test]
fn damaged_test_packet_is_described() {
    let mut packet = test_packet(5);
    packet[100] ^= 0xff;
    packet[219] ^= 1;
    let diag = inspect_repro_payload(&packet).unwrap();
    assert_eq!(
        diag,
        ReproDiag {
            seq: 5,
            mismatches: 2,
            first_offset: 100,
            first_expected: 89,
            first_actual: 89 ^ 0xff,
        }
    );
}

#[test]
fn test_packet_is_found_in_acl_packet() {
    let acl = acl_with_test_packet(9);
    assert_eq!(inspect_repro_acl_payload(&acl[4..]).unwrap().seq, 9);
    let mut hci = vec![2];
    hci.extend_from_slice(&acl);
    assert_eq!(inspect_repro_hci_packet(&hci).unwrap().mismatches, 0);
    hci[0] = 1;
    assert_eq!(inspect_repro_hci_packet(&hci), None);
    assert_eq!(inspect_repro_hci_packet(&acl), None);
    assert_eq!(inspect_repro_acl_payload(&acl[4..100]), None);
}

#[test]
fn diagnostics_are_counted_and_reported() {
    let good = ReproDiag { seq: 1, mismatches: 0, first_offset: 0, first_expected: 0, first_actual: 0 };
    let bad = ReproDiag { seq: 2, mismatches: 3, first_offset: 4, first_expected: 5, first_actual: 6 };
    let mut counters = DiagCounters::new();
    assert_eq!(tx_diag_record_driver(&mut counters, good), None);
    assert_eq!(
        tx_diag_record_driver(&mut counters, bad),
        Some(Report::TxDiag {
            at: DiagPoint::Driver,
            diag: DiagReport::Bad {
                seq: 2,
                offset: 4,
                got: 6,
                expected: 5,
                mismatches: 3,
                bad: 1,
                checked: 2,
            },
        })
    );
    assert_eq!(counters, DiagCounters { checked: 2, bad: 1 });
    let mut counters = DiagCounters { checked: 1023, bad: 7 };
    assert_eq!(
        tx_diag_record_runner(&mut counters, good),
        Some(Report::TxDiag {
            at: DiagPoint::Runner,
            diag: DiagReport::Summary { checked: 1024, bad: 7 },
        })
    );
}

#[test]
fn comparison_finds_first_difference() {
    assert_eq!(
        compare(&[1, 2, 3, 4], &[1, 9, 3, 8]),
        Diff { mismatches: 2, first_offset: 1, first_expected: 2, first_actual: 9 }
    );
    assert_eq!(
        compare(&[1, 2], &[1, 2]),
        Diff { mismatches: 0, first_offset: 0, first_expected: 0, first_actual: 0 }
    );
}

#[test]
fn sentinel_blocks_are_counted() {
    let mut data = vec![0u8; 3];
    data.extend_from_slice(b"R4D_PING");
    data.extend_from_slice(&[0, 1, 2, 3, 4, 5, 6, 7]);
    data.extend_from_slice(b"R4D_PING");
    data.extend_from_slice(&[0, 1, 2, 0xee, 4, 5, 6, 7]);
    let scan = scan_sentinel_blocks(&data);
    assert_eq!((scan.hits, scan.mismatches), (2, 1));
    assert_eq!(scan.first_mismatch, Some((19, [0, 1, 2, 0xee, 4, 5, 6, 7])));
    let scan = scan_sentinel_blocks(&data[..18]);
    assert_eq!((scan.hits, scan.mismatches), (0, 0));
    assert_eq!(scan.first_mismatch, None);
}

/// A fragment with some data, without its type byte.
fn fragment(handle: u16, continuing: bool, data: &[u8]) -> Vec<u8> {
    let flags = handle | if continuing { 0x1000 } else { 0x2000 };
    let mut payload = flags.to_le_bytes().to_vec();
    payload.extend_from_slice(&(data.len() as u16).to_le_bytes());
    payload.extend_from_slice(data);
    payload
}

#[test]
fn fragments_count_as_one_packet() {
    let mut data = b"....R4D_PING".to_vec();
    data.extend_from_slice(&[0, 1, 2, 3, 4, 5, 6, 0x77]);
    data.extend_from_slice(b"R4D_PING");
    data.extend_from_slice(&[0, 1, 2, 3, 4, 5, 6, 7]);
    for cut in 1..data.len() {
        let mut sentinel = Sentinel::new();
        assert!(sentinel.observe(2, &fragment(0x40, false, &data[..cut]), 0x100).is_none() || cut >= 20);
        let hit = sentinel.observe(2, &fragment(0x40, true, &data[cut..]), 0x200);
        assert_eq!((sentinel.packets, sentinel.blocks, sentinel.mismatch), (2, 2, 1));
        if cut < 20 {
            let hit = hit.unwrap();
            assert_eq!(hit.tail_index, 7);
            assert_eq!(hit.bulk, 0x77);
            assert_eq!(hit.got_tail, [0, 1, 2, 3, 4, 5, 6, 0x77]);
            assert_eq!(hit.cross_boundary, cut > 4);
            assert_eq!(hit.acl_offset, if cut > 4 { 0 } else { 4 - cut });
            // The wrong byte is the last one of the block, in the second fragment.
            assert_eq!(hit.ring_offset, 0x204 + (19 - cut as u32));
        } else {
            assert!(hit.is_none());
        }
    }
}

#[test]
fn fragments_of_other_connections_are_kept_apart() {
    let block = b"R4D_PING\x00\x01\x02\x03\x04\x05\x06\x07";
    let mut sentinel = Sentinel::new();
    sentinel.observe(2, &fragment(0x40, false, &block[..9]), 0);
    sentinel.observe(2, &fragment(0x41, true, &block[9..]), 0);
    assert_eq!(sentinel.blocks, 0);
    sentinel.observe(2, &fragment(0x40, false, &block[..9]), 0);
    sentinel.observe(2, &fragment(0x40, false, &block[9..]), 0);
    assert_eq!(sentinel.blocks, 0);
    sentinel.observe(2, &fragment(0x40, false, &block[..9]), 0);
    sentinel.observe(4, &[1, 2, 3, 4], 0);
    assert!(!sentinel.carry_active);
    sentinel.observe(2, &fragment(0x40, true, &block[9..]), 0);
    assert_eq!(sentinel.blocks, 0);
    assert_eq!(sentinel.packets, 7);
}

#[test]
fn meta_of_received_packets() {
    assert_eq!(
        probe_rx_packet_meta(4, &[0x40, 0x20, 0, 0]),
        PacketMeta { acl_handle: 0xffff, acl_pb: 0xff, l2cap_cid: 0xffff, repro_seq: u32::MAX }
    );
    assert_eq!(
        probe_rx_packet_meta(2, &[0x40, 0x20, 0, 0]),
        PacketMeta { acl_handle: 0x40, acl_pb: 2, l2cap_cid: 0xffff, repro_seq: u32::MAX }
    );
    assert_eq!(
        probe_rx_packet_meta(2, &acl_with_test_packet(0x1234)),
        PacketMeta { acl_handle: 0x40, acl_pb: 2, l2cap_cid: 0x41, repro_seq: 0x1234 }
    );
    let mut other = acl_with_test_packet(0x1234);
    other[10] = 0;
    assert_eq!(probe_rx_packet_meta(2, &other).repro_seq, u32::MAX);
    assert_eq!(probe_rx_packet_meta(2, &other).l2cap_cid, 0x41);
}

#[test]
fn register_changes() {
    assert_eq!(HostCtrlChange::SetReady.apply(0), 0x0100_0000);
    assert_eq!(HostCtrlChange::SetAwake(true).apply(0x0100_0000), 0x0102_0000);
    assert_eq!(HostCtrlChange::SetAwake(false).apply(0x0102_0002), 0x0100_0002);
    assert_eq!(HostCtrlChange::ToggleIntr.apply(2), 0);
    assert_eq!(HostCtrlChange::ToggleIntr.apply(HostCtrlChange::ToggleIntr.apply(0x0102_0000)), 0x0102_0000);
    assert_eq!(HostCtrlChange::SetIntr.apply(HostCtrlChange::SetIntr.apply(0)), 2);
    assert!(host_ctrl_bits_allowed(0x0102_0002));
    assert!(!host_ctrl_bits_allowed(0x0000_0001));
    let mut opts = Options::none();
    assert_eq!(bt_signal_intr(&opts), HostCtrlChange::ToggleIntr);
    opts.intr_set = true;
    assert_eq!(bt_signal_intr(&opts), HostCtrlChange::SetIntr);
}

#[test]
fn register_is_taken_over() {
    let mut opts = Options::none();
    let mut ctrl = HostCtrl { cache: 5, sample_ops: 1, sample_mismatch: 2 };
    assert_eq!(ctrl.sync_from_hw(&opts, 1), None);
    assert_eq!(ctrl, HostCtrl { cache: 1, sample_ops: 1, sample_mismatch: 2 });
    opts.strict_checks = true;
    assert_eq!(ctrl.sync_from_hw(&opts, 4), Some(Fault::HostCtrlBits));
    assert_eq!(ctrl.cache, 1);
}

#[test]
fn event_packet_is_read() {
    let buf = packet_of(&[4, 0x0e, 3, 1, 2, 3]);
    let mut rx = [0xffu8; 16];
    match read(&buf, &mut rx) {
        Ok(ControllerToHostPacket::Event(event)) => {
            assert_eq!(event.data, [1, 2, 3]);
        }
        _ => panic!("not an event"),
    }
    assert_eq!(rx[..7], [4, 0x0e, 3, 1, 2, 3, 0xff]);
}

#[test]
fn acl_packet_is_read() {
    let buf = packet_of(&[2, 0x40, 0x20, 2, 0, 0xaa, 0xbb]);
    let mut rx = [0u8; 16];
    match read(&buf, &mut rx) {
        Ok(ControllerToHostPacket::Acl(acl)) => {
            assert_eq!(acl.handle().raw(), 0x40);
            assert_eq!(acl.data(), [0xaa, 0xbb]);
        }
        _ => panic!("not an ACL packet"),
    }
}

#[test]
fn sync_and_iso_packets_are_read() {
    let buf = packet_of(&[3, 0x01, 0x00, 1, 0x55]);
    let mut rx = [0u8; 16];
    assert!(matches!(read(&buf, &mut rx), Ok(ControllerToHostPacket::Sync(_))));
    let buf = packet_of(&[5, 0x01, 0x20, 4, 0, 1, 0, 0, 0]);
    let mut rx = [0u8; 16];
    assert!(matches!(read(&buf, &mut rx), Ok(ControllerToHostPacket::Iso(_))));
}

#[test]
fn bad_packets_are_refused() {
    let mut rx = [0u8; 16];
    let too_short = read(&packet_of(&[4, 0x0e, 3, 1, 2]), &mut rx).map(|_| ());
    assert_eq!(too_short, Err(Error::Io(ErrorKind::InvalidInput)));
    let unknown = read(&packet_of(&[9, 0x0e, 3, 1, 2, 3]), &mut rx).map(|_| ());
    assert_eq!(unknown, Err(Error::Io(ErrorKind::InvalidData)));
    let command = read(&packet_of(&[1, 0, 0, 0]), &mut rx).map(|_| ());
    assert_eq!(command, Err(Error::Io(ErrorKind::InvalidData)));
    let short_acl = read(&packet_of(&[2, 0x40, 0x20, 3, 0, 1, 2]), &mut rx).map(|_| ());
    assert_eq!(short_acl, Err(Error::Io(ErrorKind::InvalidInput)));
    let short_iso = read(&packet_of(&[5, 0x01, 0x20, 3, 0, 1, 0, 0]), &mut rx).map(|_| ());
    assert_eq!(short_iso, Err(Error::Io(ErrorKind::InvalidInput)));
    assert_eq!(Error::Io(ErrorKind::InvalidData).kind(), ErrorKind::InvalidData);
}

#[test]
fn parse_errors_are_mapped() {
    assert_eq!(
        finish_read(Err(HciBytesError::InvalidSize)).map(|_| ()),
        Err(Error::Io(ErrorKind::InvalidInput))
    );
    assert_eq!(
        finish_read(Err(HciBytesError::InvalidValue)).map(|_| ()),
        Err(Error::Io(ErrorKind::InvalidData))
    );
}

#[test]
fn written_packet_gets_its_length() {
    let mut opts = Options::none();
    let mut counters = DiagCounters::new();
    let mut hci = vec![2];
    hci.extend_from_slice(&acl_with_test_packet(3));
    let mut buf = packet_of(&hci);
    buf.len = 0;
    assert_eq!(cyw43_bluetooth::hci::write(&mut buf, Some(BT_HCI_MTU - hci.len()), &opts, &mut counters), Ok(None));
    assert_eq!(buf.len, hci.len());
    assert_eq!(counters.checked, 0);
    opts.tx_repro_diag = true;
    buf.buf[200] ^= 4;
    let report = cyw43_bluetooth::hci::write(&mut buf, Some(BT_HCI_MTU - hci.len()), &opts, &mut counters).unwrap();
    assert_eq!(
        report,
        Some(Report::TxDiag {
            at: DiagPoint::Driver,
            diag: DiagReport::Bad {
                seq: 3,
                offset: 189,
                got: 176 ^ 4,
                expected: 176,
                mismatches: 1,
                bad: 1,
                checked: 1,
            },
        })
    );
}

#[test]
fn packet_that_does_not_fit_is_an_error() {
    let mut counters = DiagCounters::new();
    let mut buf = packet_of(&[1, 2, 3]);
    assert_eq!(
        cyw43_bluetooth::hci::write(&mut buf, None, &Options::none(), &mut counters),
        Err(Error::Io(ErrorKind::Other))
    );
    assert_eq!(buf.len, 3);
}
