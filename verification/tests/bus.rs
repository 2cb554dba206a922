use std::collections::BTreeMap;
use std::collections::VecDeque;

use cyw43_bluetooth::action::{Action, Actions, Reply};
use cyw43_bluetooth::consts::{
    BLUETOOTH_BASE_ADDRESS, BT2WLAN_PWRUP_ADDR, BTSDIO_FWBUF_SIZE, BTSDIO_OFFSET_BT2HOST_IN,
    BTSDIO_OFFSET_BT2HOST_OUT, BTSDIO_OFFSET_HOST2BT_IN, BTSDIO_OFFSET_HOST2BT_OUT,
    BTSDIO_OFFSET_HOST_READ_BUF, BTSDIO_OFFSET_HOST_WRITE_BUF, BTSDIO_REG_BT_AWAKE_BITMASK,
    BTSDIO_REG_FW_RDY_BITMASK, BT_CTRL_REG_ADDR, BT_HCI_MTU, HOST_CTRL_REG_ADDR, I_HMB_FC_CHANGE,
    SDIOD_CORE_BASE_ADDRESS, SDIO_INT_STATUS, WLAN_RAM_BASE_REG_ADDR,
};
use cyw43_bluetooth::host_ctrl::{HostCtrl, HostCtrlChange, HostCtrlUpdate, UpdateStage};
use cyw43_bluetooth::init::InitStage;
use cyw43_bluetooth::options::Options;
use cyw43_bluetooth::packet::BtPacketBuf;
use cyw43_bluetooth::pointer::{PointerStage, PointerWrite};
use cyw43_bluetooth::poll::{Poll, PollStage};
use cyw43_bluetooth::probe::read_in_chunks;
use cyw43_bluetooth::report::{DiagPoint, DiagReport, Fault, Report, SamplePhase};
use cyw43_bluetooth::repro::repro_expected_byte;
use cyw43_bluetooth::ring::{join_blocks, ring_read, ring_write};
use cyw43_bluetooth::runner::BtRunner;
use cyw43_bluetooth::rx::RxStage;
use cyw43_bluetooth::tx::{TxCounters, TxStage};
use cyw43_bluetooth::upload::{FirmwareUpload, UploadStage};

const RAM: u32 = 0x20_0000;
const INT_STATUS: u32 = SDIOD_CORE_BASE_ADDRESS + SDIO_INT_STATUS;

/// A bus with memory behind it.
struct Bus {
    mem: BTreeMap<u32, u8>,
    /// What single-byte reads give in place of what memory holds.
    single: BTreeMap<u32, u8>,
    /// What words read as from the second read on.
    later: BTreeMap<u32, u32>,
    /// Bytes that change as soon as they have been read in a block.
    fading: BTreeMap<u32, u8>,
    /// Words that cannot be written.
    stuck: Vec<u32>,
    /// Bytes that turn into something else when they are written.
    worn: BTreeMap<u32, u8>,
    waiting: VecDeque<Vec<u8>>,
    received: Vec<Vec<u8>>,
    reports: Vec<Report>,
    writes: Vec<(u32, Vec<u8>)>,
    word_reads: Vec<u32>,
    block_reads: Vec<(u32, usize)>,
    micros: u64,
    yields: usize,
    reserved: usize,
    /// The words written, and zero for each packet handed over, in order.
    order: Vec<u32>,
    /// The words read, and zero for each report, in order.
    looks: Vec<u32>,
    /// How often a packet was dropped from the queue.
    released: usize,
}

impl Bus {
    fn new() -> Self {
        Bus {
            mem: BTreeMap::new(),
            single: BTreeMap::new(),
            later: BTreeMap::new(),
            fading: BTreeMap::new(),
            stuck: Vec::new(),
            worn: BTreeMap::new(),
            waiting: VecDeque::new(),
            received: Vec::new(),
            reports: Vec::new(),
            writes: Vec::new(),
            word_reads: Vec::new(),
            block_reads: Vec::new(),
            micros: 0,
            yields: 0,
            reserved: 0,
            order: Vec::new(),
            looks: Vec::new(),
            released: 0,
        }
    }

    fn byte(&self, addr: u32) -> u8 {
        *self.mem.get(&addr).unwrap_or(&0)
    }

    fn word(&self, addr: u32) -> u32 {
        u32::from_le_bytes([self.byte(addr), self.byte(addr + 1), self.byte(addr + 2), self.byte(addr + 3)])
    }

    fn set(&mut self, addr: u32, data: &[u8]) {
        for (i, b) in data.iter().enumerate() {
            self.mem.insert(addr + i as u32, *b);
        }
    }

    fn set_word(&mut self, addr: u32, value: u32) {
        self.set(addr, &value.to_le_bytes());
    }

    fn perform(&mut self, acts: Actions) -> Vec<Reply> {
        let mut replies = Vec::new();
        for action in acts.list {
            match action {
                Action::Read8 { addr } => {
                    let value = *self.single.get(&addr).unwrap_or(&self.byte(addr));
                    replies.push(Reply::Byte(value));
                }
                Action::Read32 { addr } => {
                    replies.push(Reply::Word(self.word(addr)));
                    self.word_reads.push(addr);
                    self.looks.push(addr);
                    if let Some(value) = self.later.remove(&addr) {
                        self.set_word(addr, value);
                    }
                }
                Action::ReadBlock { addr, len } => {
                    self.block_reads.push((addr, len));
                    let range = addr..addr + len as u32;
                    replies.push(Reply::Block(range.clone().map(|a| self.byte(a)).collect()));
                    for a in range {
                        if let Some(value) = self.fading.remove(&a) {
                            self.mem.insert(a, value);
                        }
                    }
                }
                Action::Write32 { addr, value } => {
                    self.writes.push((addr, value.to_le_bytes().to_vec()));
                    self.order.push(addr);
                    if !self.stuck.contains(&addr) {
                        self.set_word(addr, value);
                    }
                }
                Action::WriteBlock { addr, data } => {
                    self.set(addr, &data);
                    for (i, b) in self.worn.clone() {
                        if (addr..addr + data.len() as u32).contains(&i) {
                            self.mem.insert(i, b);
                        }
                    }
                    self.writes.push((addr, data));
                }
                Action::Delay { micros } => self.micros += micros,
                Action::Yield => self.yields += 1,
                Action::TakeTx => {
                    let mut packet = BtPacketBuf::new();
                    packet.store(&self.waiting[0]);
                    replies.push(Reply::Packet(packet));
                }
                Action::ReleaseTx => {
                    self.waiting.pop_front();
                    self.released += 1;
                }
                Action::ReserveRx => self.reserved += 1,
                Action::SubmitRx { data } => {
                    self.received.push(data);
                    self.order.push(0);
                }
                Action::Log { report } => {
                    self.reports.push(report);
                    self.looks.push(0);
                }
            }
        }
        replies
    }

    /// Puts a frame into the incoming ring.
    fn frame(&mut self, at: u32, packet: &[u8]) -> u32 {
        let len = packet.len() as u32 - 1;
        let mut frame = vec![len as u8, (len >> 8) as u8, (len >> 16) as u8, packet[0]];
        frame.extend_from_slice(&packet[1..]);
        while frame.len() % 4 != 0 {
            frame.push(0xee);
        }
        let base = RAM + BTSDIO_OFFSET_HOST_READ_BUF;
        for (i, b) in frame.iter().enumerate() {
            self.mem.insert(base + (at + i as u32) % BTSDIO_FWBUF_SIZE, *b);
        }
        (at + frame.len() as u32) % BTSDIO_FWBUF_SIZE
    }

    /// The packets that the Bluetooth core finds in the outgoing ring.
    fn sent(&self, from: u32) -> Vec<Vec<u8>> {
        let base = RAM + BTSDIO_OFFSET_HOST_WRITE_BUF;
        let to = self.word(RAM + BTSDIO_OFFSET_HOST2BT_IN);
        let at = |p: u32| self.byte(base + p % BTSDIO_FWBUF_SIZE);
        let mut p = from;
        let mut packets = Vec::new();
        while p != to {
            let len = at(p) as u32 | (at(p + 1) as u32) << 8 | (at(p + 2) as u32) << 16;
            let mut packet = vec![at(p + 3)];
            packet.extend((0..len).map(|i| at(p + 4 + i)));
            packets.push(packet);
            p = (p + 4 + (len + 3) / 4 * 4) % BTSDIO_FWBUF_SIZE;
        }
        packets
    }
}

fn awake_bus() -> Bus {
    let mut bus = Bus::new();
    bus.set_word(BT_CTRL_REG_ADDR, BTSDIO_REG_BT_AWAKE_BITMASK | BTSDIO_REG_FW_RDY_BITMASK);
    bus
}

fn running(opts: Options) -> BtRunner {
    let mut runner = BtRunner::new(opts);
    runner.addr = RAM;
    runner
}

fn init(runner: &mut BtRunner, bus: &mut Bus, firmware: &[u8]) -> Result<(), Fault> {
    let mut acts = Actions::new();
    let mut init = runner.init_bluetooth(firmware, &mut acts);
    loop {
        let replies = bus.perform(acts);
        match init.stage {
            InitStage::Done => return Ok(()),
            InitStage::Failed(fault) => return Err(fault),
            _ => {}
        }
        acts = Actions::new();
        runner.resume_init(&mut init, &replies, &mut acts);
    }
}

fn send(runner: &mut BtRunner, bus: &mut Bus) -> Result<(), Fault> {
    send_counting(runner, bus, &mut TxCounters::new())
}

fn send_counting(
    runner: &mut BtRunner,
    bus: &mut Bus,
    counters: &mut TxCounters,
) -> Result<(), Fault> {
    let mut acts = Actions::new();
    let mut write = runner.hci_write(counters, &mut acts);
    loop {
        let replies = bus.perform(acts);
        match write.stage {
            TxStage::Done => return Ok(()),
            TxStage::Failed(fault) => return Err(fault),
            _ => {}
        }
        acts = Actions::new();
        runner.resume_write(&mut write, counters, &replies, &mut acts);
    }
}

fn handle_irq(runner: &mut BtRunner, bus: &mut Bus) -> Result<(), Fault> {
    let mut acts = Actions::new();
    let mut irq = runner.handle_irq(&mut acts);
    loop {
        let replies = bus.perform(acts);
        match irq.stage {
            RxStage::Done => return Ok(()),
            RxStage::Failed(fault) => return Err(fault),
            _ => {}
        }
        acts = Actions::new();
        runner.resume_irq(&mut irq, &replies, &mut acts);
    }
}

/// Raises an interrupt for frames that end at `to`.
fn raise(bus: &mut Bus, to: u32) {
    bus.set_word(RAM + BTSDIO_OFFSET_BT2HOST_IN, to);
    bus.set_word(INT_STATUS, I_HMB_FC_CHANGE | 1);
}

/// An ACL packet with a test packet in it.
fn test_packet(seq: u16) -> Vec<u8> {
    let mut packet = vec![2, 0x40, 0x20];
    packet.extend_from_slice(&226u16.to_le_bytes());
    packet.extend_from_slice(&222u16.to_le_bytes());
    packet.extend_from_slice(&0x0041u16.to_le_bytes());
    packet.extend_from_slice(&220u16.to_le_bytes());
    packet.extend((0..220).map(|i| repro_expected_byte(i, seq)));
    packet
}

const IMAGE: [u8; 25] = [
    2, b'v', b'1', 0, // version and one byte more
    2, 0, 0, 4, 0x00, 0x01, // addresses from 0x1_0000 on
    3, 0x00, 0x11, 0, 0xaa, 0xbb, 0xcc, // three bytes at 0x1_0011
    4, 0x00, 0x20, 0, 1, 2, 3, 4, // a whole word at 0x1_0020
];

fn image() -> Vec<u8> {
    let mut image = IMAGE.to_vec();
    image.extend_from_slice(&[0, 0, 0, 1]);
    image
}

#[test]
fn core_is_brought_up() {
    let mut bus = awake_bus();
    let dest = BLUETOOTH_BASE_ADDRESS + 0x1_0010;
    bus.set(dest, &[0x10, 0x11, 0x12, 0x13, 0x14, 0x15, 0x16, 0x17]);
    bus.set_word(WLAN_RAM_BASE_REG_ADDR, RAM);
    bus.set_word(HOST_CTRL_REG_ADDR, 0x0002_0000);
    for offset in [
        BTSDIO_OFFSET_HOST2BT_IN,
        BTSDIO_OFFSET_HOST2BT_OUT,
        BTSDIO_OFFSET_BT2HOST_IN,
        BTSDIO_OFFSET_BT2HOST_OUT,
    ] {
        bus.set_word(RAM + offset, 0xdead_beef);
    }
    let mut runner = BtRunner::new(Options::none());
    assert_eq!(init(&mut runner, &mut bus, &image()), Ok(()));
    assert_eq!(runner.addr, RAM);
    assert_eq!(bus.writes[0], (BLUETOOTH_BASE_ADDRESS + BT2WLAN_PWRUP_ADDR, vec![3, 0, 0, 0]));
    // The record is widened with what was there.
    assert_eq!(bus.writes[1], (dest, vec![0x10, 0xaa, 0xbb, 0xcc]));
    assert_eq!(bus.writes[2], (dest + 0x10, vec![1, 2, 3, 4]));
    assert_eq!(bus.word(dest + 4), 0x1716_1514);
    for offset in [
        BTSDIO_OFFSET_HOST2BT_IN,
        BTSDIO_OFFSET_HOST2BT_OUT,
        BTSDIO_OFFSET_BT2HOST_IN,
        BTSDIO_OFFSET_BT2HOST_OUT,
    ] {
        assert_eq!(bus.word(RAM + offset), 0);
    }
    // Ready, interrupt raised, and the bit that was there kept.
    assert_eq!(bus.word(HOST_CTRL_REG_ADDR), 0x0102_0002);
    assert_eq!(runner.host_ctrl.cache, 0x0102_0002);
    assert_eq!(bus.micros, 2000);
}

#[test]
fn core_is_brought_up_under_strict_checks() {
    let mut bus = awake_bus();
    bus.set_word(WLAN_RAM_BASE_REG_ADDR, RAM);
    let mut opts = Options::none();
    opts.strict_checks = true;
    opts.host_ctrl_sample = true;
    opts.intr_set = true;
    let mut runner = BtRunner::new(opts);
    assert_eq!(init(&mut runner, &mut bus, &image()), Ok(()));
    assert_eq!(bus.word(HOST_CTRL_REG_ADDR), 0x0100_0002);
    assert_eq!(runner.host_ctrl.sample_ops, 4);
}

#[test]
fn record_over_two_words_is_widened_at_both_ends() {
    let mut bus = Bus::new();
    let dest = BLUETOOTH_BASE_ADDRESS + 0x20;
    bus.set(dest, &[1, 2, 3, 4, 5, 6, 7, 8]);
    let image = [0, 0, 4, 0x00, 0x22, 0, 0xa, 0xb, 0xc, 0xd, 0, 0, 0, 1];
    let mut acts = Actions::new();
    let mut upload = FirmwareUpload::start(&image, &mut acts);
    let replies = bus.perform(acts);
    assert_eq!(bus.word_reads, [dest, dest + 4]);
    let mut acts = Actions::new();
    upload.resume(&replies, &mut acts);
    bus.perform(acts);
    assert!(upload.stage == UploadStage::Done);
    assert_eq!(bus.writes, [(dest, vec![1, 2, 0xa, 0xb, 0xc, 0xd, 7, 8])]);
}

#[test]
fn bad_images_are_refused() {
    let stage = |image: &[u8]| FirmwareUpload::start(image, &mut Actions::new()).stage;
    assert!(stage(&[]) == UploadStage::Failed(Fault::FirmwareImage));
    assert!(stage(&[5, 1, 2]) == UploadStage::Failed(Fault::FirmwareImage));
    assert!(stage(&[0, 0, 9, 0, 0, 0, 1]) == UploadStage::Failed(Fault::FirmwareImage));
    let mut long = vec![0, 0, 255, 0x00, 0x02, 0];
    long.extend_from_slice(&[7; 255]);
    assert!(stage(&long) == UploadStage::Failed(Fault::FirmwareRecord));
    long[4] = 0x01;
    assert!(stage(&long) == UploadStage::Record);
    let far = [0, 0, 2, 0, 0, 4, 0xf0, 0x00, 1, 0, 0, 0, 1];
    assert!(stage(&far) == UploadStage::Failed(Fault::FirmwareRecord));
    let mut bus = awake_bus();
    let mut runner = BtRunner::new(Options::none());
    assert_eq!(init(&mut runner, &mut bus, &[]), Err(Fault::FirmwareImage));
}

#[test]
fn core_that_is_never_ready_times_out() {
    let mut bus = Bus::new();
    let mut runner = BtRunner::new(Options::none());
    assert_eq!(init(&mut runner, &mut bus, &image()), Err(Fault::PollTimeout));
    let polls = bus.word_reads.iter().filter(|a| **a == BT_CTRL_REG_ADDR).count();
    assert_eq!(polls, 300);
    assert_eq!(bus.micros, 2000 + 300 * 1000);
}

#[test]
fn bringing_up_ends() {
    for ready in [false, true] {
        let mut bus = Bus::new();
        bus.set_word(WLAN_RAM_BASE_REG_ADDR, RAM);
        let mut runner = BtRunner::new(Options::none());
        let firmware = image();
        let mut acts = Actions::new();
        let mut init = runner.init_bluetooth(&firmware, &mut acts);
        let mut rounds = 0;
        while !matches!(init.stage, InitStage::Done | InitStage::Failed(_)) {
            if ready {
                let bits = BTSDIO_REG_FW_RDY_BITMASK | BTSDIO_REG_BT_AWAKE_BITMASK;
                bus.set_word(BT_CTRL_REG_ADDR, bits);
            }
            let replies = bus.perform(acts);
            acts = Actions::new();
            runner.resume_init(&mut init, &replies, &mut acts);
            rounds += 1;
        }
        bus.perform(acts);
        if ready {
            // One round for each record, two waits, the base and the register.
            assert!(matches!(init.stage, InitStage::Done));
            let records = bus.writes.len() - 1 - 4 - 2;
            assert_eq!(rounds, records + 4);
            assert_eq!(bus.word(HOST_CTRL_REG_ADDR), 0x0100_0002);
            assert_eq!(runner.host_ctrl.cache, 0x0100_0002);
        } else {
            assert!(matches!(init.stage, InitStage::Failed(Fault::PollTimeout)));
            assert_eq!(rounds, bus.writes.len() - 1 + 300);
        }
    }
}

#[test]
fn waiting_ends_when_the_bit_is_set() {
    let mut bus = Bus::new();
    bus.later.insert(BT_CTRL_REG_ADDR, BTSDIO_REG_BT_AWAKE_BITMASK);
    let mut acts = Actions::new();
    let mut poll = Poll::start(BTSDIO_REG_BT_AWAKE_BITMASK, &mut acts);
    for _ in 0..2 {
        let replies = bus.perform(acts);
        acts = Actions::new();
        poll.resume(&replies, &mut acts);
    }
    assert_eq!(poll.stage, PollStage::Done);
    assert_eq!(bus.micros, 1000);
    assert_eq!(bus.word_reads.len(), 2);
}

#[test]
fn unusable_buffers_are_refused() {
    for base in [0, 0xffff_dff4] {
        let mut bus = awake_bus();
        bus.set_word(WLAN_RAM_BASE_REG_ADDR, base);
        let mut runner = BtRunner::new(Options::none());
        assert_eq!(init(&mut runner, &mut bus, &image()), Err(Fault::RamBase));
    }
    let mut bus = awake_bus();
    bus.set_word(WLAN_RAM_BASE_REG_ADDR, 0xffff_dff3);
    let mut runner = BtRunner::new(Options::none());
    assert_eq!(init(&mut runner, &mut bus, &image()), Ok(()));
}

#[test]
fn strict_checks_refuse_foreign_bits() {
    let mut bus = awake_bus();
    bus.set_word(WLAN_RAM_BASE_REG_ADDR, RAM);
    bus.set_word(HOST_CTRL_REG_ADDR, 1);
    let mut opts = Options::none();
    opts.strict_checks = true;
    let mut runner = BtRunner::new(opts);
    assert_eq!(init(&mut runner, &mut bus, &image()), Err(Fault::HostCtrlBits));
}

#[test]
fn strict_checks_compare_register_and_cache() {
    let mut bus = awake_bus();
    bus.set_word(HOST_CTRL_REG_ADDR, 0x0100_0000);
    bus.waiting.push_back(vec![1, 2, 3, 4]);
    let mut opts = Options::none();
    opts.strict_checks = true;
    let mut runner = running(opts);
    assert_eq!(send(&mut runner, &mut bus), Err(Fault::HostCtrlCache));
}

#[test]
fn core_may_sleep_again() {
    let mut bus = Bus::new();
    let mut ctrl = HostCtrl { cache: 0x0102_0002, sample_ops: 0, sample_mismatch: 0 };
    let mut acts = Actions::new();
    let update =
        HostCtrlUpdate::start(HostCtrlChange::SetAwake(false), &Options::none(), &mut ctrl, &mut acts);
    bus.perform(acts);
    assert_eq!(update.stage, UpdateStage::Done);
    assert_eq!(bus.word(HOST_CTRL_REG_ADDR), 0x0100_0002);
    assert_eq!(ctrl.cache, 0x0100_0002);
}

#[test]
fn samples_are_compared() {
    let mut bus = Bus::new();
    bus.set_word(HOST_CTRL_REG_ADDR, 5);
    let mut opts = Options::none();
    opts.host_ctrl_sample = true;
    let mut ctrl = HostCtrl { cache: 0, sample_ops: 1023, sample_mismatch: 0 };
    let mut acts = Actions::new();
    let mut update = HostCtrlUpdate::start(HostCtrlChange::SetReady, &opts, &mut ctrl, &mut acts);
    let replies = bus.perform(acts);
    let mut acts = Actions::new();
    update.resume(&opts, &mut ctrl, &replies, &mut acts);
    bus.perform(acts);
    assert_eq!(update.stage, UpdateStage::Done);
    assert_eq!(ctrl, HostCtrl { cache: 0x0100_0000, sample_ops: 1025, sample_mismatch: 1 });
    let phase = SamplePhase::Read;
    assert_eq!(
        bus.reports,
        [
            Report::HostCtrlInvalidBits { phase, op: 1024, hw: 5, cache: 0 },
            Report::HostCtrlMismatch { phase, op: 1024, hw: 5, cache: 0, mismatches: 1 },
        ]
    );
    let mut bus = Bus::new();
    let mut ctrl = HostCtrl { cache: 0, sample_ops: 65534, sample_mismatch: 3 };
    let mut acts = Actions::new();
    let mut update = HostCtrlUpdate::start(HostCtrlChange::SetIntr, &opts, &mut ctrl, &mut acts);
    let replies = bus.perform(acts);
    let mut acts = Actions::new();
    update.resume(&opts, &mut ctrl, &replies, &mut acts);
    bus.perform(acts);
    assert_eq!(bus.reports, [Report::HostCtrlSampled { samples: 64, mismatches: 3 }]);
}

#[test]
fn sample_is_reported_before_the_strict_check() {
    let mut bus = Bus::new();
    let mut opts = Options::none();
    opts.host_ctrl_sample = true;
    opts.strict_checks = true;
    let mut ctrl = HostCtrl { cache: 0, sample_ops: 65534, sample_mismatch: 3 };
    let mut acts = Actions::new();
    let mut update = HostCtrlUpdate::start(HostCtrlChange::SetIntr, &opts, &mut ctrl, &mut acts);
    let mut rounds = 0;
    while update.stage != UpdateStage::Done {
        let replies = bus.perform(acts);
        acts = Actions::new();
        update.resume(&opts, &mut ctrl, &replies, &mut acts);
        rounds += 1;
    }
    assert_eq!(rounds, 3);
    assert_eq!(bus.reports, [Report::HostCtrlSampled { samples: 64, mismatches: 3 }]);
    let register = HOST_CTRL_REG_ADDR;
    assert_eq!(bus.looks, [register, register, 0, register]);
    // A sample that differs is reported, and the check after it fails.
    let mut bus = Bus::new();
    bus.stuck.push(HOST_CTRL_REG_ADDR);
    let mut ctrl = HostCtrl { cache: 0, sample_ops: 1022, sample_mismatch: 0 };
    let mut acts = Actions::new();
    let mut update = HostCtrlUpdate::start(HostCtrlChange::SetIntr, &opts, &mut ctrl, &mut acts);
    for _ in 0..3 {
        let replies = bus.perform(acts);
        acts = Actions::new();
        update.resume(&opts, &mut ctrl, &replies, &mut acts);
    }
    assert_eq!(update.stage, UpdateStage::Failed(Fault::HostCtrlCache));
    let phase = SamplePhase::Write;
    assert_eq!(
        bus.reports,
        [Report::HostCtrlMismatch { phase, op: 1024, hw: 0, cache: 2, mismatches: 1 }]
    );
}

#[test]
fn outgoing_test_packet_is_reported_before_the_read_pointer_is_read() {
    let mut opts = Options::none();
    opts.tx_repro_diag = true;
    let mut bus = awake_bus();
    let mut runner = running(opts);
    let mut damaged = test_packet(2);
    damaged[230] ^= 0x80;
    bus.waiting.push_back(damaged);
    assert_eq!(send(&mut runner, &mut bus), Ok(()));
    assert_eq!(
        bus.looks,
        [BT_CTRL_REG_ADDR, 0, RAM + BTSDIO_OFFSET_HOST2BT_OUT, HOST_CTRL_REG_ADDR]
    );
    assert_eq!(bus.released, 1);
    // An empty packet fails before the pointer is looked at.
    let mut bus = awake_bus();
    bus.waiting.push_back(Vec::new());
    assert_eq!(send(&mut running(opts), &mut bus), Err(Fault::TxEmpty));
    assert_eq!(bus.looks, [BT_CTRL_REG_ADDR]);
}

#[test]
fn sending_ends() {
    // The core wakes up with the last look at it, the frame is read back, and the
    // write pointer never holds.
    let mut opts = Options::none();
    opts.strict_checks = true;
    opts.tx_repro_diag = true;
    opts.tx_readback_probe = true;
    opts.pointer_write_readback = true;
    for awake in [false, true] {
        let mut bus = Bus::new();
        bus.stuck.push(RAM + BTSDIO_OFFSET_HOST2BT_IN);
        bus.waiting.push_back(test_packet(1));
        let mut runner = running(opts);
        let mut counters = TxCounters::new();
        let mut acts = Actions::new();
        let mut write = runner.hci_write(&counters, &mut acts);
        let mut rounds = 0;
        while !matches!(write.stage, TxStage::Done | TxStage::Failed(_)) {
            let polls = bus.word_reads.iter().filter(|a| **a == BT_CTRL_REG_ADDR).count();
            if awake && polls == 299 {
                bus.set_word(BT_CTRL_REG_ADDR, BTSDIO_REG_BT_AWAKE_BITMASK);
            }
            let replies = bus.perform(acts);
            acts = Actions::new();
            runner.resume_write(&mut write, &mut counters, &replies, &mut acts);
            rounds += 1;
        }
        bus.perform(acts);
        if awake {
            assert!(matches!(write.stage, TxStage::Done));
            assert_eq!(rounds, 310);
            assert_eq!(bus.released, 1);
        } else {
            assert!(matches!(write.stage, TxStage::Failed(Fault::PollTimeout)));
            assert_eq!(rounds, 302);
            assert_eq!(bus.released, 0);
        }
    }
}

#[test]
fn packet_is_sent() {
    let mut bus = awake_bus();
    bus.waiting.push_back(vec![1, 0x03, 0x0c, 0x00]);
    bus.waiting.push_back(vec![2, 9]);
    let mut runner = running(Options::none());
    assert_eq!(send(&mut runner, &mut bus), Ok(()));
    let base = RAM + BTSDIO_OFFSET_HOST_WRITE_BUF;
    assert_eq!(bus.word(HOST_CTRL_REG_ADDR), 0x0002_0002);
    assert_eq!(
        bus.writes,
        [
            (HOST_CTRL_REG_ADDR, vec![0, 0, 2, 0]),
            (base, vec![3, 0, 0, 1]),
            (base + 4, vec![0x03, 0x0c, 0x00, 0]),
            (RAM + BTSDIO_OFFSET_HOST2BT_IN, vec![8, 0, 0, 0]),
            (HOST_CTRL_REG_ADDR, vec![2, 0, 2, 0]),
        ]
    );
    assert_eq!(bus.waiting, [vec![2, 9]]);
    assert_eq!(send(&mut runner, &mut bus), Ok(()));
    assert_eq!(bus.sent(0), [vec![1, 0x03, 0x0c, 0x00], vec![2, 9]]);
    assert!(bus.waiting.is_empty());
}

#[test]
fn interrupt_after_sending_goes_past_the_cache() {
    let mut bus = awake_bus();
    let mut opts = Options::none();
    opts.strict_checks = true;
    let mut runner = running(opts);
    bus.waiting.push_back(vec![1, 2, 3]);
    bus.waiting.push_back(vec![1, 2, 3]);
    assert_eq!(send(&mut runner, &mut bus), Ok(()));
    assert_eq!(bus.word(HOST_CTRL_REG_ADDR), 0x0002_0002);
    assert_eq!(runner.host_ctrl.cache, 0x0002_0000);
    // So a strict check of the register finds it changed.
    assert_eq!(send(&mut runner, &mut bus), Err(Fault::HostCtrlCache));
}

#[test]
fn packets_wrap_around_the_ring() {
    let mut bus = awake_bus();
    let mut opts = Options::none();
    opts.strict_checks = true;
    opts.pointer_stable_read = true;
    opts.pointer_write_readback = true;
    opts.tx_publish_delay = true;
    opts.tx_intr_delay = true;
    let mut runner = running(opts);
    runner.h2b_write_pointer = 0xff0;
    bus.set_word(RAM + BTSDIO_OFFSET_HOST2BT_OUT, 0xff0);
    let packet: Vec<u8> = (0..100).collect();
    bus.waiting.push_back(packet.clone());
    assert_eq!(send(&mut runner, &mut bus), Ok(()));
    assert_eq!(runner.h2b_write_pointer, 0xff0 + 104 - 0x1000);
    assert_eq!(bus.sent(0xff0), [packet]);
    assert_eq!(bus.micros, 20);
    assert!(bus.reports.is_empty());
}

#[test]
fn packet_without_room_stays() {
    let mut bus = awake_bus();
    let mut runner = running(Options::none());
    runner.h2b_write_pointer = 0x40;
    bus.set_word(RAM + BTSDIO_OFFSET_HOST2BT_OUT, 0x50);
    bus.set_word(RAM + BTSDIO_OFFSET_HOST2BT_IN, 0x40);
    bus.waiting.push_back(vec![1, 2, 3, 4, 5, 6, 7, 8, 9, 10]);
    assert_eq!(send(&mut runner, &mut bus), Ok(()));
    assert_eq!(bus.reports, [Report::TxQueueFull { len: 16, available: 12 }]);
    assert_eq!(bus.yields, 1);
    assert_eq!(bus.waiting.len(), 1);
    assert_eq!(runner.h2b_write_pointer, 0x40);
    assert_eq!(bus.word(RAM + BTSDIO_OFFSET_HOST2BT_IN), 0x40);
    // One word less, and there is room.
    bus.waiting[0].truncate(9);
    assert_eq!(send(&mut runner, &mut bus), Ok(()));
    assert_eq!(bus.sent(0x40), [vec![1, 2, 3, 4, 5, 6, 7, 8, 9]]);
    assert_eq!(runner.h2b_write_pointer, 0x4c);
}

#[test]
fn unsendable_packets_are_faults() {
    let mut bus = awake_bus();
    bus.waiting.push_back(vec![]);
    assert_eq!(send(&mut running(Options::none()), &mut bus), Err(Fault::TxEmpty));
    let mut bus = awake_bus();
    bus.waiting.push_back(vec![2; BT_HCI_MTU]);
    assert_eq!(send(&mut running(Options::none()), &mut bus), Err(Fault::TxTooLong));
    let mut bus = awake_bus();
    bus.waiting.push_back(vec![2; BT_HCI_MTU - 3]);
    assert_eq!(send(&mut running(Options::none()), &mut bus), Ok(()));
    let mut bus = Bus::new();
    bus.waiting.push_back(vec![2; 4]);
    assert_eq!(send(&mut running(Options::none()), &mut bus), Err(Fault::PollTimeout));
}

#[test]
fn strict_checks_refuse_bad_pointers() {
    let mut opts = Options::none();
    opts.strict_checks = true;
    for pointer in [0x1000, 2] {
        let mut bus = awake_bus();
        bus.waiting.push_back(vec![2; 4]);
        bus.set_word(RAM + BTSDIO_OFFSET_HOST2BT_OUT, pointer);
        assert_eq!(send(&mut running(opts), &mut bus), Err(Fault::RingPointer));
        let mut bus = awake_bus();
        raise(&mut bus, pointer);
        assert_eq!(handle_irq(&mut running(opts), &mut bus), Err(Fault::RingPointer));
    }
}

#[test]
fn test_packets_are_inspected_and_read_back() {
    let mut opts = Options::none();
    opts.tx_repro_diag = true;
    opts.tx_readback_probe = true;
    let mut bus = awake_bus();
    let mut runner = running(opts);
    let mut counters = TxCounters::new();
    bus.waiting.push_back(test_packet(1));
    assert_eq!(send_counting(&mut runner, &mut bus, &mut counters), Ok(()));
    assert!(bus.reports.is_empty());
    assert_eq!(counters.diag.checked, 1);
    assert_eq!(counters.readback.checked, 1);
    assert_eq!(bus.sent(0), [test_packet(1)]);
    let mut damaged = test_packet(2);
    damaged[230] ^= 0x80;
    bus.waiting.push_back(damaged);
    assert_eq!(send_counting(&mut runner, &mut bus, &mut counters), Ok(()));
    assert_eq!(
        bus.reports,
        [Report::TxDiag {
            at: DiagPoint::Runner,
            diag: DiagReport::Bad {
                seq: 2,
                offset: 219,
                got: 205 ^ 0x80,
                expected: 205,
                mismatches: 1,
                bad: 1,
                checked: 2,
            },
        }]
    );
    assert_eq!(counters.readback.bad, 0);
    // The counts run on over another transport.
    let mut other = running(opts);
    let mut bus = awake_bus();
    bus.waiting.push_back(test_packet(3));
    assert_eq!(send_counting(&mut other, &mut bus, &mut counters), Ok(()));
    assert_eq!((counters.diag.checked, counters.diag.bad), (3, 1));
    assert_eq!(counters.readback.checked, 3);
}

#[test]
fn frames_that_read_back_differently_are_reported() {
    let mut opts = Options::none();
    opts.tx_repro_diag = true;
    opts.tx_readback_probe = true;
    let mut bus = awake_bus();
    let mut runner = running(opts);
    let mut counters = TxCounters::new();
    runner.h2b_write_pointer = 0xff8;
    bus.set_word(RAM + BTSDIO_OFFSET_HOST2BT_OUT, 0xff8);
    counters.readback.checked = 1022;
    bus.waiting.push_back(test_packet(6));
    let base = RAM + BTSDIO_OFFSET_HOST_WRITE_BUF;
    // The byte at 12 of the frame, behind the end of the ring.
    bus.worn.insert(base + 4, 0);
    assert_eq!(send_counting(&mut runner, &mut bus, &mut counters), Ok(()));
    let bad = Report::TxReadbackBad {
        seq: 6,
        offset: 12,
        payload_offset: 8,
        in_header: false,
        got: 0,
        expected: test_packet(6)[9],
        mismatched: 1,
        bad: 1,
        checked: 1023,
    };
    assert_eq!(bus.reports, [bad]);
    assert_eq!(bus.block_reads, [(base + 0xff8, 8), (base, 228)]);
    bus.worn.clear();
    bus.reports.clear();
    bus.waiting.push_back(test_packet(7));
    assert_eq!(send_counting(&mut runner, &mut bus, &mut counters), Ok(()));
    assert_eq!(bus.reports, [Report::TxReadbackSummary { checked: 1024, bad: 1 }]);
}

#[test]
fn ring_pointers_that_do_not_hold_are_reported() {
    let mut bus = Bus::new();
    let mut opts = Options::none();
    opts.pointer_write_readback = true;
    bus.stuck.push(RAM + BTSDIO_OFFSET_BT2HOST_OUT);
    let mut acts = Actions::new();
    let mut write = PointerWrite::start(&opts, RAM, BTSDIO_OFFSET_BT2HOST_OUT, 8, &mut acts);
    let mut rounds = 0;
    let mut replies = bus.perform(acts);
    while write.stage != PointerStage::Done {
        let mut acts = Actions::new();
        write.resume(&opts, &replies, &mut acts);
        replies = bus.perform(acts);
        rounds += 1;
    }
    assert_eq!(rounds, 4);
    assert_eq!(bus.micros, 20);
    assert_eq!(
        bus.reports,
        [Report::PointerNotWritten { pointer: BTSDIO_OFFSET_BT2HOST_OUT, value: 8 }]
    );
}

#[test]
fn unstable_pointer_is_reported() {
    let mut bus = Bus::new();
    let mut opts = Options::none();
    opts.pointer_stable_read = true;
    let to = bus.frame(0, &[4, 1, 2, 3]);
    raise(&mut bus, 0);
    bus.later.insert(RAM + BTSDIO_OFFSET_BT2HOST_IN, to);
    let mut runner = running(opts);
    assert_eq!(handle_irq(&mut runner, &mut bus), Ok(()));
    assert_eq!(
        bus.reports,
        [Report::PointerUnstable { pointer: BTSDIO_OFFSET_BT2HOST_IN, first: 0, second: to }]
    );
    assert_eq!(bus.received, [vec![4, 1, 2, 3]]);
}

#[test]
fn packets_are_received_in_order() {
    let packets = [vec![4, 0x0e, 1, 7], vec![2, 1, 2, 3, 4], vec![4], vec![4, 5, 6]];
    for probes in [false, true] {
        let mut opts = Options::none();
        if probes {
            opts.strict_checks = true;
            opts.pointer_stable_read = true;
            opts.pointer_write_readback = true;
            opts.rx_out_delay = true;
            opts.rx_intr_delay = true;
            opts.rx_readback_probe = true;
            opts.rx_sentinel_probe = true;
            opts.rx_byte_probe = true;
            opts.intr_set = true;
        }
        let mut bus = Bus::new();
        let mut runner = running(opts);
        runner.rx.readback.packets = 30;
        runner.rx.bytes.packets = 62;
        runner.rx.b2h_read_pointer = 0xff0;
        let mut to = 0xff0;
        let mut ends = Vec::new();
        for packet in &packets {
            to = bus.frame(to, packet);
            ends.push((RAM + BTSDIO_OFFSET_BT2HOST_OUT, to.to_le_bytes().to_vec()));
        }
        raise(&mut bus, to);
        assert_eq!(handle_irq(&mut runner, &mut bus), Ok(()));
        assert_eq!(bus.received, packets);
        assert_eq!(bus.reserved, 4);
        assert_eq!(runner.rx.b2h_read_pointer, to);
        assert_eq!(bus.word(RAM + BTSDIO_OFFSET_BT2HOST_OUT), to);
        assert!(bus.reports.is_empty());
        assert_eq!(bus.writes[0], (INT_STATUS, I_HMB_FC_CHANGE.to_le_bytes().to_vec()));
        // Each packet is acknowledged, and the interrupt is raised for each.
        let out = |w: &&(u32, Vec<u8>)| w.0 == RAM + BTSDIO_OFFSET_BT2HOST_OUT;
        assert_eq!(bus.writes.iter().filter(out).cloned().collect::<Vec<_>>(), ends);
        assert_eq!(bus.word(HOST_CTRL_REG_ADDR), runner.host_ctrl.cache);
        let raised = bus.writes.iter().filter(|w| w.0 == HOST_CTRL_REG_ADDR).count();
        assert_eq!(raised, 4);
        assert_eq!(bus.word(HOST_CTRL_REG_ADDR), if probes { 2 } else { 0 });
        assert_eq!(bus.micros, if probes { 80 } else { 0 });
        // The incoming ring itself is never written.
        let base = RAM + BTSDIO_OFFSET_HOST_READ_BUF;
        assert!(bus.writes.iter().all(|w| w.0 < base || w.0 >= base + BTSDIO_FWBUF_SIZE));
    }
}

#[test]
fn each_packet_is_acknowledged_handed_over_and_answered() {
    for probes in [false, true] {
        for k in 0..6usize {
            let mut opts = Options::none();
            if probes {
                opts.strict_checks = true;
                opts.pointer_write_readback = true;
                opts.rx_readback_probe = true;
                opts.rx_sentinel_probe = true;
                opts.rx_byte_probe = true;
            }
            let mut bus = Bus::new();
            let mut runner = running(opts);
            runner.rx.readback.packets = 31;
            runner.rx.bytes.packets = 63;
            runner.rx.b2h_read_pointer = 0xfe0;
            let mut to = 0xfe0;
            for i in 0..k {
                to = bus.frame(to, &vec![4; 11 + i]);
            }
            raise(&mut bus, to);
            let mut acts = Actions::new();
            let mut irq = runner.handle_irq(&mut acts);
            let mut rounds = 0;
            while !matches!(irq.stage, RxStage::Done) {
                assert!(!matches!(irq.stage, RxStage::Failed(_)));
                let replies = bus.perform(acts);
                acts = Actions::new();
                runner.resume_irq(&mut irq, &replies, &mut acts);
                rounds += 1;
            }
            assert!(rounds <= 15 * k + 3);
            assert_eq!(runner.rx.b2h_read_pointer, bus.word(RAM + BTSDIO_OFFSET_BT2HOST_IN));
            assert_eq!(runner.host_ctrl.cache, if k % 2 == 1 { 2 } else { 0 });
            let mut order = vec![INT_STATUS];
            for _ in 0..k {
                order.extend([RAM + BTSDIO_OFFSET_BT2HOST_OUT, 0, HOST_CTRL_REG_ADDR]);
            }
            assert_eq!(bus.order, order);
            assert_eq!(bus.writes[0].1, I_HMB_FC_CHANGE.to_le_bytes());
        }
    }
}

#[test]
fn packets_that_arrive_meanwhile_are_answered_too() {
    for set in [false, true] {
        let mut opts = Options::none();
        opts.intr_set = set;
        let mut bus = Bus::new();
        let mut runner = running(opts);
        let packets = [vec![4, 1, 2], vec![2, 3, 4, 5, 6, 7], vec![4, 8, 9]];
        let first = bus.frame(0, &packets[0]);
        let second = bus.frame(first, &packets[1]);
        let third = bus.frame(second, &packets[2]);
        raise(&mut bus, first);
        bus.later.insert(RAM + BTSDIO_OFFSET_BT2HOST_IN, third);
        assert_eq!(handle_irq(&mut runner, &mut bus), Ok(()));
        assert_eq!(bus.received, packets);
        assert_eq!(runner.rx.b2h_read_pointer, third);
        assert_eq!(bus.word(RAM + BTSDIO_OFFSET_BT2HOST_OUT), third);
        assert_eq!(runner.host_ctrl.cache, 2);
        let mut order = vec![INT_STATUS];
        for _ in 0..3 {
            order.extend([RAM + BTSDIO_OFFSET_BT2HOST_OUT, 0, HOST_CTRL_REG_ADDR]);
        }
        assert_eq!(bus.order, order);
    }
}

#[test]
fn one_packet_in_so_many_is_probed() {
    let mut opts = Options::none();
    opts.rx_readback_probe = true;
    opts.rx_byte_probe = true;
    let mut bus = Bus::new();
    let mut runner = running(opts);
    let mut to = 0;
    for n in 1..=200u32 {
        // The packet that is probed first is too short for the second byte.
        let len = if n == 64 { 6 } else { 12 };
        to = bus.frame(to, &vec![4; len]);
        raise(&mut bus, to);
        assert_eq!(handle_irq(&mut runner, &mut bus), Ok(()));
        assert_eq!(runner.rx.readback.packets, n);
        assert_eq!(runner.rx.readback.sampled, n / 32);
        assert_eq!(runner.rx.readback.mismatch_packets, 0);
        assert_eq!(runner.rx.bytes.packets, n);
        assert_eq!(runner.rx.bytes.checked_o4, n / 64);
        assert_eq!(runner.rx.bytes.checked_o9, (n / 64).saturating_sub(1));
        assert_eq!(runner.rx.bytes.mismatch_o4, 0);
        assert_eq!(runner.rx.bytes.mismatch_o9, 0);
    }
    assert_eq!(bus.received.len(), 200);
}

#[test]
fn without_interrupt_nothing_happens() {
    let mut bus = Bus::new();
    let to = bus.frame(0, &[4, 1, 2]);
    raise(&mut bus, to);
    bus.set_word(INT_STATUS, !I_HMB_FC_CHANGE);
    let mut runner = running(Options::none());
    assert_eq!(handle_irq(&mut runner, &mut bus), Ok(()));
    assert!(bus.received.is_empty());
    assert!(bus.writes.is_empty());
    assert_eq!(bus.word_reads, [INT_STATUS]);
}

#[test]
fn incomplete_packet_stays() {
    let mut bus = Bus::new();
    let to = bus.frame(0, &[4, 1, 2, 3, 4, 5]);
    raise(&mut bus, to - 4);
    let mut runner = running(Options::none());
    assert_eq!(handle_irq(&mut runner, &mut bus), Ok(()));
    assert_eq!(bus.reports, [Report::RxIncomplete]);
    assert!(bus.received.is_empty());
    assert_eq!(runner.rx.b2h_read_pointer, 0);
    raise(&mut bus, to);
    assert_eq!(handle_irq(&mut runner, &mut bus), Ok(()));
    assert_eq!(bus.received, [vec![4, 1, 2, 3, 4, 5]]);
}

#[test]
fn packet_that_does_not_fit_is_a_fault() {
    let mut bus = Bus::new();
    let to = bus.frame(0, &[2; 1022]);
    raise(&mut bus, to);
    assert_eq!(handle_irq(&mut running(Options::none()), &mut bus), Err(Fault::RxTooLong));
    assert_eq!(bus.reserved, 1);
    let mut bus = Bus::new();
    let to = bus.frame(0, &[2; 1021]);
    raise(&mut bus, to);
    assert_eq!(handle_irq(&mut running(Options::none()), &mut bus), Ok(()));
    assert_eq!(bus.received, [vec![2; 1021]]);
}

#[test]
fn packet_that_reads_differently_is_reported() {
    let mut opts = Options::none();
    opts.rx_readback_probe = true;
    let mut bus = Bus::new();
    let mut runner = running(opts);
    runner.rx.readback.packets = 2047;
    runner.rx.b2h_read_pointer = 0xf80;
    let packet = test_packet(77);
    let to = bus.frame(0xf80, &packet);
    raise(&mut bus, to);
    // The byte at 130 of the packet lies behind the end of the ring.
    let base = RAM + BTSDIO_OFFSET_HOST_READ_BUF;
    let at = base + 0xf84 + 130 - 0x1000;
    bus.fading.insert(at, 0x99);
    bus.single.insert(at, 0x55);
    assert_eq!(handle_irq(&mut runner, &mut bus), Ok(()));
    assert_eq!(bus.received, [packet.clone()]);
    assert_eq!(
        bus.reports,
        [
            Report::RxReadbackBad {
                hci_type: 2,
                acl_handle: 0x40,
                acl_pb: 2,
                l2cap_cid: 0x41,
                repro_seq: 77,
                len: 230,
                rounded_len: 232,
                offset: 130,
                ring_offset: 6,
                got: 0x99,
                expected: packet[131],
                single: 0x55,
                mismatched: 1,
                bad: 1,
                sampled: 1,
            },
            Report::RxReadbackSummary { packets: 2048, sampled: 1, bad: 1, bad_bytes: 1 },
        ]
    );
    // The packet was read in two pieces, and then again in pieces of at most 64.
    assert_eq!(
        bus.block_reads,
        [
            (base + 0xf80, 4),
            (base + 0xf84, 124),
            (base, 108),
            (base + 0xf84, 64),
            (base + 0xfc4, 60),
            (base, 64),
            (base + 64, 44),
        ]
    );
}

#[test]
fn damaged_sentinel_block_is_reported() {
    let mut opts = Options::none();
    opts.rx_sentinel_probe = true;
    let mut bus = Bus::new();
    let mut runner = running(opts);
    runner.rx.sentinel.packets = 2046;
    let mut first = vec![2, 0x40, 0x20, 12, 0];
    first.extend_from_slice(b"R4D_PING");
    first.extend_from_slice(&[0, 1, 2, 3]);
    let second = vec![2, 0x40, 0x10, 5, 0, 4, 0xbb, 6, 7, 0];
    let middle = bus.frame(0, &first);
    let to = bus.frame(middle, &second);
    raise(&mut bus, to);
    let ring_offset = middle + 4 + 4 + 1;
    bus.single.insert(RAM + BTSDIO_OFFSET_HOST_READ_BUF + ring_offset, 5);
    assert_eq!(handle_irq(&mut runner, &mut bus), Ok(()));
    assert_eq!(bus.received, [first, second]);
    assert_eq!(
        bus.reports,
        [
            Report::SentinelBad {
                acl_offset: 0,
                cross_boundary: true,
                tail_index: 5,
                bulk: 0xbb,
                single: 5,
                ring_offset,
                got_tail: [0, 1, 2, 3, 4, 0xbb, 6, 7],
            },
            Report::SentinelSummary { packets: 2048, blocks: 1, mismatches: 1 },
        ]
    );
}

#[test]
fn bytes_that_read_differently_are_reported() {
    let mut opts = Options::none();
    opts.rx_byte_probe = true;
    let mut bus = Bus::new();
    let mut runner = running(opts);
    runner.rx.bytes.packets = 2047;
    let packet = vec![4, 10, 11, 12, 13, 14, 15, 16, 17, 18, 19];
    let to = bus.frame(0, &packet);
    raise(&mut bus, to);
    bus.single.insert(RAM + BTSDIO_OFFSET_HOST_READ_BUF + 4 + 9, 0);
    assert_eq!(handle_irq(&mut runner, &mut bus), Ok(()));
    assert_eq!(bus.received, [packet]);
    assert_eq!(
        bus.reports,
        [
            Report::ByteProbeBad { probe_offset: 9, bulk: 19, single: 0, ring_offset: 13 },
            Report::ByteProbeSummary {
                packets: 2048,
                checked_o4: 1,
                mismatch_o4: 0,
                checked_o9: 1,
                mismatch_o9: 1,
            },
        ]
    );
    // A short packet has no such bytes.
    let mut bus = Bus::new();
    let mut runner = running(opts);
    runner.rx.bytes.packets = 63;
    let to = bus.frame(0, &[4, 1, 2, 3, 4]);
    raise(&mut bus, to);
    assert_eq!(handle_irq(&mut runner, &mut bus), Ok(()));
    assert_eq!(runner.rx.bytes.checked_o4, 0);
}

#[test]
fn ring_gives_back_what_was_put_in() {
    let data: Vec<u8> = (0..200u32).map(|i| (i * 7) as u8).collect();
    for p in [0, 0x800, 0xf80, 0xffc] {
        let mut bus = Bus::new();
        let mut acts = Actions::new();
        ring_write(&mut acts, RAM, p, &data);
        bus.perform(acts);
        let mut acts = Actions::new();
        ring_read(&mut acts, RAM, p, data.len());
        let replies = bus.perform(acts);
        assert_eq!(join_blocks(&replies, replies.len()), data);
        let mut acts = Actions::new();
        read_in_chunks(&mut acts, RAM, p, data.len());
        let replies = bus.perform(acts);
        assert_eq!(join_blocks(&replies, replies.len()), data);
        assert!(bus.mem.keys().all(|a| (RAM..RAM + BTSDIO_FWBUF_SIZE).contains(a)));
    }
}

#[test]
fn sent_frames_can_be_received() {
    // What one side puts into its outgoing ring, the other finds in its incoming one.
    let packets: Vec<Vec<u8>> = (1..9u8).map(|n| (0..17 * n).map(|i| i ^ n).collect()).collect();
    let mut bus = awake_bus();
    let mut runner = running(Options::none());
    for packet in &packets {
        bus.waiting.push_back(packet.clone());
        assert_eq!(send(&mut runner, &mut bus), Ok(()));
    }
    let mut other = Bus::new();
    for i in 0..BTSDIO_FWBUF_SIZE {
        let b = bus.byte(RAM + BTSDIO_OFFSET_HOST_WRITE_BUF + i);
        other.set(RAM + BTSDIO_OFFSET_HOST_READ_BUF + i, &[b]);
    }
    raise(&mut other, bus.word(RAM + BTSDIO_OFFSET_HOST2BT_IN));
    assert_eq!(handle_irq(&mut running(Options::none()), &mut other), Ok(()));
    assert_eq!(other.received, packets);
}
