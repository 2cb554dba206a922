//! The transport as a whole: what is kept between its operations, and the
//! operations on it.

use vstd::prelude::*;

use crate::action::{answered, asks, Actions, Ask, Reply};
use crate::consts::MAX_RAM_BASE;
use crate::host_ctrl::HostCtrl;
use crate::init::{init_begin, init_next, init_took, InitBluetooth};
use crate::options::Options;
use crate::probe::{ByteProbe, RxReadback};
use crate::ring::ring_pointer;
use crate::rx::{rx_begin, rx_next, rx_wf, settled, took, HandleIrq, RxState};
use crate::sentinel::{Sentinel, SentinelView};
use crate::tx::{tx_begin, tx_next, HciWrite, TxCounters, TxState};

verus! {

/// What the transport keeps between its operations.
pub struct BtRunner {
    /// The choices it was set up with.
    pub opts: Options,
    /// Where the shared buffers start.
    pub addr: u32,
    /// The host control register.
    pub host_ctrl: HostCtrl,
    /// Where in the outgoing ring the next frame goes.
    pub h2b_write_pointer: u32,
    /// Receiving packets.
    pub rx: RxState,
}

impl BtRunner {
    /// The shared buffers and the positions in the rings are where they can be.
    pub open spec fn wf(self) -> bool {
        &&& self.addr <= MAX_RAM_BASE
        &&& ring_pointer(self.h2b_write_pointer)
        &&& rx_wf(self.addr, self.rx@)
    }

    /// What sending packets keeps, with the test packets counted so far.
    pub open spec fn tx(self, counters: TxCounters) -> TxState {
        TxState {
            h2b_write_pointer: self.h2b_write_pointer,
            diag: counters.diag,
            readback: counters.readback,
        }
    }

    /// A transport that has done nothing yet.
    pub fn new(opts: Options) -> (runner: Self)
        ensures
            runner.wf(),
            runner.opts == opts,
            runner.addr == 0,
            runner.host_ctrl == (HostCtrl { cache: 0, sample_ops: 0, sample_mismatch: 0 }),
            runner.h2b_write_pointer == 0,
            runner.rx.b2h_read_pointer == 0,
            runner.rx.readback == (RxReadback {
                packets: 0,
                sampled: 0,
                mismatch_packets: 0,
                mismatch_bytes: 0,
            }),
            runner.rx.sentinel@ == (SentinelView {
                packets: 0,
                blocks: 0,
                mismatch: 0,
                carry: seq![],
                ring_off: seq![],
                handle: 0,
                active: false,
            }),
            runner.rx.bytes == (ByteProbe {
                packets: 0,
                checked_o4: 0,
                mismatch_o4: 0,
                checked_o9: 0,
                mismatch_o9: 0,
            }),
    {
        BtRunner {
            opts,
            addr: 0,
            host_ctrl: HostCtrl { cache: 0, sample_ops: 0, sample_mismatch: 0 },
            h2b_write_pointer: 0,
            rx: RxState {
                b2h_read_pointer: 0,
                readback: RxReadback::new(),
                sentinel: Sentinel::new(),
                bytes: ByteProbe::new(),
            },
        }
    }

    /// Starts to bring the Bluetooth core up.
    pub fn init_bluetooth<'a>(
        &self,
        firmware: &'a [u8],
        acts: &mut Actions,
    ) -> (init: InitBluetooth<'a>)
        ensures
            init_took(
                self.opts,
                init_begin(self.addr, self.host_ctrl, firmware@),
                self.addr,
                self.host_ctrl,
                init.stage@,
                old(acts)@,
                final(acts)@,
            ),
    {
        InitBluetooth::start(&self.opts, self.addr, &self.host_ctrl, firmware, acts)
    }

    /// Goes on bringing the Bluetooth core up.
    pub fn resume_init(
        &mut self,
        init: &mut InitBluetooth<'_>,
        replies: &Vec<Reply>,
        acts: &mut Actions,
    )
        requires
            old(self).wf(),
            old(init).wf(old(self).opts),
            old(init).running(),
            answered(old(init).awaited(old(self).opts), replies@),
        ensures
            init_took(
                old(self).opts,
                init_next(
                    old(self).opts,
                    old(self).addr,
                    old(self).host_ctrl,
                    old(init).stage@,
                    replies@,
                ),
                final(self).addr,
                final(self).host_ctrl,
                final(init).stage@,
                old(acts)@,
                final(acts)@,
            ),
            final(self).opts == old(self).opts,
            final(self).h2b_write_pointer == old(self).h2b_write_pointer,
            final(self).rx == old(self).rx,
            final(self).wf(),
    {
        init.resume(&self.opts, &mut self.addr, &mut self.host_ctrl, replies, acts);
    }

    /// Starts to send the oldest packet that waits to be sent.
    pub fn hci_write(&mut self, counters: &TxCounters, acts: &mut Actions) -> (write: HciWrite)
        ensures
            ({
                let step = tx_begin(old(self).opts, old(self).tx(*counters), old(self).host_ctrl);
                &&& write.stage == step.stage
                &&& *final(self) == (BtRunner { host_ctrl: step.ctrl, ..*old(self) })
                &&& final(acts)@ == old(acts)@ + step.acts
            }),
            write.wf(old(self).opts),
            asks(final(acts)@) == asks(old(acts)@) + write.awaited(old(self).opts),
            old(self).wf() ==> final(self).wf(),
    {
        let tx: TxState = TxState {
            h2b_write_pointer: self.h2b_write_pointer,
            diag: counters.diag,
            readback: counters.readback,
        };
        HciWrite::start(&self.opts, &tx, &mut self.host_ctrl, acts)
    }

    /// Goes on sending a packet.
    pub fn resume_write(
        &mut self,
        write: &mut HciWrite,
        counters: &mut TxCounters,
        replies: &Vec<Reply>,
        acts: &mut Actions,
    )
        requires
            old(self).wf(),
            old(write).wf(old(self).opts),
            old(write).running(),
            answered(old(write).awaited(old(self).opts), replies@),
        ensures
            ({
                let step = tx_next(
                    old(self).opts,
                    old(self).addr,
                    old(self).tx(*old(counters)),
                    old(self).host_ctrl,
                    old(write).stage,
                    replies@,
                );
                &&& final(write).stage == step.stage
                &&& *final(self) == (BtRunner {
                    host_ctrl: step.ctrl,
                    h2b_write_pointer: step.tx.h2b_write_pointer,
                    ..*old(self)
                })
                &&& final(counters).diag == step.tx.diag
                &&& final(counters).readback == step.tx.readback
                &&& final(acts)@ == old(acts)@ + step.acts
            }),
            final(self).wf(),
            final(write).wf(old(self).opts),
            asks(final(acts)@) == asks(old(acts)@) + final(write).awaited(old(self).opts),
    {
        let mut tx: TxState = TxState {
            h2b_write_pointer: self.h2b_write_pointer,
            diag: counters.diag,
            readback: counters.readback,
        };
        write.resume(&self.opts, self.addr, &mut tx, &mut self.host_ctrl, replies, acts);
        self.h2b_write_pointer = tx.h2b_write_pointer;
        counters.diag = tx.diag;
        counters.readback = tx.readback;
    }

    /// Starts to handle an interrupt.
    pub fn handle_irq(&self, acts: &mut Actions) -> (irq: HandleIrq)
        ensures
            irq.stage is Checking,
            final(acts)@ == old(acts)@ + rx_begin(),
            asks(final(acts)@) == asks(old(acts)@) + seq![Ask::Word],
    {
        HandleIrq::start(acts)
    }

    /// Goes on handling an interrupt.
    pub fn resume_irq(&mut self, irq: &mut HandleIrq, replies: &Vec<Reply>, acts: &mut Actions)
        requires
            old(self).wf(),
            old(irq).wf(old(self).opts),
            old(irq).running(),
            answered(old(irq).awaited(old(self).opts, old(self).rx@), replies@),
        ensures
            took(
                rx_next(
                    old(self).opts,
                    old(self).addr,
                    old(self).rx@,
                    old(self).host_ctrl,
                    old(irq).stage@,
                    replies@,
                ),
                final(self).rx@,
                final(self).host_ctrl,
                final(irq).stage@,
                old(acts)@,
                final(acts)@,
            ),
            settled(
                old(self).opts,
                old(self).addr,
                final(self).rx@,
                final(irq).stage@,
                old(acts)@,
                final(acts)@,
            ),
            final(self).opts == old(self).opts,
            final(self).addr == old(self).addr,
            final(self).h2b_write_pointer == old(self).h2b_write_pointer,
            final(self).wf(),
    {
        irq.resume(&self.opts, self.addr, &mut self.rx, &mut self.host_ctrl, replies, acts);
    }
}

} // verus!
