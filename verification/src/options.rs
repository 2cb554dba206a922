//! Choices that are fixed when the transport is set up.

use vstd::prelude::*;

verus! {

/// Optional behaviour of the transport. With everything off, the transport does
/// only what it must.
#[derive(Clone, Copy, PartialEq, Eq, Structural, Debug)]
pub struct Options {
    /// Stop at once where a register or a ring pointer holds what it never
    /// should.
    pub strict_checks: bool,
    /// Now and again, compare the host control register with its cached value.
    pub host_ctrl_sample: bool,
    /// Read each ring pointer twice, and use the second value.
    pub pointer_stable_read: bool,
    /// Read each ring pointer back after writing it.
    pub pointer_write_readback: bool,
    /// Raise an interrupt by setting the data-valid bit, not by toggling it.
    pub intr_set: bool,
    /// Wait before a sent packet is published.
    pub tx_publish_delay: bool,
    /// Wait before the interrupt for a sent packet.
    pub tx_intr_delay: bool,
    /// Wait before a received packet is acknowledged.
    pub rx_out_delay: bool,
    /// Wait before the interrupt for a received packet.
    pub rx_intr_delay: bool,
    /// Inspect outgoing test packets.
    pub tx_repro_diag: bool,
    /// Read outgoing test packets back from the ring.
    pub tx_readback_probe: bool,
    /// Read some received packets twice.
    pub rx_readback_probe: bool,
    /// Look for damaged sentinel blocks in received data.
    pub rx_sentinel_probe: bool,
    /// Read single bytes of some received packets again.
    pub rx_byte_probe: bool,
}

impl Options {
    /// Everything off.
    pub fn none() -> (options: Self)
        ensures
            !options.strict_checks && !options.host_ctrl_sample && !options.pointer_stable_read
                && !options.pointer_write_readback && !options.intr_set && !options.tx_publish_delay
                && !options.tx_intr_delay && !options.rx_out_delay && !options.rx_intr_delay
                && !options.tx_repro_diag && !options.tx_readback_probe && !options.rx_readback_probe
                && !options.rx_sentinel_probe && !options.rx_byte_probe,
    {
        Options {
            strict_checks: false,
            host_ctrl_sample: false,
            pointer_stable_read: false,
            pointer_write_readback: false,
            intr_set: false,
            tx_publish_delay: false,
            tx_intr_delay: false,
            rx_out_delay: false,
            rx_intr_delay: false,
            tx_repro_diag: false,
            tx_readback_probe: false,
            rx_readback_probe: false,
            rx_sentinel_probe: false,
            rx_byte_probe: false,
        }
    }
}

} // verus!
