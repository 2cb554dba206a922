//! Register addresses, register bits and shared-memory layout of the CYW43439
//! Bluetooth core, as the host sees them over the backplane.

use vstd::prelude::*;

verus! {

/// Base address of the Bluetooth core on the backplane.
pub const BLUETOOTH_BASE_ADDRESS: u32 = 0x1900_0000;

/// Base address of the SDIO device core on the backplane.
pub const SDIOD_CORE_BASE_ADDRESS: u32 = 0x1800_2000;

/// Offset of the interrupt status register in the SDIO device core.
pub const SDIO_INT_STATUS: u32 = 0x20;

/// Interrupt status bit: the flow control state changed.
pub const I_HMB_FC_CHANGE: u32 = 0x20;

/// Power-up register, relative to the Bluetooth core.
pub const BT2WLAN_PWRUP_ADDR: u32 = 0x64_0894;

/// Value that wakes the Bluetooth core through the power-up register.
pub const BT2WLAN_PWRUP_WAKE: u32 = 3;

/// Status register that the Bluetooth firmware writes.
pub const BT_CTRL_REG_ADDR: u32 = 0x1800_0c7c;

/// Control register that the host writes.
pub const HOST_CTRL_REG_ADDR: u32 = 0x1800_0d6c;

/// Register that holds the address of the shared buffers.
pub const WLAN_RAM_BASE_REG_ADDR: u32 = 0x1800_0d68;

/// Host control bit: toggled (or set) to raise an interrupt.
pub const BTSDIO_REG_DATA_VALID_BITMASK: u32 = 0x0000_0002;

/// Status bit: the Bluetooth core is awake.
pub const BTSDIO_REG_BT_AWAKE_BITMASK: u32 = 0x0000_0100;

/// Host control bit: keep the Bluetooth core awake.
pub const BTSDIO_REG_WAKE_BT_BITMASK: u32 = 0x0002_0000;

/// Host control bit: the host software is ready.
pub const BTSDIO_REG_SW_RDY_BITMASK: u32 = 0x0100_0000;

/// Status bit: the Bluetooth firmware is ready.
pub const BTSDIO_REG_FW_RDY_BITMASK: u32 = 0x0100_0000;

/// The host control bits that this driver drives; no other bit is ever set.
pub const BTSDIO_REG_HOST_CTRL_ALLOWED_BITMASK: u32 = 0x0102_0002;

/// Size of each of the two circular buffers, in bytes.
pub const BTSDIO_FWBUF_SIZE: u32 = 0x1000;

/// Offset of the host-to-Bluetooth circular buffer.
pub const BTSDIO_OFFSET_HOST_WRITE_BUF: u32 = 0;

/// Offset of the Bluetooth-to-host circular buffer.
pub const BTSDIO_OFFSET_HOST_READ_BUF: u32 = 0x1000;

/// Offset of the pointer up to which the host has written.
pub const BTSDIO_OFFSET_HOST2BT_IN: u32 = 0x2000;

/// Offset of the pointer up to which the Bluetooth core has read.
pub const BTSDIO_OFFSET_HOST2BT_OUT: u32 = 0x2004;

/// Offset of the pointer up to which the Bluetooth core has written.
pub const BTSDIO_OFFSET_BT2HOST_IN: u32 = 0x2008;

/// Offset of the pointer up to which the host has read.
pub const BTSDIO_OFFSET_BT2HOST_OUT: u32 = 0x200c;

/// The highest address at which the shared buffers can start, so that every
/// address in them fits in 32 bits.
pub const MAX_RAM_BASE: u32 = 0xffff_dff3;

/// Destination addresses are extended by a high half-word.
pub const BTFW_ADDR_MODE_EXTENDED: i32 = 1;

/// Destination addresses are extended by a segment.
pub const BTFW_ADDR_MODE_SEGMENT: i32 = 2;

/// Destination addresses are relative to a 32-bit base.
pub const BTFW_ADDR_MODE_LINEAR32: i32 = 3;

/// Firmware record: data to be written.
pub const BTFW_HEX_LINE_TYPE_DATA: u8 = 0;

/// Firmware record: sets the segment.
pub const BTFW_HEX_LINE_TYPE_EXTENDED_SEGMENT_ADDRESS: u8 = 2;

/// Firmware record: sets the high half-word of the address.
pub const BTFW_HEX_LINE_TYPE_EXTENDED_ADDRESS: u8 = 4;

/// Firmware record: sets a 32-bit base address.
pub const BTFW_HEX_LINE_TYPE_ABSOLUTE_32BIT_ADDRESS: u8 = 5;

/// Largest HCI packet, with its type byte.
pub const BT_HCI_MTU: usize = 1024;

/// HCI packet type of ACL data.
pub const HCI_PACKET_TYPE_ACL: u8 = 2;

/// Packet boundary flag of an ACL continuation fragment.
pub const ACL_PB_CONTINUING: u16 = 1;

} // verus!
