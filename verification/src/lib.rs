//! The host side of the shared-memory Bluetooth transport of the CYW43439.

pub mod action;
pub mod arrival;
pub mod bring_up;
pub mod cache;
pub mod consts;
pub mod delivery;
pub mod diff;
pub mod firmware;
pub mod footprint;
pub mod hci;
pub mod host_ctrl;
pub mod image;
pub mod incoming;
pub mod init;
pub mod interrupt;
pub mod memory;
pub mod options;
pub mod outgoing;
pub mod packet;
pub mod passage;
pub mod pointer;
pub mod poll;
pub mod probe;
pub mod report;
pub mod repro;
pub mod ring;
pub mod runner;
pub mod rx;
pub mod sampling;
pub mod sending;
pub mod sentinel;
pub mod turns;
pub mod tx;
pub mod upload;
pub mod util;
pub mod waiting;
