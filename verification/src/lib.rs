//! Boot decision and firmware-update protocol of a USB bootloader that speaks
//! the vendor protocol of a J-Link V9 debug probe.
//!
//! The crate holds the rules only: the checksum of a flashed image, the three
//! gates that decide whether the image may be started, the encoding of the
//! transfer length, the marker scan of the firmware header, the packet rules
//! of the bulk channel and the command engine. The engine is a state machine
//! that is told what the transport did and answers with what it must do next;
//! endpoints, flash, timers and the reset line stay with the caller.

pub mod bulk_usb;
pub mod checksum;
pub mod endian;
pub mod firmware;
pub mod protocol;
pub mod traces;
pub mod usb_jboot;
pub mod validity;
