//! Driver core for the legacy i8042 keyboard/mouse controller.
//!
//! The crate verifies the whole polling protocol: the status and
//! configuration register codec, the bounded-retry port discipline, the
//! controller command dispatcher, the device reset/identify handshake, and
//! the ten-step initialization sequence.  All byte-level I/O goes through
//! the [`port::PortAccess`] capability trait, so the protocol can be driven
//! either by real hardware (outside this crate) or by the scripted
//! controller in [`mock`].

pub mod codec;
pub mod driver;
pub mod error;
pub mod mock;
pub mod port;
pub mod protocol;
