//! Battery charge reporting from the kernel's power-supply device class.
//!
//! Battery devices are picked out of a directory listing, each device's
//! `uevent` status text is parsed into a complete record or into nothing,
//! and the records are summed into one charge percentage.

pub mod devices;
pub mod power;
pub mod status;
pub mod uevent;
