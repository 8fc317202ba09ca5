//! The decisions of the first-stage bootloader of an LPC11Uxx board.
//!
//! The library never touches the hardware. It says, one operation at a time,
//! what is to be done to the device; whoever drives it performs the operation
//! and hands back what the device answered.

pub mod board;
pub mod boot;
pub mod bootloader;
pub mod device;
pub mod eeprom;
pub mod flash;
pub mod flash_model;
pub mod laws;
pub mod script;
pub mod setup;
pub mod vectors;
