//! An acoustic modem: bytes are framed, protected by Reed–Solomon parity and
//! a CRC-32, packed into 3-bit FSK symbols and recovered again on the far side.
//!
//! This crate holds the byte-level and integer logic of the modem with its
//! contracts; the floating-point signal processing lives with the program
//! around it.

pub mod crc;
pub mod rs;
pub mod frame;
pub mod fsk;
pub mod text;
pub mod digest;
pub mod preamble;
pub mod phy;
pub mod tx;
pub mod rx;
pub mod link;
pub mod cli;
pub mod ffi;
pub mod web;
pub mod output;
pub mod rank;
pub mod report;
pub mod timing;
