//! Host-side controller logic for reprogramming a microcontroller through a
//! serial bootloader: Intel HEX ingestion and validation, the read-ahead
//! transport buffer, and the lock-step upload/verify protocol state machines.
//!
//! All I/O (the serial port itself, file reading, command-line handling) lives
//! outside this crate; the functions here work on plain byte values and carry
//! verified contracts.

pub mod errors;
pub mod hexfile;
pub mod protocol;
pub mod transport;
