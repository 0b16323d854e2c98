//! Command frames of a UART radio-module protocol (a wM-Bus transceiver's
//! control interface): building outbound frames into a caller's buffer and
//! decoding received frames.
//!
//! A frame is `[0xFF, command, length, payload.., checksum]`, where the
//! checksum is the XOR of all bytes before it. Nothing here allocates or
//! touches a serial port: `builder` writes into a borrowed buffer, `parser`
//! reads from a borrowed slice, and `constants` holds the byte values.

pub mod constants;
pub mod builder;
pub mod parser;
