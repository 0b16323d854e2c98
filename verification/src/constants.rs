//! Byte values of the wire format: start marker, command codes, response
//! codes and the operating modes of the radio.

use vstd::prelude::*;

verus! {

/// Start marker: the first byte of every frame.
pub const FRAME_IDENTIFIER: u8 = 0xFF;

/// Largest frame the module accepts by default.
pub const DEFAULT_MAX_PACKET_LENGTH: u8 = 250;

/// Length of a frame without payload: marker, command, length, checksum.
pub const MIN_PACKET_LENGTH: u8 = 4;

/// Transmission of wM-Bus data.
pub const CMD_DATA_REQ: u8 = 0x00;

/// Change of the wM-Bus mode in the volatile settings.
pub const CMD_SET_MODE_REQ: u8 = 0x04;

/// Reset of the module.
pub const CMD_RESET_REQ: u8 = 0x05;

/// Write of parameters to the non-volatile memory.
pub const CMD_SET_REQ: u8 = 0x09;

/// Change of the UART baud rate.
pub const CMD_SETUARTSPEED_REQ: u8 = 0x10;

/// Read of parameters from the non-volatile memory.
pub const CMD_GET_REQ: u8 = 0x0A;

/// Query of the module's serial number.
pub const CMD_SERIALNO_REQ: u8 = 0x0B;

/// Query of the firmware version.
pub const CMD_FWV_REQ: u8 = 0x0C;

/// Query of the receive level.
pub const CMD_RSSI_REQ: u8 = 0x0D;

/// Confirmation that a frame was sent.
pub const CMD_DATA_CNF: u8 = 0x80;

/// Indication of received data.
pub const CMD_DATA_IND: u8 = 0x03;

/// Answer to the firmware-version query.
pub const CMD_FWV_CNF: u8 = 0x8C;

/// Answer to the receive-level query.
pub const CMD_RSSI_CNF: u8 = 0x8D;

/// Status byte of a confirmation: the frame was sent.
pub const FRAME_SEND_OK: u8 = 0x00;

/// Operating mode of the radio; each mode travels as one byte.
#[derive(Debug, Clone, Copy, PartialEq, Eq, Structural)]
pub enum WMBusMode {
    /// Transmit only, meter.
    S1M,
    /// Transmit and receive, meter or gateway.
    S2,
    /// Transmit only, meter.
    T1Meter,
    /// Transmit and receive, meter.
    T2Meter,
    /// Transmit and receive, gateway.
    T2Other,
    /// Receive only, gateway.
    C2T2Other,
    /// Transmit only, meter.
    C1Meter,
    /// Transmit and receive, meter.
    C2Meter,
    /// Transmit and receive, gateway.
    C2Other,
}

impl WMBusMode {
    /// The byte that stands for this mode on the wire.
    pub open spec fn byte(self) -> u8 {
        match self {
            WMBusMode::S1M => 0x02,
            WMBusMode::S2 => 0x03,
            WMBusMode::T1Meter => 0x05,
            WMBusMode::T2Meter => 0x07,
            WMBusMode::T2Other => 0x08,
            WMBusMode::C2T2Other => 0x09,
            WMBusMode::C1Meter => 0x0C,
            WMBusMode::C2Meter => 0x0D,
            WMBusMode::C2Other => 0x0E,
        }
    }

    /// Returns the byte that stands for this mode on the wire.
    pub fn code(self) -> (b: u8)
        ensures
            b == self.byte(),
    {
        match self {
            WMBusMode::S1M => 0x02,
            WMBusMode::S2 => 0x03,
            WMBusMode::T1Meter => 0x05,
            WMBusMode::T2Meter => 0x07,
            WMBusMode::T2Other => 0x08,
            WMBusMode::C2T2Other => 0x09,
            WMBusMode::C1Meter => 0x0C,
            WMBusMode::C2Meter => 0x0D,
            WMBusMode::C2Other => 0x0E,
        }
    }
}

} // verus!
