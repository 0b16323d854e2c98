use wurth_radio::builder::{xor_fold, CommandBuilder};
use wurth_radio::constants::{
    WMBusMode, CMD_DATA_IND, CMD_DATA_REQ, CMD_FWV_CNF, CMD_RSSI_CNF, DEFAULT_MAX_PACKET_LENGTH,
    FRAME_IDENTIFIER, MIN_PACKET_LENGTH,
};
use wurth_radio::parser::{verify_checksum, CommandParser, ParseError, StepParser};

fn fold(bytes: &[u8]) -> u8 {
    let mut acc = 0u8;
    for b in bytes {
        acc ^= *b;
    }
    acc
}

#[test]
fn test_firmware_version() {
    let mut buffer = [0; 120];
    let value = CommandBuilder::get_firmware_version(&mut buffer)
        .finish()
        .unwrap();

    assert_eq!(value, &[0xFF, 0x0C, 0x00, 0xF3]);
}

#[test]
fn test_reset_module() {
    let mut buffer = [0; 120];
    let value = CommandBuilder::reset_module(&mut buffer)
        .finish()
        .unwrap();

    assert_eq!(value, &[0xFF, 0x05, 0x00, 0xFA]);
}

#[test]
fn test_rx_level() {
    let mut buffer = [0; 120];
    let value = CommandBuilder::get_rx_level(&mut buffer)
        .finish()
        .unwrap();

    assert_eq!(value, &[0xFF, 0x0D, 0x00, 0xF2]);
}

#[test]
fn test_send_data() {
    let mut buffer = [0; 120];
    let data = [0, 1, 2, 3, 4, 5, 6, 7, 0];
    let value = CommandBuilder::send_data(&mut buffer, &data)
        .finish()
        .unwrap();

    assert_eq!(
        value,
        &[0xFF, 0x00, 0x09, 0x00, 0x01, 0x02, 0x03, 0x04, 0x05, 0x06, 0x07, 0x00, 0xF6]
    );
}

#[test]
fn test_set_mode() {
    let mut buffer = [0; 120];
    let mode = WMBusMode::S1M;
    let value = CommandBuilder::set_mode(&mut buffer, mode)
        .finish()
        .unwrap();

    assert_eq!(value, &[0xFF, 0x04, 0x01, 0x02, 0xF8]);
}

#[test]
fn test_set_uart_speed() {
    let mut buffer = [0; 120];
    let value = CommandBuilder::set_uart_speed(&mut buffer, 7)
        .finish()
        .unwrap();

    assert_eq!(value, &[0xFF, 0x10, 0x01, 0x07, 0xE9]);
}

#[test]
fn test_parse_fimware() {
    let fwv = StepParser::parse(&[0xFF, 0x8C, 0x03, 0x02, 0x00, 0x06, 0x74])
        .expect_identifier(&[CMD_FWV_CNF])
        .expect_data()
        .finish()
        .unwrap();
    assert_eq!(fwv, &[0x02, 0x00, 0x06]);
}

#[test]
fn test_parse_rssi() {
    let fwv = StepParser::parse(&[0xFF, 0x8D, 0x01, 0x99, 0x74])
        .expect_identifier(&[CMD_RSSI_CNF])
        .expect_data()
        .finish()
        .unwrap();
    assert_eq!(fwv, &[0x99]);
}

#[test]
fn frame_limits_have_their_values() {
    assert_eq!(FRAME_IDENTIFIER, 0xFF);
    assert_eq!(MIN_PACKET_LENGTH, 4);
    assert_eq!(DEFAULT_MAX_PACKET_LENGTH, 250);
}

#[test]
fn every_mode_has_its_byte() {
    assert_eq!(WMBusMode::S1M.code(), 0x02);
    assert_eq!(WMBusMode::S2.code(), 0x03);
    assert_eq!(WMBusMode::T1Meter.code(), 0x05);
    assert_eq!(WMBusMode::T2Meter.code(), 0x07);
    assert_eq!(WMBusMode::T2Other.code(), 0x08);
    assert_eq!(WMBusMode::C2T2Other.code(), 0x09);
    assert_eq!(WMBusMode::C1Meter.code(), 0x0C);
    assert_eq!(WMBusMode::C2Meter.code(), 0x0D);
    assert_eq!(WMBusMode::C2Other.code(), 0x0E);
}

#[test]
fn every_mode_frame_carries_its_checksum() {
    let modes = [
        WMBusMode::S1M,
        WMBusMode::S2,
        WMBusMode::T1Meter,
        WMBusMode::T2Meter,
        WMBusMode::T2Other,
        WMBusMode::C2T2Other,
        WMBusMode::C1Meter,
        WMBusMode::C2Meter,
        WMBusMode::C2Other,
    ];
    for mode in modes {
        let mut buffer = [0xAAu8; 16];
        let frame = CommandBuilder::set_mode(&mut buffer, mode).finish().unwrap();
        assert_eq!(frame.len(), 5);
        assert_eq!(&frame[..4], &[0xFF, 0x04, 0x01, mode.code()]);
        assert_eq!(frame[4], fold(&frame[..4]));
    }
}

#[test]
fn checksum_covers_only_the_frame() {
    // What the buffer held beyond the frame has no part in the checksum.
    let mut buffer = [0x5Au8; 120];
    let value = CommandBuilder::get_firmware_version(&mut buffer)
        .finish()
        .unwrap();
    assert_eq!(value, &[0xFF, 0x0C, 0x00, 0xF3]);
}

#[test]
fn last_byte_is_the_xor_of_the_others() {
    for len in 0..40usize {
        let data: Vec<u8> = (0..len).map(|i| (i * 7 + 3) as u8).collect();
        let mut buffer = [0u8; 64];
        let frame = CommandBuilder::send_data(&mut buffer, &data).finish().unwrap();
        let body = &frame[..frame.len() - 1];
        if fold(&[&[0xFF, 0x00, len as u8][..], &data[..]].concat()) != 0x2C {
            assert_eq!(frame.len(), len + 4);
            assert_eq!(frame[frame.len() - 1], fold(body));
            assert_eq!(&frame[3..frame.len() - 1], &data[..]);
        }
    }
}

#[test]
fn buffer_of_exact_length_is_enough() {
    let mut buffer = [0u8; 4];
    let frame = CommandBuilder::reset_module(&mut buffer).finish().unwrap();
    assert_eq!(frame, &[0xFF, 0x05, 0x00, 0xFA]);
    assert_eq!(buffer, [0xFF, 0x05, 0x00, 0xFA]);
}

#[test]
fn short_buffer_reports_the_needed_length() {
    let mut buffer = [0u8; 3];
    assert_eq!(CommandBuilder::reset_module(&mut buffer).finish(), Err(4));
    let mut buffer = [0u8; 0];
    assert_eq!(CommandBuilder::get_rx_level(&mut buffer).finish(), Err(4));
    let mut buffer = [0u8; 4];
    assert_eq!(CommandBuilder::set_uart_speed(&mut buffer, 3).finish(), Err(5));
    assert_eq!(
        CommandBuilder::set_mode(&mut buffer, WMBusMode::T2Other).finish(),
        Err(5)
    );
    let data = [0, 1, 2, 3, 4, 5, 6, 7, 0];
    let mut buffer = [0u8; 12];
    assert_eq!(CommandBuilder::send_data(&mut buffer, &data).finish(), Err(13));
    let mut buffer = [0u8; 13];
    assert!(CommandBuilder::send_data(&mut buffer, &data).finish().is_ok());
}

#[test]
fn bytes_that_do_not_fit_are_left_out() {
    // The header fits and is written; the payload does not and is skipped.
    let data = [1u8, 2, 3, 4, 5, 6];
    let mut buffer = [0x11u8; 5];
    assert_eq!(CommandBuilder::send_data(&mut buffer, &data).finish(), Err(10));
    assert_eq!(buffer, [0xFF, 0x00, 0x06, 0x11, 0x11]);
}

#[test]
fn longest_payload_is_encoded() {
    let data = [0x01u8; 255];
    let mut buffer = [0u8; 300];
    let frame = CommandBuilder::send_data(&mut buffer, &data).finish().unwrap();
    assert_eq!(frame.len(), 259);
    assert_eq!(&frame[..3], &[0xFF, CMD_DATA_REQ, 0xFF]);
    assert_eq!(frame[258], fold(&frame[..258]));
}

#[test]
fn separator_at_the_end_is_dropped() {
    // 0xFF ^ 0x10 ^ 0x01 ^ 0xC2 is 0x2C: the checksum is itself the separator.
    let mut buffer = [0u8; 16];
    let frame = CommandBuilder::set_uart_speed(&mut buffer, 0xC2)
        .finish()
        .unwrap();
    assert_eq!(frame, &[0xFF, 0x10, 0x01, 0xC2]);
}

#[test]
fn sent_data_is_parsed_back() {
    let mut buffer = [0; 120];
    let data = [0, 1, 2, 3, 4, 5, 6, 7, 0];
    let frame = CommandBuilder::send_data(&mut buffer, &data)
        .finish()
        .unwrap();
    let parsed = CommandParser::parse(frame).unwrap();
    assert_eq!(parsed.command, 0x00);
    assert_eq!(parsed.payload_length, 9);
    assert_eq!(parsed.data, &data);
}

#[test]
fn one_shot_parser_reads_a_confirmation() {
    let parsed = CommandParser::parse(&[0xFF, 0x80, 0x01, 0x00, 0x7E]).unwrap();
    assert_eq!(parsed.command, 0x80);
    assert_eq!(parsed.payload_length, 1);
    assert_eq!(parsed.data, &[0x00]);
    // The checksum byte is not looked at.
    let parsed = CommandParser::parse(&[0xFF, 0x8C, 0x03, 0x02, 0x00, 0x06, 0x00]).unwrap();
    assert_eq!(parsed.command, 0x8C);
    assert_eq!(parsed.data, &[0x02, 0x00, 0x06]);
}

#[test]
fn one_shot_parser_rejects_short_or_unmarked_buffers() {
    assert_eq!(CommandParser::parse(&[]).unwrap_err(), ParseError(0));
    assert_eq!(CommandParser::parse(&[0xFF]).unwrap_err(), ParseError(0));
    assert_eq!(
        CommandParser::parse(&[0xFF, 0x05, 0x00, 0xFA]).unwrap_err(),
        ParseError(0)
    );
    assert_eq!(
        CommandParser::parse(&[0xFE, 0x80, 0x01, 0x00, 0x7E]).unwrap_err(),
        ParseError(0)
    );
    assert_eq!(CommandParser::parse(&[0xFE, 0x80]).unwrap_err().index(), 0);
}

#[test]
fn one_shot_parser_rejects_a_wrong_length_byte() {
    assert_eq!(
        CommandParser::parse(&[0xFF, 0x80, 0x02, 0x00, 0x7E]).unwrap_err(),
        ParseError(2)
    );
    assert_eq!(
        CommandParser::parse(&[0xFF, 0x80, 0x00, 0x00, 0x7E]).unwrap_err(),
        ParseError(2)
    );
    assert_eq!(
        CommandParser::parse(&[0xFF, 0x8C, 0xFF, 0x02, 0x00, 0x06, 0x74])
            .unwrap_err()
            .index(),
        2
    );
}

#[test]
fn stepwise_parser_fails_without_the_marker() {
    let r = StepParser::parse(&[0xFE, 0x8C, 0x03, 0x02, 0x00, 0x06, 0x74])
        .expect_identifier(&[CMD_FWV_CNF])
        .expect_data()
        .finish();
    assert_eq!(r, Err(ParseError(0)));
    let r = StepParser::parse(&[]).expect_identifier(&[CMD_FWV_CNF]).finish();
    assert_eq!(r, Err(ParseError(0)));
}

#[test]
fn stepwise_parser_fails_on_another_identifier() {
    let r = StepParser::parse(&[0xFF, 0x8D, 0x01, 0x99, 0x74])
        .expect_identifier(&[CMD_FWV_CNF])
        .expect_data()
        .finish();
    assert_eq!(r, Err(ParseError(1)));
    let r = StepParser::parse(&[0xFF]).expect_identifier(&[CMD_FWV_CNF]).finish();
    assert_eq!(r, Err(ParseError(1)));
    let r = StepParser::parse(&[0xFF, 0x8C]).expect_identifier(&[]).finish();
    assert_eq!(r, Err(ParseError(1)));
}

#[test]
fn stepwise_parser_takes_a_short_payload_as_absent() {
    let empty: &[u8] = &[];
    let r = StepParser::parse(&[0xFF, 0x8C, 0x05, 0x02, 0x00])
        .expect_identifier(&[CMD_FWV_CNF])
        .expect_data()
        .finish();
    assert_eq!(r, Ok(empty));
    let r = StepParser::parse(&[0xFF, 0x8C])
        .expect_identifier(&[CMD_FWV_CNF])
        .expect_data()
        .finish();
    assert_eq!(r, Ok(empty));
    let r = StepParser::parse(&[0xFF, 0x8C, 0x00, 0x73])
        .expect_identifier(&[CMD_FWV_CNF])
        .expect_data()
        .finish();
    assert_eq!(r, Ok(empty));
}

#[test]
fn stepwise_parser_without_steps_yields_nothing() {
    let empty: &[u8] = &[];
    assert_eq!(StepParser::parse(&[0x01, 0x02]).finish(), Ok(empty));
}

#[test]
fn stepwise_parser_reads_fields_in_a_row() {
    // After a payload the cursor skips one byte; the next field starts behind it.
    let r = StepParser::parse(&[0xFF, 0x8C, 0x02, 0x0A, 0x0B, 0x2C, 0x01, 0x0C, 0x00])
        .expect_identifier(&[CMD_FWV_CNF])
        .expect_data()
        .expect_data()
        .finish();
    assert_eq!(r, Ok(&[0x0C][..]));
}

#[test]
fn a_failed_step_stays_failed() {
    let r = StepParser::parse(&[0xFF, 0x8D, 0x01, 0x99, 0x74])
        .expect_identifier(&[CMD_FWV_CNF])
        .expect_identifier(&[CMD_RSSI_CNF])
        .expect_data()
        .finish();
    assert_eq!(r, Err(ParseError(1)));
}

#[test]
fn checksum_of_given_bytes() {
    assert_eq!(xor_fold(&[]), 0x00);
    assert_eq!(xor_fold(&[0xFF, 0x0C, 0x00]), 0xF3);
    assert_eq!(xor_fold(&[0xFF, 0x05, 0x00]), 0xFA);
    assert_eq!(xor_fold(&[0xFF, 0x10, 0x01, 0x07]), 0xE9);
    assert_eq!(xor_fold(&[0xFF, 0x80, 0x01, 0x00]), 0x7E);
}

#[test]
fn checksum_of_a_received_frame_can_be_checked() {
    assert!(verify_checksum(&[0xFF, 0x80, 0x01, 0x00, 0x7E]));
    assert!(!verify_checksum(&[0xFF, 0x80, 0x01, 0x00, 0x7F]));
    assert!(!verify_checksum(&[]));
    assert!(verify_checksum(&[0x00]));
    assert!(!verify_checksum(&[0x01]));
    let mut buffer = [0u8; 32];
    let frame = CommandBuilder::set_mode(&mut buffer, WMBusMode::C2Other)
        .finish()
        .unwrap();
    assert!(verify_checksum(frame));
}

#[test]
fn one_shot_parser_reads_received_data() {
    let received = [
        0xFF, 0x03, 0x0A, 0x00, 0x01, 0x02, 0x03, 0x04, 0x05, 0x06, 0x07, 0x00, 0x24, 0xD2,
    ];
    let parsed = CommandParser::parse(&received).unwrap();
    assert_eq!(parsed.command, CMD_DATA_IND);
    assert_eq!(parsed.payload_length, 10);
    assert_eq!(
        parsed.data,
        &[0x00, 0x01, 0x02, 0x03, 0x04, 0x05, 0x06, 0x07, 0x00, 0x24]
    );
    assert!(verify_checksum(&received));
}

#[test]
fn bytes_behind_the_frame_are_untouched() {
    let mut buffer = [0x11u8; 8];
    let frame = CommandBuilder::set_mode(&mut buffer, WMBusMode::T1Meter)
        .finish()
        .unwrap();
    assert_eq!(frame, &[0xFF, 0x04, 0x01, 0x05, 0xFF]);
    assert_eq!(buffer, [0xFF, 0x04, 0x01, 0x05, 0xFF, 0x11, 0x11, 0x11]);
}

#[test]
fn dropped_separator_stays_in_the_buffer() {
    let mut buffer = [0u8; 6];
    let frame = CommandBuilder::set_uart_speed(&mut buffer, 0xC2)
        .finish()
        .unwrap();
    assert_eq!(frame.len(), 4);
    assert_eq!(buffer, [0xFF, 0x10, 0x01, 0xC2, 0x2C, 0x00]);
}
