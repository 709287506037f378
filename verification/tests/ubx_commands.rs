use gnss2tec_logger::ubx::{
    build_cfg_gnss_packet, build_cfg_msg_packet, build_cfg_rate_packet, build_ubx_packet,
    build_ubx_packet_from_config, build_ubx_payload, load_ubx_commands, parse_time_reference,
    parse_u16_token,
    parse_u32_token, parse_u8_token, parse_ubx_config, parse_ubx_line, ubx_checksum,
    CommandError, ConfigError, LineError, StartupError, TimeReference, TokenError,
};

fn words(items: &[&str]) -> Vec<Vec<u8>> {
    items.iter().map(|s| s.as_bytes().to_vec()).collect()
}

#[test]
fn checksum_of_empty_data_is_zero() {
    assert_eq!(ubx_checksum(&[]), (0, 0));
}

#[test]
fn checksum_running_sums() {
    assert_eq!(ubx_checksum(&[1, 2, 3]), (6, 10));
    assert_eq!(ubx_checksum(&[0xFF, 0x02]), (0x01, 0x00));
}

#[test]
fn frame_has_sync_length_and_checksum() {
    let packet = build_ubx_packet(0x06, 0x08, &[0xE8, 0x03, 0x01, 0x00, 0x01, 0x00]);
    assert_eq!(
        packet,
        vec![0xB5, 0x62, 0x06, 0x08, 0x06, 0x00, 0xE8, 0x03, 0x01, 0x00, 0x01, 0x00, 0x01, 0x39]
    );
}

#[test]
fn frame_of_empty_payload() {
    let packet = build_ubx_packet(0x0A, 0x04, &[]);
    assert_eq!(packet, vec![0xB5, 0x62, 0x0A, 0x04, 0x00, 0x00, 0x0E, 0x34]);
}

#[test]
fn measurement_rate_packet_is_bit_exact() {
    let packet = build_ubx_packet_from_config(b"CFG-RATE", &words(&["1000", "1", "1"])).unwrap();
    assert_eq!(
        packet,
        vec![0xB5, 0x62, 0x06, 0x08, 0x06, 0x00, 0xE8, 0x03, 0x01, 0x00, 0x01, 0x00, 0x01, 0x39]
    );
    let packet = build_cfg_rate_packet(&words(&["0xC8", "1", "0"])).unwrap();
    assert_eq!(
        packet,
        vec![0xB5, 0x62, 0x06, 0x08, 0x06, 0x00, 0xC8, 0x00, 0x01, 0x00, 0x00, 0x00, 0xDD, 0x68]
    );
}

#[test]
fn message_rate_packet_is_bit_exact() {
    let args = words(&["0xF0", "0x00", "0", "1", "0", "0", "0", "0"]);
    let expected = vec![
        0xB5, 0x62, 0x06, 0x01, 0x08, 0x00, 0xF0, 0x00, 0x00, 0x01, 0x00, 0x00, 0x00, 0x00, 0x00,
        0x28,
    ];
    assert_eq!(build_cfg_msg_packet(&args).unwrap(), expected);
    assert_eq!(build_ubx_packet_from_config(b"CFG-MSG", &args).unwrap(), expected);
}

#[test]
fn constellation_packet_is_bit_exact() {
    let args = words(&["0", "32", "32", "1", "0", "8", "16", "0", "0x01010001"]);
    let expected = vec![
        0xB5, 0x62, 0x06, 0x3E, 0x0C, 0x00, 0x00, 0x20, 0x20, 0x01, 0x00, 0x08, 0x10, 0x00, 0x01,
        0x00, 0x01, 0x01, 0xAC, 0xF2,
    ];
    assert_eq!(build_cfg_gnss_packet(&args).unwrap(), expected);
    assert_eq!(build_ubx_packet_from_config(b"CFG-GNSS", &args).unwrap(), expected);
}

#[test]
fn message_rate_checksum_is_reproduced() {
    let cases: [[&str; 8]; 3] = [
        ["0xF0", "0x00", "0", "1", "0", "0", "0", "0"],
        ["2", "0x15", "0", "1", "0", "1", "0", "0"],
        ["255", "255", "255", "255", "255", "255", "255", "255"],
    ];
    for case in cases.iter() {
        let packet = build_ubx_packet_from_config(b"CFG-MSG", &words(case)).unwrap();
        assert_eq!(packet.len(), 16);
        let (a, b) = ubx_checksum(&packet[2..14]);
        assert_eq!((a, b), (packet[14], packet[15]));
    }
}

#[test]
fn hand_built_payload_frames_to_the_same_packet() {
    let commands: [(&[u8], Vec<Vec<u8>>); 3] = [
        (b"CFG-MSG", words(&["0xF0", "0x00", "0", "1", "0", "0", "0", "0"])),
        (b"CFG-GNSS", words(&["0", "32", "32", "1", "6", "8", "14", "0", "0x01010001"])),
        (b"CFG-RATE", words(&["1000", "1", "4"])),
    ];
    for (name, args) in commands.iter() {
        let (class, id, payload) = build_ubx_payload(name, args).unwrap();
        assert_eq!(class, 0x06);
        let framed = build_ubx_packet(class, id, &payload);
        assert_eq!(build_ubx_packet_from_config(name, args).unwrap(), framed);
    }
}

#[test]
fn payload_of_constellation_command() {
    let args = words(&["0", "32", "32", "1", "2", "4", "8", "0", "0x00210001"]);
    let (class, id, payload) = build_ubx_payload(b"CFG-GNSS", &args).unwrap();
    assert_eq!((class, id), (0x06, 0x3E));
    assert_eq!(payload, vec![0, 32, 32, 1, 2, 4, 8, 0, 0x01, 0x00, 0x21, 0x00]);
}

#[test]
fn numbers_decimal_and_hex() {
    assert_eq!(parse_u32_token(b"0"), Ok(0));
    assert_eq!(parse_u32_token(b"4294967295"), Ok(4294967295));
    assert_eq!(parse_u32_token(b"0xFFFFFFFF"), Ok(4294967295));
    assert_eq!(parse_u32_token(b"0Xff"), Ok(255));
    assert_eq!(parse_u32_token(b"0x1a"), Ok(26));
    assert_eq!(parse_u32_token(b"+17"), Ok(17));
    assert_eq!(parse_u32_token(b"0x+1F"), Ok(31));
    assert_eq!(parse_u32_token(b"007"), Ok(7));
}

#[test]
fn numbers_that_are_refused() {
    assert_eq!(parse_u32_token(b""), Err(TokenError::InvalidInteger));
    assert_eq!(parse_u32_token(b"+"), Err(TokenError::InvalidInteger));
    assert_eq!(parse_u32_token(b"-1"), Err(TokenError::InvalidInteger));
    assert_eq!(parse_u32_token(b"12a"), Err(TokenError::InvalidInteger));
    assert_eq!(parse_u32_token(b"4294967296"), Err(TokenError::InvalidInteger));
    assert_eq!(parse_u32_token(b"0x"), Err(TokenError::InvalidHex));
    assert_eq!(parse_u32_token(b"0xG1"), Err(TokenError::InvalidHex));
    assert_eq!(parse_u32_token(b"0x100000000"), Err(TokenError::InvalidHex));
    assert_eq!(parse_u32_token(b"1 "), Err(TokenError::InvalidInteger));
}

#[test]
fn numbers_are_checked_against_their_width() {
    assert_eq!(parse_u8_token(b"255"), Ok(255));
    assert_eq!(parse_u8_token(b"256"), Err(TokenError::OutOfRangeU8));
    assert_eq!(parse_u8_token(b"0x100"), Err(TokenError::OutOfRangeU8));
    assert_eq!(parse_u8_token(b"x"), Err(TokenError::InvalidInteger));
    assert_eq!(parse_u16_token(b"65535"), Ok(65535));
    assert_eq!(parse_u16_token(b"65536"), Err(TokenError::OutOfRangeU16));
    assert_eq!(parse_u16_token(b"0xFFFF"), Ok(65535));
}

#[test]
fn unknown_command_is_refused() {
    assert_eq!(
        build_ubx_packet_from_config(b"CFG-NAV5", &words(&["1"])),
        Err(CommandError::UnsupportedCommand)
    );
    assert_eq!(
        build_ubx_payload(b"cfg-msg", &words(&["1"])),
        Err(CommandError::UnsupportedCommand)
    );
}

#[test]
fn wrong_argument_counts_are_refused() {
    assert_eq!(
        build_cfg_msg_packet(&words(&["1", "2", "3"])),
        Err(CommandError::ArgumentCount { expected: 8, got: 3 })
    );
    assert_eq!(
        build_cfg_gnss_packet(&words(&["1"; 8])),
        Err(CommandError::ArgumentCount { expected: 9, got: 8 })
    );
    assert_eq!(
        build_cfg_rate_packet(&words(&["1", "2", "3", "4"])),
        Err(CommandError::ArgumentCount { expected: 3, got: 4 })
    );
}

#[test]
fn first_bad_argument_is_named() {
    assert_eq!(
        build_cfg_msg_packet(&words(&["1", "2", "300", "x", "0", "0", "0", "0"])),
        Err(CommandError::Argument { index: 2, error: TokenError::OutOfRangeU8 })
    );
    assert_eq!(
        build_cfg_rate_packet(&words(&["1000", "70000", "1"])),
        Err(CommandError::Argument { index: 1, error: TokenError::OutOfRangeU16 })
    );
    assert_eq!(
        build_cfg_gnss_packet(&words(&["0", "32", "32", "1", "0", "8", "16", "0", "zz"])),
        Err(CommandError::Argument { index: 8, error: TokenError::InvalidInteger })
    );
}

#[test]
fn constellation_command_wants_one_known_block() {
    assert_eq!(
        build_cfg_gnss_packet(&words(&["0", "32", "32", "2", "0", "8", "16", "0", "1"])),
        Err(CommandError::BlockCount { count: 2 })
    );
    assert_eq!(
        build_cfg_gnss_packet(&words(&["0", "32", "32", "1", "7", "8", "16", "0", "1"])),
        Err(CommandError::GnssId { id: 7 })
    );
    assert_eq!(
        build_ubx_payload(b"CFG-GNSS", &words(&["0", "32", "32", "1", "9", "8", "16", "0", "1"])),
        Err(CommandError::GnssId { id: 9 })
    );
    // The block count is looked at before the constellation id is read.
    assert_eq!(
        build_cfg_gnss_packet(&words(&["0", "32", "32", "0", "bad", "8", "16", "0", "1"])),
        Err(CommandError::BlockCount { count: 0 })
    );
}

#[test]
fn reference_time_must_be_known() {
    assert_eq!(
        build_cfg_rate_packet(&words(&["1000", "1", "5"])),
        Err(CommandError::TimeReference { value: 5 })
    );
    assert_eq!(parse_time_reference(0), Some(TimeReference::Utc));
    assert_eq!(parse_time_reference(4), Some(TimeReference::Gal));
    assert_eq!(parse_time_reference(5), None);
}

#[test]
fn command_file_gives_packets_in_order() {
    let text = b"# receiver setup\n\n!UBX CFG-RATE 1000 1 1   # one hertz\r\n  !UBX CFG-MSG 0xF0 0x00 0 1 0 0 0 0\nUBX CFG-RATE 1 1 1\n!UBXCFG-RATE 1 1 1\n";
    let packets = parse_ubx_config(text).unwrap();
    assert_eq!(packets.len(), 2);
    assert_eq!(
        packets[0],
        vec![0xB5, 0x62, 0x06, 0x08, 0x06, 0x00, 0xE8, 0x03, 0x01, 0x00, 0x01, 0x00, 0x01, 0x39]
    );
    assert_eq!(
        packets[1],
        vec![
            0xB5, 0x62, 0x06, 0x01, 0x08, 0x00, 0xF0, 0x00, 0x00, 0x01, 0x00, 0x00, 0x00, 0x00,
            0x00, 0x28
        ]
    );
}

#[test]
fn command_file_without_commands_is_empty() {
    assert_eq!(parse_ubx_config(b"").unwrap().len(), 0);
    assert_eq!(parse_ubx_config(b"# nothing\n\n   \n").unwrap().len(), 0);
    assert_eq!(parse_ubx_config(b"#!UBX CFG-RATE 1 1 1\n").unwrap().len(), 0);
}

#[test]
fn command_file_error_carries_line_number() {
    let text = b"!UBX CFG-RATE 1000 1 1\n# comment\n!UBX CFG-MSG 1 2 3\n!UBX CFG-RATE bad 1 1\n";
    assert_eq!(
        parse_ubx_config(text),
        Err(ConfigError {
            line: 3,
            kind: LineError::Command(CommandError::ArgumentCount { expected: 8, got: 3 }),
        })
    );
    assert_eq!(
        parse_ubx_config(b"\n!UBX CFG-RATE\n"),
        Err(ConfigError { line: 2, kind: LineError::TooFewFields })
    );
    assert_eq!(
        parse_ubx_config(b"!UBX CFG-FOO 1"),
        Err(ConfigError { line: 1, kind: LineError::Command(CommandError::UnsupportedCommand) })
    );
}

#[test]
fn lines_that_are_no_commands_are_passed_over() {
    assert_eq!(parse_ubx_line(b"hello"), None);
    assert_eq!(parse_ubx_line(b"!UBX"), None);
    assert_eq!(parse_ubx_line(b"!UBX "), None);
    assert_eq!(parse_ubx_line(b"!UBX\tCFG-RATE 1 1 1"), None);
    assert_eq!(parse_ubx_line(b"!UBX   CFG-RATE   1000\t1 1  "), Some(Ok(vec![
        0xB5, 0x62, 0x06, 0x08, 0x06, 0x00, 0xE8, 0x03, 0x01, 0x00, 0x01, 0x00, 0x01, 0x39
    ])));
}

#[test]
fn startup_wants_one_command_at_least() {
    assert_eq!(load_ubx_commands(b"# nothing here\n"), Err(StartupError::NoCommands));
    assert_eq!(load_ubx_commands(b""), Err(StartupError::NoCommands));
    assert_eq!(
        load_ubx_commands(b"!UBX CFG-RATE x 1 1\n"),
        Err(StartupError::Config(ConfigError {
            line: 1,
            kind: LineError::Command(CommandError::Argument {
                index: 0,
                error: TokenError::InvalidInteger
            }),
        }))
    );
    assert_eq!(load_ubx_commands(b"!UBX CFG-RATE 1000 1 1\n").unwrap().len(), 1);
}
