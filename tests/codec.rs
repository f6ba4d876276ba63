use tftpd::{parse_message, ErrorCode, Message, Mode, ParseError, TftpOption};

fn error_bytes(code: u8, text: &str) -> Vec<u8> {
    let mut v = vec![0, 5, 0, code];
    v.extend_from_slice(text.as_bytes());
    v.push(0);
    v
}

#[test]
fn encode_oack() {
    let options = vec![
        TftpOption::BlockSize(1024),
        TftpOption::TransferSize(100000000),
    ];
    let msg = Message::OptionAck { options };
    let packet = msg.into_packet();
    println!("{:?}", packet);
    let mut expected = vec![0u8, 6];
    expected.extend_from_slice(b"blksize\x001024\x00tsize\x00100000000\x00");
    assert_eq!(packet, expected);
}

#[test]
fn encode_data_packet() {
    let msg = Message::Data { block: 258, payload: vec![1, 2, 3] };
    assert_eq!(msg.into_packet(), vec![0, 3, 1, 2, 1, 2, 3]);
}

#[test]
fn encode_empty_data_packet() {
    let msg = Message::Data { block: 1, payload: vec![] };
    assert_eq!(msg.into_packet(), vec![0, 3, 0, 1]);
}

#[test]
fn encode_ack_packet() {
    assert_eq!(Message::Ack(513).into_packet(), vec![0, 4, 2, 1]);
}

#[test]
fn encode_read_request() {
    let msg = Message::Read {
        filename: "a.txt".to_string(),
        mode: Mode::Octet,
        options: vec![TftpOption::Timeout(5)],
    };
    let mut expected = vec![0u8, 1];
    expected.extend_from_slice(b"a.txt\x00octet\x00timeout\x005\x00");
    assert_eq!(msg.into_packet(), expected);
}

#[test]
fn error_codes_have_canonical_texts_and_numbers() {
    let cases = [
        (ErrorCode::NotDefined, 1u8, "Not defined"),
        (ErrorCode::FileNotFound, 2, "File not found"),
        (ErrorCode::AccessViolation, 3, "Access violation"),
        (ErrorCode::DiskFull, 4, "Disk full"),
        (ErrorCode::IllegalOperation, 5, "Illegal operation"),
        (ErrorCode::UnknownTransferId, 6, "Unknown TID"),
        (ErrorCode::FileAlreadyExists, 7, "File already exists"),
        (ErrorCode::NoSuchUser, 8, "No such user"),
        (ErrorCode::OptionNegotiationError, 9, "Error during option negotiation"),
    ];
    for (code, number, text) in cases {
        assert_eq!(code.number(), number as u16);
        let msg = code.into_message();
        assert_eq!(msg, Message::Error { code, message: text.to_string() });
        assert_eq!(msg.into_packet(), error_bytes(number, text));
    }
}

#[test]
fn explicit_error_message() {
    let msg = ErrorCode::AccessViolation.into_explicit_message("Illegal path");
    assert_eq!(
        msg,
        Message::Error { code: ErrorCode::AccessViolation, message: "Illegal path".to_string() }
    );
    assert_eq!(msg.into_packet(), error_bytes(3, "Illegal path"));
}

#[test]
fn round_trip_read_request() {
    let msg = Message::Read {
        filename: "dir/file.bin".to_string(),
        mode: Mode::Octet,
        options: vec![
            TftpOption::BlockSize(1428),
            TftpOption::Timeout(255),
            TftpOption::TransferSize(0),
        ],
    };
    assert_eq!(parse_message(&msg.clone().into_packet()), Ok(msg));
}

#[test]
fn round_trip_write_request_with_unicode_name() {
    let msg = Message::Write {
        filename: "données-✓.txt".to_string(),
        mode: Mode::NetAscii,
        options: vec![],
    };
    assert_eq!(parse_message(&msg.clone().into_packet()), Ok(msg));
}

#[test]
fn round_trip_data_ack_error() {
    let msgs = vec![
        Message::Data { block: 65535, payload: vec![0, 0, 7, 255] },
        Message::Data { block: 1, payload: vec![] },
        Message::Ack(0),
        Message::Ack(40000),
        Message::Error { code: ErrorCode::DiskFull, message: "no room ✗".to_string() },
        Message::Error { code: ErrorCode::NoSuchUser, message: String::new() },
    ];
    for msg in msgs {
        assert_eq!(parse_message(&msg.clone().into_packet()), Ok(msg));
    }
}

#[test]
fn parse_truncated_packet() {
    assert_eq!(
        parse_message(&[0, 4, 1]),
        Err(ParseError::CorruptPacket("Truncated Read/Write packet".to_string()))
    );
    assert_eq!(
        parse_message(&[]),
        Err(ParseError::CorruptPacket("Truncated Read/Write packet".to_string()))
    );
}

#[test]
fn parse_invalid_opcodes() {
    assert_eq!(parse_message(&[0, 6, 0, 0]), Err(ParseError::InvalidOpcode(6)));
    assert_eq!(parse_message(&[0, 0, 0, 0]), Err(ParseError::InvalidOpcode(0)));
    assert_eq!(parse_message(&[1, 1, 0, 0]), Err(ParseError::InvalidOpcode(257)));
}

#[test]
fn parse_short_request_body() {
    assert_eq!(
        parse_message(&[0, 1, b'a', 0]),
        Err(ParseError::CorruptPacket("Too short packet".to_string()))
    );
}

#[test]
fn parse_request_missing_arguments() {
    assert_eq!(
        parse_message(b"\x00\x01abcd"),
        Err(ParseError::CorruptPacket("Missing arguments".to_string()))
    );
}

#[test]
fn parse_request_bad_mode() {
    assert_eq!(
        parse_message(b"\x00\x01file\x00binary\x00"),
        Err(ParseError::InvalidString("binary".to_string()))
    );
}

#[test]
fn parse_request_mode_ignores_case() {
    let r = parse_message(b"\x00\x01file\x00OcTeT\x00").unwrap();
    assert_eq!(
        r,
        Message::Read { filename: "file".to_string(), mode: Mode::Octet, options: vec![] }
    );
    let r = parse_message(b"\x00\x02file\x00MAIL\x00").unwrap();
    assert_eq!(
        r,
        Message::Write { filename: "file".to_string(), mode: Mode::Mail, options: vec![] }
    );
}

#[test]
fn parse_request_options_filtering() {
    let r = parse_message(
        b"\x00\x01f\x00octet\x00BlkSize\x00+1024\x00color\x00blue\x00timeout\x00x\x00tsize\x0042\x00dangling\x00",
    )
    .unwrap();
    assert_eq!(
        r,
        Message::Read {
            filename: "f".to_string(),
            mode: Mode::Octet,
            options: vec![TftpOption::BlockSize(1024), TftpOption::TransferSize(42)],
        }
    );
}

#[test]
fn parse_request_invalid_utf8_name() {
    let r = parse_message(b"\x00\x01a\xffb\x00octet\x00").unwrap();
    assert_eq!(
        r,
        Message::Read { filename: "a\u{FFFD}b".to_string(), mode: Mode::Octet, options: vec![] }
    );
}

fn parsed_option(name: &str, value: &str) -> Vec<TftpOption> {
    let mut packet = b"\x00\x01f\x00octet\x00".to_vec();
    packet.extend_from_slice(name.as_bytes());
    packet.push(0);
    packet.extend_from_slice(value.as_bytes());
    packet.push(0);
    match parse_message(&packet).unwrap() {
        Message::Read { options, .. } => options,
        other => panic!("unexpected {:?}", other),
    }
}

#[test]
fn blksize_range() {
    assert_eq!(parsed_option("blksize", "7"), vec![]);
    assert_eq!(parsed_option("blksize", "8"), vec![TftpOption::BlockSize(8)]);
    assert_eq!(parsed_option("blksize", "512"), vec![TftpOption::BlockSize(512)]);
    assert_eq!(parsed_option("blksize", "65464"), vec![TftpOption::BlockSize(65464)]);
    assert_eq!(parsed_option("blksize", "65465"), vec![]);
    assert_eq!(parsed_option("blksize", "65536"), vec![]);
    assert_eq!(parsed_option("blksize", "0"), vec![]);
    assert_eq!(parsed_option("blksize", ""), vec![]);
    assert_eq!(parsed_option("blksize", "-9"), vec![]);
}

#[test]
fn timeout_range() {
    assert_eq!(parsed_option("timeout", "0"), vec![]);
    assert_eq!(parsed_option("timeout", "1"), vec![TftpOption::Timeout(1)]);
    assert_eq!(parsed_option("timeout", "255"), vec![TftpOption::Timeout(255)]);
    assert_eq!(parsed_option("timeout", "256"), vec![]);
    assert_eq!(parsed_option("TIMEOUT", "30"), vec![TftpOption::Timeout(30)]);
}

#[test]
fn tsize_values() {
    assert_eq!(
        parsed_option("tsize", "18446744073709551615"),
        vec![TftpOption::TransferSize(u64::MAX)]
    );
    assert_eq!(parsed_option("tsize", "18446744073709551616"), vec![]);
    assert_eq!(parsed_option("tsize", "12a"), vec![]);
}

#[test]
fn parse_error_messages() {
    assert_eq!(
        parse_message(b"\x00\x05\x00\x02gone\x00"),
        Ok(Message::Error { code: ErrorCode::FileNotFound, message: "gone".to_string() })
    );
    assert_eq!(
        parse_message(b"\x00\x05\x00\x0agone\x00"),
        Err(ParseError::CorruptPacket("Unknown error code".to_string()))
    );
    assert_eq!(
        parse_message(b"\x00\x05\x00\x02gone"),
        Err(ParseError::CorruptPacket("Unterminated error message".to_string()))
    );
}
