use tftpd::decimal::{parse_decimal, push_decimal};
use tftpd::path::resolve_path;
use tftpd::server::{all_valid, handle_request, open_failure_reply, Decision, OpenFailure};
use tftpd::{ErrorCode, Message, Mode, ParseError, TftpOption};

const ROOT: &str = "/srv/tftp/static";

fn read_request(name: &str, mode: Mode, options: Vec<TftpOption>) -> Vec<u8> {
    Message::Read { filename: name.to_string(), mode, options }.into_packet()
}

fn explicit(code: ErrorCode, text: &str) -> Decision {
    Decision::Reply(code.into_explicit_message(text).into_packet())
}

#[test]
fn traversal_out_of_root_is_refused() {
    let d = handle_request(&read_request("../etc/passwd", Mode::Octet, vec![]), ROOT);
    assert_eq!(d, explicit(ErrorCode::AccessViolation, "Illegal path"));
}

#[test]
fn absolute_name_outside_root_is_refused() {
    let d = handle_request(&read_request("/etc/passwd", Mode::Octet, vec![]), ROOT);
    assert_eq!(d, explicit(ErrorCode::AccessViolation, "Illegal path"));
}

#[test]
fn netascii_read_is_refused() {
    let d = handle_request(&read_request("hello.txt", Mode::NetAscii, vec![]), ROOT);
    assert_eq!(d, explicit(ErrorCode::IllegalOperation, "Only Octet transfers are supported"));
}

#[test]
fn write_is_refused() {
    let packet =
        Message::Write { filename: "x".to_string(), mode: Mode::Octet, options: vec![] }.into_packet();
    assert_eq!(
        handle_request(&packet, ROOT),
        explicit(ErrorCode::IllegalOperation, "No write permission")
    );
}

#[test]
fn stray_ack_is_answered() {
    assert_eq!(
        handle_request(&Message::Ack(3).into_packet(), ROOT),
        Decision::Reply(ErrorCode::IllegalOperation.into_message().into_packet())
    );
}

#[test]
fn garbage_is_ignored() {
    assert_eq!(
        handle_request(&[0, 9, 1, 1], ROOT),
        Decision::Ignore(ParseError::InvalidOpcode(9))
    );
    assert_eq!(
        handle_request(&[1], ROOT),
        Decision::Ignore(ParseError::CorruptPacket("Truncated Read/Write packet".to_string()))
    );
}

#[test]
fn valid_read_is_served() {
    let opts = vec![TftpOption::BlockSize(1024)];
    let d = handle_request(&read_request("hello.txt", Mode::Octet, opts.clone()), ROOT);
    assert_eq!(
        d,
        Decision::Serve { path: b"/srv/tftp/static/hello.txt".to_vec(), options: opts }
    );
}

#[test]
fn paths_are_normalized_inside_root() {
    assert_eq!(
        resolve_path(ROOT, "a/../../static/./x//y"),
        Some(b"/srv/tftp/static/x/y".to_vec())
    );
    assert_eq!(resolve_path(ROOT, "/srv/tftp/static/z"), Some(b"/srv/tftp/static/z".to_vec()));
    assert_eq!(resolve_path(ROOT, "a/../../other"), None);
    assert_eq!(resolve_path("/", "../../etc"), Some(b"/etc".to_vec()));
    assert_eq!(resolve_path("files", "a/b"), Some(b"files/a/b".to_vec()));
    assert_eq!(resolve_path("files", "../files2/a"), None);
    assert_eq!(resolve_path(".", "../x"), None);
    assert_eq!(resolve_path(".", "x"), Some(b"x".to_vec()));
}

#[test]
fn open_failures_map_to_errors() {
    assert_eq!(
        open_failure_reply(OpenFailure::NotFound, "ignored"),
        ErrorCode::FileNotFound.into_message().into_packet()
    );
    assert_eq!(
        open_failure_reply(OpenFailure::PermissionDenied, "ignored"),
        ErrorCode::AccessViolation.into_explicit_message("Permission denied").into_packet()
    );
    assert_eq!(
        open_failure_reply(OpenFailure::Other, "disk on fire"),
        ErrorCode::NotDefined.into_explicit_message("disk on fire").into_packet()
    );
}

#[test]
fn option_validity() {
    assert!(all_valid(&[TftpOption::BlockSize(8), TftpOption::Timeout(1)]));
    assert!(!all_valid(&[TftpOption::BlockSize(7)]));
    assert!(!all_valid(&[TftpOption::Timeout(0)]));
    assert!(all_valid(&[]));
}

#[test]
fn decimal_text_both_ways() {
    let mut out = Vec::new();
    push_decimal(&mut out, 1234567890);
    assert_eq!(out, b"1234567890".to_vec());
    let mut zero = Vec::new();
    push_decimal(&mut zero, 0);
    assert_eq!(zero, b"0".to_vec());
    assert_eq!(parse_decimal(b"00042", 100), Some(42));
    assert_eq!(parse_decimal(b"101", 100), None);
    assert_eq!(parse_decimal(b"+7", 100), Some(7));
    assert_eq!(parse_decimal(b"+", 100), None);
    assert_eq!(parse_decimal(b"", 100), None);
    assert_eq!(parse_decimal(b"4 2", 100), None);
}
