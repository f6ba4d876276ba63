use tftpd::options::{get_block_size, get_timeout, get_transfer_size};
use tftpd::session::{Action, Phase, Session};
use tftpd::{ErrorCode, Message, TftpOption};

fn ack(block: u16) -> Vec<u8> {
    Message::Ack(block).into_packet()
}

/// Runs a transfer of `file` to a peer that acknowledges every packet at
/// once, and returns the Data packets sent.
fn run_transfer(file: &[u8], options: Vec<TftpOption>) -> (Vec<Message>, Phase) {
    let (mut s, mut action) = Session::start(options, file.len() as u64).unwrap();
    let mut offset = 0usize;
    let mut sent = Vec::new();
    loop {
        match action {
            Action::ReadBlock => {
                let end = usize::min(offset + s.block_size, file.len());
                let chunk = file[offset..end].to_vec();
                offset = end;
                action = s.on_block(chunk);
            }
            Action::Transmit => {
                let msg = tftpd::parse_message(&s.packet);
                if let Ok(m @ Message::Data { .. }) = msg {
                    sent.push(m);
                }
                let reply = ack(s.block);
                action = s.on_datagram(&reply);
            }
            Action::Finish | Action::Abort(_) => break,
            other => panic!("unexpected {:?}", other),
        }
    }
    (sent, s.phase)
}

fn data(block: u16, len: usize, fill: u8) -> Message {
    Message::Data { block, payload: vec![fill; len] }
}

#[test]
fn file_of_1000_bytes_takes_two_blocks() {
    let file = vec![7u8; 1000];
    let (sent, phase) = run_transfer(&file, vec![]);
    assert_eq!(sent, vec![data(1, 512, 7), data(2, 488, 7)]);
    assert_eq!(phase, Phase::Done);
}

#[test]
fn empty_file_takes_one_empty_block() {
    let (sent, phase) = run_transfer(&[], vec![]);
    assert_eq!(sent, vec![data(1, 0, 0)]);
    assert_eq!(phase, Phase::Done);
}

#[test]
fn file_of_exact_multiple_ends_with_empty_block() {
    let file = vec![1u8; 1024];
    let (sent, phase) = run_transfer(&file, vec![]);
    assert_eq!(sent, vec![data(1, 512, 1), data(2, 512, 1), data(3, 0, 1)]);
    assert_eq!(phase, Phase::Done);
}

#[test]
fn negotiated_block_size_is_used_after_oack() {
    let file = vec![3u8; 20];
    let (sent, phase) = run_transfer(&file, vec![TftpOption::BlockSize(8)]);
    assert_eq!(sent, vec![data(1, 8, 3), data(2, 8, 3), data(3, 4, 3)]);
    assert_eq!(phase, Phase::Done);
}

#[test]
fn option_handshake_comes_first() {
    let (s, action) =
        Session::start(vec![TftpOption::BlockSize(1024), TftpOption::Timeout(2)], 10).unwrap();
    assert_eq!(action, Action::Transmit);
    assert_eq!(s.phase, Phase::AwaitingAck);
    assert_eq!(s.block, 0);
    assert_eq!(s.block_size, 1024);
    assert_eq!(s.timeout_ms, 2000);
    assert_eq!(
        s.packet,
        Message::OptionAck { options: vec![TftpOption::BlockSize(1024), TftpOption::Timeout(2)] }
            .into_packet()
    );
    let mut s = s;
    assert_eq!(s.on_datagram(&ack(0)), Action::ReadBlock);
    assert_eq!(s.phase, Phase::Sending);
}

#[test]
fn no_options_means_no_handshake() {
    let (s, action) = Session::start(vec![], 10).unwrap();
    assert_eq!(action, Action::ReadBlock);
    assert_eq!(s.phase, Phase::Sending);
    assert_eq!(s.block_size, 512);
    assert_eq!(s.timeout_ms, 3000);
}

#[test]
fn declared_size_larger_than_file_is_refused() {
    let r = Session::start(vec![TftpOption::TransferSize(100000000)], 50);
    match r {
        Err(m) => assert_eq!(
            m,
            Message::Error {
                code: ErrorCode::OptionNegotiationError,
                message: "File too large".to_string()
            }
        ),
        Ok(_) => panic!("a transfer was started"),
    }
}

#[test]
fn declared_size_equal_to_file_is_accepted() {
    let (s, action) = Session::start(vec![TftpOption::TransferSize(50)], 50).unwrap();
    assert_eq!(action, Action::Transmit);
    assert_eq!(s.block, 0);
}

#[test]
fn five_transmissions_then_failure() {
    let (mut s, _) = Session::start(vec![], 3).unwrap();
    assert_eq!(s.on_block(vec![1, 2, 3]), Action::Transmit);
    let mut transmissions = 1;
    loop {
        match s.on_timeout() {
            Action::Transmit => transmissions += 1,
            Action::Finish => break,
            other => panic!("unexpected {:?}", other),
        }
    }
    assert_eq!(transmissions, 5);
    assert_eq!(s.attempts, 5);
    assert_eq!(s.phase, Phase::Failed);
    assert!(s.is_over());
}

#[test]
fn stray_messages_are_answered_without_advancing() {
    let (mut s, _) = Session::start(vec![], 600).unwrap();
    s.on_block(vec![0; 512]);
    s.on_timeout();
    let illegal = ErrorCode::IllegalOperation.into_message().into_packet();
    assert_eq!(s.on_datagram(&ack(7)), Action::Reply(illegal.clone()));
    assert_eq!(s.on_datagram(&Message::Data { block: 1, payload: vec![] }.into_packet()), Action::Reply(illegal));
    assert_eq!(s.on_datagram(&[9, 9]), Action::Wait);
    assert_eq!(s.phase, Phase::AwaitingAck);
    assert_eq!(s.block, 1);
    assert_eq!(s.attempts, 1);
    assert_eq!(s.on_datagram(&ack(1)), Action::ReadBlock);
    assert_eq!(s.attempts, 0);
}

#[test]
fn read_failure_aborts_with_error() {
    let (mut s, _) = Session::start(vec![], 600).unwrap();
    assert_eq!(
        s.on_read_error(),
        Action::Abort(ErrorCode::NotDefined.into_message().into_packet())
    );
    assert_eq!(s.phase, Phase::Failed);
}

#[test]
fn option_lookup_takes_first_or_default() {
    let opts = [
        TftpOption::TransferSize(9),
        TftpOption::BlockSize(1000),
        TftpOption::BlockSize(2000),
        TftpOption::Timeout(4),
    ];
    assert_eq!(get_block_size(&opts), 1000);
    assert_eq!(get_timeout(&opts), 4000);
    assert_eq!(get_transfer_size(&opts), Some(9));
    assert_eq!(get_block_size(&[]), 512);
    assert_eq!(get_timeout(&[]), 3000);
    assert_eq!(get_transfer_size(&[]), None);
}
