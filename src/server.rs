//! What the listening socket does with each datagram it receives.
use vstd::prelude::*;
use vstd::utf8::encode_utf8;

use crate::message::{
    decode, encode, option_valid, options_valid, parse_message, ErrorCode, Message, MessageModel,
    Mode, ParseError, ParseErrorModel, TftpOption,
};
use crate::path::{resolve, resolve_path};
use crate::session::error_packet;

verus! {

/// What to do with a datagram that reached the listening socket.
#[derive(Debug, PartialEq, Eq)]
pub enum Decision {
    /// It could not be decoded, for this reason: drop it.
    Ignore(ParseError),
    /// Send this packet back to its sender.
    Reply(Vec<u8>),
    /// Open this file and start a transfer of it with these options.
    Serve { path: Vec<u8>, options: Vec<TftpOption> },
}

/// What a `Decision` holds, as mathematical values.
pub enum DecisionModel {
    Ignore(ParseErrorModel),
    Reply(Seq<u8>),
    Serve { path: Seq<u8>, options: Seq<TftpOption> },
}

impl View for Decision {
    type V = DecisionModel;

    open spec fn view(&self) -> DecisionModel {
        match self {
            Decision::Ignore(e) => DecisionModel::Ignore(e@),
            Decision::Reply(p) => DecisionModel::Reply(p@),
            Decision::Serve { path, options } => DecisionModel::Serve {
                path: path@,
                options: options@,
            },
        }
    }
}

/// The wire form of an error with the given text.
pub open spec fn explicit_error(code: ErrorCode, text: Seq<char>) -> Seq<u8> {
    encode(MessageModel::Error { code, message: text })
}

/// The decision for datagram `d`, with files served from `root`.
pub open spec fn request_decision(d: Seq<u8>, root: Seq<u8>) -> DecisionModel {
    match decode(d) {
        Err(e) => DecisionModel::Ignore(e),
        Ok(MessageModel::Write { .. }) => DecisionModel::Reply(
            explicit_error(ErrorCode::IllegalOperation, "No write permission"@),
        ),
        Ok(MessageModel::Read { filename, mode, options }) => if mode != Mode::Octet {
            DecisionModel::Reply(
                explicit_error(ErrorCode::IllegalOperation, "Only Octet transfers are supported"@),
            )
        } else {
            match resolve(root, encode_utf8(filename)) {
                None => DecisionModel::Reply(explicit_error(ErrorCode::AccessViolation, "Illegal path"@)),
                Some(path) => DecisionModel::Serve { path, options },
            }
        },
        Ok(_) => DecisionModel::Reply(error_packet(ErrorCode::IllegalOperation)),
    }
}

/// Decides what to do with a datagram received on the listening socket,
/// with files served from `root`. Nothing is opened here: a `Serve` names a
/// path already checked to lie inside the root.
pub fn handle_request(datagram: &[u8], root: &str) -> (r: Decision)
    ensures
        r@ == request_decision(datagram@, encode_utf8(root@)),
{
    match parse_message(datagram) {
        Err(e) => Decision::Ignore(e),
        Ok(Message::Write { .. }) => Decision::Reply(
            ErrorCode::IllegalOperation.into_explicit_message("No write permission").into_packet(),
        ),
        Ok(Message::Read { filename, mode, options }) => {
            match mode {
                Mode::Octet => {},
                _ => {
                    return Decision::Reply(
                        ErrorCode::IllegalOperation.into_explicit_message(
                            "Only Octet transfers are supported",
                        ).into_packet(),
                    );
                },
            }
            match resolve_path(root, filename.as_str()) {
                None => Decision::Reply(
                    ErrorCode::AccessViolation.into_explicit_message("Illegal path").into_packet(),
                ),
                Some(path) => Decision::Serve { path, options },
            }
        },
        Ok(_) => Decision::Reply(ErrorCode::IllegalOperation.into_message().into_packet()),
    }
}

/// Why a file could not be opened.
#[derive(Debug, Clone, Copy, PartialEq, Eq, Structural)]
pub enum OpenFailure {
    NotFound,
    PermissionDenied,
    /// Any other failure; the caller passes its description.
    Other,
}

/// The error packet that answers a failed open.
pub fn open_failure_reply(failure: OpenFailure, detail: &str) -> (r: Vec<u8>)
    ensures
        r@ == (match failure {
            OpenFailure::NotFound => error_packet(ErrorCode::FileNotFound),
            OpenFailure::PermissionDenied => explicit_error(
                ErrorCode::AccessViolation,
                "Permission denied"@,
            ),
            OpenFailure::Other => explicit_error(ErrorCode::NotDefined, detail@),
        }),
{
    match failure {
        OpenFailure::NotFound => ErrorCode::FileNotFound.into_message().into_packet(),
        OpenFailure::PermissionDenied => ErrorCode::AccessViolation.into_explicit_message(
            "Permission denied",
        ).into_packet(),
        OpenFailure::Other => ErrorCode::NotDefined.into_explicit_message(detail).into_packet(),
    }
}

/// Whether every option lies in its range.
pub fn all_valid(options: &[TftpOption]) -> (r: bool)
    ensures
        r == options_valid(options@),
{
    let mut i: usize = 0;
    while i < options.len()
        invariant
            i <= options.len(),
            forall|j: int| 0 <= j < i ==> option_valid(#[trigger] options@[j]),
        decreases options.len() - i,
    {
        let ok = match options[i] {
            TftpOption::BlockSize(v) => 7 < v && v < 65465,
            TftpOption::Timeout(v) => 1 <= v,
            TftpOption::TransferSize(_) => true,
        };
        if !ok {
            assert(!option_valid(options@[i as int]));
            return false;
        }
        i = i + 1;
    }
    true
}

} // verus!
