//! TFTP messages, their wire encoding, and the decoder for incoming datagrams.
use vstd::prelude::*;
use vstd::slice::{slice_subrange, slice_to_vec};
use vstd::utf8::{decode_utf8, encode_scalar, encode_utf8, has_width_1_encoding, valid_utf8};

use crate::decimal::{decimal_text, decimal_value, parse_decimal, push_decimal};

verus! {

/// Transfer mode named in a request.
#[derive(Debug, Clone, Copy, PartialEq, Eq, Structural)]
pub enum Mode {
    NetAscii,
    Octet,
    Mail,
}

/// The error kinds of an Error message.
#[derive(Debug, Clone, Copy, PartialEq, Eq, Structural)]
pub enum ErrorCode {
    NotDefined,
    FileNotFound,
    AccessViolation,
    DiskFull,
    IllegalOperation,
    UnknownTransferId,
    FileAlreadyExists,
    NoSuchUser,
    OptionNegotiationError,
}

/// A negotiated transfer option.
#[derive(Debug, Clone, Copy, PartialEq, Eq, Structural)]
pub enum TftpOption {
    BlockSize(u16),
    Timeout(u8),
    TransferSize(u64),
}

/// A TFTP message.
#[derive(Debug, Clone, PartialEq, Eq)]
pub enum Message {
    Read { filename: String, mode: Mode, options: Vec<TftpOption> },
    Write { filename: String, mode: Mode, options: Vec<TftpOption> },
    Data { block: u16, payload: Vec<u8> },
    Ack(u16),
    Error { code: ErrorCode, message: String },
    OptionAck { options: Vec<TftpOption> },
}

/// Why a datagram could not be decoded.
#[derive(Debug, Clone, PartialEq, Eq)]
pub enum ParseError {
    CorruptPacket(String),
    InvalidOpcode(u16),
    InvalidString(String),
}

/// What a `Message` holds, as mathematical values.
pub enum MessageModel {
    Read { filename: Seq<char>, mode: Mode, options: Seq<TftpOption> },
    Write { filename: Seq<char>, mode: Mode, options: Seq<TftpOption> },
    Data { block: u16, payload: Seq<u8> },
    Ack(u16),
    Error { code: ErrorCode, message: Seq<char> },
    OptionAck { options: Seq<TftpOption> },
}

/// What a `ParseError` holds, as mathematical values.
pub enum ParseErrorModel {
    CorruptPacket(Seq<char>),
    InvalidOpcode(u16),
    InvalidString(Seq<char>),
}

impl View for Message {
    type V = MessageModel;

    open spec fn view(&self) -> MessageModel {
        match self {
            Message::Read { filename, mode, options } => MessageModel::Read {
                filename: filename@,
                mode: *mode,
                options: options@,
            },
            Message::Write { filename, mode, options } => MessageModel::Write {
                filename: filename@,
                mode: *mode,
                options: options@,
            },
            Message::Data { block, payload } => MessageModel::Data {
                block: *block,
                payload: payload@,
            },
            Message::Ack(block) => MessageModel::Ack(*block),
            Message::Error { code, message } => MessageModel::Error {
                code: *code,
                message: message@,
            },
            Message::OptionAck { options } => MessageModel::OptionAck { options: options@ },
        }
    }
}

impl View for ParseError {
    type V = ParseErrorModel;

    open spec fn view(&self) -> ParseErrorModel {
        match self {
            ParseError::CorruptPacket(s) => ParseErrorModel::CorruptPacket(s@),
            ParseError::InvalidOpcode(c) => ParseErrorModel::InvalidOpcode(*c),
            ParseError::InvalidString(s) => ParseErrorModel::InvalidString(s@),
        }
    }
}

/// The outcome of decoding, as mathematical values.
pub open spec fn result_view(r: Result<Message, ParseError>) -> Result<MessageModel, ParseErrorModel> {
    match r {
        Ok(m) => Ok(m@),
        Err(e) => Err(e@),
    }
}

// ---------------------------------------------------------------------------
// Fixed texts and numbers

/// Opcode of a read request.
pub const OP_READ: u16 = 1;
/// Opcode of a write request.
pub const OP_WRITE: u16 = 2;
/// Opcode of a Data message.
pub const OP_DATA: u16 = 3;
/// Opcode of an acknowledgement.
pub const OP_ACK: u16 = 4;
/// Opcode of an Error message.
pub const OP_ERROR: u16 = 5;
/// Opcode of an option acknowledgement.
pub const OP_OACK: u16 = 6;

/// The wire number of an error code.
pub open spec fn error_number(c: ErrorCode) -> u16 {
    match c {
        ErrorCode::NotDefined => 1,
        ErrorCode::FileNotFound => 2,
        ErrorCode::AccessViolation => 3,
        ErrorCode::DiskFull => 4,
        ErrorCode::IllegalOperation => 5,
        ErrorCode::UnknownTransferId => 6,
        ErrorCode::FileAlreadyExists => 7,
        ErrorCode::NoSuchUser => 8,
        ErrorCode::OptionNegotiationError => 9,
    }
}

/// The error code with a given wire number.
pub open spec fn error_code_of(n: u16) -> Option<ErrorCode> {
    if n == 1 {
        Some(ErrorCode::NotDefined)
    } else if n == 2 {
        Some(ErrorCode::FileNotFound)
    } else if n == 3 {
        Some(ErrorCode::AccessViolation)
    } else if n == 4 {
        Some(ErrorCode::DiskFull)
    } else if n == 5 {
        Some(ErrorCode::IllegalOperation)
    } else if n == 6 {
        Some(ErrorCode::UnknownTransferId)
    } else if n == 7 {
        Some(ErrorCode::FileAlreadyExists)
    } else if n == 8 {
        Some(ErrorCode::NoSuchUser)
    } else if n == 9 {
        Some(ErrorCode::OptionNegotiationError)
    } else {
        None
    }
}

/// The canonical text of an error code.
pub open spec fn error_text(c: ErrorCode) -> Seq<char> {
    match c {
        ErrorCode::NotDefined => "Not defined"@,
        ErrorCode::FileNotFound => "File not found"@,
        ErrorCode::AccessViolation => "Access violation"@,
        ErrorCode::DiskFull => "Disk full"@,
        ErrorCode::IllegalOperation => "Illegal operation"@,
        ErrorCode::UnknownTransferId => "Unknown TID"@,
        ErrorCode::FileAlreadyExists => "File already exists"@,
        ErrorCode::NoSuchUser => "No such user"@,
        ErrorCode::OptionNegotiationError => "Error during option negotiation"@,
    }
}

/// The lower-case name of a mode, as sent on the wire.
pub open spec fn mode_name(m: Mode) -> Seq<u8> {
    match m {
        Mode::NetAscii => seq![110u8, 101, 116, 97, 115, 99, 105, 105] /* "netascii" */,
        Mode::Octet => seq![111u8, 99, 116, 101, 116] /* "octet" */,
        Mode::Mail => seq![109u8, 97, 105, 108] /* "mail" */,
    }
}

/// The name of the block size option.
pub open spec fn blksize_name() -> Seq<u8> {
    seq![98u8, 108, 107, 115, 105, 122, 101] /* "blksize" */
}

/// The name of the timeout option.
pub open spec fn timeout_name() -> Seq<u8> {
    seq![116u8, 105, 109, 101, 111, 117, 116] /* "timeout" */
}

/// The name of the transfer size option.
pub open spec fn tsize_name() -> Seq<u8> {
    seq![116u8, 115, 105, 122, 101] /* "tsize" */
}

/// The name of an option, as sent on the wire.
pub open spec fn option_name(o: TftpOption) -> Seq<u8> {
    match o {
        TftpOption::BlockSize(_) => blksize_name(),
        TftpOption::Timeout(_) => timeout_name(),
        TftpOption::TransferSize(_) => tsize_name(),
    }
}

/// The number an option carries.
pub open spec fn option_number(o: TftpOption) -> nat {
    match o {
        TftpOption::BlockSize(v) => v as nat,
        TftpOption::Timeout(v) => v as nat,
        TftpOption::TransferSize(v) => v as nat,
    }
}

/// Whether an option's value lies in the range its option allows.
pub open spec fn option_valid(o: TftpOption) -> bool {
    match o {
        TftpOption::BlockSize(v) => 7 < v < 65465,
        TftpOption::Timeout(v) => 1 <= v,
        TftpOption::TransferSize(_) => true,
    }
}

/// Whether every option lies in its range.
pub open spec fn options_valid(os: Seq<TftpOption>) -> bool {
    forall|i: int| 0 <= i < os.len() ==> option_valid(#[trigger] os[i])
}

// ---------------------------------------------------------------------------
// Encoding

/// A 16-bit number, most significant byte first.
pub open spec fn be16(v: u16) -> Seq<u8> {
    seq![(v / 256) as u8, (v % 256) as u8]
}

/// One option as a name and a decimal value, each closed by a zero byte.
pub open spec fn option_bytes(o: TftpOption) -> Seq<u8> {
    option_name(o) + seq![0u8] + decimal_text(option_number(o)) + seq![0u8]
}

/// A list of options, one after the other.
pub open spec fn options_bytes(os: Seq<TftpOption>) -> Seq<u8>
    decreases os.len(),
{
    if os.len() == 0 {
        seq![]
    } else {
        option_bytes(os[0]) + options_bytes(os.drop_first())
    }
}

/// A read or write request: opcode, file name, mode and options.
pub open spec fn request_bytes(op: u16, filename: Seq<char>, mode: Mode, os: Seq<TftpOption>) -> Seq<u8> {
    be16(op) + encode_utf8(filename) + seq![0u8] + mode_name(mode) + seq![0u8] + options_bytes(os)
}

/// The wire form of a message.
pub open spec fn encode(m: MessageModel) -> Seq<u8> {
    match m {
        MessageModel::Read { filename, mode, options } => request_bytes(1, filename, mode, options),
        MessageModel::Write { filename, mode, options } => request_bytes(2, filename, mode, options),
        MessageModel::Data { block, payload } => be16(3) + be16(block) + payload,
        MessageModel::Ack(block) => be16(4) + be16(block),
        MessageModel::Error { code, message } => be16(5) + be16(error_number(code)) + encode_utf8(
            message,
        ) + seq![0u8],
        MessageModel::OptionAck { options } => be16(6) + options_bytes(options),
    }
}

proof fn lemma_options_bytes_push(os: Seq<TftpOption>, o: TftpOption)
    ensures
        options_bytes(os.push(o)) == options_bytes(os) + option_bytes(o),
    decreases os.len(),
{
    if os.len() == 0 {
        assert(os.push(o).drop_first() =~= Seq::<TftpOption>::empty());
        assert(os.push(o)[0] == o);
        assert(options_bytes(os.push(o)) == option_bytes(o) + options_bytes(
            Seq::<TftpOption>::empty(),
        ));
        assert(options_bytes(os.push(o)) =~= options_bytes(os) + option_bytes(o));
    } else {
        lemma_options_bytes_push(os.drop_first(), o);
        assert(os.push(o).drop_first() =~= os.drop_first().push(o));
        assert(os.push(o)[0] == os[0]);
        assert(options_bytes(os.push(o)) == option_bytes(os[0]) + (options_bytes(os.drop_first())
            + option_bytes(o)));
        assert(options_bytes(os.push(o)) =~= options_bytes(os) + option_bytes(o));
    }
}

fn push_be16(out: &mut Vec<u8>, v: u16)
    ensures
        final(out)@ == old(out)@ + be16(v),
{
    out.push((v / 256) as u8);
    out.push((v % 256) as u8);
    assert(final(out)@ =~= old(out)@ + be16(v));
}

pub(crate) fn push_all(out: &mut Vec<u8>, bytes: &[u8])
    ensures
        final(out)@ == old(out)@ + bytes@,
{
    let mut i: usize = 0;
    while i < bytes.len()
        invariant
            i <= bytes.len(),
            out@ == old(out)@ + bytes@.subrange(0, i as int),
        decreases bytes.len() - i,
    {
        out.push(bytes[i]);
        i = i + 1;
        assert(out@ =~= old(out)@ + bytes@.subrange(0, i as int));
    }
    assert(bytes@.subrange(0, i as int) =~= bytes@);
}

fn mode_bytes(mode: Mode) -> (r: Vec<u8>)
    ensures
        r@ == mode_name(mode),
{
    let r = match mode {
        Mode::NetAscii => vec![110u8, 101, 116, 97, 115, 99, 105, 105] /* "netascii" */,
        Mode::Octet => vec![111u8, 99, 116, 101, 116] /* "octet" */,
        Mode::Mail => vec![109u8, 97, 105, 108] /* "mail" */,
    };
    assert(r@ =~= mode_name(mode));
    r
}

impl ErrorCode {
    /// The wire number of this code.
    pub fn number(&self) -> (r: u16)
        ensures
            r == error_number(*self),
    {
        match self {
            ErrorCode::NotDefined => 1,
            ErrorCode::FileNotFound => 2,
            ErrorCode::AccessViolation => 3,
            ErrorCode::DiskFull => 4,
            ErrorCode::IllegalOperation => 5,
            ErrorCode::UnknownTransferId => 6,
            ErrorCode::FileAlreadyExists => 7,
            ErrorCode::NoSuchUser => 8,
            ErrorCode::OptionNegotiationError => 9,
        }
    }

    /// An Error message with this code and its canonical text.
    pub fn into_message(self) -> (r: Message)
        ensures
            r@ == (MessageModel::Error { code: self, message: error_text(self) }),
    {
        let text = match self {
            ErrorCode::NotDefined => "Not defined",
            ErrorCode::FileNotFound => "File not found",
            ErrorCode::AccessViolation => "Access violation",
            ErrorCode::DiskFull => "Disk full",
            ErrorCode::IllegalOperation => "Illegal operation",
            ErrorCode::UnknownTransferId => "Unknown TID",
            ErrorCode::FileAlreadyExists => "File already exists",
            ErrorCode::NoSuchUser => "No such user",
            ErrorCode::OptionNegotiationError => "Error during option negotiation",
        };
        Message::Error { code: self, message: text.to_string() }
    }

    /// An Error message with this code and the given text.
    pub fn into_explicit_message(self, message: &str) -> (r: Message)
        ensures
            r@ == (MessageModel::Error { code: self, message: message@ }),
    {
        Message::Error { code: self, message: message.to_string() }
    }
}

impl TftpOption {
    /// The option's name.
    fn name(&self) -> (r: Vec<u8>)
        ensures
            r@ == option_name(*self),
    {
        let r = match self {
            TftpOption::BlockSize(..) => vec![98u8, 108, 107, 115, 105, 122, 101] /* "blksize" */,
            TftpOption::Timeout(..) => vec![116u8, 105, 109, 101, 111, 117, 116] /* "timeout" */,
            TftpOption::TransferSize(..) => vec![116u8, 115, 105, 122, 101] /* "tsize" */,
        };
        assert(r@ =~= option_name(*self));
        r
    }

    /// The option's value as decimal text.
    fn encoded_value(&self) -> (r: Vec<u8>)
        ensures
            r@ == decimal_text(option_number(*self)),
    {
        let mut r: Vec<u8> = Vec::new();
        match self {
            TftpOption::BlockSize(sz) => push_decimal(&mut r, *sz as u64),
            TftpOption::Timeout(tout) => push_decimal(&mut r, *tout as u64),
            TftpOption::TransferSize(tsize) => push_decimal(&mut r, *tsize),
        }
        assert(r@ =~= decimal_text(option_number(*self)));
        r
    }

    /// The option as it stands in a request or an option acknowledgement.
    fn encode(&self) -> (r: Vec<u8>)
        ensures
            r@ == option_bytes(*self),
    {
        let mut r = self.name();
        r.push(0);
        let value = self.encoded_value();
        push_all(&mut r, value.as_slice());
        r.push(0);
        assert(r@ =~= option_bytes(*self));
        r
    }
}

fn push_options(out: &mut Vec<u8>, options: &Vec<TftpOption>)
    ensures
        final(out)@ == old(out)@ + options_bytes(options@),
{
    let mut i: usize = 0;
    while i < options.len()
        invariant
            i <= options.len(),
            out@ == old(out)@ + options_bytes(options@.subrange(0, i as int)),
        decreases options.len() - i,
    {
        let encoded = options[i].encode();
        push_all(out, encoded.as_slice());
        proof {
            lemma_options_bytes_push(options@.subrange(0, i as int), options@[i as int]);
            assert(options@.subrange(0, i as int).push(options@[i as int]) =~= options@.subrange(
                0,
                i + 1,
            ));
        }
        i = i + 1;
        assert(out@ =~= old(out)@ + options_bytes(options@.subrange(0, i as int)));
    }
    assert(options@.subrange(0, i as int) =~= options@);
}

fn request_packet(op: u16, filename: &String, mode: Mode, options: &Vec<TftpOption>) -> (r: Vec<u8>)
    ensures
        r@ == request_bytes(op, filename@, mode, options@),
{
    let mut out: Vec<u8> = Vec::new();
    push_be16(&mut out, op);
    push_all(&mut out, filename.as_str().as_bytes());
    out.push(0);
    let m = mode_bytes(mode);
    push_all(&mut out, m.as_slice());
    out.push(0);
    push_options(&mut out, options);
    assert(out@ =~= request_bytes(op, filename@, mode, options@));
    out
}

impl Message {
    /// The wire form of this message.
    pub fn into_packet(self) -> (r: Vec<u8>)
        ensures
            r@ == encode(self@),
    {
        let mut out: Vec<u8> = Vec::new();
        match self {
            Message::Read { filename, mode, options } => {
                out = request_packet(OP_READ, &filename, mode, &options);
            },
            Message::Write { filename, mode, options } => {
                out = request_packet(OP_WRITE, &filename, mode, &options);
            },
            Message::Data { block, payload } => {
                push_be16(&mut out, OP_DATA);
                push_be16(&mut out, block);
                push_all(&mut out, payload.as_slice());
            },
            Message::Ack(block) => {
                push_be16(&mut out, OP_ACK);
                push_be16(&mut out, block);
            },
            Message::Error { code, message } => {
                push_be16(&mut out, OP_ERROR);
                push_be16(&mut out, code.number());
                push_all(&mut out, message.as_str().as_bytes());
                out.push(0);
            },
            Message::OptionAck { options } => {
                push_be16(&mut out, OP_OACK);
                push_options(&mut out, &options);
            },
        }
        assert(out@ =~= encode(self@));
        out
    }
}

// ---------------------------------------------------------------------------
// Decoding

/// The pieces of `b` between separator bytes: `n` separators give `n + 1`
/// pieces, empty ones included.
pub open spec fn split_on(b: Seq<u8>, sep: u8) -> Seq<Seq<u8>>
    decreases b.len(),
{
    if b.len() == 0 {
        seq![Seq::empty()]
    } else {
        let prev = split_on(b.drop_last(), sep);
        if b.last() == sep {
            prev.push(Seq::empty())
        } else {
            prev.update(prev.len() - 1, prev.last().push(b.last()))
        }
    }
}

/// The strings of a request: the pieces between zero bytes.
pub open spec fn split_nul(b: Seq<u8>) -> Seq<Seq<u8>> {
    split_on(b, 0)
}

/// The contents of a list of byte vectors.
pub open spec fn pieces_view(v: Seq<Vec<u8>>) -> Seq<Seq<u8>> {
    v.map_values(|t: Vec<u8>| t@)
}

/// ASCII upper-case letters turned to lower case; other bytes kept.
pub open spec fn lower_byte(c: u8) -> u8 {
    if 65 <= c <= 90 {
        (c + 32) as u8
    } else {
        c
    }
}

/// A byte string with its ASCII letters in lower case.
pub open spec fn ascii_lower(s: Seq<u8>) -> Seq<u8> {
    Seq::new(s.len(), |i: int| lower_byte(s[i]))
}

/// The mode that a request names, matched without regard to case.
pub open spec fn mode_of(t: Seq<u8>) -> Option<Mode> {
    if ascii_lower(t) == mode_name(Mode::NetAscii) {
        Some(Mode::NetAscii)
    } else if ascii_lower(t) == mode_name(Mode::Octet) {
        Some(Mode::Octet)
    } else if ascii_lower(t) == mode_name(Mode::Mail) {
        Some(Mode::Mail)
    } else {
        None
    }
}

/// The option that a name and a value ask for; `None` for an unknown name or
/// a value that is no number in the option's range.
pub open spec fn option_of(name: Seq<u8>, value: Seq<u8>) -> Option<TftpOption> {
    let n = ascii_lower(name);
    match decimal_value(value) {
        Some(v) => if n == blksize_name() && 7 < v < 65465 {
            Some(TftpOption::BlockSize(v as u16))
        } else if n == timeout_name() && 1 <= v <= 255 {
            Some(TftpOption::Timeout(v as u8))
        } else if n == tsize_name() && v <= u64::MAX {
            Some(TftpOption::TransferSize(v as u64))
        } else {
            None
        },
        None => None,
    }
}

/// The options that a list of (name, value) strings asks for, in order; an
/// unpaired last string is ignored.
pub open spec fn parse_options(tokens: Seq<Seq<u8>>) -> Seq<TftpOption>
    decreases tokens.len(),
{
    if tokens.len() < 2 {
        seq![]
    } else {
        let rest = parse_options(tokens.subrange(2, tokens.len() as int));
        match option_of(tokens[0], tokens[1]) {
            Some(o) => seq![o] + rest,
            None => rest,
        }
    }
}

/// What `String::from_utf8_lossy` gives for bytes that are not valid UTF-8.
pub uninterp spec fn lossy_text_of(b: Seq<u8>) -> Seq<char>;

/// The text of a byte string: its UTF-8 decoding, with invalid sequences
/// replaced.
pub open spec fn text_of(b: Seq<u8>) -> Seq<char> {
    if valid_utf8(b) {
        decode_utf8(b)
    } else {
        lossy_text_of(b)
    }
}

/// The file name, mode and options of a request body (what follows the
/// opcode).
pub open spec fn parse_request(r: Seq<u8>) -> Result<(Seq<char>, Mode, Seq<TftpOption>), ParseErrorModel> {
    let t = split_nul(r);
    if r.len() < 4 {
        Err(ParseErrorModel::CorruptPacket("Too short packet"@))
    } else if t.len() < 2 {
        Err(ParseErrorModel::CorruptPacket("Missing arguments"@))
    } else {
        match mode_of(t[1]) {
            Some(mode) => Ok((text_of(t[0]), mode, parse_options(t.subrange(2, t.len() as int)))),
            None => Err(ParseErrorModel::InvalidString(text_of(t[1]))),
        }
    }
}

/// The 16-bit number at `i`, most significant byte first.
pub open spec fn u16_at(b: Seq<u8>, i: int) -> u16 {
    (b[i] * 256 + b[i + 1]) as u16
}

/// The message that a datagram holds, or why it holds none.
pub open spec fn decode(b: Seq<u8>) -> Result<MessageModel, ParseErrorModel> {
    if b.len() < 4 {
        Err(ParseErrorModel::CorruptPacket("Truncated Read/Write packet"@))
    } else {
        let op = u16_at(b, 0);
        let rest = b.subrange(2, b.len() as int);
        if op == 1 {
            match parse_request(rest) {
                Ok(a) => Ok(MessageModel::Read { filename: a.0, mode: a.1, options: a.2 }),
                Err(e) => Err(e),
            }
        } else if op == 2 {
            match parse_request(rest) {
                Ok(a) => Ok(MessageModel::Write { filename: a.0, mode: a.1, options: a.2 }),
                Err(e) => Err(e),
            }
        } else if op == 3 {
            Ok(MessageModel::Data { block: u16_at(b, 2), payload: b.subrange(4, b.len() as int) })
        } else if op == 4 {
            Ok(MessageModel::Ack(u16_at(b, 2)))
        } else if op == 5 {
            let t = split_nul(b.subrange(4, b.len() as int));
            match error_code_of(u16_at(b, 2)) {
                None => Err(ParseErrorModel::CorruptPacket("Unknown error code"@)),
                Some(code) => if t.len() < 2 {
                    Err(ParseErrorModel::CorruptPacket("Unterminated error message"@))
                } else {
                    Ok(MessageModel::Error { code, message: text_of(t[0]) })
                },
            }
        } else {
            Err(ParseErrorModel::InvalidOpcode(op))
        }
    }
}

proof fn lemma_split_nonempty(b: Seq<u8>, sep: u8)
    ensures
        split_on(b, sep).len() >= 1,
    decreases b.len(),
{
    if b.len() > 0 {
        lemma_split_nonempty(b.drop_last(), sep);
    }
}

/// Splits `buffer` at each `sep` byte.
pub fn split_bytes(buffer: &[u8], sep: u8) -> (r: Vec<Vec<u8>>)
    ensures
        pieces_view(r@) == split_on(buffer@, sep),
{
    let mut out: Vec<Vec<u8>> = Vec::new();
    let mut cur: Vec<u8> = Vec::new();
    let mut i: usize = 0;
    assert(buffer@.subrange(0, 0) =~= Seq::<u8>::empty());
    assert(pieces_view(out@).push(cur@) =~= split_on(buffer@.subrange(0, 0), sep));
    while i < buffer.len()
        invariant
            i <= buffer.len(),
            pieces_view(out@).push(cur@) == split_on(buffer@.subrange(0, i as int), sep),
        decreases buffer.len() - i,
    {
        let ghost before = buffer@.subrange(0, i as int);
        let ghost after = buffer@.subrange(0, i + 1);
        assert(after.drop_last() =~= before);
        assert(after.last() == buffer@[i as int]);
        proof {
            lemma_split_nonempty(before, sep);
        }
        if buffer[i] == sep {
            let done = cur;
            out.push(done);
            cur = Vec::new();
            assert(pieces_view(out@).push(cur@) =~= split_on(after, sep));
        } else {
            cur.push(buffer[i]);
            assert(pieces_view(out@).push(cur@) =~= split_on(after, sep));
        }
        i = i + 1;
    }
    assert(buffer@.subrange(0, i as int) =~= buffer@);
    out.push(cur);
    assert(pieces_view(out@) =~= split_on(buffer@, sep));
    out
}

/// The strings of a request body.
fn extract_strings(buffer: &[u8]) -> (r: Vec<Vec<u8>>)
    ensures
        pieces_view(r@) == split_nul(buffer@),
{
    split_bytes(buffer, 0)
}

/// Relies on String::from_utf8_lossy: valid UTF-8 comes back decoded as it
/// is; other bytes give the text with replacement characters.
#[verifier::external_body]
fn text_from_bytes(b: &[u8]) -> (r: String)
    ensures
        valid_utf8(b@) ==> r@ == decode_utf8(b@),
        !valid_utf8(b@) ==> r@ == lossy_text_of(b@),
{
    String::from_utf8_lossy(b).into_owned()
}

/// Whether `t` equals `name` once its ASCII letters are put in lower case.
fn names_match(t: &[u8], name: &[u8]) -> (r: bool)
    ensures
        r == (ascii_lower(t@) == name@),
{
    if t.len() != name.len() {
        assert(ascii_lower(t@).len() != name@.len());
        return false;
    }
    let mut i: usize = 0;
    while i < t.len()
        invariant
            t.len() == name.len(),
            i <= t.len(),
            forall|j: int| 0 <= j < i ==> lower_byte(t@[j]) == name@[j],
        decreases t.len() - i,
    {
        let c = t[i];
        let lc: u8 = if 65 <= c && c <= 90 { c + 32 } else { c };
        if lc != name[i] {
            assert(ascii_lower(t@)[i as int] != name@[i as int]);
            return false;
        }
        i = i + 1;
    }
    assert(ascii_lower(t@) =~= name@);
    true
}

fn mode_of_token(t: &[u8]) -> (r: Option<Mode>)
    ensures
        r == mode_of(t@),
{
    let netascii = mode_bytes(Mode::NetAscii);
    let octet = mode_bytes(Mode::Octet);
    let mail = mode_bytes(Mode::Mail);
    if names_match(t, netascii.as_slice()) {
        Some(Mode::NetAscii)
    } else if names_match(t, octet.as_slice()) {
        Some(Mode::Octet)
    } else if names_match(t, mail.as_slice()) {
        Some(Mode::Mail)
    } else {
        None
    }
}

/// The option asked for by a name and a value, if it is known and valid.
fn parse_option(name: &[u8], value: &[u8]) -> (r: Option<TftpOption>)
    ensures
        r == option_of(name@, value@),
{
    let blksize = TftpOption::BlockSize(512).name();
    let timeout = TftpOption::Timeout(1).name();
    let tsize = TftpOption::TransferSize(0).name();
    if names_match(name, blksize.as_slice()) {
        match parse_decimal(value, 65535) {
            Some(v) => if 7 < v && v < 65465 {
                Some(TftpOption::BlockSize(v as u16))
            } else {
                None
            },
            None => None,
        }
    } else if names_match(name, timeout.as_slice()) {
        match parse_decimal(value, 255) {
            Some(v) => if v > 0 {
                Some(TftpOption::Timeout(v as u8))
            } else {
                None
            },
            None => None,
        }
    } else if names_match(name, tsize.as_slice()) {
        match parse_decimal(value, u64::MAX) {
            Some(v) => Some(TftpOption::TransferSize(v)),
            None => None,
        }
    } else {
        None
    }
}

/// The parts of a read or write request.
struct Arguments {
    filename: String,
    mode: Mode,
    options: Vec<TftpOption>,
}

/// The options asked for by the strings after the mode.
fn collect_options(strings: &Vec<Vec<u8>>) -> (r: Vec<TftpOption>)
    requires
        strings@.len() >= 2,
    ensures
        r@ == parse_options(pieces_view(strings@).subrange(2, strings@.len() as int)),
{
    let ghost all = pieces_view(strings@).subrange(2, strings@.len() as int);
    let mut out: Vec<TftpOption> = Vec::new();
    let mut i: usize = 2;
    while i + 1 < strings.len()
        invariant
            2 <= i <= strings.len(),
            (i - 2) % 2 == 0,
            all == pieces_view(strings@).subrange(2, strings@.len() as int),
            out@ + parse_options(pieces_view(strings@).subrange(i as int, strings@.len() as int))
                == parse_options(all),
        decreases strings.len() - i,
    {
        let ghost tail = pieces_view(strings@).subrange(i as int, strings@.len() as int);
        assert(tail.subrange(2, tail.len() as int) =~= pieces_view(strings@).subrange(
            i + 2,
            strings@.len() as int,
        ));
        assert(tail[0] == strings@[i as int]@);
        assert(tail[1] == strings@[i + 1]@);
        match parse_option(strings[i].as_slice(), strings[i + 1].as_slice()) {
            Some(o) => {
                out.push(o);
                assert(out@ + parse_options(tail.subrange(2, tail.len() as int)) =~= parse_options(
                    all,
                ));
            },
            None => {},
        }
        i = i + 2;
    }
    let ghost tail = pieces_view(strings@).subrange(i as int, strings@.len() as int);
    assert(parse_options(tail) =~= Seq::<TftpOption>::empty());
    assert(out@ =~= parse_options(all));
    out
}

/// Reads the file name, mode and options of a request body.
fn parse_readwrite(buffer: &[u8]) -> (r: Result<Arguments, ParseError>)
    ensures
        match r {
            Ok(a) => parse_request(buffer@) == Ok::<_, ParseErrorModel>(
                (a.filename@, a.mode, a.options@),
            ),
            Err(e) => parse_request(buffer@) == Err::<(Seq<char>, Mode, Seq<TftpOption>), _>(e@),
        },
{
    if buffer.len() < 4 {
        return Err(ParseError::CorruptPacket("Too short packet".to_string()));
    }
    let strings = extract_strings(buffer);
    if strings.len() < 2 {
        return Err(ParseError::CorruptPacket("Missing arguments".to_string()));
    }
    assert(pieces_view(strings@)[0] == strings@[0]@);
    assert(pieces_view(strings@)[1] == strings@[1]@);
    let mode = match mode_of_token(strings[1].as_slice()) {
        Some(mode) => mode,
        None => {
            return Err(ParseError::InvalidString(text_from_bytes(strings[1].as_slice())));
        },
    };
    let filename = text_from_bytes(strings[0].as_slice());
    let options = collect_options(&strings);
    Ok(Arguments { filename, mode, options })
}

impl Message {
    fn read_from_arguments(args: Arguments) -> (r: Self)
        ensures
            r@ == (MessageModel::Read {
                filename: args.filename@,
                mode: args.mode,
                options: args.options@,
            }),
    {
        Message::Read { filename: args.filename, mode: args.mode, options: args.options }
    }

    fn write_from_arguments(args: Arguments) -> (r: Self)
        ensures
            r@ == (MessageModel::Write {
                filename: args.filename@,
                mode: args.mode,
                options: args.options@,
            }),
    {
        Message::Write { filename: args.filename, mode: args.mode, options: args.options }
    }
}

fn error_code_from(n: u16) -> (r: Option<ErrorCode>)
    ensures
        r == error_code_of(n),
{
    match n {
        1 => Some(ErrorCode::NotDefined),
        2 => Some(ErrorCode::FileNotFound),
        3 => Some(ErrorCode::AccessViolation),
        4 => Some(ErrorCode::DiskFull),
        5 => Some(ErrorCode::IllegalOperation),
        6 => Some(ErrorCode::UnknownTransferId),
        7 => Some(ErrorCode::FileAlreadyExists),
        8 => Some(ErrorCode::NoSuchUser),
        9 => Some(ErrorCode::OptionNegotiationError),
        _ => None,
    }
}

/// Decodes one datagram.
pub fn parse_message(buffer: &[u8]) -> (r: Result<Message, ParseError>)
    ensures
        result_view(r) == decode(buffer@),
{
    if buffer.len() < 4 {
        return Err(ParseError::CorruptPacket("Truncated Read/Write packet".to_string()));
    }
    let op: u16 = buffer[0] as u16 * 256 + buffer[1] as u16;
    let second: u16 = buffer[2] as u16 * 256 + buffer[3] as u16;
    let rest = slice_subrange(buffer, 2, buffer.len());
    if op == OP_READ {
        match parse_readwrite(rest) {
            Ok(args) => Ok(Message::read_from_arguments(args)),
            Err(e) => Err(e),
        }
    } else if op == OP_WRITE {
        match parse_readwrite(rest) {
            Ok(args) => Ok(Message::write_from_arguments(args)),
            Err(e) => Err(e),
        }
    } else if op == OP_DATA {
        let payload = slice_to_vec(slice_subrange(buffer, 4, buffer.len()));
        Ok(Message::Data { block: second, payload })
    } else if op == OP_ACK {
        Ok(Message::Ack(second))
    } else if op == OP_ERROR {
        let code = match error_code_from(second) {
            Some(code) => code,
            None => {
                return Err(ParseError::CorruptPacket("Unknown error code".to_string()));
            },
        };
        let pieces = extract_strings(slice_subrange(buffer, 4, buffer.len()));
        if pieces.len() < 2 {
            return Err(ParseError::CorruptPacket("Unterminated error message".to_string()));
        }
        assert(pieces_view(pieces@)[0] == pieces@[0]@);
        let message = text_from_bytes(pieces[0].as_slice());
        Ok(Message::Error { code, message })
    } else {
        Err(ParseError::InvalidOpcode(op))
    }
}

// ---------------------------------------------------------------------------
// Laws of the codec

/// Whether a text holds no NUL character.
pub open spec fn no_nul(s: Seq<char>) -> bool {
    forall|i: int| 0 <= i < s.len() ==> s[i] != '\0'
}

/// Whether a byte string holds no zero byte.
pub open spec fn no_zero(b: Seq<u8>) -> bool {
    forall|i: int| 0 <= i < b.len() ==> b[i] != 0
}

/// Whether a message can be sent and read back: a request or an Error whose
/// texts hold no NUL (which would end them early) and whose options lie in
/// their ranges, or a Data or Ack message. An option acknowledgement is only
/// ever sent, never read.
pub open spec fn decodable(m: MessageModel) -> bool {
    match m {
        MessageModel::Read { filename, options, .. } => no_nul(filename) && options_valid(options),
        MessageModel::Write { filename, options, .. } => no_nul(filename) && options_valid(options),
        MessageModel::Data { .. } => true,
        MessageModel::Ack(_) => true,
        MessageModel::Error { message, .. } => no_nul(message),
        MessageModel::OptionAck { .. } => false,
    }
}

proof fn lemma_scalar_no_zero(c: char)
    requires
        c != '\0',
    ensures
        no_zero(encode_scalar(c as u32)),
{
    let v = c as u32;
    assert(v != 0);
    assert(forall|x: u8| #![auto] (0x80u8 | x) != 0u8 && (0xC0u8 | x) != 0u8 && (0xE0u8 | x) != 0u8
        && (0xF0u8 | x) != 0u8) by (bit_vector);
    if has_width_1_encoding(v) {
        assert(((v & 0x7Fu32) as u8) != 0u8) by (bit_vector)
            requires
                0 < v <= 0x7Fu32,
        ;
    }
}

proof fn lemma_utf8_no_zero(s: Seq<char>)
    requires
        no_nul(s),
    ensures
        no_zero(encode_utf8(s)),
    decreases s.len(),
{
    if s.len() > 0 {
        lemma_scalar_no_zero(s[0]);
        assert(no_nul(s.drop_first()));
        lemma_utf8_no_zero(s.drop_first());
        let a = encode_scalar(s[0] as u32);
        let b = encode_utf8(s.drop_first());
        assert forall|i: int| 0 <= i < (a + b).len() implies (a + b)[i] != 0 by {
            if i < a.len() {
                assert((a + b)[i] == a[i]);
            } else {
                assert((a + b)[i] == b[i - a.len()]);
            }
        }
    }
}

proof fn lemma_split_whole(a: Seq<u8>, sep: u8)
    requires
        forall|i: int| 0 <= i < a.len() ==> a[i] != sep,
    ensures
        split_on(a, sep) == seq![a],
    decreases a.len(),
{
    if a.len() > 0 {
        lemma_split_whole(a.drop_last(), sep);
        assert(a.drop_last().push(a.last()) =~= a);
        assert(split_on(a, sep) =~= seq![a]);
    } else {
        assert(a =~= Seq::<u8>::empty());
    }
}

proof fn lemma_split_concat(a: Seq<u8>, b: Seq<u8>, sep: u8)
    ensures
        split_on(a + seq![sep] + b, sep) == split_on(a, sep) + split_on(b, sep),
    decreases b.len(),
{
    let c = a + seq![sep] + b;
    if b.len() == 0 {
        assert(c.drop_last() =~= a);
        assert(split_on(b, sep) =~= seq![Seq::<u8>::empty()]);
        assert(split_on(c, sep) =~= split_on(a, sep) + split_on(b, sep));
    } else {
        lemma_split_concat(a, b.drop_last(), sep);
        assert(c.drop_last() =~= a + seq![sep] + b.drop_last());
        assert(c.last() == b.last());
        lemma_split_nonempty(b.drop_last(), sep);
        lemma_split_nonempty(a, sep);
        let x = split_on(a, sep);
        let y = split_on(b.drop_last(), sep);
        if b.last() != sep {
            assert((x + y).update((x + y).len() - 1, (x + y).last().push(b.last())) =~= x + y.update(
                y.len() - 1,
                y.last().push(b.last()),
            ));
        } else {
            assert((x + y).push(Seq::<u8>::empty()) =~= x + y.push(Seq::<u8>::empty()));
        }
    }
}

proof fn lemma_lower_fixed(s: Seq<u8>)
    requires
        forall|i: int| 0 <= i < s.len() ==> !(65 <= #[trigger] s[i] <= 90),
    ensures
        ascii_lower(s) == s,
{
    assert(ascii_lower(s) =~= s);
}

proof fn lemma_name_lower(o: TftpOption)
    ensures
        ascii_lower(option_name(o)) == option_name(o),
        no_zero(option_name(o)),
{
    lemma_lower_fixed(option_name(o));
}

/// Each option in its range survives being written as a name and a decimal
/// value and read back.
pub proof fn lemma_option_round_trip(o: TftpOption)
    requires
        option_valid(o),
    ensures
        option_of(option_name(o), decimal_text(option_number(o))) == Some(o),
{
    lemma_name_lower(o);
    crate::decimal::lemma_decimal_round_trip(option_number(o));
    lemma_lower_fixed(blksize_name());
    lemma_lower_fixed(timeout_name());
    lemma_lower_fixed(tsize_name());
    assert(blksize_name() != timeout_name());
    assert(blksize_name() != tsize_name());
    assert(timeout_name() != tsize_name()) by {
        assert(timeout_name().len() != tsize_name().len());
    }
}

/// A `blksize` option is accepted exactly when its value lies strictly
/// between 7 and 65465.
pub proof fn lemma_blksize_accepted(v: nat)
    ensures
        option_of(blksize_name(), decimal_text(v)) is Some <==> 7 < v < 65465,
        option_of(blksize_name(), decimal_text(v)) is Some ==> option_of(
            blksize_name(),
            decimal_text(v),
        ) == Some(TftpOption::BlockSize(v as u16)),
{
    crate::decimal::lemma_decimal_round_trip(v);
    lemma_lower_fixed(blksize_name());
    assert(blksize_name() != timeout_name());
    assert(blksize_name() != tsize_name());
}

/// A `timeout` option is accepted exactly when its value lies between 1 and
/// 255 seconds.
pub proof fn lemma_timeout_accepted(v: nat)
    ensures
        option_of(timeout_name(), decimal_text(v)) is Some <==> 1 <= v <= 255,
        option_of(timeout_name(), decimal_text(v)) is Some ==> option_of(
            timeout_name(),
            decimal_text(v),
        ) == Some(TftpOption::Timeout(v as u8)),
{
    crate::decimal::lemma_decimal_round_trip(v);
    lemma_lower_fixed(timeout_name());
    assert(blksize_name() != timeout_name());
    assert(timeout_name() != tsize_name()) by {
        assert(timeout_name().len() != tsize_name().len());
    }
}

proof fn lemma_options_round_trip(os: Seq<TftpOption>)
    requires
        options_valid(os),
    ensures
        parse_options(split_nul(options_bytes(os))) == os,
    decreases os.len(),
{
    if os.len() == 0 {
        assert(split_nul(options_bytes(os)) =~= seq![Seq::<u8>::empty()]);
        assert(os =~= Seq::<TftpOption>::empty());
    } else {
        let o = os[0];
        let rest = os.drop_first();
        assert(options_valid(rest)) by {
            assert forall|i: int| 0 <= i < rest.len() implies option_valid(#[trigger] rest[i]) by {
                assert(rest[i] == os[i + 1]);
            }
        }
        lemma_options_round_trip(rest);
        let n = option_name(o);
        let d = decimal_text(option_number(o));
        let r = options_bytes(rest);
        lemma_name_lower(o);
        crate::decimal::lemma_decimal_text(option_number(o));
        assert(options_bytes(os) =~= n + seq![0u8] + (d + seq![0u8] + r));
        lemma_split_concat(n, d + seq![0u8] + r, 0);
        lemma_split_concat(d, r, 0);
        lemma_split_whole(n, 0);
        assert forall|i: int| 0 <= i < d.len() implies d[i] != 0 by {
            assert(crate::decimal::is_digit(d[i]));
        }
        lemma_split_whole(d, 0);
        let t = split_nul(options_bytes(os));
        assert(t =~= seq![n, d] + split_nul(r));
        assert(t.subrange(2, t.len() as int) =~= split_nul(r));
        lemma_option_round_trip(o);
        assert(seq![o] + rest =~= os);
    }
}

proof fn lemma_request_round_trip(op: u16, filename: Seq<char>, mode: Mode, os: Seq<TftpOption>)
    requires
        no_nul(filename),
        options_valid(os),
    ensures
        parse_request(request_bytes(op, filename, mode, os).subrange(
            2,
            request_bytes(op, filename, mode, os).len() as int,
        )) == Ok::<_, ParseErrorModel>((filename, mode, os)),
{
    let b = request_bytes(op, filename, mode, os);
    let f = encode_utf8(filename);
    let m = mode_name(mode);
    let o = options_bytes(os);
    let body = b.subrange(2, b.len() as int);
    assert(body =~= f + seq![0u8] + (m + seq![0u8] + o));
    lemma_split_concat(f, m + seq![0u8] + o, 0);
    lemma_split_concat(m, o, 0);
    lemma_utf8_no_zero(filename);
    lemma_split_whole(f, 0);
    lemma_lower_fixed(m);
    lemma_split_whole(m, 0);
    let t = split_nul(body);
    assert(t =~= seq![f, m] + split_nul(o));
    assert(t.subrange(2, t.len() as int) =~= split_nul(o));
    lemma_options_round_trip(os);
    vstd::utf8::encode_utf8_valid_utf8(filename);
    vstd::utf8::encode_utf8_decode_utf8(filename);
    assert(mode_of(m) == Some(mode));
}

proof fn lemma_be16(v: u16, rest: Seq<u8>)
    ensures
        u16_at(be16(v) + rest, 0) == v,
{
    let b = be16(v) + rest;
    assert(b[0] == (v / 256) as u8 && b[1] == (v % 256) as u8);
    assert((v / 256) * 256 + v % 256 == v);
}

proof fn lemma_read_round_trip(filename: Seq<char>, mode: Mode, options: Seq<TftpOption>)
    requires
        no_nul(filename),
        options_valid(options),
    ensures
        decode(request_bytes(1, filename, mode, options)) == Ok::<_, ParseErrorModel>(
            MessageModel::Read { filename, mode, options },
        ),
{
    let b = request_bytes(1, filename, mode, options);
    lemma_be16(1, b.subrange(2, b.len() as int));
    assert(b =~= be16(1) + b.subrange(2, b.len() as int));
    lemma_request_round_trip(1, filename, mode, options);
}

proof fn lemma_write_round_trip(filename: Seq<char>, mode: Mode, options: Seq<TftpOption>)
    requires
        no_nul(filename),
        options_valid(options),
    ensures
        decode(request_bytes(2, filename, mode, options)) == Ok::<_, ParseErrorModel>(
            MessageModel::Write { filename, mode, options },
        ),
{
    let b = request_bytes(2, filename, mode, options);
    lemma_be16(2, b.subrange(2, b.len() as int));
    assert(b =~= be16(2) + b.subrange(2, b.len() as int));
    lemma_request_round_trip(2, filename, mode, options);
}

proof fn lemma_data_round_trip(block: u16, payload: Seq<u8>)
    ensures
        decode(be16(3) + be16(block) + payload) == Ok::<_, ParseErrorModel>(
            MessageModel::Data { block, payload },
        ),
{
    let b = be16(3) + be16(block) + payload;
    lemma_be16(3, be16(block) + payload);
    assert(b =~= be16(3) + (be16(block) + payload));
    lemma_be16(block, payload);
    assert(b[2] == (be16(block) + payload)[0] && b[3] == (be16(block) + payload)[1]);
    assert(b.subrange(4, b.len() as int) =~= payload);
}

proof fn lemma_ack_round_trip(block: u16)
    ensures
        decode(be16(4) + be16(block)) == Ok::<_, ParseErrorModel>(MessageModel::Ack(block)),
{
    let b = be16(4) + be16(block);
    lemma_be16(4, be16(block));
    lemma_be16(block, seq![]);
    assert(b[2] == (be16(block) + Seq::<u8>::empty())[0]);
    assert(b[3] == (be16(block) + Seq::<u8>::empty())[1]);
}

proof fn lemma_error_round_trip(code: ErrorCode, message: Seq<char>)
    requires
        no_nul(message),
    ensures
        decode(be16(5) + be16(error_number(code)) + encode_utf8(message) + seq![0u8]) == Ok::<
            _,
            ParseErrorModel,
        >(MessageModel::Error { code, message }),
{
    let e = encode_utf8(message);
    let b = be16(5) + be16(error_number(code)) + e + seq![0u8];
    lemma_be16(5, be16(error_number(code)) + e + seq![0u8]);
    assert(b =~= be16(5) + (be16(error_number(code)) + e + seq![0u8]));
    lemma_be16(error_number(code), e + seq![0u8]);
    assert(b[2] == (be16(error_number(code)) + (e + seq![0u8]))[0]);
    assert(b[3] == (be16(error_number(code)) + (e + seq![0u8]))[1]);
    let tail = b.subrange(4, b.len() as int);
    assert(tail =~= e + seq![0u8] + Seq::<u8>::empty());
    lemma_split_concat(e, Seq::<u8>::empty(), 0);
    lemma_utf8_no_zero(message);
    lemma_split_whole(e, 0);
    assert(split_on(Seq::<u8>::empty(), 0) =~= seq![Seq::<u8>::empty()]);
    assert(split_nul(tail) =~= seq![e, Seq::<u8>::empty()]);
    vstd::utf8::encode_utf8_valid_utf8(message);
    vstd::utf8::encode_utf8_decode_utf8(message);
}

/// Every message that can be read back decodes to itself once encoded.
pub proof fn lemma_round_trip(m: MessageModel)
    requires
        decodable(m),
    ensures
        decode(encode(m)) == Ok::<_, ParseErrorModel>(m),
{
    match m {
        MessageModel::Read { filename, mode, options } => {
            lemma_read_round_trip(filename, mode, options);
        },
        MessageModel::Write { filename, mode, options } => {
            lemma_write_round_trip(filename, mode, options);
        },
        MessageModel::Data { block, payload } => {
            lemma_data_round_trip(block, payload);
        },
        MessageModel::Ack(block) => {
            lemma_ack_round_trip(block);
        },
        MessageModel::Error { code, message } => {
            lemma_error_round_trip(code, message);
        },
        MessageModel::OptionAck { .. } => {},
    }
}

} // verus!
