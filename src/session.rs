//! The per-transfer state machine: option handshake, lock-step data blocks,
//! retransmission on timeout and end-of-transfer detection.
//!
//! The machine does no I/O. Its caller performs each `Action` (reading the
//! file, sending on the transfer's socket, waiting for a datagram) and hands
//! back what happened through `on_block`, `on_read_error`, `on_datagram` and
//! `on_timeout`.
//!
//! A datagram that decodes but is not the awaited acknowledgement (another
//! block number, or another kind of message) is answered with an Illegal
//! operation error and costs no retry: only timeouts use up the budget.
use vstd::prelude::*;

use crate::message::{
    decode, encode, error_text, options_valid, ErrorCode, Message, MessageModel, TftpOption, parse_message,
};
use crate::options::{
    block_size_of, first_transfer_size, lemma_block_size_valid, get_block_size, get_timeout, get_transfer_size,
    timeout_ms_of,
};

verus! {

/// Transmissions of one packet before the transfer is given up.
pub const MAX_ATTEMPTS: usize = 5;

/// Where a transfer stands.
#[derive(Debug, Clone, Copy, PartialEq, Eq, Structural)]
pub enum Phase {
    /// The next block is to be read from the file.
    Sending,
    /// `packet` was sent; its acknowledgement is awaited.
    AwaitingAck,
    /// The final block was acknowledged.
    Done,
    /// The transfer ended without completing.
    Failed,
}

/// What the caller is to do next.
#[derive(Debug, PartialEq, Eq)]
pub enum Action {
    /// Send the session's `packet`, then wait up to `timeout_ms` for a datagram.
    Transmit,
    /// Read up to `block_size` bytes from the file and pass them to `on_block`.
    ReadBlock,
    /// Send this packet, then keep waiting.
    Reply(Vec<u8>),
    /// Keep waiting.
    Wait,
    /// Send this packet; the transfer is over.
    Abort(Vec<u8>),
    /// The transfer is over.
    Finish,
}

/// What an `Action` holds, as mathematical values.
pub enum ActionModel {
    Transmit,
    ReadBlock,
    Reply(Seq<u8>),
    Wait,
    Abort(Seq<u8>),
    Finish,
}

impl View for Action {
    type V = ActionModel;

    open spec fn view(&self) -> ActionModel {
        match self {
            Action::Transmit => ActionModel::Transmit,
            Action::ReadBlock => ActionModel::ReadBlock,
            Action::Reply(p) => ActionModel::Reply(p@),
            Action::Wait => ActionModel::Wait,
            Action::Abort(p) => ActionModel::Abort(p@),
            Action::Finish => ActionModel::Finish,
        }
    }
}

/// One read transfer.
pub struct Session {
    pub phase: Phase,
    /// The block in flight: 0 for the option acknowledgement, then 1, 2, ...
    pub block: u16,
    pub block_size: usize,
    pub timeout_ms: u64,
    /// Timeouts suffered by the packet in flight.
    pub attempts: usize,
    /// Whether the block in flight is the final one.
    pub last: bool,
    /// The packet in flight.
    pub packet: Vec<u8>,
}

/// What a `Session` holds, as mathematical values.
pub struct SessionModel {
    pub phase: Phase,
    pub block: u16,
    pub block_size: nat,
    pub timeout_ms: nat,
    pub attempts: nat,
    pub last: bool,
    pub packet: Seq<u8>,
}

impl View for Session {
    type V = SessionModel;

    open spec fn view(&self) -> SessionModel {
        SessionModel {
            phase: self.phase,
            block: self.block,
            block_size: self.block_size as nat,
            timeout_ms: self.timeout_ms as nat,
            attempts: self.attempts as nat,
            last: self.last,
            packet: self.packet@,
        }
    }
}

/// The wire form of an error with its canonical text.
pub open spec fn error_packet(code: ErrorCode) -> Seq<u8> {
    encode(MessageModel::Error { code, message: error_text(code) })
}

/// The session's invariant.
pub open spec fn session_wf(s: SessionModel) -> bool {
    &&& s.block_size >= 1
    &&& s.attempts < MAX_ATTEMPTS
    &&& s.phase == Phase::Sending ==> !s.last
}

/// The session and first action for a request with these options, against a
/// file of `file_size` bytes; an error message to send instead when the client
/// declared a larger size than the file has.
pub open spec fn start_spec(options: Seq<TftpOption>, file_size: nat) -> Result<
    (SessionModel, ActionModel),
    MessageModel,
> {
    match first_transfer_size(options) {
        Some(t) if t > file_size => Err(
            MessageModel::Error { code: ErrorCode::OptionNegotiationError, message: "File too large"@ },
        ),
        _ => {
            let s = SessionModel {
                phase: if options.len() > 0 { Phase::AwaitingAck } else { Phase::Sending },
                block: 0,
                block_size: block_size_of(options),
                timeout_ms: timeout_ms_of(options),
                attempts: 0,
                last: false,
                packet: if options.len() > 0 { encode(MessageModel::OptionAck { options }) } else { seq![] },
            };
            Ok((s, if options.len() > 0 { ActionModel::Transmit } else { ActionModel::ReadBlock }))
        },
    }
}

/// The step taken when the next block of the file has been read.
pub open spec fn block_spec(s: SessionModel, payload: Seq<u8>) -> (SessionModel, ActionModel) {
    if s.block == 65535 {
        (SessionModel { phase: Phase::Failed, ..s }, ActionModel::Abort(error_packet(ErrorCode::NotDefined)))
    } else {
        let b = (s.block + 1) as u16;
        (
            SessionModel {
                phase: Phase::AwaitingAck,
                block: b,
                attempts: 0,
                last: payload.len() < s.block_size,
                packet: encode(MessageModel::Data { block: b, payload }),
                ..s
            },
            ActionModel::Transmit,
        )
    }
}

/// The step taken when the file could not be read.
pub open spec fn read_error_spec(s: SessionModel) -> (SessionModel, ActionModel) {
    (SessionModel { phase: Phase::Failed, ..s }, ActionModel::Abort(error_packet(ErrorCode::NotDefined)))
}

/// The step taken when a datagram arrives while an acknowledgement is awaited.
pub open spec fn datagram_spec(s: SessionModel, d: Seq<u8>) -> (SessionModel, ActionModel) {
    match decode(d) {
        Err(_) => (s, ActionModel::Wait),
        Ok(MessageModel::Ack(b)) if b == s.block => if s.last {
            (SessionModel { phase: Phase::Done, ..s }, ActionModel::Finish)
        } else {
            (SessionModel { phase: Phase::Sending, attempts: 0, ..s }, ActionModel::ReadBlock)
        },
        Ok(_) => (s, ActionModel::Reply(error_packet(ErrorCode::IllegalOperation))),
    }
}

/// The step taken when no datagram arrived in time.
pub open spec fn timeout_spec(s: SessionModel) -> (SessionModel, ActionModel) {
    if s.attempts + 1 >= MAX_ATTEMPTS {
        (SessionModel { phase: Phase::Failed, attempts: s.attempts + 1, ..s }, ActionModel::Finish)
    } else {
        (SessionModel { attempts: s.attempts + 1, ..s }, ActionModel::Transmit)
    }
}

fn error_packet_of(code: ErrorCode) -> (r: Vec<u8>)
    ensures
        r@ == error_packet(code),
{
    code.into_message().into_packet()
}

impl Session {
    /// Whether the transfer is over.
    pub fn is_over(&self) -> (r: bool)
        ensures
            r == (self.phase == Phase::Done || self.phase == Phase::Failed),
    {
        self.phase == Phase::Done || self.phase == Phase::Failed
    }

    /// Opens a transfer of a file of `file_size` bytes with the options that
    /// the request carried.
    pub fn start(options: Vec<TftpOption>, file_size: u64) -> (r: Result<(Session, Action), Message>)
        requires
            options_valid(options@),
        ensures
            match r {
                Ok((s, a)) => start_spec(options@, file_size as nat) == Ok::<_, MessageModel>(
                    (s@, a@),
                ) && session_wf(s@),
                Err(m) => start_spec(options@, file_size as nat) == Err::<
                    (SessionModel, ActionModel),
                    _,
                >(m@),
            },
    {
        if let Some(tsize) = get_transfer_size(options.as_slice()) {
            if tsize > file_size {
                return Err(
                    ErrorCode::OptionNegotiationError.into_explicit_message("File too large"),
                );
            }
        }
        let block_size = get_block_size(options.as_slice());
        let timeout_ms = get_timeout(options.as_slice());
        proof {
            lemma_block_size_valid(options@);
        }
        if options.len() > 0 {
            let packet = Message::OptionAck { options }.into_packet();
            let s = Session {
                phase: Phase::AwaitingAck,
                block: 0,
                block_size,
                timeout_ms,
                attempts: 0,
                last: false,
                packet,
            };
            Ok((s, Action::Transmit))
        } else {
            let s = Session {
                phase: Phase::Sending,
                block: 0,
                block_size,
                timeout_ms,
                attempts: 0,
                last: false,
                packet: Vec::new(),
            };
            Ok((s, Action::ReadBlock))
        }
    }

    /// Takes the next block of the file, read after a `ReadBlock`.
    pub fn on_block(&mut self, payload: Vec<u8>) -> (r: Action)
        requires
            session_wf(old(self)@),
            old(self).phase == Phase::Sending,
            payload@.len() <= old(self).block_size,
        ensures
            (final(self)@, r@) == block_spec(old(self)@, payload@),
            session_wf(final(self)@),
    {
        if self.block == 65535 {
            self.phase = Phase::Failed;
            return Action::Abort(error_packet_of(ErrorCode::NotDefined));
        }
        let block = self.block + 1;
        let last = payload.len() < self.block_size;
        self.packet = Message::Data { block, payload }.into_packet();
        self.block = block;
        self.phase = Phase::AwaitingAck;
        self.attempts = 0;
        self.last = last;
        Action::Transmit
    }

    /// Records that the file could not be read.
    pub fn on_read_error(&mut self) -> (r: Action)
        requires
            session_wf(old(self)@),
        ensures
            (final(self)@, r@) == read_error_spec(old(self)@),
            session_wf(final(self)@),
    {
        self.phase = Phase::Failed;
        Action::Abort(error_packet_of(ErrorCode::NotDefined))
    }

    /// Takes a datagram that arrived while an acknowledgement was awaited.
    pub fn on_datagram(&mut self, datagram: &[u8]) -> (r: Action)
        requires
            session_wf(old(self)@),
            old(self).phase == Phase::AwaitingAck,
        ensures
            (final(self)@, r@) == datagram_spec(old(self)@, datagram@),
            session_wf(final(self)@),
    {
        match parse_message(datagram) {
            Err(_) => Action::Wait,
            Ok(Message::Ack(b)) => {
                if b == self.block {
                    if self.last {
                        self.phase = Phase::Done;
                        Action::Finish
                    } else {
                        self.phase = Phase::Sending;
                        self.attempts = 0;
                        Action::ReadBlock
                    }
                } else {
                    Action::Reply(error_packet_of(ErrorCode::IllegalOperation))
                }
            },
            Ok(_) => Action::Reply(error_packet_of(ErrorCode::IllegalOperation)),
        }
    }

    /// Records that no datagram arrived within `timeout_ms`.
    pub fn on_timeout(&mut self) -> (r: Action)
        requires
            session_wf(old(self)@),
            old(self).phase == Phase::AwaitingAck,
        ensures
            (final(self)@, r@) == timeout_spec(old(self)@),
            final(self).phase == Phase::AwaitingAck ==> session_wf(final(self)@),
    {
        self.attempts = self.attempts + 1;
        if self.attempts >= MAX_ATTEMPTS {
            self.phase = Phase::Failed;
            Action::Finish
        } else {
            Action::Transmit
        }
    }
}

/// The state after `k` timeouts in a row.
pub open spec fn after_timeouts(s: SessionModel, k: nat) -> SessionModel
    decreases k,
{
    if k == 0 {
        s
    } else {
        timeout_spec(after_timeouts(s, (k - 1) as nat)).0
    }
}

/// When no acknowledgement ever comes, a packet just sent is sent again after
/// each of the first four timeouts, five transmissions in all, and the fifth
/// timeout ends the transfer in failure with nothing more sent.
pub proof fn lemma_retry_exhaustion(s: SessionModel)
    requires
        s.phase == Phase::AwaitingAck,
        s.attempts == 0,
    ensures
        forall|k: nat|
            k < MAX_ATTEMPTS - 1 ==> {
                &&& (#[trigger] after_timeouts(s, k)).phase == Phase::AwaitingAck
                &&& after_timeouts(s, k).packet == s.packet
                &&& timeout_spec(after_timeouts(s, k)).1 == ActionModel::Transmit
            },
        timeout_spec(after_timeouts(s, 4)).1 == ActionModel::Finish,
        after_timeouts(s, 5).phase == Phase::Failed,
{
    reveal_with_fuel(after_timeouts, 6);
    assert forall|k: nat| k < MAX_ATTEMPTS - 1 implies {
        &&& (#[trigger] after_timeouts(s, k)).phase == Phase::AwaitingAck
        &&& after_timeouts(s, k).packet == s.packet
        &&& timeout_spec(after_timeouts(s, k)).1 == ActionModel::Transmit
    } by {
        assert(k == 0 || k == 1 || k == 2 || k == 3);
    }
}

/// The length of block `k`, counted from 0, when a file of `n` bytes is read
/// `bs` bytes at a time.
pub open spec fn chunk_len(n: nat, bs: nat, k: nat) -> nat {
    if (k + 1) * bs <= n {
        bs
    } else if k * bs <= n {
        (n - k * bs) as nat
    } else {
        0
    }
}

/// A file of `n` bytes read `bs` bytes at a time gives `n / bs` full blocks
/// and then one short block of `n % bs` bytes, possibly empty: that one is
/// the final block, so the transfer takes `n / bs + 1` Data blocks. A
/// session sending with block size `bs` marks block `k` as final exactly
/// when `k` is that last one.
pub proof fn lemma_final_block(n: nat, bs: nat)
    requires
        bs > 0,
    ensures
        forall|k: nat| k < n / bs ==> #[trigger] chunk_len(n, bs, k) == bs,
        chunk_len(n, bs, n / bs) == n % bs,
        chunk_len(n, bs, n / bs) < bs,
        forall|s: SessionModel, p: Seq<u8>, k: nat|
            s.block_size == bs && s.block < 65535 && k <= n / bs && p.len() == #[trigger] chunk_len(
                n,
                bs,
                k,
            ) ==> (#[trigger] block_spec(s, p).0.last <==> k == n / bs),
{
    let q = n / bs;
    assert(n == q * bs + n % bs) by (nonlinear_arith)
        requires
            bs > 0,
            q == n / bs,
    ;
    assert forall|k: nat| k < n / bs implies #[trigger] chunk_len(n, bs, k) == bs by {
        assert((k + 1) * bs <= q * bs) by (nonlinear_arith)
            requires
                k + 1 <= q,
                bs > 0,
        ;
    }
    assert(q * bs <= n);
    assert(n % bs < bs) by (nonlinear_arith)
        requires
            bs > 0,
    ;
    assert((q + 1) * bs == q * bs + bs) by (nonlinear_arith);
    assert((q + 1) * bs > n);
}

} // verus!
