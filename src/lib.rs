//! A TFTP read-only server's protocol engine: the message codec, option
//! negotiation, request screening and the per-transfer retransmission state
//! machine. Sockets, files and timers are left to the caller.
pub mod decimal;
pub mod message;
pub mod options;
pub mod path;
pub mod server;
pub mod session;

pub use message::{parse_message, ErrorCode, Message, Mode, ParseError, TftpOption};
