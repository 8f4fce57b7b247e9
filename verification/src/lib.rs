//! A peer-to-peer chat and file-transfer protocol engine.
//!
//! Each connection carries a bidirectional stream of length-prefixed framed
//! payloads (text messages or arbitrary-byte files), every payload acknowledged
//! by a SHA-256 content hash. The engine drives the protocol over an in-memory
//! byte transport; the surrounding application shuttles bytes between that
//! transport and a real socket.

pub mod digest;
pub mod laws;
pub mod parse;
pub mod text;
pub mod talker;
pub mod transport;
pub mod wire;

pub use parse::try_parse;
pub use talker::{Ev, Event, TalkError, Talker};
pub use transport::Transport;
pub use wire::to_decimal;
