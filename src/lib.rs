//! Length-preambled message framing over byte streams that may deliver data
//! in arbitrary pieces or report that they are not ready yet.
//!
//! A frame is a payload's length as an unsigned LEB128 varint followed by the payload.
//! `Bufferer` gathers one frame at a time across as many reads as it takes, `write_preambled`
//! writes one, and `Ser` / `De` carry typed values through a pluggable codec.

pub mod channel;
pub mod codec;
pub mod frame;
pub mod laws;
pub mod transport;
pub mod varint;

pub use channel::{rw_channel, ChannelClosed, RecvChannel, SendChannel};
pub use codec::{CanDeserialize, CanSerialize, CodecError, De, GrowingBuffer, MsgError, Ser};
pub use frame::{write_preambled, Bufferer, FrameError, LastRead, ReadWrapper, Step};
pub use transport::{ByteSink, ByteSource, ReadOutcome};
