//! An in-memory byte channel: a sending and a receiving end, one byte per message.

use vstd::prelude::*;
use std::sync::mpsc::{Receiver, Sender};
use crate::transport::{ByteSink, ByteSource, ReadOutcome};

verus! {

#[verifier::external_type_specification]
#[verifier::external_body]
#[verifier::reject_recursive_types(T)]
pub struct ExSender<T>(Sender<T>);

#[verifier::external_type_specification]
#[verifier::external_body]
#[verifier::reject_recursive_types(T)]
pub struct ExReceiver<T>(Receiver<T>);

/// Relies on `std::sync::mpsc::channel`: a connected sender and receiver.
#[verifier::external_body]
fn byte_channel() -> (Sender<u8>, Receiver<u8>) {
    std::sync::mpsc::channel()
}

/// Relies on `Sender::send`: `true` when the byte was queued, `false` once the receiver
/// is gone.
#[verifier::external_body]
fn send_byte(tx: &Sender<u8>, b: u8) -> bool {
    tx.send(b).is_ok()
}

/// Relies on `Receiver::recv`: blocks for the next byte; `None` once the sender is gone
/// and nothing is left.
#[verifier::external_body]
fn recv_byte(rx: &Receiver<u8>) -> Option<u8> {
    rx.recv().ok()
}

/// The other end of the channel is gone.
#[derive(Debug)]
pub struct ChannelClosed;

/// The sending end of an in-memory byte channel.
pub struct SendChannel {
    tx: Sender<u8>,
    sent: Ghost<Seq<u8>>,
}

/// The receiving end of an in-memory byte channel.
pub struct RecvChannel {
    rx: Receiver<u8>,
    delivered: Ghost<Seq<u8>>,
}

/// A connected pair of channel ends, nothing sent or received yet.
pub fn rw_channel() -> (r: (SendChannel, RecvChannel))
    ensures
        r.0.sent().len() == 0,
        r.1.delivered().len() == 0,
{
    let (tx, rx) = byte_channel();
    (
        SendChannel { tx, sent: Ghost(Seq::empty()) },
        RecvChannel { rx, delivered: Ghost(Seq::empty()) },
    )
}

impl ByteSink for SendChannel {
    type Error = ChannelClosed;

    closed spec fn sent(&self) -> Seq<u8> {
        self.sent@
    }

    /// Sends the bytes one by one; fails once the receiving end is gone.
    fn write_all(&mut self, bytes: &[u8]) -> (r: Result<(), ChannelClosed>) {
        let ghost start = self.sent@;
        let mut i: usize = 0;
        while i < bytes.len()
            invariant
                i <= bytes@.len(),
                self.sent@ == start + bytes@.take(i as int),
            decreases bytes@.len() - i,
        {
            if !send_byte(&self.tx, bytes[i]) {
                return Err(ChannelClosed);
            }
            self.sent = Ghost(self.sent@.push(bytes@[i as int]));
            i = i + 1;
            assert(bytes@.take(i as int) =~= bytes@.take(i - 1).push(bytes@[i - 1]));
        }
        assert(bytes@.take(i as int) =~= bytes@);
        Ok(())
    }

    /// Nothing is held back.
    fn flush(&mut self) -> Result<(), ChannelClosed> {
        Ok(())
    }
}

impl ByteSource for RecvChannel {
    type Error = ChannelClosed;

    closed spec fn delivered(&self) -> Seq<u8> {
        self.delivered@
    }

    /// Blocks until `max` bytes arrived; fails once the sending end is gone and the
    /// channel ran dry, dropping what this call had received.
    fn read_up_to(&mut self, max: usize) -> (r: ReadOutcome<ChannelClosed>) {
        let mut got: Vec<u8> = Vec::new();
        let mut i: usize = 0;
        while i < max
            invariant
                i <= max,
                got@.len() == i,
                self.delivered@ == old(self).delivered@,
            decreases max - i,
        {
            match recv_byte(&self.rx) {
                Some(b) => got.push(b),
                None => {
                    return ReadOutcome::Failed(ChannelClosed);
                },
            }
            i = i + 1;
        }
        self.delivered = Ghost(self.delivered@ + got@);
        ReadOutcome::Data(got)
    }
}

} // verus!
