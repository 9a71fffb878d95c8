//! What the framing layer asks of a byte stream: a read that may report "not ready"
//! and a write.

use vstd::prelude::*;

verus! {

/// The three outcomes of one read on a byte stream.
pub enum ReadOutcome<E> {
    /// bytes that arrived; none at all means the stream has nothing more for now
    Data(Vec<u8>),
    /// the stream is healthy but has no data available at this moment
    NotReady,
    /// the stream failed
    Failed(E),
}

/// A stream of bytes that can be read in pieces.
pub trait ByteSource {
    type Error;

    /// Every byte this source has handed out so far, in order.
    ///
    /// Every source of this crate defines it. The default, the empty sequence, is there
    /// only because a source written in plain Rust cannot define it; for such a source the
    /// contract of `read_up_to` does not hold to the letter, and no proof of this crate is
    /// about one.
    closed spec fn delivered(&self) -> Seq<u8> {
        Seq::empty()
    }

    /// Reads at most `max` bytes.
    fn read_up_to(&mut self, max: usize) -> (r: ReadOutcome<Self::Error>)
        requires
            max >= 1,
        ensures
            match r {
                ReadOutcome::Data(v) => v@.len() <= max && final(self).delivered() == old(
                    self,
                ).delivered() + v@,
                _ => final(self).delivered() == old(self).delivered(),
            },
    ;
}

/// A stream of bytes that can be written.
pub trait ByteSink {
    type Error;

    /// Every byte this sink has accepted so far, in order.
    ///
    /// Every sink of this crate defines it. The default, the empty sequence, is there only
    /// because a sink written in plain Rust cannot define it; for such a sink the contract
    /// of `write_all` does not hold to the letter, and no proof of this crate is about one.
    closed spec fn sent(&self) -> Seq<u8> {
        Seq::empty()
    }

    /// Writes all of `bytes`.
    fn write_all(&mut self, bytes: &[u8]) -> (r: Result<(), Self::Error>)
        ensures
            r is Ok ==> final(self).sent() == old(self).sent() + bytes@,
    ;

    /// Pushes out anything the sink holds back.
    fn flush(&mut self) -> Result<(), Self::Error>;
}

/// The bytes a source handed out between two of its states.
pub open spec fn fresh(before: Seq<u8>, after: Seq<u8>) -> Seq<u8> {
    after.skip(before.len() as int)
}

} // verus!
