//! Typed messages over frames: a pluggable codec turns values into payloads and back.

use vstd::prelude::*;
use crate::frame::{
    frame_of, frame_parse, write_preambled, Bufferer, FrameError, FrameParse, LastRead,
    ReadWrapper,
};
use crate::transport::{fresh, ByteSink, ByteSource};

verus! {

/// A codec could not encode or decode a value.
#[derive(Debug)]
pub struct CodecError;

/// Why a message could not be written or read.
#[derive(Debug)]
pub enum MsgError<E> {
    /// the framing layer failed: the stream, or a bad preamble
    Frame(FrameError<E>),
    /// the codec could not encode the value: invalid data to encode
    Encode(CodecError),
    /// the codec could not decode the payload: invalid data to decode
    Decode(CodecError),
}

/// A scratch buffer that a codec writes a payload into; clearing it keeps its storage,
/// which is reused from one message to the next.
pub struct GrowingBuffer {
    buf: Vec<u8>,
}

impl View for GrowingBuffer {
    type V = Seq<u8>;

    /// The bytes written since the last clear.
    closed spec fn view(&self) -> Seq<u8> {
        self.buf@
    }
}

impl GrowingBuffer {
    /// An empty buffer.
    pub fn new() -> (b: Self)
        ensures
            b@.len() == 0,
    {
        GrowingBuffer { buf: Vec::new() }
    }

    /// Forgets the bytes written, keeping the storage.
    pub fn clear(&mut self)
        ensures
            final(self)@.len() == 0,
    {
        self.buf.clear();
    }

    /// How many bytes were written since the last clear.
    pub fn occupancy(&self) -> (n: usize)
        ensures
            n == self@.len(),
    {
        self.buf.len()
    }

    /// The bytes written since the last clear.
    pub fn contents(&self) -> (r: &[u8])
        ensures
            r@ == self@,
    {
        self.buf.as_slice()
    }

    /// Appends all of `bytes`; gives how many that was.
    pub fn write(&mut self, bytes: &[u8]) -> (n: usize)
        ensures
            final(self)@ == old(self)@ + bytes@,
            n == bytes@.len(),
    {
        let ghost start = self@;
        let mut i: usize = 0;
        while i < bytes.len()
            invariant
                i <= bytes@.len(),
                self@ == start + bytes@.take(i as int),
            decreases bytes@.len() - i,
        {
            self.buf.push(bytes[i]);
            i = i + 1;
            assert(bytes@.take(i as int) =~= bytes@.take(i - 1).push(bytes@[i - 1]));
            assert(self@ =~= start + bytes@.take(i as int));
        }
        assert(bytes@.take(i as int) =~= bytes@);
        bytes.len()
    }
}

/// Encodes values of type `T` into bytes.
pub trait CanSerialize<T> {
    /// Writes the encoding of `t` into `out`.
    fn serialize_into(&mut self, t: &T, out: &mut GrowingBuffer) -> Result<(), CodecError>;
}

/// Decodes values of type `T` from bytes.
pub trait CanDeserialize<T> {
    /// Decodes one value from all of `bytes`.
    fn deserialize(&mut self, bytes: &[u8]) -> Result<T, CodecError>;
}

/// Writes values as frames, encoding each with a codec into a reused scratch buffer.
pub struct Ser<S, W> {
    ser: S,
    writer: W,
    buffer: GrowingBuffer,
    encoded: Ghost<Seq<u8>>,
}

impl<S, W: ByteSink> Ser<S, W> {
    /// The stream written to.
    pub closed spec fn sink(&self) -> W {
        self.writer
    }

    /// What the scratch buffer holds.
    pub closed spec fn scratch(&self) -> Seq<u8> {
        self.buffer@
    }

    /// What the codec wrote, into an emptied scratch buffer, during the last
    /// `write_msg` that got that far.
    pub closed spec fn encoded(&self) -> Seq<u8> {
        self.encoded@
    }

    /// A writer to `writer` that encodes with `ser`.
    pub fn new(writer: W, ser: S) -> (s: Self)
        ensures
            s.sink() == writer,
            s.scratch().len() == 0,
            s.encoded().len() == 0,
    {
        Ser { writer, ser, buffer: GrowingBuffer::new(), encoded: Ghost(Seq::empty()) }
    }

    /// Encodes `t` and writes it as one frame; gives the payload's length.
    ///
    /// A codec failure writes nothing. The scratch buffer is empty afterwards either way.
    pub fn write_msg<T>(&mut self, t: &T) -> (r: Result<usize, MsgError<W::Error>>) where
        S: CanSerialize<T>,

        ensures
            final(self).scratch().len() == 0,
            match r {
                Ok(n) => {
                    &&& n == final(self).encoded().len()
                    &&& final(self).sink().sent() == old(self).sink().sent() + frame_of(
                        final(self).encoded(),
                    )
                },
                Err(MsgError::Encode(_)) => final(self).sink().sent() == old(self).sink().sent(),
                Err(MsgError::Frame(e)) => e is Stream,
                Err(MsgError::Decode(_)) => false,
            },
    {
        self.buffer.clear();
        match self.ser.serialize_into(t, &mut self.buffer) {
            Ok(()) => {},
            Err(e) => {
                self.buffer.clear();
                return Err(MsgError::Encode(e));
            },
        }
        self.encoded = Ghost(self.buffer@);
        match write_preambled(&mut self.writer, self.buffer.contents()) {
            Ok(()) => {},
            Err(e) => {
                self.buffer.clear();
                return Err(MsgError::Frame(FrameError::Stream(e)));
            },
        }
        let wrote = self.buffer.occupancy();
        self.buffer.clear();
        Ok(wrote)
    }

    /// Flushes the stream written to; the scratch buffer and the record of the last
    /// encoding stay as they are.
    pub fn flush(&mut self) -> (r: Result<(), W::Error>)
        ensures
            final(self).scratch() == old(self).scratch(),
            final(self).encoded() == old(self).encoded(),
    {
        self.writer.flush()
    }
}

/// Reads frames and decodes each into a value with a codec.
///
/// A frame read but not yet decoded is held by its place in the reader's buffer; it is
/// dropped once decoded, whether decoding succeeds or not.
pub struct De<R, D> {
    reader: ReadWrapper<R>,
    holding: Option<(usize, usize)>,
    de: D,
}

impl<R: ByteSource, D> De<R, D> {
    /// The stream read.
    pub closed spec fn source(&self) -> R {
        self.reader.source()
    }

    /// The bytes gathered so far for the next frame.
    pub closed spec fn held(&self) -> Seq<u8> {
        self.reader.held()
    }

    /// The frame reader.
    pub closed spec fn reader(&self) -> Bufferer {
        self.reader.reader()
    }

    /// A frame is held, read but not decoded.
    pub closed spec fn is_holding(&self) -> bool {
        self.holding is Some
    }

    /// The frame reader is well formed and a held frame lies within its buffer.
    pub closed spec fn wf(&self) -> bool {
        &&& self.reader.wf()
        &&& self.holding matches Some((a, b)) ==> a <= b <= self.reader.capacity()
    }

    /// A reader of `reader` that decodes with `de`, holding nothing.
    pub fn new(reader: R, de: D) -> (d: Self)
        ensures
            d.wf(),
            d.source() == reader,
            d.held().len() == 0,
            !d.is_holding(),
    {
        De { reader: ReadWrapper::new(reader), de, holding: None }
    }

    /// Reads a frame unless one is held, then decodes it into a value.
    ///
    /// `Ok(None)` and framing errors come from the frame read as they are. Once decoded,
    /// the frame is dropped, also when the codec fails, so the next call reads a new frame.
    pub fn try_read<T>(&mut self) -> (r: Result<Option<T>, MsgError<R::Error>>) where
        D: CanDeserialize<T>,

        requires
            old(self).wf(),
        ensures
            final(self).wf(),
            !final(self).is_holding(),
            old(self).is_holding() ==> {
                &&& final(self).source() == old(self).source()
                &&& final(self).held() == old(self).held()
                &&& (r matches Ok(Some(_)) || r matches Err(MsgError::Decode(_)))
            },
            !old(self).is_holding() ==> {
                &&& old(self).source().delivered().is_prefix_of(final(self).source().delivered())
                &&& final(self).reader().reads_made() <= fresh(
                    old(self).source().delivered(),
                    final(self).source().delivered(),
                ).len() + 1
                &&& ({
                    let s = old(self).held() + fresh(
                        old(self).source().delivered(),
                        final(self).source().delivered(),
                    );
                    match frame_parse(s) {
                        FrameParse::Complete(_) => {
                            &&& final(self).held().len() == 0
                            &&& final(self).reader().last_read() == LastRead::Bytes
                            &&& (r matches Ok(Some(_)) || r matches Err(MsgError::Decode(_)))
                        },
                        FrameParse::Partial => {
                            &&& final(self).held() == s
                            &&& r matches Ok(None) ==> final(self).reader().last_read()
                                == LastRead::NotReady || final(self).reader().last_read()
                                == LastRead::NoData
                            &&& r matches Err(MsgError::Frame(FrameError::Stream(_)))
                                ==> final(self).reader().last_read() == LastRead::Failed
                            &&& (r matches Ok(None) || r matches Err(
                                MsgError::Frame(FrameError::Stream(_)),
                            ))
                        },
                        FrameParse::BadPreamble => final(self).held() == s && r matches Err(
                            MsgError::Frame(FrameError::BadPreamble),
                        ),
                        FrameParse::TooLarge => final(self).held() == s && r matches Err(
                            MsgError::Frame(FrameError::TooLarge),
                        ),
                        FrameParse::Overfull => false,
                    }
                })
            },
    {
        if self.holding.is_none() {
            match self.reader.try_read_span() {
                Ok(Some(span)) => {
                    self.holding = Some(span);
                },
                Ok(None) => {
                    return Ok(None);
                },
                Err(e) => {
                    return Err(MsgError::Frame(e));
                },
            }
        }
        let (a, b) = self.holding.unwrap();
        let decoded = self.de.deserialize(self.reader.stored_slice(a, b));
        self.holding = None;
        match decoded {
            Ok(t) => Ok(Some(t)),
            Err(e) => Err(MsgError::Decode(e)),
        }
    }

    /// Drops a held frame without decoding it; tells whether there was one.
    pub fn pop_holding(&mut self) -> (r: bool)
        requires
            old(self).wf(),
        ensures
            final(self).wf(),
            r == old(self).is_holding(),
            !final(self).is_holding(),
            final(self).source() == old(self).source(),
            final(self).held() == old(self).held(),
    {
        if self.holding.is_some() {
            self.holding = None;
            true
        } else {
            false
        }
    }
}

} // verus!
