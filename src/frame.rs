//! Frames on the wire, the incremental frame reader and the frame writer.

use vstd::prelude::*;
use crate::transport::{fresh, ByteSink, ByteSource, ReadOutcome};
use crate::varint::{
    decode_u64, encode_u64, lemma_cap_max, lemma_scan_done, lemma_scan_extend,
    lemma_scan_incomplete, lemma_scan_step, varint_of, varint_parse, Preamble, MAX_PREAMBLE,
};

verus! {

/// The bytes that carry the message `m`: its length as a varint, then `m` itself.
pub open spec fn frame_of(m: Seq<u8>) -> Seq<u8> {
    varint_of(m.len()) + m
}

/// How the bytes gathered for one frame read.
pub enum FrameParse {
    /// a proper prefix of a frame: more bytes are needed
    Partial,
    /// exactly one frame, carrying this payload
    Complete(Seq<u8>),
    /// more than one frame's bytes
    Overfull,
    /// the preamble is not the varint of a `u64`
    BadPreamble,
    /// preamble and payload together would not fit in memory
    TooLarge,
}

/// How the bytes `s`, all of them read for one frame, read.
pub open spec fn frame_parse(s: Seq<u8>) -> FrameParse {
    match varint_parse(s) {
        Preamble::Incomplete => FrameParse::Partial,
        Preamble::Malformed => FrameParse::BadPreamble,
        Preamble::Done { value, len } => {
            if len + value > usize::MAX {
                FrameParse::TooLarge
            } else if s.len() < len + value {
                FrameParse::Partial
            } else if s.len() == len + value {
                FrameParse::Complete(s.subrange(len as int, (len + value) as int))
            } else {
                FrameParse::Overfull
            }
        },
    }
}

/// Why a frame could not be read.
#[derive(Debug)]
pub enum FrameError<E> {
    /// the stream failed
    Stream(E),
    /// the preamble is not the varint of a `u64`; the stream cannot be read further
    BadPreamble,
    /// the frame would not fit in memory; the stream cannot be read further
    TooLarge,
}

/// What the reader knows of the length of the frame it is gathering.
enum Length {
    /// the preamble is still being read
    Unknown,
    /// the preamble took `preamble` bytes and announced `payload` bytes
    Known { payload: usize, preamble: usize },
    /// the preamble turned out malformed
    Unterminated,
    /// the announced frame does not fit in memory
    Oversized,
}

/// How many bytes the reader asks for next when it holds `held`: one while the preamble
/// is unfinished, since a varint is probed byte by byte, else the rest of the frame.
pub open spec fn room_for(held: Seq<u8>) -> nat {
    match varint_parse(held) {
        Preamble::Done { value, len } => (len + value - held.len()) as nat,
        _ => 1,
    }
}

/// How the last read of a call of the reader went.
pub enum LastRead {
    /// no read was made
    Nothing,
    /// the stream was not ready
    NotReady,
    /// the stream gave no bytes
    NoData,
    /// the stream failed
    Failed,
    /// the stream gave bytes
    Bytes,
}

/// What one read's outcome leads to.
pub enum Step<E> {
    /// nothing more for now: the call ends with `Ok(None)`
    Idle,
    /// the frame is not complete yet: read again
    More,
    /// the frame is complete; its payload is at `start..end` of the buffer
    Frame(usize, usize),
    /// the call ends with this error
    Fail(FrameError<E>),
}

/// Grows `v` with zeros to at least `size` bytes.
fn size_buffer_to(v: &mut Vec<u8>, size: usize)
    ensures
        final(v)@.len() == if old(v)@.len() < size {
            size as nat
        } else {
            old(v)@.len()
        },
        forall|i: int| 0 <= i < old(v)@.len() ==> final(v)@[i] == old(v)@[i],
        forall|i: int| old(v)@.len() <= i < final(v)@.len() ==> final(v)@[i] == 0,
{
    while v.len() < size
        invariant
            old(v)@.len() <= v@.len(),
            old(v)@.len() < size ==> v@.len() <= size,
            old(v)@.len() >= size ==> v@.len() == old(v)@.len(),
            forall|i: int| 0 <= i < old(v)@.len() ==> v@[i] == old(v)@[i],
            forall|i: int| old(v)@.len() <= i < v@.len() ==> v@[i] == 0,
        decreases size - v@.len(),
    {
        v.push(0u8);
    }
}

/// Gathers one frame at a time from a byte stream, across as many reads as it takes.
///
/// The buffer only grows, so that it is reused from one frame to the next.
pub struct Bufferer {
    buffer: Vec<u8>,
    occupied: usize,
    len: Length,
    last_read: Ghost<LastRead>,
    reads: Ghost<nat>,
}

impl View for Bufferer {
    type V = Seq<u8>;

    /// The bytes gathered so far for the current frame.
    closed spec fn view(&self) -> Seq<u8> {
        self.buffer@.take(self.occupied as int)
    }
}

impl Bufferer {
    /// The reader's state agrees with the bytes it holds; it never holds a whole frame.
    pub closed spec fn wf(&self) -> bool {
        &&& self.occupied <= self.buffer@.len()
        &&& match self.len {
            Length::Unknown => varint_parse(self@) is Incomplete,
            Length::Known { payload, preamble } => {
                &&& varint_parse(self@) == (Preamble::Done {
                    value: payload as nat,
                    len: preamble as nat,
                })
                &&& preamble + payload <= usize::MAX
                &&& self.occupied < preamble + payload
            },
            Length::Unterminated => frame_parse(self@) is BadPreamble,
            Length::Oversized => frame_parse(self@) is TooLarge,
        }
    }

    /// How many bytes the buffer has room for.
    pub closed spec fn capacity(&self) -> nat {
        self.buffer@.len()
    }

    /// How the last read went; a call of `try_read_preambled` starts from `Nothing`.
    pub closed spec fn last_read(&self) -> LastRead {
        self.last_read@
    }

    /// How many reads were made; a call of `try_read_preambled` counts from zero.
    pub closed spec fn reads_made(&self) -> nat {
        self.reads@
    }

    /// The bytes at `start..end` of the buffer.
    pub closed spec fn stored(&self, start: int, end: int) -> Seq<u8> {
        self.buffer@.subrange(start, end)
    }

    /// A reader that holds no bytes.
    pub fn new() -> (b: Self)
        ensures
            b.wf(),
            b@.len() == 0,
    {
        let b = Bufferer {
            buffer: Vec::new(),
            occupied: 0,
            len: Length::Unknown,
            last_read: Ghost(LastRead::Nothing),
            reads: Ghost(0),
        };
        assert(b@ =~= Seq::<u8>::empty());
        b
    }

    /// The bytes at `start..end` of the buffer: the payload of a frame that `take_in`
    /// reported complete there.
    pub fn stored_slice(&self, start: usize, end: usize) -> (r: &[u8])
        requires
            start <= end <= self.capacity(),
        ensures
            r@ == self.stored(start as int, end as int),
    {
        &self.buffer[start..end]
    }

    /// Appends `v` after the bytes held, where the buffer already has room for it.
    fn absorb(&mut self, v: &Vec<u8>)
        requires
            old(self).occupied + v@.len() <= old(self).buffer@.len(),
        ensures
            final(self).buffer@.len() == old(self).buffer@.len(),
            final(self).occupied == old(self).occupied + v@.len(),
            final(self)@ == old(self)@ + v@,
            final(self).len == old(self).len,
            final(self).last_read == old(self).last_read,
            final(self).reads == old(self).reads,
    {
        let ghost start = self@;
        let mut i: usize = 0;
        while i < v.len()
            invariant
                i <= v@.len(),
                self.occupied == old(self).occupied + i,
                self.occupied + (v@.len() - i) <= self.buffer.len(),
                self.buffer@.len() == old(self).buffer@.len(),
                self@ == start + v@.take(i as int),
                self.len == old(self).len,
                self.last_read == old(self).last_read,
                self.reads == old(self).reads,
            decreases v@.len() - i,
        {
            let at = self.occupied;
            let ghost prev = self.buffer@;
            self.buffer.set(at, v[i]);
            assert(self.buffer@ == prev.update(at as int, v@[i as int]));
            self.occupied = at + 1;
            i = i + 1;
            assert(v@.take(i as int) =~= v@.take(i - 1).push(v@[i - 1]));
            assert(self@ =~= prev.take(at as int).push(v@[i - 1]));
        }
        assert(v@.take(i as int) =~= v@);
    }

    /// How many bytes the next read asks for.
    pub fn want(&self) -> (n: usize)
        requires
            self.wf(),
            frame_parse(self@) is Partial,
        ensures
            n == room_for(self@),
            n >= 1,
    {
        match self.len {
            Length::Known { payload, preamble } => preamble + payload - self.occupied,
            _ => 1,
        }
    }

    /// Takes in the outcome of one read that asked for `want()` bytes, and says what it
    /// leads to.
    pub fn take_in<E>(&mut self, got: ReadOutcome<E>) -> (st: Step<E>)
        requires
            old(self).wf(),
            frame_parse(old(self)@) is Partial,
            got matches ReadOutcome::Data(v) ==> v@.len() <= room_for(old(self)@),
        ensures
            final(self).wf(),
            final(self).capacity() >= old(self).capacity(),
            final(self).reads_made() == old(self).reads_made() + 1,
            match got {
                ReadOutcome::NotReady => {
                    &&& st is Idle
                    &&& final(self)@ == old(self)@
                    &&& final(self).last_read() == LastRead::NotReady
                },
                ReadOutcome::Failed(e) => {
                    &&& st == Step::Fail(FrameError::Stream(e))
                    &&& final(self)@ == old(self)@
                    &&& final(self).last_read() == LastRead::Failed
                },
                ReadOutcome::Data(v) => if v@.len() == 0 {
                    &&& st is Idle
                    &&& final(self)@ == old(self)@
                    &&& final(self).last_read() == LastRead::NoData
                } else {
                    &&& final(self).last_read() == LastRead::Bytes
                    &&& match frame_parse(old(self)@ + v@) {
                        FrameParse::Complete(p) => {
                            &&& final(self)@.len() == 0
                            &&& st matches Step::Frame(a, b) && a <= b <= final(self).capacity()
                                && final(self).stored(a as int, b as int) == p
                        },
                        FrameParse::Partial => st is More && final(self)@ == old(self)@ + v@,
                        FrameParse::BadPreamble => final(self)@ == old(self)@ + v@ && st matches Step::Fail(
                            FrameError::BadPreamble,
                        ),
                        FrameParse::TooLarge => final(self)@ == old(self)@ + v@ && st matches Step::Fail(
                            FrameError::TooLarge,
                        ),
                        FrameParse::Overfull => false,
                    }
                },
            },
    {
        self.reads = Ghost(self.reads@ + 1);
        match got {
            ReadOutcome::NotReady => {
                self.last_read = Ghost(LastRead::NotReady);
                Step::Idle
            },
            ReadOutcome::Failed(e) => {
                self.last_read = Ghost(LastRead::Failed);
                Step::Fail(FrameError::Stream(e))
            },
            ReadOutcome::Data(v) => {
                if v.len() == 0 {
                    self.last_read = Ghost(LastRead::NoData);
                    return Step::Idle;
                }
                self.last_read = Ghost(LastRead::Bytes);
                proof {
                    if self.len is Unknown {
                        lemma_scan_incomplete(self@, MAX_PREAMBLE as nat);
                    }
                }
                let want = self.want();
                let end = self.occupied + want;
                size_buffer_to(&mut self.buffer, end);
                let ghost held = self@;
                assert(held == old(self)@);
                self.absorb(&v);
                match self.len {
                    Length::Known { payload, preamble } => {
                        proof {
                            lemma_scan_extend(held, v@, MAX_PREAMBLE as nat);
                        }
                        if self.occupied == preamble + payload {
                            self.occupied = 0;
                            self.len = Length::Unknown;
                            assert(self@ =~= Seq::<u8>::empty());
                            Step::Frame(preamble, preamble + payload)
                        } else {
                            Step::More
                        }
                    },
                    _ => {
                        assert(v@.len() == 1);
                        assert(self@ =~= held.push(v@[0]));
                        proof {
                            lemma_scan_step(held, v@[0], MAX_PREAMBLE as nat);
                        }
                        let got = decode_u64(&self.buffer[0..self.occupied]);
                        assert(self.buffer@.subrange(0, self.occupied as int) == self@);
                        match got {
                            Some((value, used)) => {
                                proof {
                                    lemma_scan_done(self@, MAX_PREAMBLE as nat);
                                    lemma_cap_max();
                                }
                                if value > (usize::MAX - used) as u64 {
                                    self.len = Length::Oversized;
                                    return Step::Fail(FrameError::TooLarge);
                                }
                                let payload = value as usize;
                                if payload == 0 {
                                    self.occupied = 0;
                                    self.len = Length::Unknown;
                                    assert(self@ =~= Seq::<u8>::empty());
                                    return Step::Frame(used, used);
                                }
                                self.len = Length::Known { payload, preamble: used };
                                Step::More
                            },
                            None => {
                                if self.occupied >= MAX_PREAMBLE {
                                    self.len = Length::Unterminated;
                                    Step::Fail(FrameError::BadPreamble)
                                } else {
                                    Step::More
                                }
                            },
                        }
                    },
                }
            },
        }
    }

    /// Reads from `r` until one frame is complete, the stream has nothing more for now,
    /// or something fails; gives the place of the payload in the buffer.
    pub(crate) fn try_read_span<R: ByteSource>(&mut self, r: &mut R) -> (res: Result<
        Option<(usize, usize)>,
        FrameError<R::Error>,
    >)
        requires
            old(self).wf(),
        ensures
            final(self).wf(),
            final(self).capacity() >= old(self).capacity(),
            old(r).delivered().is_prefix_of(final(r).delivered()),
            final(self).reads_made() <= fresh(old(r).delivered(), final(r).delivered()).len() + 1,
            ({
                let s = old(self)@ + fresh(old(r).delivered(), final(r).delivered());
                match frame_parse(s) {
                    FrameParse::Complete(p) => {
                        &&& final(self)@.len() == 0
                        &&& final(self).last_read() == LastRead::Bytes
                        &&& res matches Ok(Some((a, b))) && a <= b <= final(self).capacity()
                            && final(self).stored(a as int, b as int) == p
                    },
                    FrameParse::Partial => {
                        &&& final(self)@ == s
                        &&& res matches Ok(None) ==> final(self).last_read() == LastRead::NotReady
                            || final(self).last_read() == LastRead::NoData
                        &&& res matches Err(FrameError::Stream(_)) ==> final(self).last_read()
                            == LastRead::Failed
                        &&& (res matches Ok(None) || res matches Err(FrameError::Stream(_)))
                    },
                    FrameParse::BadPreamble => final(self)@ == s && res matches Err(
                        FrameError::BadPreamble,
                    ),
                    FrameParse::TooLarge => final(self)@ == s && res matches Err(
                        FrameError::TooLarge,
                    ),
                    FrameParse::Overfull => false,
                }
            }),
    {
        self.reads = Ghost(0);
        self.last_read = Ghost(LastRead::Nothing);
        let ghost start = self@;
        let ghost seen = r.delivered();
        assert(fresh(seen, seen) =~= Seq::<u8>::empty());
        assert(start + Seq::<u8>::empty() =~= start);
        match self.len {
            Length::Unterminated => {
                return Err(FrameError::BadPreamble);
            },
            Length::Oversized => {
                return Err(FrameError::TooLarge);
            },
            _ => {},
        }
        loop
            invariant
                seen == old(r).delivered(),
                start == old(self)@,
                self.wf(),
                self.buffer@.len() >= old(self).buffer@.len(),
                seen.is_prefix_of(r.delivered()),
                self@ == start + fresh(seen, r.delivered()),
                frame_parse(self@) is Partial,
                self.reads@ <= fresh(seen, r.delivered()).len(),
                self.last_read@ == LastRead::Nothing || self.last_read@ == LastRead::Bytes,
            decreases usize::MAX - self.occupied,
        {
            let want = self.want();
            let ghost before = r.delivered();
            let ghost held = self@;
            let got = r.read_up_to(want);
            let ghost taken = if got is Data {
                got->Data_0@
            } else {
                Seq::<u8>::empty()
            };
            assert(r.delivered() =~= before + taken);
            assert(fresh(seen, r.delivered()) =~= fresh(seen, before) + taken);
            assert(held + taken =~= start + fresh(seen, r.delivered()));
            match self.take_in(got) {
                Step::Idle => {
                    return Ok(None);
                },
                Step::More => {},
                Step::Frame(a, b) => {
                    return Ok(Some((a, b)));
                },
                Step::Fail(e) => {
                    return Err(e);
                },
            }
        }
    }
}

impl Bufferer {
    /// Reads from `r` until one frame is complete, the stream has nothing more for now
    /// (it is not ready, or a read gives no bytes), or something fails.
    ///
    /// Each read asks for `want()` bytes and its outcome is taken in by `take_in`: the
    /// call goes on reading while that says `More`. All the bytes read are kept; on
    /// `Ok(None)` they wait for the rest of the frame. The payload handed out lives in the
    /// reader's buffer, so it is valid until the next call.
    pub fn try_read_preambled<R: ByteSource>(&mut self, r: &mut R) -> (res: Result<
        Option<&[u8]>,
        FrameError<R::Error>,
    >)
        requires
            old(self).wf(),
        ensures
            final(self).wf(),
            final(self).capacity() >= old(self).capacity(),
            old(r).delivered().is_prefix_of(final(r).delivered()),
            final(self).reads_made() <= fresh(old(r).delivered(), final(r).delivered()).len() + 1,
            ({
                let s = old(self)@ + fresh(old(r).delivered(), final(r).delivered());
                match frame_parse(s) {
                    FrameParse::Complete(p) => {
                        &&& final(self)@.len() == 0
                        &&& final(self).last_read() == LastRead::Bytes
                        &&& res matches Ok(Some(x)) && x@ == p
                    },
                    FrameParse::Partial => {
                        &&& final(self)@ == s
                        &&& res matches Ok(None) ==> final(self).last_read() == LastRead::NotReady
                            || final(self).last_read() == LastRead::NoData
                        &&& res matches Err(FrameError::Stream(_)) ==> final(self).last_read()
                            == LastRead::Failed
                        &&& (res matches Ok(None) || res matches Err(FrameError::Stream(_)))
                    },
                    FrameParse::BadPreamble => final(self)@ == s && res matches Err(
                        FrameError::BadPreamble,
                    ),
                    FrameParse::TooLarge => final(self)@ == s && res matches Err(
                        FrameError::TooLarge,
                    ),
                    FrameParse::Overfull => false,
                }
            }),
    {
        match self.try_read_span(r) {
            Ok(Some((a, b))) => Ok(Some(self.stored_slice(a, b))),
            Ok(None) => Ok(None),
            Err(e) => Err(e),
        }
    }
}

/// A frame reader bound to the stream it reads.
pub struct ReadWrapper<R> {
    r: R,
    bufferer: Bufferer,
}

impl<R: ByteSource> ReadWrapper<R> {
    /// The stream read.
    pub closed spec fn source(&self) -> R {
        self.r
    }

    /// The bytes gathered so far for the current frame.
    pub closed spec fn held(&self) -> Seq<u8> {
        self.bufferer@
    }

    /// The frame reader.
    pub closed spec fn reader(&self) -> Bufferer {
        self.bufferer
    }

    /// The bound reader is well formed.
    pub closed spec fn wf(&self) -> bool {
        self.bufferer.wf()
    }

    pub(crate) closed spec fn capacity(&self) -> nat {
        self.bufferer.capacity()
    }

    pub(crate) closed spec fn stored(&self, start: int, end: int) -> Seq<u8> {
        self.bufferer.stored(start, end)
    }

    /// Binds a fresh reader, holding no bytes, to `r`.
    pub fn new(r: R) -> (w: Self)
        ensures
            w.wf(),
            w.source() == r,
            w.held().len() == 0,
    {
        ReadWrapper { r, bufferer: Bufferer::new() }
    }

    /// `Bufferer::try_read_preambled` on the bound stream.
    pub fn try_read_preambled(&mut self) -> (res: Result<Option<&[u8]>, FrameError<R::Error>>)
        requires
            old(self).wf(),
        ensures
            final(self).wf(),
            old(self).source().delivered().is_prefix_of(final(self).source().delivered()),
            final(self).reader().reads_made() <= fresh(
                old(self).source().delivered(),
                final(self).source().delivered(),
            ).len() + 1,
            ({
                let s = old(self).held() + fresh(
                    old(self).source().delivered(),
                    final(self).source().delivered(),
                );
                match frame_parse(s) {
                    FrameParse::Complete(p) => {
                        &&& final(self).held().len() == 0
                        &&& final(self).reader().last_read() == LastRead::Bytes
                        &&& res matches Ok(Some(x)) && x@ == p
                    },
                    FrameParse::Partial => {
                        &&& final(self).held() == s
                        &&& res matches Ok(None) ==> final(self).reader().last_read()
                            == LastRead::NotReady || final(self).reader().last_read()
                            == LastRead::NoData
                        &&& res matches Err(FrameError::Stream(_)) ==> final(self).reader().last_read()
                            == LastRead::Failed
                        &&& (res matches Ok(None) || res matches Err(FrameError::Stream(_)))
                    },
                    FrameParse::BadPreamble => final(self).held() == s && res matches Err(
                        FrameError::BadPreamble,
                    ),
                    FrameParse::TooLarge => final(self).held() == s && res matches Err(
                        FrameError::TooLarge,
                    ),
                    FrameParse::Overfull => false,
                }
            }),
    {
        self.bufferer.try_read_preambled(&mut self.r)
    }

    /// `Bufferer::try_read_span` on the bound stream.
    pub(crate) fn try_read_span(&mut self) -> (res: Result<
        Option<(usize, usize)>,
        FrameError<R::Error>,
    >)
        requires
            old(self).wf(),
        ensures
            final(self).wf(),
            final(self).capacity() >= old(self).capacity(),
            old(self).source().delivered().is_prefix_of(final(self).source().delivered()),
            final(self).reader().reads_made() <= fresh(
                old(self).source().delivered(),
                final(self).source().delivered(),
            ).len() + 1,
            ({
                let s = old(self).held() + fresh(
                    old(self).source().delivered(),
                    final(self).source().delivered(),
                );
                match frame_parse(s) {
                    FrameParse::Complete(p) => {
                        &&& final(self).held().len() == 0
                        &&& final(self).reader().last_read() == LastRead::Bytes
                        &&& res matches Ok(Some((a, b))) && a <= b <= final(self).capacity()
                            && final(self).stored(a as int, b as int) == p
                    },
                    FrameParse::Partial => {
                        &&& final(self).held() == s
                        &&& res matches Ok(None) ==> final(self).reader().last_read()
                            == LastRead::NotReady || final(self).reader().last_read()
                            == LastRead::NoData
                        &&& res matches Err(FrameError::Stream(_)) ==> final(self).reader().last_read()
                            == LastRead::Failed
                        &&& (res matches Ok(None) || res matches Err(FrameError::Stream(_)))
                    },
                    FrameParse::BadPreamble => final(self).held() == s && res matches Err(
                        FrameError::BadPreamble,
                    ),
                    FrameParse::TooLarge => final(self).held() == s && res matches Err(
                        FrameError::TooLarge,
                    ),
                    FrameParse::Overfull => false,
                }
            }),
    {
        self.bufferer.try_read_span(&mut self.r)
    }

    pub(crate) fn stored_slice(&self, start: usize, end: usize) -> (r: &[u8])
        requires
            start <= end <= self.capacity(),
        ensures
            r@ == self.stored(start as int, end as int),
    {
        self.bufferer.stored_slice(start, end)
    }
}

/// Writes `bytes` to `w` as one frame: its length as a varint, then the bytes.
pub fn write_preambled<W: ByteSink>(w: &mut W, bytes: &[u8]) -> (r: Result<(), W::Error>)
    ensures
        r is Ok ==> final(w).sent() == old(w).sent() + frame_of(bytes@),
{
    let preamble = encode_u64(bytes.len() as u64);
    match w.write_all(preamble.as_slice()) {
        Ok(()) => {},
        Err(e) => {
            return Err(e);
        },
    }
    let r = w.write_all(bytes);
    proof {
        if r is Ok {
            assert(final(w).sent() =~= old(w).sent() + frame_of(bytes@));
        }
    }
    r
}

} // verus!
