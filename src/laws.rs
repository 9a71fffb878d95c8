//! What holds of a stream of frames read back in pieces.

use vstd::prelude::*;
use crate::frame::{frame_of, frame_parse, FrameParse};
use crate::varint::{
    lemma_cap_max, lemma_scan_continuing, lemma_scan_varint_of, lemma_varint_of_shape, varint_of,
    varint_parse, Preamble, MAX_PREAMBLE,
};

verus! {

/// The frame of `m` fits in memory.
pub open spec fn fits(m: Seq<u8>) -> bool {
    frame_of(m).len() <= usize::MAX
}

/// The frames of the messages `ms`, one after another.
pub open spec fn frames_of(ms: Seq<Seq<u8>>) -> Seq<u8>
    decreases ms.len(),
{
    if ms.len() == 0 {
        Seq::empty()
    } else {
        frame_of(ms[0]) + frames_of(ms.drop_first())
    }
}

/// The pieces `reads`, one after another.
pub open spec fn joined(reads: Seq<Seq<u8>>) -> Seq<u8>
    decreases reads.len(),
{
    if reads.len() == 0 {
        Seq::empty()
    } else {
        reads[0] + joined(reads.drop_first())
    }
}

/// What successive calls of `Bufferer::try_read_preambled` hand out, starting from the
/// bytes `held`, when the i-th call takes in the bytes `reads[i]`: the payloads, and the
/// bytes held at the end. `None` when some call could not take in its bytes (they run past
/// the end of a frame, or the preamble is bad).
pub open spec fn read_frames(held: Seq<u8>, reads: Seq<Seq<u8>>) -> Option<
    (Seq<Seq<u8>>, Seq<u8>),
>
    decreases reads.len(),
{
    if reads.len() == 0 {
        Some((Seq::empty(), held))
    } else {
        let s = held + reads[0];
        match frame_parse(s) {
            FrameParse::Partial => read_frames(s, reads.drop_first()),
            FrameParse::Complete(p) => match read_frames(Seq::empty(), reads.drop_first()) {
                Some((out, rest)) => Some((seq![p] + out, rest)),
                None => None,
            },
            _ => None,
        }
    }
}

/// One call of `Bufferer::try_read_preambled` is one step of `read_frames`: a call that
/// takes in the bytes `d` while `held` is held hands out what `frame_parse(held + d)` says
/// (a payload, and nothing held after it; or nothing, with `held + d` held), and the calls
/// after it go on from what it leaves held.
pub proof fn lemma_one_call(held: Seq<u8>, d: Seq<u8>, later: Seq<Seq<u8>>)
    ensures
        read_frames(held, seq![d] + later) == match frame_parse(held + d) {
            FrameParse::Partial => read_frames(held + d, later),
            FrameParse::Complete(p) => match read_frames(Seq::empty(), later) {
                Some((out, rest)) => Some((seq![p] + out, rest)),
                None => None,
            },
            _ => None,
        },
{
    let reads = seq![d] + later;
    assert(reads[0] == d);
    assert(reads.drop_first() =~= later);
}

/// How the first `k` bytes of the frame of `m`, and the frame with more bytes after it, read.
proof fn lemma_frame_prefix(m: Seq<u8>, k: nat, x: Seq<u8>)
    requires
        fits(m),
        k <= frame_of(m).len(),
    ensures
        k < frame_of(m).len() ==> frame_parse(frame_of(m).take(k as int)) is Partial,
        frame_parse(frame_of(m)) == FrameParse::Complete(m),
        x.len() > 0 ==> frame_parse(frame_of(m) + x) is Overfull,
{
    let v = varint_of(m.len());
    let f = frame_of(m);
    let budget = MAX_PREAMBLE as nat;
    lemma_cap_max();
    lemma_varint_of_shape(m.len(), budget);
    if k < v.len() {
        let q = f.take(k as int);
        assert forall|i: int| 0 <= i < q.len() implies q[i] >= 128 by {
            assert(q[i] == v[i]);
        }
        lemma_scan_continuing(q, budget);
    } else {
        let q = f.take(k as int);
        assert(q =~= v + m.take(k - v.len()));
        lemma_scan_varint_of(m.len(), m.take(k - v.len()), budget);
    }
    lemma_scan_varint_of(m.len(), m, budget);
    assert(f.subrange(v.len() as int, (v.len() + m.len()) as int) =~= m);
    assert(f + x =~= v + (m + x));
    lemma_scan_varint_of(m.len(), m + x, budget);
}

/// Reads that bring no bytes hand out nothing.
proof fn lemma_read_nothing(reads: Seq<Seq<u8>>)
    requires
        joined(reads).len() == 0,
    ensures
        read_frames(Seq::empty(), reads) == Some((Seq::<Seq<u8>>::empty(), Seq::<u8>::empty())),
    decreases reads.len(),
{
    if reads.len() > 0 {
        assert(reads[0].len() == 0);
        assert(Seq::<u8>::empty() + reads[0] =~= Seq::<u8>::empty());
        assert(varint_parse(Seq::<u8>::empty()) is Incomplete);
        lemma_read_nothing(reads.drop_first());
    }
}

/// Reading back one frame from the bytes held so far, in any pieces.
proof fn lemma_finish_frame(m: Seq<u8>, held: Seq<u8>, reads: Seq<Seq<u8>>)
    requires
        fits(m),
        held.len() < frame_of(m).len(),
        held + joined(reads) == frame_of(m),
    ensures
        read_frames(held, reads) == Some((seq![m], Seq::<u8>::empty())),
    decreases reads.len(),
{
    let f = frame_of(m);
    if reads.len() == 0 {
        assert(held =~= held + joined(reads));
        assert(false);
    } else {
        let s = held + reads[0];
        let rest = reads.drop_first();
        assert(f =~= s + joined(rest));
        assert(s =~= f.take(s.len() as int));
        lemma_frame_prefix(m, s.len(), Seq::empty());
        if s.len() < f.len() {
            lemma_finish_frame(m, s, rest);
        } else {
            assert(s =~= f);
            assert(joined(rest).len() == 0);
            lemma_read_nothing(rest);
            assert(seq![m] + Seq::<Seq<u8>>::empty() =~= seq![m]);
        }
    }
}

/// Round trip: the frame of any message `m`, read back in any pieces (one piece, single
/// bytes, anything in between), gives exactly `m`, and nothing is left held.
pub proof fn lemma_round_trip(m: Seq<u8>, reads: Seq<Seq<u8>>)
    requires
        fits(m),
        joined(reads) == frame_of(m),
    ensures
        read_frames(Seq::empty(), reads) == Some((seq![m], Seq::<u8>::empty())),
{
    assert(Seq::<u8>::empty() + joined(reads) =~= joined(reads));
    lemma_finish_frame(m, Seq::empty(), reads);
}

/// Resuming: while the bytes read are fewer than one whole frame, every call hands out
/// nothing, and the reader holds exactly the bytes read so far, none lost or repeated.
pub proof fn lemma_resume(m: Seq<u8>, held: Seq<u8>, reads: Seq<Seq<u8>>)
    requires
        fits(m),
        (held + joined(reads)).len() < frame_of(m).len(),
        held + joined(reads) == frame_of(m).take((held + joined(reads)).len() as int),
    ensures
        read_frames(held, reads) == Some((Seq::<Seq<u8>>::empty(), held + joined(reads))),
    decreases reads.len(),
{
    let f = frame_of(m);
    if reads.len() == 0 {
        assert(held + joined(reads) =~= held);
    } else {
        let s = held + reads[0];
        let rest = reads.drop_first();
        assert(held + joined(reads) =~= s + joined(rest));
        assert(s =~= f.take(s.len() as int));
        lemma_frame_prefix(m, s.len(), Seq::empty());
        lemma_resume(m, s, rest);
    }
}

/// Every frame has at least one byte.
proof fn lemma_frame_nonempty(m: Seq<u8>)
    requires
        fits(m),
    ensures
        frame_of(m).len() >= 1,
{
    lemma_cap_max();
    lemma_varint_of_shape(m.len(), MAX_PREAMBLE as nat);
}

proof fn lemma_read_in_order(ms: Seq<Seq<u8>>, held: Seq<u8>, reads: Seq<Seq<u8>>)
    requires
        forall|i: int| 0 <= i < ms.len() ==> fits(#[trigger] ms[i]),
        ms.len() == 0 ==> held.len() == 0,
        ms.len() > 0 ==> held.len() < frame_of(ms[0]).len(),
        held + joined(reads) == frames_of(ms),
    ensures
        read_frames(held, reads) matches Some((out, rest)) ==> out == ms && rest.len() == 0,
        (forall|i: int| 0 <= i < reads.len() ==> (#[trigger] reads[i]).len() <= 1) ==> read_frames(
            held,
            reads,
        ) is Some,
    decreases reads.len(),
{
    if reads.len() == 0 {
        assert(held + joined(reads) =~= held);
        if ms.len() > 0 {
            assert(frames_of(ms) =~= frame_of(ms[0]) + frames_of(ms.drop_first()));
            assert(false);
        }
    } else if ms.len() == 0 {
        assert(held + joined(reads) =~= joined(reads));
        lemma_read_nothing(reads);
    } else {
        let f = frame_of(ms[0]);
        let later = ms.drop_first();
        let s = held + reads[0];
        let rest = reads.drop_first();
        assert(frames_of(ms) == f + frames_of(later));
        assert(frames_of(ms) =~= s + joined(rest));
        assert(fits(ms[0]));
        assert forall|i: int| 0 <= i < later.len() implies fits(#[trigger] later[i]) by {
            assert(later[i] == ms[i + 1]);
        }
        let stream = frames_of(ms);
        assert forall|i: int| 0 <= i < s.len() implies s[i] == stream[i] by {
            assert(stream[i] == (s + joined(rest))[i]);
        }
        assert forall|i: int| 0 <= i < f.len() implies f[i] == stream[i] by {
            assert(stream[i] == (f + frames_of(later))[i]);
        }
        if s.len() < f.len() {
            assert(s =~= f.take(s.len() as int));
            lemma_frame_prefix(ms[0], s.len(), Seq::empty());
            assert forall|i: int| 0 <= i < rest.len() implies #[trigger] rest[i] == reads[i + 1] by {}
            lemma_read_in_order(ms, s, rest);
        } else if s.len() == f.len() {
            assert(s =~= f);
            lemma_frame_prefix(ms[0], s.len(), Seq::empty());
            assert forall|i: int| 0 <= i < joined(rest).len() implies joined(rest)[i]
                == frames_of(later)[i] by {
                assert(stream[i + s.len()] == (s + joined(rest))[i + s.len()]);
                assert(stream[i + f.len()] == (f + frames_of(later))[i + f.len()]);
            }
            assert(joined(rest) =~= frames_of(later));
            assert(Seq::<u8>::empty() + joined(rest) =~= joined(rest));
            if later.len() > 0 {
                lemma_frame_nonempty(later[0]);
            }
            assert forall|i: int| 0 <= i < rest.len() implies #[trigger] rest[i] == reads[i + 1] by {}
            lemma_read_in_order(later, Seq::empty(), rest);
            if read_frames(Seq::empty(), rest) is Some {
                let pair = read_frames(Seq::empty(), rest)->0;
                let out = pair.0;
                assert(seq![ms[0]] + out =~= ms);
            }
        } else {
            let x = s.skip(f.len() as int);
            assert(s =~= f + x);
            lemma_frame_prefix(ms[0], f.len(), x);
            assert(reads[0].len() > 1);
        }
    }
}

/// Several frames back to back come out as exactly their messages, in order, none lost,
/// repeated or reordered, with nothing held at the end: whenever the reader can take in the
/// pieces, which it always can when each piece brings at most one byte.
pub proof fn lemma_frames_in_order(ms: Seq<Seq<u8>>, reads: Seq<Seq<u8>>)
    requires
        forall|i: int| 0 <= i < ms.len() ==> fits(#[trigger] ms[i]),
        joined(reads) == frames_of(ms),
    ensures
        read_frames(Seq::empty(), reads) matches Some((out, rest)) ==> out == ms && rest.len()
            == 0,
        (forall|i: int| 0 <= i < reads.len() ==> (#[trigger] reads[i]).len() <= 1) ==> read_frames(
            Seq::empty(),
            reads,
        ) is Some,
{
    assert(Seq::<u8>::empty() + joined(reads) =~= joined(reads));
    if ms.len() > 0 {
        lemma_frame_nonempty(ms[0]);
    }
    lemma_read_in_order(ms, Seq::empty(), reads);
}

/// The reads of a stream that is not ready before each of its bytes: an empty read,
/// then one byte, over and over.
pub open spec fn not_ready_between_bytes(stream: Seq<u8>, reads: Seq<Seq<u8>>) -> bool {
    &&& reads.len() == 2 * stream.len()
    &&& forall|i: int|
        0 <= i < stream.len() ==> (#[trigger] reads[2 * i]).len() == 0 && reads[2 * i + 1]
            == seq![stream[i]]
}

proof fn lemma_joined_not_ready(stream: Seq<u8>, reads: Seq<Seq<u8>>)
    requires
        not_ready_between_bytes(stream, reads),
    ensures
        joined(reads) == stream,
        forall|i: int| 0 <= i < reads.len() ==> (#[trigger] reads[i]).len() <= 1,
    decreases stream.len(),
{
    if stream.len() == 0 {
        assert(joined(reads) =~= stream);
    } else {
        let later = reads.drop_first().drop_first();
        let tail = stream.drop_first();
        assert(reads[2 * 0int].len() == 0);
        assert(reads[2 * 0int + 1] == seq![stream[0]]);
        assert forall|i: int| 0 <= i < tail.len() implies (#[trigger] later[2 * i]).len() == 0
            && later[2 * i + 1] == seq![tail[i]] by {
            assert(later[2 * i] == reads[2 * (i + 1)]);
            assert(later[2 * i + 1] == reads[2 * (i + 1) + 1]);
        }
        lemma_joined_not_ready(tail, later);
        assert(joined(reads.drop_first()) == reads[1] + joined(later));
        assert(joined(reads) =~= stream);
        assert forall|i: int| 0 <= i < reads.len() implies (#[trigger] reads[i]).len() <= 1 by {
            if i >= 2 {
                assert(reads[i] == later[i - 2]);
            } else if i == 0 {
                assert(reads[2 * 0int].len() == 0);
            }
        }
    }
}

/// A stream that reports "not ready" before every single byte still gives back exactly the
/// messages of its frames, in order.
pub proof fn lemma_not_ready_transparent(ms: Seq<Seq<u8>>, reads: Seq<Seq<u8>>)
    requires
        forall|i: int| 0 <= i < ms.len() ==> fits(#[trigger] ms[i]),
        not_ready_between_bytes(frames_of(ms), reads),
    ensures
        read_frames(Seq::empty(), reads) == Some((ms, Seq::<u8>::empty())),
{
    lemma_joined_not_ready(frames_of(ms), reads);
    lemma_frames_in_order(ms, reads);
    let r = read_frames(Seq::empty(), reads)->0;
    assert(r.1 =~= Seq::<u8>::empty());
}

} // verus!
