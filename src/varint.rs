//! The length preamble: an unsigned LEB128 varint of at most ten bytes.

use vstd::prelude::*;
use integer_encoding::VarInt;

verus! {

/// Most bytes a preamble may take: a `u64` needs ten groups of seven bits.
pub const MAX_PREAMBLE: usize = 10;

/// The canonical varint of `v`: seven bits per byte, least significant group first,
/// the high bit set on every byte but the last.
pub open spec fn varint_of(v: nat) -> Seq<u8>
    decreases v,
{
    if v < 128 {
        seq![v as u8]
    } else {
        seq![(v % 128 + 128) as u8] + varint_of(v / 128)
    }
}

/// How a varint that starts a byte sequence reads.
pub enum Preamble {
    /// every byte so far carries the continuation bit: more are needed
    Incomplete,
    /// the bytes cannot start the varint of a `u64`
    Malformed,
    /// the varint ends after `len` bytes and has value `value`
    Done { value: nat, len: nat },
}

/// Reads a varint at the start of `s`, allowing `budget` more bytes; the last allowed
/// byte may only be 0 or 1, as the 64th bit is the last one a `u64` has.
pub open spec fn scan(s: Seq<u8>, budget: nat) -> Preamble
    decreases s.len(),
{
    if s.len() == 0 {
        Preamble::Incomplete
    } else if budget <= 1 {
        if budget == 1 && s[0] < 2 {
            Preamble::Done { value: s[0] as nat, len: 1 }
        } else {
            Preamble::Malformed
        }
    } else if s[0] < 128 {
        Preamble::Done { value: s[0] as nat, len: 1 }
    } else {
        match scan(s.drop_first(), (budget - 1) as nat) {
            Preamble::Done { value, len } => Preamble::Done {
                value: ((s[0] - 128) + 128 * value) as nat,
                len: len + 1,
            },
            other => other,
        }
    }
}

/// How the preamble at the start of `s` reads.
pub open spec fn varint_parse(s: Seq<u8>) -> Preamble {
    scan(s, MAX_PREAMBLE as nat)
}

/// Largest value plus one that a varint of `budget` bytes can carry under `scan`.
pub open spec fn cap(budget: nat) -> nat
    decreases budget,
{
    if budget <= 1 {
        2
    } else {
        128 * cap((budget - 1) as nat)
    }
}

proof fn lemma_cap_floor(budget: nat)
    ensures
        cap(budget) >= 2,
        budget > 1 ==> cap(budget) >= 256,
    decreases budget,
{
    if budget > 1 {
        lemma_cap_floor((budget - 1) as nat);
    }
}

/// A ten-byte budget carries exactly the values of a `u64`.
pub proof fn lemma_cap_max()
    ensures
        cap(MAX_PREAMBLE as nat) == u64::MAX as nat + 1,
{
    reveal_with_fuel(cap, 10);
}

/// Decoding the canonical varint of `v` gives `v` back, whatever follows it.
pub proof fn lemma_scan_varint_of(v: nat, t: Seq<u8>, budget: nat)
    requires
        budget >= 1,
        v < cap(budget),
    ensures
        scan(varint_of(v) + t, budget) == (Preamble::Done { value: v, len: varint_of(v).len() }),
    decreases v,
{
    let s = varint_of(v) + t;
    if v < 128 {
        if budget <= 1 {
            assert(v < 2);
        }
    } else {
        if budget <= 1 {
            assert(false);
        }
        let w = v / 128;
        assert(w < cap((budget - 1) as nat)) by (nonlinear_arith)
            requires
                v < 128 * cap((budget - 1) as nat),
                w == v / 128,
        ;
        lemma_scan_varint_of(w, t, (budget - 1) as nat);
        assert(s.drop_first() =~= varint_of(w) + t);
        assert(s[0] == (v % 128 + 128) as u8);
        assert((v % 128) + 128 * w == v) by (nonlinear_arith)
            requires
                w == v / 128,
        ;
    }
}

/// The canonical varint of a value that fits the budget is no longer than the budget,
/// and every byte of it but the last carries the continuation bit.
pub proof fn lemma_varint_of_shape(v: nat, budget: nat)
    requires
        budget >= 1,
        v < cap(budget),
    ensures
        1 <= varint_of(v).len() <= budget,
        forall|i: int| 0 <= i < varint_of(v).len() - 1 ==> varint_of(v)[i] >= 128,
    decreases v,
{
    if v >= 128 {
        if budget <= 1 {
            assert(false);
        }
        let w = v / 128;
        assert(w < cap((budget - 1) as nat)) by (nonlinear_arith)
            requires
                v < 128 * cap((budget - 1) as nat),
                w == v / 128,
        ;
        lemma_varint_of_shape(w, (budget - 1) as nat);
        let head = seq![(v % 128 + 128) as u8];
        assert forall|i: int| 0 <= i < varint_of(v).len() - 1 implies varint_of(v)[i] >= 128 by {
            if i > 0 {
                assert(varint_of(v)[i] == varint_of(w)[i - 1]);
            }
        }
    }
}

/// What a finished varint says of its bytes: its value fits the budget and it ends
/// within the bytes at hand.
pub proof fn lemma_scan_done(s: Seq<u8>, budget: nat)
    requires
        scan(s, budget) is Done,
    ensures
        scan(s, budget)->value < cap(budget),
        1 <= scan(s, budget)->len <= s.len(),
        scan(s, budget)->len <= budget,
    decreases s.len(),
{
    lemma_cap_floor(budget);
    if s.len() > 0 && budget > 1 && s[0] >= 128 {
        lemma_scan_done(s.drop_first(), (budget - 1) as nat);
        let v = scan(s.drop_first(), (budget - 1) as nat)->value;
        let c = cap((budget - 1) as nat);
        assert((s[0] - 128) + 128 * v < 128 * c) by (nonlinear_arith)
            requires
                v < c,
                0 <= s[0] - 128 < 128,
        ;
    }
}

/// An unfinished varint is a run of continuation bytes shorter than the budget.
pub proof fn lemma_scan_incomplete(s: Seq<u8>, budget: nat)
    requires
        budget >= 1,
        scan(s, budget) is Incomplete,
    ensures
        s.len() < budget,
        forall|i: int| 0 <= i < s.len() ==> s[i] >= 128,
    decreases s.len(),
{
    if s.len() > 0 {
        lemma_scan_incomplete(s.drop_first(), (budget - 1) as nat);
        assert forall|i: int| 0 <= i < s.len() implies s[i] >= 128 by {
            if i > 0 {
                assert(s[i] == s.drop_first()[i - 1]);
            }
        }
    }
}

/// A run of continuation bytes shorter than the budget is an unfinished varint.
pub proof fn lemma_scan_continuing(s: Seq<u8>, budget: nat)
    requires
        s.len() < budget,
        forall|i: int| 0 <= i < s.len() ==> s[i] >= 128,
    ensures
        scan(s, budget) is Incomplete,
    decreases s.len(),
{
    if s.len() > 0 {
        lemma_scan_continuing(s.drop_first(), (budget - 1) as nat);
    }
}

/// Bytes after a finished or malformed varint do not change how it reads.
pub proof fn lemma_scan_extend(s: Seq<u8>, t: Seq<u8>, budget: nat)
    requires
        !(scan(s, budget) is Incomplete),
    ensures
        scan(s + t, budget) == scan(s, budget),
    decreases s.len(),
{
    if s.len() > 0 {
        assert((s + t)[0] == s[0]);
        if budget > 1 && s[0] >= 128 {
            assert((s + t).drop_first() =~= s.drop_first() + t);
            lemma_scan_extend(s.drop_first(), t, (budget - 1) as nat);
        }
    }
}

/// One byte more on an unfinished varint: it stays unfinished, becomes malformed, or
/// ends exactly at that byte.
pub proof fn lemma_scan_step(s: Seq<u8>, b: u8, budget: nat)
    requires
        budget >= 1,
        scan(s, budget) is Incomplete,
    ensures
        scan(s.push(b), budget) is Done ==> scan(s.push(b), budget)->len == s.len() + 1,
        scan(s.push(b), budget) is Incomplete <==> (s.len() + 1 < budget && b >= 128),
        scan(s.push(b), budget) is Malformed ==> s.len() + 1 == budget,
    decreases s.len(),
{
    lemma_scan_incomplete(s, budget);
    let t = s.push(b);
    if s.len() == 0 {
        assert(t[0] == b);
    } else {
        assert(t[0] == s[0]);
        assert(t.drop_first() =~= s.drop_first().push(b));
        lemma_scan_step(s.drop_first(), b, (budget - 1) as nat);
    }
    if s.len() + 1 < budget && b >= 128 {
        assert forall|i: int| 0 <= i < t.len() implies t[i] >= 128 by {}
        lemma_scan_continuing(t, budget);
    }
}

/// Relies on integer_encoding's `VarInt::encode_var_vec` for `u64`: the bytes are the
/// LEB128 groups of `v`, least significant first.
#[verifier::external_body]
pub(crate) fn encode_u64(v: u64) -> (r: Vec<u8>)
    ensures
        r@ == varint_of(v as nat),
{
    v.encode_var_vec()
}

/// Relies on integer_encoding's `VarInt::decode_var` for `u64`: it reads the varint at the
/// start of `b`, stopping at the first byte without the continuation bit or at the tenth
/// byte, which must be 0 or 1; `None` when the bytes end first or the tenth byte is larger.
#[verifier::external_body]
pub(crate) fn decode_u64(b: &[u8]) -> (r: Option<(u64, usize)>)
    ensures
        match varint_parse(b@) {
            Preamble::Done { value, len } => r == Some((value as u64, len as usize)),
            _ => r is None,
        },
{
    u64::decode_var(b)
}

} // verus!
