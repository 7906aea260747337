//! Canonical binary encoding of the persisted types.
//!
//! Every persisted type has a fixed-upper-bound-size encoding: a tagged union
//! is one tag byte followed by the fields of the variant, a struct is its
//! fields in declaration order, and integers are little endian with a fixed
//! width. Decoding is exact: unknown tags and truncated input fail cleanly
//! with a distinct, low-level error, never with a business-rule rejection.
//! The `lemma_*_round_trip` functions state the guarantee the persistence
//! boundary rests on: decoding an encoding, wherever it sits in a larger
//! buffer, gives back the identical value.
//!
//! Identifiers and rates are held here at fixed widths: a loan identifier is
//! a `u64` and a rate a `u128`, matching the fixed-precision integers the
//! engine works with.

use vstd::prelude::*;
use crate::types::{Maturity, InterestPayments, PayDownSchedule, RepaymentSchedule,
    BorrowRestrictions, RepayRestrictions, LoanRestrictions, InternalMutation,
    LoanMutation, Change};
use crate::valuation::{ValuationMethod, DiscountedCashFlow};

verus! {

/// Why a byte sequence failed to decode.
#[derive(Clone, Copy, Debug, PartialEq, Eq)]
pub enum DecodeError {
    /// The input ended before the value was complete.
    Truncated,
    /// A tag byte does not name any known variant.
    UnknownTag,
}

// ---------------------------------------------------------------------------
// Fixed-width integers, little endian.
// ---------------------------------------------------------------------------

/// The little-endian encoding of a `u64`.
pub open spec fn enc_u64(v: u64) -> Seq<u8> {
    seq![
        (v & 0xff) as u8,
        ((v >> 8) & 0xff) as u8,
        ((v >> 16) & 0xff) as u8,
        ((v >> 24) & 0xff) as u8,
        ((v >> 32) & 0xff) as u8,
        ((v >> 40) & 0xff) as u8,
        ((v >> 48) & 0xff) as u8,
        ((v >> 56) & 0xff) as u8,
    ]
}

/// The `u64` read little-endian from `s` at `i`.
pub open spec fn u64_from_le(s: Seq<u8>, i: int) -> u64
    recommends
        0 <= i,
        i + 8 <= s.len(),
{
    (s[i] as u64)
        | ((s[i + 1] as u64) << 8)
        | ((s[i + 2] as u64) << 16)
        | ((s[i + 3] as u64) << 24)
        | ((s[i + 4] as u64) << 32)
        | ((s[i + 5] as u64) << 40)
        | ((s[i + 6] as u64) << 48)
        | ((s[i + 7] as u64) << 56)
}

/// What decoding a `u64` from `s` at `i` yields.
pub open spec fn dec_u64(s: Seq<u8>, i: int) -> Result<(u64, int), DecodeError>
    recommends
        0 <= i,
{
    if i + 8 <= s.len() {
        Ok((u64_from_le(s, i), i + 8))
    } else {
        Err(DecodeError::Truncated)
    }
}

/// Append the encoding of `v` to `out`.
pub fn encode_u64(v: u64, out: &mut Vec<u8>)
    ensures
        final(out)@ == old(out)@ + enc_u64(v),
{
    out.push((v & 0xff) as u8);
    out.push(((v >> 8) & 0xff) as u8);
    out.push(((v >> 16) & 0xff) as u8);
    out.push(((v >> 24) & 0xff) as u8);
    out.push(((v >> 32) & 0xff) as u8);
    out.push(((v >> 40) & 0xff) as u8);
    out.push(((v >> 48) & 0xff) as u8);
    out.push(((v >> 56) & 0xff) as u8);
    proof {
        assert(out@ =~= old(out)@ + enc_u64(v));
    }
}

/// Decode a `u64` from `bytes` at `at`.
pub fn decode_u64(bytes: &Vec<u8>, at: usize) -> (r: Result<(u64, usize), DecodeError>)
    ensures
        (match r {
            Ok(p) => dec_u64(bytes@, at as int) == Ok::<(u64, int), DecodeError>((p.0, p.1 as int)),
            Err(e) => dec_u64(bytes@, at as int) == Err::<(u64, int), DecodeError>(e),
        }),
{
    if at >= bytes.len() || bytes.len() - at < 8 {
        return Err(DecodeError::Truncated);
    }
    let v: u64 = (bytes[at] as u64)
        | ((bytes[at + 1] as u64) << 8)
        | ((bytes[at + 2] as u64) << 16)
        | ((bytes[at + 3] as u64) << 24)
        | ((bytes[at + 4] as u64) << 32)
        | ((bytes[at + 5] as u64) << 40)
        | ((bytes[at + 6] as u64) << 48)
        | ((bytes[at + 7] as u64) << 56);
    Ok((v, at + 8))
}

/// Reading the little-endian bytes of a `u64` back gives the same value.
pub proof fn lemma_dec_u64(s: Seq<u8>, i: int, v: u64)
    requires
        0 <= i,
        i + 8 <= s.len(),
        forall|k: int| 0 <= k < 8 ==> s[i + k] == enc_u64(v)[k],
    ensures
        dec_u64(s, i) == Ok::<(u64, int), DecodeError>((v, i + 8)),
{
    let b0 = s[i];
    let b1 = s[i + 1];
    let b2 = s[i + 2];
    let b3 = s[i + 3];
    let b4 = s[i + 4];
    let b5 = s[i + 5];
    let b6 = s[i + 6];
    let b7 = s[i + 7];
    assert(s[i + 0] == enc_u64(v)[0]);
    assert(s[i + 1] == enc_u64(v)[1]);
    assert(s[i + 2] == enc_u64(v)[2]);
    assert(s[i + 3] == enc_u64(v)[3]);
    assert(s[i + 4] == enc_u64(v)[4]);
    assert(s[i + 5] == enc_u64(v)[5]);
    assert(s[i + 6] == enc_u64(v)[6]);
    assert(s[i + 7] == enc_u64(v)[7]);
    assert((b0 as u64)
        | ((b1 as u64) << 8)
        | ((b2 as u64) << 16)
        | ((b3 as u64) << 24)
        | ((b4 as u64) << 32)
        | ((b5 as u64) << 40)
        | ((b6 as u64) << 48)
        | ((b7 as u64) << 56) == v) by (bit_vector)
        requires
            b0 == (v & 0xff) as u8,
            b1 == ((v >> 8) & 0xff) as u8,
            b2 == ((v >> 16) & 0xff) as u8,
            b3 == ((v >> 24) & 0xff) as u8,
            b4 == ((v >> 32) & 0xff) as u8,
            b5 == ((v >> 40) & 0xff) as u8,
            b6 == ((v >> 48) & 0xff) as u8,
            b7 == ((v >> 56) & 0xff) as u8,
    ;
    assert(u64_from_le(s, i) == v);
}

/// The little-endian encoding of a `u128`.
pub open spec fn enc_u128(v: u128) -> Seq<u8> {
    seq![
        (v & 0xff) as u8,
        ((v >> 8) & 0xff) as u8,
        ((v >> 16) & 0xff) as u8,
        ((v >> 24) & 0xff) as u8,
        ((v >> 32) & 0xff) as u8,
        ((v >> 40) & 0xff) as u8,
        ((v >> 48) & 0xff) as u8,
        ((v >> 56) & 0xff) as u8,
        ((v >> 64) & 0xff) as u8,
        ((v >> 72) & 0xff) as u8,
        ((v >> 80) & 0xff) as u8,
        ((v >> 88) & 0xff) as u8,
        ((v >> 96) & 0xff) as u8,
        ((v >> 104) & 0xff) as u8,
        ((v >> 112) & 0xff) as u8,
        ((v >> 120) & 0xff) as u8,
    ]
}

/// The `u128` read little-endian from `s` at `i`.
pub open spec fn u128_from_le(s: Seq<u8>, i: int) -> u128
    recommends
        0 <= i,
        i + 16 <= s.len(),
{
    (s[i] as u128)
        | ((s[i + 1] as u128) << 8)
        | ((s[i + 2] as u128) << 16)
        | ((s[i + 3] as u128) << 24)
        | ((s[i + 4] as u128) << 32)
        | ((s[i + 5] as u128) << 40)
        | ((s[i + 6] as u128) << 48)
        | ((s[i + 7] as u128) << 56)
        | ((s[i + 8] as u128) << 64)
        | ((s[i + 9] as u128) << 72)
        | ((s[i + 10] as u128) << 80)
        | ((s[i + 11] as u128) << 88)
        | ((s[i + 12] as u128) << 96)
        | ((s[i + 13] as u128) << 104)
        | ((s[i + 14] as u128) << 112)
        | ((s[i + 15] as u128) << 120)
}

/// What decoding a `u128` from `s` at `i` yields.
pub open spec fn dec_u128(s: Seq<u8>, i: int) -> Result<(u128, int), DecodeError>
    recommends
        0 <= i,
{
    if i + 16 <= s.len() {
        Ok((u128_from_le(s, i), i + 16))
    } else {
        Err(DecodeError::Truncated)
    }
}

/// Append the encoding of `v` to `out`.
pub fn encode_u128(v: u128, out: &mut Vec<u8>)
    ensures
        final(out)@ == old(out)@ + enc_u128(v),
{
    out.push((v & 0xff) as u8);
    out.push(((v >> 8) & 0xff) as u8);
    out.push(((v >> 16) & 0xff) as u8);
    out.push(((v >> 24) & 0xff) as u8);
    out.push(((v >> 32) & 0xff) as u8);
    out.push(((v >> 40) & 0xff) as u8);
    out.push(((v >> 48) & 0xff) as u8);
    out.push(((v >> 56) & 0xff) as u8);
    out.push(((v >> 64) & 0xff) as u8);
    out.push(((v >> 72) & 0xff) as u8);
    out.push(((v >> 80) & 0xff) as u8);
    out.push(((v >> 88) & 0xff) as u8);
    out.push(((v >> 96) & 0xff) as u8);
    out.push(((v >> 104) & 0xff) as u8);
    out.push(((v >> 112) & 0xff) as u8);
    out.push(((v >> 120) & 0xff) as u8);
    proof {
        assert(out@ =~= old(out)@ + enc_u128(v));
    }
}

/// Decode a `u128` from `bytes` at `at`.
pub fn decode_u128(bytes: &Vec<u8>, at: usize) -> (r: Result<(u128, usize), DecodeError>)
    ensures
        (match r {
            Ok(p) => dec_u128(bytes@, at as int)
                == Ok::<(u128, int), DecodeError>((p.0, p.1 as int)),
            Err(e) => dec_u128(bytes@, at as int) == Err::<(u128, int), DecodeError>(e),
        }),
{
    if at >= bytes.len() || bytes.len() - at < 16 {
        return Err(DecodeError::Truncated);
    }
    let v: u128 = (bytes[at] as u128)
        | ((bytes[at + 1] as u128) << 8)
        | ((bytes[at + 2] as u128) << 16)
        | ((bytes[at + 3] as u128) << 24)
        | ((bytes[at + 4] as u128) << 32)
        | ((bytes[at + 5] as u128) << 40)
        | ((bytes[at + 6] as u128) << 48)
        | ((bytes[at + 7] as u128) << 56)
        | ((bytes[at + 8] as u128) << 64)
        | ((bytes[at + 9] as u128) << 72)
        | ((bytes[at + 10] as u128) << 80)
        | ((bytes[at + 11] as u128) << 88)
        | ((bytes[at + 12] as u128) << 96)
        | ((bytes[at + 13] as u128) << 104)
        | ((bytes[at + 14] as u128) << 112)
        | ((bytes[at + 15] as u128) << 120);
    Ok((v, at + 16))
}

/// Reading the little-endian bytes of a `u128` back gives the same value.
pub proof fn lemma_dec_u128(s: Seq<u8>, i: int, v: u128)
    requires
        0 <= i,
        i + 16 <= s.len(),
        forall|k: int| 0 <= k < 16 ==> s[i + k] == enc_u128(v)[k],
    ensures
        dec_u128(s, i) == Ok::<(u128, int), DecodeError>((v, i + 16)),
{
    let b0 = s[i];
    let b1 = s[i + 1];
    let b2 = s[i + 2];
    let b3 = s[i + 3];
    let b4 = s[i + 4];
    let b5 = s[i + 5];
    let b6 = s[i + 6];
    let b7 = s[i + 7];
    let b8 = s[i + 8];
    let b9 = s[i + 9];
    let b10 = s[i + 10];
    let b11 = s[i + 11];
    let b12 = s[i + 12];
    let b13 = s[i + 13];
    let b14 = s[i + 14];
    let b15 = s[i + 15];
    assert(s[i + 0] == enc_u128(v)[0]);
    assert(s[i + 1] == enc_u128(v)[1]);
    assert(s[i + 2] == enc_u128(v)[2]);
    assert(s[i + 3] == enc_u128(v)[3]);
    assert(s[i + 4] == enc_u128(v)[4]);
    assert(s[i + 5] == enc_u128(v)[5]);
    assert(s[i + 6] == enc_u128(v)[6]);
    assert(s[i + 7] == enc_u128(v)[7]);
    assert(s[i + 8] == enc_u128(v)[8]);
    assert(s[i + 9] == enc_u128(v)[9]);
    assert(s[i + 10] == enc_u128(v)[10]);
    assert(s[i + 11] == enc_u128(v)[11]);
    assert(s[i + 12] == enc_u128(v)[12]);
    assert(s[i + 13] == enc_u128(v)[13]);
    assert(s[i + 14] == enc_u128(v)[14]);
    assert(s[i + 15] == enc_u128(v)[15]);
    assert((b0 as u128)
        | ((b1 as u128) << 8)
        | ((b2 as u128) << 16)
        | ((b3 as u128) << 24)
        | ((b4 as u128) << 32)
        | ((b5 as u128) << 40)
        | ((b6 as u128) << 48)
        | ((b7 as u128) << 56)
        | ((b8 as u128) << 64)
        | ((b9 as u128) << 72)
        | ((b10 as u128) << 80)
        | ((b11 as u128) << 88)
        | ((b12 as u128) << 96)
        | ((b13 as u128) << 104)
        | ((b14 as u128) << 112)
        | ((b15 as u128) << 120) == v) by (bit_vector)
        requires
            b0 == (v & 0xff) as u8,
            b1 == ((v >> 8) & 0xff) as u8,
            b2 == ((v >> 16) & 0xff) as u8,
            b3 == ((v >> 24) & 0xff) as u8,
            b4 == ((v >> 32) & 0xff) as u8,
            b5 == ((v >> 40) & 0xff) as u8,
            b6 == ((v >> 48) & 0xff) as u8,
            b7 == ((v >> 56) & 0xff) as u8,
            b8 == ((v >> 64) & 0xff) as u8,
            b9 == ((v >> 72) & 0xff) as u8,
            b10 == ((v >> 80) & 0xff) as u8,
            b11 == ((v >> 88) & 0xff) as u8,
            b12 == ((v >> 96) & 0xff) as u8,
            b13 == ((v >> 104) & 0xff) as u8,
            b14 == ((v >> 112) & 0xff) as u8,
            b15 == ((v >> 120) & 0xff) as u8,
    ;
    assert(u128_from_le(s, i) == v);
}

// ---------------------------------------------------------------------------
// Schedule vocabulary.
// ---------------------------------------------------------------------------

/// The encoding of a maturity: the variant tag, then the date.
pub open spec fn enc_maturity(m: Maturity) -> Seq<u8> {
    match m {
        Maturity::Fixed(v) => seq![0u8] + enc_u64(v),
    }
}

/// What decoding a maturity from `s` at `i` yields.
pub open spec fn dec_maturity(s: Seq<u8>, i: int) -> Result<(Maturity, int), DecodeError>
    recommends
        0 <= i,
{
    if i >= s.len() {
        Err(DecodeError::Truncated)
    } else if s[i] == 0 {
        match dec_u64(s, i + 1) {
            Ok((v, j)) => Ok((Maturity::Fixed(v), j)),
            Err(e) => Err(e),
        }
    } else {
        Err(DecodeError::UnknownTag)
    }
}

/// Append the encoding of `m` to `out`.
pub fn encode_maturity(m: &Maturity, out: &mut Vec<u8>)
    ensures
        final(out)@ == old(out)@ + enc_maturity(*m),
{
    match m {
        Maturity::Fixed(v) => {
            out.push(0u8);
            encode_u64(*v, out);
        },
    }
    proof {
        assert(out@ =~= old(out)@ + enc_maturity(*m));
    }
}

/// Decode a maturity from `bytes` at `at`.
pub fn decode_maturity(bytes: &Vec<u8>, at: usize) -> (r: Result<(Maturity, usize), DecodeError>)
    ensures
        (match r {
            Ok(p) => dec_maturity(bytes@, at as int)
                == Ok::<(Maturity, int), DecodeError>((p.0, p.1 as int)),
            Err(e) => dec_maturity(bytes@, at as int) == Err::<(Maturity, int), DecodeError>(e),
        }),
{
    if at >= bytes.len() {
        return Err(DecodeError::Truncated);
    }
    let tag: u8 = bytes[at];
    if tag == 0 {
        match decode_u64(bytes, at + 1) {
            Ok((v, j)) => Ok((Maturity::Fixed(v), j)),
            Err(e) => Err(e),
        }
    } else {
        Err(DecodeError::UnknownTag)
    }
}

/// Decoding at a place that holds the encoding of `m` gives back `m`.
pub proof fn lemma_dec_maturity(s: Seq<u8>, i: int, m: Maturity)
    requires
        0 <= i,
        i + enc_maturity(m).len() <= s.len(),
        forall|k: int| 0 <= k < enc_maturity(m).len() ==> s[i + k] == enc_maturity(m)[k],
    ensures
        dec_maturity(s, i) == Ok::<(Maturity, int), DecodeError>((m, i + enc_maturity(m).len())),
{
    match m {
        Maturity::Fixed(v) => {
            let e = enc_maturity(m);
            assert(s[i + 0] == e[0]);
            assert(e[0] == 0u8);
            assert forall|k: int| 0 <= k < 8 implies s[i + 1 + k] == enc_u64(v)[k] by {
                assert(s[i + (1 + k)] == e[1 + k]);
                assert(e[1 + k] == enc_u64(v)[k]);
            }
            lemma_dec_u64(s, i + 1, v);
        },
    }
}

/// The encoding of an interest payment period: the variant tag alone.
pub open spec fn enc_interest_payments(x: InterestPayments) -> Seq<u8> {
    match x {
        InterestPayments::OnceAtMaturity => seq![0u8],
    }
}

/// What decoding an interest payment period from `s` at `i` yields.
pub open spec fn dec_interest_payments(s: Seq<u8>, i: int)
    -> Result<(InterestPayments, int), DecodeError>
    recommends
        0 <= i,
{
    if i >= s.len() {
        Err(DecodeError::Truncated)
    } else if s[i] == 0 {
        Ok((InterestPayments::OnceAtMaturity, i + 1))
    } else {
        Err(DecodeError::UnknownTag)
    }
}

/// Append the encoding of `x` to `out`.
pub fn encode_interest_payments(x: &InterestPayments, out: &mut Vec<u8>)
    ensures
        final(out)@ == old(out)@ + enc_interest_payments(*x),
{
    match x {
        InterestPayments::OnceAtMaturity => out.push(0u8),
    }
    proof {
        assert(out@ =~= old(out)@ + enc_interest_payments(*x));
    }
}

/// Decode an interest payment period from `bytes` at `at`.
pub fn decode_interest_payments(bytes: &Vec<u8>, at: usize)
    -> (r: Result<(InterestPayments, usize), DecodeError>)
    ensures
        (match r {
            Ok(p) => dec_interest_payments(bytes@, at as int)
                == Ok::<(InterestPayments, int), DecodeError>((p.0, p.1 as int)),
            Err(e) => dec_interest_payments(bytes@, at as int)
                == Err::<(InterestPayments, int), DecodeError>(e),
        }),
{
    if at >= bytes.len() {
        return Err(DecodeError::Truncated);
    }
    let tag: u8 = bytes[at];
    if tag == 0 {
        Ok((InterestPayments::OnceAtMaturity, at + 1))
    } else {
        Err(DecodeError::UnknownTag)
    }
}

/// Decoding at a place that holds the encoding of `x` gives back `x`.
pub proof fn lemma_dec_interest_payments(s: Seq<u8>, i: int, x: InterestPayments)
    requires
        0 <= i,
        i + enc_interest_payments(x).len() <= s.len(),
        forall|k: int| 0 <= k < enc_interest_payments(x).len()
            ==> s[i + k] == enc_interest_payments(x)[k],
    ensures
        dec_interest_payments(s, i)
            == Ok::<(InterestPayments, int), DecodeError>((x, i + enc_interest_payments(x).len())),
{
    assert(s[i + 0] == enc_interest_payments(x)[0]);
}

/// The encoding of a paydown schedule: the variant tag alone.
pub open spec fn enc_pay_down_schedule(x: PayDownSchedule) -> Seq<u8> {
    match x {
        PayDownSchedule::OnceAtMaturity => seq![0u8],
    }
}

/// What decoding a paydown schedule from `s` at `i` yields.
pub open spec fn dec_pay_down_schedule(s: Seq<u8>, i: int)
    -> Result<(PayDownSchedule, int), DecodeError>
    recommends
        0 <= i,
{
    if i >= s.len() {
        Err(DecodeError::Truncated)
    } else if s[i] == 0 {
        Ok((PayDownSchedule::OnceAtMaturity, i + 1))
    } else {
        Err(DecodeError::UnknownTag)
    }
}

/// Append the encoding of `x` to `out`.
pub fn encode_pay_down_schedule(x: &PayDownSchedule, out: &mut Vec<u8>)
    ensures
        final(out)@ == old(out)@ + enc_pay_down_schedule(*x),
{
    match x {
        PayDownSchedule::OnceAtMaturity => out.push(0u8),
    }
    proof {
        assert(out@ =~= old(out)@ + enc_pay_down_schedule(*x));
    }
}

/// Decode a paydown schedule from `bytes` at `at`.
pub fn decode_pay_down_schedule(bytes: &Vec<u8>, at: usize)
    -> (r: Result<(PayDownSchedule, usize), DecodeError>)
    ensures
        (match r {
            Ok(p) => dec_pay_down_schedule(bytes@, at as int)
                == Ok::<(PayDownSchedule, int), DecodeError>((p.0, p.1 as int)),
            Err(e) => dec_pay_down_schedule(bytes@, at as int)
                == Err::<(PayDownSchedule, int), DecodeError>(e),
        }),
{
    if at >= bytes.len() {
        return Err(DecodeError::Truncated);
    }
    let tag: u8 = bytes[at];
    if tag == 0 {
        Ok((PayDownSchedule::OnceAtMaturity, at + 1))
    } else {
        Err(DecodeError::UnknownTag)
    }
}

/// Decoding at a place that holds the encoding of `x` gives back `x`.
pub proof fn lemma_dec_pay_down_schedule(s: Seq<u8>, i: int, x: PayDownSchedule)
    requires
        0 <= i,
        i + enc_pay_down_schedule(x).len() <= s.len(),
        forall|k: int| 0 <= k < enc_pay_down_schedule(x).len()
            ==> s[i + k] == enc_pay_down_schedule(x)[k],
    ensures
        dec_pay_down_schedule(s, i)
            == Ok::<(PayDownSchedule, int), DecodeError>((x, i + enc_pay_down_schedule(x).len())),
{
    assert(s[i + 0] == enc_pay_down_schedule(x)[0]);
}

/// The encoding of a repayment schedule: its fields in declaration order.
pub open spec fn enc_repayment_schedule(x: RepaymentSchedule) -> Seq<u8> {
    enc_maturity(x.maturity)
        + enc_interest_payments(x.interest_payments)
        + enc_pay_down_schedule(x.pay_down_schedule)
}

/// What decoding a repayment schedule from `s` at `i` yields.
pub open spec fn dec_repayment_schedule(s: Seq<u8>, i: int)
    -> Result<(RepaymentSchedule, int), DecodeError>
    recommends
        0 <= i,
{
    match dec_maturity(s, i) {
        Err(e) => Err(e),
        Ok((maturity, j)) => match dec_interest_payments(s, j) {
            Err(e) => Err(e),
            Ok((interest_payments, k)) => match dec_pay_down_schedule(s, k) {
                Err(e) => Err(e),
                Ok((pay_down_schedule, l)) => Ok((RepaymentSchedule {
                    maturity,
                    interest_payments,
                    pay_down_schedule,
                }, l)),
            },
        },
    }
}

/// Append the encoding of `x` to `out`.
pub fn encode_repayment_schedule(x: &RepaymentSchedule, out: &mut Vec<u8>)
    ensures
        final(out)@ == old(out)@ + enc_repayment_schedule(*x),
{
    encode_maturity(&x.maturity, out);
    encode_interest_payments(&x.interest_payments, out);
    encode_pay_down_schedule(&x.pay_down_schedule, out);
    proof {
        assert(out@ =~= old(out)@ + enc_repayment_schedule(*x));
    }
}

/// Decode a repayment schedule from `bytes` at `at`.
pub fn decode_repayment_schedule(bytes: &Vec<u8>, at: usize)
    -> (r: Result<(RepaymentSchedule, usize), DecodeError>)
    ensures
        (match r {
            Ok(p) => dec_repayment_schedule(bytes@, at as int)
                == Ok::<(RepaymentSchedule, int), DecodeError>((p.0, p.1 as int)),
            Err(e) => dec_repayment_schedule(bytes@, at as int)
                == Err::<(RepaymentSchedule, int), DecodeError>(e),
        }),
{
    let (maturity, j) = match decode_maturity(bytes, at) {
        Ok(p) => p,
        Err(e) => { return Err(e); },
    };
    let (interest_payments, k) = match decode_interest_payments(bytes, j) {
        Ok(p) => p,
        Err(e) => { return Err(e); },
    };
    let (pay_down_schedule, l) = match decode_pay_down_schedule(bytes, k) {
        Ok(p) => p,
        Err(e) => { return Err(e); },
    };
    Ok((RepaymentSchedule { maturity, interest_payments, pay_down_schedule }, l))
}

/// Decoding at a place that holds the encoding of `x` gives back `x`.
pub proof fn lemma_dec_repayment_schedule(s: Seq<u8>, i: int, x: RepaymentSchedule)
    requires
        0 <= i,
        i + enc_repayment_schedule(x).len() <= s.len(),
        forall|k: int| 0 <= k < enc_repayment_schedule(x).len()
            ==> s[i + k] == enc_repayment_schedule(x)[k],
    ensures
        dec_repayment_schedule(s, i) == Ok::<(RepaymentSchedule, int), DecodeError>(
            (x, i + enc_repayment_schedule(x).len())),
{
    let e1 = enc_maturity(x.maturity);
    let e2 = enc_interest_payments(x.interest_payments);
    let e3 = enc_pay_down_schedule(x.pay_down_schedule);
    let e = enc_repayment_schedule(x);
    assert forall|k: int| 0 <= k < e1.len() implies s[i + k] == e1[k] by {
        assert(s[i + k] == e[k]);
        assert(e[k] == (e1 + e2)[k]);
    }
    lemma_dec_maturity(s, i, x.maturity);
    let j = i + e1.len();
    assert forall|k: int| 0 <= k < e2.len() implies s[j + k] == e2[k] by {
        assert(s[i + (e1.len() + k)] == e[e1.len() + k]);
        assert(e[e1.len() + k] == (e1 + e2)[e1.len() + k]);
        assert((e1 + e2)[e1.len() + k] == e2[k]);
    }
    lemma_dec_interest_payments(s, j, x.interest_payments);
    let l = j + e2.len();
    assert forall|k: int| 0 <= k < e3.len() implies s[l + k] == e3[k] by {
        assert(s[i + (e1.len() + e2.len() + k)] == e[e1.len() + e2.len() + k]);
        assert(e[e1.len() + e2.len() + k] == e3[k]);
    }
    lemma_dec_pay_down_schedule(s, l, x.pay_down_schedule);
}

// ---------------------------------------------------------------------------
// Restriction vocabulary.
// ---------------------------------------------------------------------------

/// The encoding of a borrow restriction: the variant tag alone.
pub open spec fn enc_borrow_restrictions(x: BorrowRestrictions) -> Seq<u8> {
    match x {
        BorrowRestrictions::NotWrittenOff => seq![0u8],
        BorrowRestrictions::FullOnce => seq![1u8],
    }
}

/// What decoding a borrow restriction from `s` at `i` yields.
pub open spec fn dec_borrow_restrictions(s: Seq<u8>, i: int)
    -> Result<(BorrowRestrictions, int), DecodeError>
    recommends
        0 <= i,
{
    if i >= s.len() {
        Err(DecodeError::Truncated)
    } else if s[i] == 0 {
        Ok((BorrowRestrictions::NotWrittenOff, i + 1))
    } else if s[i] == 1 {
        Ok((BorrowRestrictions::FullOnce, i + 1))
    } else {
        Err(DecodeError::UnknownTag)
    }
}

/// Append the encoding of `x` to `out`.
pub fn encode_borrow_restrictions(x: &BorrowRestrictions, out: &mut Vec<u8>)
    ensures
        final(out)@ == old(out)@ + enc_borrow_restrictions(*x),
{
    match x {
        BorrowRestrictions::NotWrittenOff => out.push(0u8),
        BorrowRestrictions::FullOnce => out.push(1u8),
    }
    proof {
        assert(out@ =~= old(out)@ + enc_borrow_restrictions(*x));
    }
}

/// Decode a borrow restriction from `bytes` at `at`.
pub fn decode_borrow_restrictions(bytes: &Vec<u8>, at: usize)
    -> (r: Result<(BorrowRestrictions, usize), DecodeError>)
    ensures
        (match r {
            Ok(p) => dec_borrow_restrictions(bytes@, at as int)
                == Ok::<(BorrowRestrictions, int), DecodeError>((p.0, p.1 as int)),
            Err(e) => dec_borrow_restrictions(bytes@, at as int)
                == Err::<(BorrowRestrictions, int), DecodeError>(e),
        }),
{
    if at >= bytes.len() {
        return Err(DecodeError::Truncated);
    }
    let tag: u8 = bytes[at];
    if tag == 0 {
        Ok((BorrowRestrictions::NotWrittenOff, at + 1))
    } else if tag == 1 {
        Ok((BorrowRestrictions::FullOnce, at + 1))
    } else {
        Err(DecodeError::UnknownTag)
    }
}

/// Decoding at a place that holds the encoding of `x` gives back `x`.
pub proof fn lemma_dec_borrow_restrictions(s: Seq<u8>, i: int, x: BorrowRestrictions)
    requires
        0 <= i,
        i + enc_borrow_restrictions(x).len() <= s.len(),
        forall|k: int| 0 <= k < enc_borrow_restrictions(x).len()
            ==> s[i + k] == enc_borrow_restrictions(x)[k],
    ensures
        dec_borrow_restrictions(s, i) == Ok::<(BorrowRestrictions, int), DecodeError>(
            (x, i + enc_borrow_restrictions(x).len())),
{
    assert(s[i + 0] == enc_borrow_restrictions(x)[0]);
}

/// The encoding of a repay restriction: the variant tag alone.
pub open spec fn enc_repay_restrictions(x: RepayRestrictions) -> Seq<u8> {
    match x {
        RepayRestrictions::Unrestricted => seq![0u8],
        RepayRestrictions::FullOnce => seq![1u8],
    }
}

/// What decoding a repay restriction from `s` at `i` yields.
pub open spec fn dec_repay_restrictions(s: Seq<u8>, i: int)
    -> Result<(RepayRestrictions, int), DecodeError>
    recommends
        0 <= i,
{
    if i >= s.len() {
        Err(DecodeError::Truncated)
    } else if s[i] == 0 {
        Ok((RepayRestrictions::Unrestricted, i + 1))
    } else if s[i] == 1 {
        Ok((RepayRestrictions::FullOnce, i + 1))
    } else {
        Err(DecodeError::UnknownTag)
    }
}

/// Append the encoding of `x` to `out`.
pub fn encode_repay_restrictions(x: &RepayRestrictions, out: &mut Vec<u8>)
    ensures
        final(out)@ == old(out)@ + enc_repay_restrictions(*x),
{
    match x {
        RepayRestrictions::Unrestricted => out.push(0u8),
        RepayRestrictions::FullOnce => out.push(1u8),
    }
    proof {
        assert(out@ =~= old(out)@ + enc_repay_restrictions(*x));
    }
}

/// Decode a repay restriction from `bytes` at `at`.
pub fn decode_repay_restrictions(bytes: &Vec<u8>, at: usize)
    -> (r: Result<(RepayRestrictions, usize), DecodeError>)
    ensures
        (match r {
            Ok(p) => dec_repay_restrictions(bytes@, at as int)
                == Ok::<(RepayRestrictions, int), DecodeError>((p.0, p.1 as int)),
            Err(e) => dec_repay_restrictions(bytes@, at as int)
                == Err::<(RepayRestrictions, int), DecodeError>(e),
        }),
{
    if at >= bytes.len() {
        return Err(DecodeError::Truncated);
    }
    let tag: u8 = bytes[at];
    if tag == 0 {
        Ok((RepayRestrictions::Unrestricted, at + 1))
    } else if tag == 1 {
        Ok((RepayRestrictions::FullOnce, at + 1))
    } else {
        Err(DecodeError::UnknownTag)
    }
}

/// Decoding at a place that holds the encoding of `x` gives back `x`.
pub proof fn lemma_dec_repay_restrictions(s: Seq<u8>, i: int, x: RepayRestrictions)
    requires
        0 <= i,
        i + enc_repay_restrictions(x).len() <= s.len(),
        forall|k: int| 0 <= k < enc_repay_restrictions(x).len()
            ==> s[i + k] == enc_repay_restrictions(x)[k],
    ensures
        dec_repay_restrictions(s, i) == Ok::<(RepayRestrictions, int), DecodeError>(
            (x, i + enc_repay_restrictions(x).len())),
{
    assert(s[i + 0] == enc_repay_restrictions(x)[0]);
}

/// The encoding of the loan restrictions: both fields in declaration order.
pub open spec fn enc_loan_restrictions(x: LoanRestrictions) -> Seq<u8> {
    enc_borrow_restrictions(x.borrows) + enc_repay_restrictions(x.repayments)
}

/// What decoding the loan restrictions from `s` at `i` yields.
pub open spec fn dec_loan_restrictions(s: Seq<u8>, i: int)
    -> Result<(LoanRestrictions, int), DecodeError>
    recommends
        0 <= i,
{
    match dec_borrow_restrictions(s, i) {
        Err(e) => Err(e),
        Ok((borrows, j)) => match dec_repay_restrictions(s, j) {
            Err(e) => Err(e),
            Ok((repayments, k)) => Ok((LoanRestrictions { borrows, repayments }, k)),
        },
    }
}

/// Append the encoding of `x` to `out`.
pub fn encode_loan_restrictions(x: &LoanRestrictions, out: &mut Vec<u8>)
    ensures
        final(out)@ == old(out)@ + enc_loan_restrictions(*x),
{
    encode_borrow_restrictions(&x.borrows, out);
    encode_repay_restrictions(&x.repayments, out);
    proof {
        assert(out@ =~= old(out)@ + enc_loan_restrictions(*x));
    }
}

/// Decode the loan restrictions from `bytes` at `at`.
pub fn decode_loan_restrictions(bytes: &Vec<u8>, at: usize)
    -> (r: Result<(LoanRestrictions, usize), DecodeError>)
    ensures
        (match r {
            Ok(p) => dec_loan_restrictions(bytes@, at as int)
                == Ok::<(LoanRestrictions, int), DecodeError>((p.0, p.1 as int)),
            Err(e) => dec_loan_restrictions(bytes@, at as int)
                == Err::<(LoanRestrictions, int), DecodeError>(e),
        }),
{
    let (borrows, j) = match decode_borrow_restrictions(bytes, at) {
        Ok(p) => p,
        Err(e) => { return Err(e); },
    };
    let (repayments, k) = match decode_repay_restrictions(bytes, j) {
        Ok(p) => p,
        Err(e) => { return Err(e); },
    };
    Ok((LoanRestrictions { borrows, repayments }, k))
}

/// Decoding at a place that holds the encoding of `x` gives back `x`.
pub proof fn lemma_dec_loan_restrictions(s: Seq<u8>, i: int, x: LoanRestrictions)
    requires
        0 <= i,
        i + enc_loan_restrictions(x).len() <= s.len(),
        forall|k: int| 0 <= k < enc_loan_restrictions(x).len()
            ==> s[i + k] == enc_loan_restrictions(x)[k],
    ensures
        dec_loan_restrictions(s, i) == Ok::<(LoanRestrictions, int), DecodeError>(
            (x, i + enc_loan_restrictions(x).len())),
{
    let e1 = enc_borrow_restrictions(x.borrows);
    let e2 = enc_repay_restrictions(x.repayments);
    let e = enc_loan_restrictions(x);
    assert forall|k: int| 0 <= k < e1.len() implies s[i + k] == e1[k] by {
        assert(s[i + k] == e[k]);
    }
    lemma_dec_borrow_restrictions(s, i, x.borrows);
    let j = i + e1.len();
    assert forall|k: int| 0 <= k < e2.len() implies s[j + k] == e2[k] by {
        assert(s[i + (e1.len() + k)] == e[e1.len() + k]);
        assert(e[e1.len() + k] == e2[k]);
    }
    lemma_dec_repay_restrictions(s, j, x.repayments);
}

// ---------------------------------------------------------------------------
// Valuation methods and the mutation model.
// ---------------------------------------------------------------------------

/// The encoding of discounted cash flow parameters: the three rates in
/// declaration order.
pub open spec fn enc_discounted_cash_flow(x: DiscountedCashFlow<u128>) -> Seq<u8> {
    enc_u128(x.probability_of_default)
        + enc_u128(x.loss_given_default)
        + enc_u128(x.discount_rate)
}

/// What decoding discounted cash flow parameters from `s` at `i` yields.
pub open spec fn dec_discounted_cash_flow(s: Seq<u8>, i: int)
    -> Result<(DiscountedCashFlow<u128>, int), DecodeError>
    recommends
        0 <= i,
{
    match dec_u128(s, i) {
        Err(e) => Err(e),
        Ok((probability_of_default, j)) => match dec_u128(s, j) {
            Err(e) => Err(e),
            Ok((loss_given_default, k)) => match dec_u128(s, k) {
                Err(e) => Err(e),
                Ok((discount_rate, l)) => Ok((DiscountedCashFlow {
                    probability_of_default,
                    loss_given_default,
                    discount_rate,
                }, l)),
            },
        },
    }
}

/// Append the encoding of `x` to `out`.
pub fn encode_discounted_cash_flow(x: &DiscountedCashFlow<u128>, out: &mut Vec<u8>)
    ensures
        final(out)@ == old(out)@ + enc_discounted_cash_flow(*x),
{
    encode_u128(x.probability_of_default, out);
    encode_u128(x.loss_given_default, out);
    encode_u128(x.discount_rate, out);
    proof {
        assert(out@ =~= old(out)@ + enc_discounted_cash_flow(*x));
    }
}

/// Decode discounted cash flow parameters from `bytes` at `at`.
pub fn decode_discounted_cash_flow(bytes: &Vec<u8>, at: usize)
    -> (r: Result<(DiscountedCashFlow<u128>, usize), DecodeError>)
    ensures
        (match r {
            Ok(p) => dec_discounted_cash_flow(bytes@, at as int)
                == Ok::<(DiscountedCashFlow<u128>, int), DecodeError>((p.0, p.1 as int)),
            Err(e) => dec_discounted_cash_flow(bytes@, at as int)
                == Err::<(DiscountedCashFlow<u128>, int), DecodeError>(e),
        }),
{
    let (probability_of_default, j) = match decode_u128(bytes, at) {
        Ok(p) => p,
        Err(e) => { return Err(e); },
    };
    let (loss_given_default, k) = match decode_u128(bytes, j) {
        Ok(p) => p,
        Err(e) => { return Err(e); },
    };
    let (discount_rate, l) = match decode_u128(bytes, k) {
        Ok(p) => p,
        Err(e) => { return Err(e); },
    };
    Ok((DiscountedCashFlow { probability_of_default, loss_given_default, discount_rate }, l))
}

/// Decoding at a place that holds the encoding of `x` gives back `x`.
pub proof fn lemma_dec_discounted_cash_flow(s: Seq<u8>, i: int, x: DiscountedCashFlow<u128>)
    requires
        0 <= i,
        i + enc_discounted_cash_flow(x).len() <= s.len(),
        forall|k: int| 0 <= k < enc_discounted_cash_flow(x).len()
            ==> s[i + k] == enc_discounted_cash_flow(x)[k],
    ensures
        dec_discounted_cash_flow(s, i) == Ok::<(DiscountedCashFlow<u128>, int), DecodeError>(
            (x, i + enc_discounted_cash_flow(x).len())),
{
    let e1 = enc_u128(x.probability_of_default);
    let e2 = enc_u128(x.loss_given_default);
    let e3 = enc_u128(x.discount_rate);
    let e = enc_discounted_cash_flow(x);
    assert forall|k: int| 0 <= k < e1.len() implies s[i + k] == e1[k] by {
        assert(s[i + k] == e[k]);
        assert(e[k] == (e1 + e2)[k]);
    }
    lemma_dec_u128(s, i, x.probability_of_default);
    let j = i + e1.len();
    assert forall|k: int| 0 <= k < e2.len() implies s[j + k] == e2[k] by {
        assert(s[i + (e1.len() + k)] == e[e1.len() + k]);
        assert(e[e1.len() + k] == (e1 + e2)[e1.len() + k]);
        assert((e1 + e2)[e1.len() + k] == e2[k]);
    }
    lemma_dec_u128(s, j, x.loss_given_default);
    let l = j + e2.len();
    assert forall|k: int| 0 <= k < e3.len() implies s[l + k] == e3[k] by {
        assert(s[i + (e1.len() + e2.len() + k)] == e[e1.len() + e2.len() + k]);
        assert(e[e1.len() + e2.len() + k] == e3[k]);
    }
    lemma_dec_u128(s, l, x.discount_rate);
}

/// The encoding of a valuation method: the variant tag, then its fields.
pub open spec fn enc_valuation_method(x: ValuationMethod<u128>) -> Seq<u8> {
    match x {
        ValuationMethod::DiscountedCashFlow(dcf) => seq![0u8] + enc_discounted_cash_flow(dcf),
        ValuationMethod::OutstandingDebt => seq![1u8],
    }
}

/// What decoding a valuation method from `s` at `i` yields.
pub open spec fn dec_valuation_method(s: Seq<u8>, i: int)
    -> Result<(ValuationMethod<u128>, int), DecodeError>
    recommends
        0 <= i,
{
    if i >= s.len() {
        Err(DecodeError::Truncated)
    } else if s[i] == 0 {
        match dec_discounted_cash_flow(s, i + 1) {
            Err(e) => Err(e),
            Ok((dcf, j)) => Ok((ValuationMethod::DiscountedCashFlow(dcf), j)),
        }
    } else if s[i] == 1 {
        Ok((ValuationMethod::OutstandingDebt, i + 1))
    } else {
        Err(DecodeError::UnknownTag)
    }
}

/// Append the encoding of `x` to `out`.
pub fn encode_valuation_method(x: &ValuationMethod<u128>, out: &mut Vec<u8>)
    ensures
        final(out)@ == old(out)@ + enc_valuation_method(*x),
{
    match x {
        ValuationMethod::DiscountedCashFlow(dcf) => {
            out.push(0u8);
            encode_discounted_cash_flow(dcf, out);
        },
        ValuationMethod::OutstandingDebt => out.push(1u8),
    }
    proof {
        assert(out@ =~= old(out)@ + enc_valuation_method(*x));
    }
}

/// Decode a valuation method from `bytes` at `at`.
pub fn decode_valuation_method(bytes: &Vec<u8>, at: usize)
    -> (r: Result<(ValuationMethod<u128>, usize), DecodeError>)
    ensures
        (match r {
            Ok(p) => dec_valuation_method(bytes@, at as int)
                == Ok::<(ValuationMethod<u128>, int), DecodeError>((p.0, p.1 as int)),
            Err(e) => dec_valuation_method(bytes@, at as int)
                == Err::<(ValuationMethod<u128>, int), DecodeError>(e),
        }),
{
    if at >= bytes.len() {
        return Err(DecodeError::Truncated);
    }
    let tag: u8 = bytes[at];
    if tag == 0 {
        match decode_discounted_cash_flow(bytes, at + 1) {
            Ok((dcf, j)) => Ok((ValuationMethod::DiscountedCashFlow(dcf), j)),
            Err(e) => Err(e),
        }
    } else if tag == 1 {
        Ok((ValuationMethod::OutstandingDebt, at + 1))
    } else {
        Err(DecodeError::UnknownTag)
    }
}

/// Decoding at a place that holds the encoding of `x` gives back `x`.
pub proof fn lemma_dec_valuation_method(s: Seq<u8>, i: int, x: ValuationMethod<u128>)
    requires
        0 <= i,
        i + enc_valuation_method(x).len() <= s.len(),
        forall|k: int| 0 <= k < enc_valuation_method(x).len()
            ==> s[i + k] == enc_valuation_method(x)[k],
    ensures
        dec_valuation_method(s, i) == Ok::<(ValuationMethod<u128>, int), DecodeError>(
            (x, i + enc_valuation_method(x).len())),
{
    let e = enc_valuation_method(x);
    assert(s[i + 0] == e[0]);
    match x {
        ValuationMethod::DiscountedCashFlow(dcf) => {
            let e2 = enc_discounted_cash_flow(dcf);
            assert forall|k: int| 0 <= k < e2.len() implies s[i + 1 + k] == e2[k] by {
                assert(s[i + (1 + k)] == e[1 + k]);
                assert(e[1 + k] == e2[k]);
            }
            lemma_dec_discounted_cash_flow(s, i + 1, dcf);
        },
        ValuationMethod::OutstandingDebt => {},
    }
}

/// The encoding of an internal pricing mutation: the variant tag, then the
/// new value.
pub open spec fn enc_internal_mutation(x: InternalMutation<u128>) -> Seq<u8> {
    match x {
        InternalMutation::InterestRate(r) => seq![0u8] + enc_u128(r),
        InternalMutation::ValuationMethod(vm) => seq![1u8] + enc_valuation_method(vm),
        InternalMutation::ProbabilityOfDefault(r) => seq![2u8] + enc_u128(r),
        InternalMutation::LossGivenDefault(r) => seq![3u8] + enc_u128(r),
        InternalMutation::DiscountRate(r) => seq![4u8] + enc_u128(r),
    }
}

/// What decoding an internal pricing mutation from `s` at `i` yields.
pub open spec fn dec_internal_mutation(s: Seq<u8>, i: int)
    -> Result<(InternalMutation<u128>, int), DecodeError>
    recommends
        0 <= i,
{
    if i >= s.len() {
        Err(DecodeError::Truncated)
    } else if s[i] == 0 {
        match dec_u128(s, i + 1) {
            Err(e) => Err(e),
            Ok((r, j)) => Ok((InternalMutation::InterestRate(r), j)),
        }
    } else if s[i] == 1 {
        match dec_valuation_method(s, i + 1) {
            Err(e) => Err(e),
            Ok((vm, j)) => Ok((InternalMutation::ValuationMethod(vm), j)),
        }
    } else if s[i] == 2 {
        match dec_u128(s, i + 1) {
            Err(e) => Err(e),
            Ok((r, j)) => Ok((InternalMutation::ProbabilityOfDefault(r), j)),
        }
    } else if s[i] == 3 {
        match dec_u128(s, i + 1) {
            Err(e) => Err(e),
            Ok((r, j)) => Ok((InternalMutation::LossGivenDefault(r), j)),
        }
    } else if s[i] == 4 {
        match dec_u128(s, i + 1) {
            Err(e) => Err(e),
            Ok((r, j)) => Ok((InternalMutation::DiscountRate(r), j)),
        }
    } else {
        Err(DecodeError::UnknownTag)
    }
}

/// Append the encoding of `x` to `out`.
pub fn encode_internal_mutation(x: &InternalMutation<u128>, out: &mut Vec<u8>)
    ensures
        final(out)@ == old(out)@ + enc_internal_mutation(*x),
{
    match x {
        InternalMutation::InterestRate(r) => {
            out.push(0u8);
            encode_u128(*r, out);
        },
        InternalMutation::ValuationMethod(vm) => {
            out.push(1u8);
            encode_valuation_method(vm, out);
        },
        InternalMutation::ProbabilityOfDefault(r) => {
            out.push(2u8);
            encode_u128(*r, out);
        },
        InternalMutation::LossGivenDefault(r) => {
            out.push(3u8);
            encode_u128(*r, out);
        },
        InternalMutation::DiscountRate(r) => {
            out.push(4u8);
            encode_u128(*r, out);
        },
    }
    proof {
        assert(out@ =~= old(out)@ + enc_internal_mutation(*x));
    }
}

/// Decode an internal pricing mutation from `bytes` at `at`.
pub fn decode_internal_mutation(bytes: &Vec<u8>, at: usize)
    -> (r: Result<(InternalMutation<u128>, usize), DecodeError>)
    ensures
        (match r {
            Ok(p) => dec_internal_mutation(bytes@, at as int)
                == Ok::<(InternalMutation<u128>, int), DecodeError>((p.0, p.1 as int)),
            Err(e) => dec_internal_mutation(bytes@, at as int)
                == Err::<(InternalMutation<u128>, int), DecodeError>(e),
        }),
{
    if at >= bytes.len() {
        return Err(DecodeError::Truncated);
    }
    let tag: u8 = bytes[at];
    if tag == 0 {
        match decode_u128(bytes, at + 1) {
            Ok((r, j)) => Ok((InternalMutation::InterestRate(r), j)),
            Err(e) => Err(e),
        }
    } else if tag == 1 {
        match decode_valuation_method(bytes, at + 1) {
            Ok((vm, j)) => Ok((InternalMutation::ValuationMethod(vm), j)),
            Err(e) => Err(e),
        }
    } else if tag == 2 {
        match decode_u128(bytes, at + 1) {
            Ok((r, j)) => Ok((InternalMutation::ProbabilityOfDefault(r), j)),
            Err(e) => Err(e),
        }
    } else if tag == 3 {
        match decode_u128(bytes, at + 1) {
            Ok((r, j)) => Ok((InternalMutation::LossGivenDefault(r), j)),
            Err(e) => Err(e),
        }
    } else if tag == 4 {
        match decode_u128(bytes, at + 1) {
            Ok((r, j)) => Ok((InternalMutation::DiscountRate(r), j)),
            Err(e) => Err(e),
        }
    } else {
        Err(DecodeError::UnknownTag)
    }
}

/// Decoding at a place that holds the encoding of `x` gives back `x`.
pub proof fn lemma_dec_internal_mutation(s: Seq<u8>, i: int, x: InternalMutation<u128>)
    requires
        0 <= i,
        i + enc_internal_mutation(x).len() <= s.len(),
        forall|k: int| 0 <= k < enc_internal_mutation(x).len()
            ==> s[i + k] == enc_internal_mutation(x)[k],
    ensures
        dec_internal_mutation(s, i) == Ok::<(InternalMutation<u128>, int), DecodeError>(
            (x, i + enc_internal_mutation(x).len())),
{
    let e = enc_internal_mutation(x);
    assert(s[i + 0] == e[0]);
    match x {
        InternalMutation::InterestRate(r) => {
            assert forall|k: int| 0 <= k < 16 implies s[i + 1 + k] == enc_u128(r)[k] by {
                assert(s[i + (1 + k)] == e[1 + k]);
                assert(e[1 + k] == enc_u128(r)[k]);
            }
            lemma_dec_u128(s, i + 1, r);
        },
        InternalMutation::ValuationMethod(vm) => {
            let e2 = enc_valuation_method(vm);
            assert forall|k: int| 0 <= k < e2.len() implies s[i + 1 + k] == e2[k] by {
                assert(s[i + (1 + k)] == e[1 + k]);
                assert(e[1 + k] == e2[k]);
            }
            lemma_dec_valuation_method(s, i + 1, vm);
        },
        InternalMutation::ProbabilityOfDefault(r) => {
            assert forall|k: int| 0 <= k < 16 implies s[i + 1 + k] == enc_u128(r)[k] by {
                assert(s[i + (1 + k)] == e[1 + k]);
                assert(e[1 + k] == enc_u128(r)[k]);
            }
            lemma_dec_u128(s, i + 1, r);
        },
        InternalMutation::LossGivenDefault(r) => {
            assert forall|k: int| 0 <= k < 16 implies s[i + 1 + k] == enc_u128(r)[k] by {
                assert(s[i + (1 + k)] == e[1 + k]);
                assert(e[1 + k] == enc_u128(r)[k]);
            }
            lemma_dec_u128(s, i + 1, r);
        },
        InternalMutation::DiscountRate(r) => {
            assert forall|k: int| 0 <= k < 16 implies s[i + 1 + k] == enc_u128(r)[k] by {
                assert(s[i + (1 + k)] == e[1 + k]);
                assert(e[1 + k] == enc_u128(r)[k]);
            }
            lemma_dec_u128(s, i + 1, r);
        },
    }
}

/// The encoding of a loan mutation: the variant tag, then the new value.
pub open spec fn enc_loan_mutation(x: LoanMutation<u128>) -> Seq<u8> {
    match x {
        LoanMutation::Maturity(m) => seq![0u8] + enc_maturity(m),
        LoanMutation::InterestPayments(ip) => seq![1u8] + enc_interest_payments(ip),
        LoanMutation::PayDownSchedule(pds) => seq![2u8] + enc_pay_down_schedule(pds),
        LoanMutation::Internal(im) => seq![3u8] + enc_internal_mutation(im),
    }
}

/// What decoding a loan mutation from `s` at `i` yields.
pub open spec fn dec_loan_mutation(s: Seq<u8>, i: int)
    -> Result<(LoanMutation<u128>, int), DecodeError>
    recommends
        0 <= i,
{
    if i >= s.len() {
        Err(DecodeError::Truncated)
    } else if s[i] == 0 {
        match dec_maturity(s, i + 1) {
            Err(e) => Err(e),
            Ok((m, j)) => Ok((LoanMutation::Maturity(m), j)),
        }
    } else if s[i] == 1 {
        match dec_interest_payments(s, i + 1) {
            Err(e) => Err(e),
            Ok((ip, j)) => Ok((LoanMutation::InterestPayments(ip), j)),
        }
    } else if s[i] == 2 {
        match dec_pay_down_schedule(s, i + 1) {
            Err(e) => Err(e),
            Ok((pds, j)) => Ok((LoanMutation::PayDownSchedule(pds), j)),
        }
    } else if s[i] == 3 {
        match dec_internal_mutation(s, i + 1) {
            Err(e) => Err(e),
            Ok((im, j)) => Ok((LoanMutation::Internal(im), j)),
        }
    } else {
        Err(DecodeError::UnknownTag)
    }
}

/// Append the encoding of `x` to `out`.
pub fn encode_loan_mutation(x: &LoanMutation<u128>, out: &mut Vec<u8>)
    ensures
        final(out)@ == old(out)@ + enc_loan_mutation(*x),
{
    match x {
        LoanMutation::Maturity(m) => {
            out.push(0u8);
            encode_maturity(m, out);
        },
        LoanMutation::InterestPayments(ip) => {
            out.push(1u8);
            encode_interest_payments(ip, out);
        },
        LoanMutation::PayDownSchedule(pds) => {
            out.push(2u8);
            encode_pay_down_schedule(pds, out);
        },
        LoanMutation::Internal(im) => {
            out.push(3u8);
            encode_internal_mutation(im, out);
        },
    }
    proof {
        assert(out@ =~= old(out)@ + enc_loan_mutation(*x));
    }
}

/// Decode a loan mutation from `bytes` at `at`.
pub fn decode_loan_mutation(bytes: &Vec<u8>, at: usize)
    -> (r: Result<(LoanMutation<u128>, usize), DecodeError>)
    ensures
        (match r {
            Ok(p) => dec_loan_mutation(bytes@, at as int)
                == Ok::<(LoanMutation<u128>, int), DecodeError>((p.0, p.1 as int)),
            Err(e) => dec_loan_mutation(bytes@, at as int)
                == Err::<(LoanMutation<u128>, int), DecodeError>(e),
        }),
{
    if at >= bytes.len() {
        return Err(DecodeError::Truncated);
    }
    let tag: u8 = bytes[at];
    if tag == 0 {
        match decode_maturity(bytes, at + 1) {
            Ok((m, j)) => Ok((LoanMutation::Maturity(m), j)),
            Err(e) => Err(e),
        }
    } else if tag == 1 {
        match decode_interest_payments(bytes, at + 1) {
            Ok((ip, j)) => Ok((LoanMutation::InterestPayments(ip), j)),
            Err(e) => Err(e),
        }
    } else if tag == 2 {
        match decode_pay_down_schedule(bytes, at + 1) {
            Ok((pds, j)) => Ok((LoanMutation::PayDownSchedule(pds), j)),
            Err(e) => Err(e),
        }
    } else if tag == 3 {
        match decode_internal_mutation(bytes, at + 1) {
            Ok((im, j)) => Ok((LoanMutation::Internal(im), j)),
            Err(e) => Err(e),
        }
    } else {
        Err(DecodeError::UnknownTag)
    }
}

/// Decoding at a place that holds the encoding of `x` gives back `x`.
pub proof fn lemma_dec_loan_mutation(s: Seq<u8>, i: int, x: LoanMutation<u128>)
    requires
        0 <= i,
        i + enc_loan_mutation(x).len() <= s.len(),
        forall|k: int| 0 <= k < enc_loan_mutation(x).len()
            ==> s[i + k] == enc_loan_mutation(x)[k],
    ensures
        dec_loan_mutation(s, i) == Ok::<(LoanMutation<u128>, int), DecodeError>(
            (x, i + enc_loan_mutation(x).len())),
{
    let e = enc_loan_mutation(x);
    assert(s[i + 0] == e[0]);
    match x {
        LoanMutation::Maturity(m) => {
            let e2 = enc_maturity(m);
            assert forall|k: int| 0 <= k < e2.len() implies s[i + 1 + k] == e2[k] by {
                assert(s[i + (1 + k)] == e[1 + k]);
                assert(e[1 + k] == e2[k]);
            }
            lemma_dec_maturity(s, i + 1, m);
        },
        LoanMutation::InterestPayments(ip) => {
            let e2 = enc_interest_payments(ip);
            assert forall|k: int| 0 <= k < e2.len() implies s[i + 1 + k] == e2[k] by {
                assert(s[i + (1 + k)] == e[1 + k]);
                assert(e[1 + k] == e2[k]);
            }
            lemma_dec_interest_payments(s, i + 1, ip);
        },
        LoanMutation::PayDownSchedule(pds) => {
            let e2 = enc_pay_down_schedule(pds);
            assert forall|k: int| 0 <= k < e2.len() implies s[i + 1 + k] == e2[k] by {
                assert(s[i + (1 + k)] == e[1 + k]);
                assert(e[1 + k] == e2[k]);
            }
            lemma_dec_pay_down_schedule(s, i + 1, pds);
        },
        LoanMutation::Internal(im) => {
            let e2 = enc_internal_mutation(im);
            assert forall|k: int| 0 <= k < e2.len() implies s[i + 1 + k] == e2[k] by {
                assert(s[i + (1 + k)] == e[1 + k]);
                assert(e[1 + k] == e2[k]);
            }
            lemma_dec_internal_mutation(s, i + 1, im);
        },
    }
}

/// The encoding of a change: the variant tag, the loan identifier, then the
/// mutation.
pub open spec fn enc_change(x: Change<u64, u128>) -> Seq<u8> {
    match x {
        Change::Loan(id, lm) => seq![0u8] + enc_u64(id) + enc_loan_mutation(lm),
    }
}

/// What decoding a change from `s` at `i` yields.
pub open spec fn dec_change(s: Seq<u8>, i: int)
    -> Result<(Change<u64, u128>, int), DecodeError>
    recommends
        0 <= i,
{
    if i >= s.len() {
        Err(DecodeError::Truncated)
    } else if s[i] == 0 {
        match dec_u64(s, i + 1) {
            Err(e) => Err(e),
            Ok((id, j)) => match dec_loan_mutation(s, j) {
                Err(e) => Err(e),
                Ok((lm, k)) => Ok((Change::Loan(id, lm), k)),
            },
        }
    } else {
        Err(DecodeError::UnknownTag)
    }
}

/// Append the encoding of `x` to `out`.
pub fn encode_change(x: &Change<u64, u128>, out: &mut Vec<u8>)
    ensures
        final(out)@ == old(out)@ + enc_change(*x),
{
    match x {
        Change::Loan(id, lm) => {
            out.push(0u8);
            encode_u64(*id, out);
            encode_loan_mutation(lm, out);
        },
    }
    proof {
        assert(out@ =~= old(out)@ + enc_change(*x));
    }
}

/// Decode a change from `bytes` at `at`.
pub fn decode_change(bytes: &Vec<u8>, at: usize)
    -> (r: Result<(Change<u64, u128>, usize), DecodeError>)
    ensures
        (match r {
            Ok(p) => dec_change(bytes@, at as int)
                == Ok::<(Change<u64, u128>, int), DecodeError>((p.0, p.1 as int)),
            Err(e) => dec_change(bytes@, at as int)
                == Err::<(Change<u64, u128>, int), DecodeError>(e),
        }),
{
    if at >= bytes.len() {
        return Err(DecodeError::Truncated);
    }
    let tag: u8 = bytes[at];
    if tag == 0 {
        let (id, j) = match decode_u64(bytes, at + 1) {
            Ok(p) => p,
            Err(e) => { return Err(e); },
        };
        let (lm, k) = match decode_loan_mutation(bytes, j) {
            Ok(p) => p,
            Err(e) => { return Err(e); },
        };
        Ok((Change::Loan(id, lm), k))
    } else {
        Err(DecodeError::UnknownTag)
    }
}

/// Decoding at a place that holds the encoding of `x` gives back `x`.
pub proof fn lemma_dec_change(s: Seq<u8>, i: int, x: Change<u64, u128>)
    requires
        0 <= i,
        i + enc_change(x).len() <= s.len(),
        forall|k: int| 0 <= k < enc_change(x).len() ==> s[i + k] == enc_change(x)[k],
    ensures
        dec_change(s, i) == Ok::<(Change<u64, u128>, int), DecodeError>(
            (x, i + enc_change(x).len())),
{
    let e = enc_change(x);
    assert(s[i + 0] == e[0]);
    match x {
        Change::Loan(id, lm) => {
            let e1 = enc_u64(id);
            let e2 = enc_loan_mutation(lm);
            assert forall|k: int| 0 <= k < 8 implies s[i + 1 + k] == e1[k] by {
                assert(s[i + (1 + k)] == e[1 + k]);
                assert(e[1 + k] == (seq![0u8] + e1)[1 + k]);
                assert((seq![0u8] + e1)[1 + k] == e1[k]);
            }
            lemma_dec_u64(s, i + 1, id);
            let j = i + 9;
            assert forall|k: int| 0 <= k < e2.len() implies s[j + k] == e2[k] by {
                assert(s[i + (9 + k)] == e[9 + k]);
                assert(e[9 + k] == e2[k]);
            }
            lemma_dec_loan_mutation(s, j, lm);
        },
    }
}

// ---------------------------------------------------------------------------
// Round trips and size bounds.
// ---------------------------------------------------------------------------

/// Encoding a maturity and decoding it back, with anything following in the
/// buffer, reproduces the identical value.
pub proof fn lemma_maturity_round_trip(m: Maturity, tail: Seq<u8>)
    ensures
        dec_maturity(enc_maturity(m) + tail, 0) == Ok::<(Maturity, int), DecodeError>(
            (m, enc_maturity(m).len() as int)),
{
    let s = enc_maturity(m) + tail;
    assert forall|k: int| 0 <= k < enc_maturity(m).len()
        implies s[0 + k] == enc_maturity(m)[k] by {
        assert(s[k] == enc_maturity(m)[k]);
    }
    lemma_dec_maturity(s, 0, m);
}

/// Encoding a repayment schedule and decoding it back, with anything
/// following in the buffer, reproduces the identical value.
pub proof fn lemma_repayment_schedule_round_trip(x: RepaymentSchedule, tail: Seq<u8>)
    ensures
        dec_repayment_schedule(enc_repayment_schedule(x) + tail, 0)
            == Ok::<(RepaymentSchedule, int), DecodeError>(
                (x, enc_repayment_schedule(x).len() as int)),
{
    let s = enc_repayment_schedule(x) + tail;
    assert forall|k: int| 0 <= k < enc_repayment_schedule(x).len()
        implies s[0 + k] == enc_repayment_schedule(x)[k] by {
        assert(s[k] == enc_repayment_schedule(x)[k]);
    }
    lemma_dec_repayment_schedule(s, 0, x);
}

/// Encoding the loan restrictions and decoding them back, with anything
/// following in the buffer, reproduces the identical value.
pub proof fn lemma_loan_restrictions_round_trip(x: LoanRestrictions, tail: Seq<u8>)
    ensures
        dec_loan_restrictions(enc_loan_restrictions(x) + tail, 0)
            == Ok::<(LoanRestrictions, int), DecodeError>(
                (x, enc_loan_restrictions(x).len() as int)),
{
    let s = enc_loan_restrictions(x) + tail;
    assert forall|k: int| 0 <= k < enc_loan_restrictions(x).len()
        implies s[0 + k] == enc_loan_restrictions(x)[k] by {
        assert(s[k] == enc_loan_restrictions(x)[k]);
    }
    lemma_dec_loan_restrictions(s, 0, x);
}

/// Encoding a change and decoding it back, with anything following in the
/// buffer, reproduces the identical value.
pub proof fn lemma_change_round_trip(x: Change<u64, u128>, tail: Seq<u8>)
    ensures
        dec_change(enc_change(x) + tail, 0) == Ok::<(Change<u64, u128>, int), DecodeError>(
            (x, enc_change(x).len() as int)),
{
    let s = enc_change(x) + tail;
    assert forall|k: int| 0 <= k < enc_change(x).len() implies s[0 + k] == enc_change(x)[k] by {
        assert(s[k] == enc_change(x)[k]);
    }
    lemma_dec_change(s, 0, x);
}

/// A discounted cash flow value used as the witness in the size-bound
/// proofs: the variants that carry one reach the largest encodings.
pub open spec fn widest_discounted_cash_flow() -> DiscountedCashFlow<u128> {
    DiscountedCashFlow { probability_of_default: 0, loss_given_default: 0, discount_rate: 0 }
}

/// The largest number of bytes the encoding of a maturity can take, and some
/// maturity encodes to exactly that many.
pub fn max_encoded_len_maturity() -> (n: usize)
    ensures
        forall|m: Maturity| enc_maturity(m).len() <= n,
        exists|m: Maturity| enc_maturity(m).len() == n,
{
    proof {
        assert(enc_maturity(Maturity::Fixed(0)).len() == 9);
    }
    9
}

/// The largest number of bytes the encoding of a repayment schedule can
/// take, and some schedule encodes to exactly that many.
pub fn max_encoded_len_repayment_schedule() -> (n: usize)
    ensures
        forall|x: RepaymentSchedule| enc_repayment_schedule(x).len() <= n,
        exists|x: RepaymentSchedule| enc_repayment_schedule(x).len() == n,
{
    proof {
        assert(enc_repayment_schedule(RepaymentSchedule {
            maturity: Maturity::Fixed(0),
            interest_payments: InterestPayments::OnceAtMaturity,
            pay_down_schedule: PayDownSchedule::OnceAtMaturity,
        }).len() == 11);
    }
    11
}

/// The largest number of bytes the encoding of the loan restrictions can
/// take, and some restrictions encode to exactly that many.
pub fn max_encoded_len_loan_restrictions() -> (n: usize)
    ensures
        forall|x: LoanRestrictions| enc_loan_restrictions(x).len() <= n,
        exists|x: LoanRestrictions| enc_loan_restrictions(x).len() == n,
{
    proof {
        assert(enc_loan_restrictions(LoanRestrictions {
            borrows: BorrowRestrictions::NotWrittenOff,
            repayments: RepayRestrictions::Unrestricted,
        }).len() == 2);
    }
    2
}

/// The largest number of bytes the encoding of a valuation method can take,
/// and some method encodes to exactly that many.
pub fn max_encoded_len_valuation_method() -> (n: usize)
    ensures
        forall|x: ValuationMethod<u128>| enc_valuation_method(x).len() <= n,
        exists|x: ValuationMethod<u128>| enc_valuation_method(x).len() == n,
{
    proof {
        assert(enc_valuation_method(
            ValuationMethod::DiscountedCashFlow(widest_discounted_cash_flow())).len() == 49);
    }
    49
}

/// The largest number of bytes the encoding of an internal pricing mutation
/// can take, and some mutation encodes to exactly that many.
pub fn max_encoded_len_internal_mutation() -> (n: usize)
    ensures
        forall|x: InternalMutation<u128>| enc_internal_mutation(x).len() <= n,
        exists|x: InternalMutation<u128>| enc_internal_mutation(x).len() == n,
{
    proof {
        assert(enc_internal_mutation(InternalMutation::ValuationMethod(
            ValuationMethod::DiscountedCashFlow(widest_discounted_cash_flow()))).len() == 50);
    }
    50
}

/// The largest number of bytes the encoding of a loan mutation can take, and
/// some mutation encodes to exactly that many.
pub fn max_encoded_len_loan_mutation() -> (n: usize)
    ensures
        forall|x: LoanMutation<u128>| enc_loan_mutation(x).len() <= n,
        exists|x: LoanMutation<u128>| enc_loan_mutation(x).len() == n,
{
    proof {
        assert forall|x: LoanMutation<u128>| enc_loan_mutation(x).len() <= 51 by {
            if let LoanMutation::Internal(im) = x {
                assert(enc_internal_mutation(im).len() <= 50);
            }
        }
        assert(enc_loan_mutation(LoanMutation::Internal(InternalMutation::ValuationMethod(
            ValuationMethod::DiscountedCashFlow(widest_discounted_cash_flow())))).len() == 51);
    }
    51
}

/// The largest number of bytes the encoding of a change can take, and some
/// change encodes to exactly that many.
pub fn max_encoded_len_change() -> (n: usize)
    ensures
        forall|x: Change<u64, u128>| enc_change(x).len() <= n,
        exists|x: Change<u64, u128>| enc_change(x).len() == n,
{
    proof {
        assert forall|x: Change<u64, u128>| enc_change(x).len() <= 60 by {
            let Change::Loan(_id, lm) = x;
            assert(enc_loan_mutation(lm).len() <= 51);
        }
        assert(enc_change(Change::Loan(0u64,
            LoanMutation::Internal(InternalMutation::ValuationMethod(
                ValuationMethod::DiscountedCashFlow(widest_discounted_cash_flow()))))).len()
            == 60);
    }
    60
}

} // verus!
