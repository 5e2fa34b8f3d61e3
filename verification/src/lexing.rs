//! The primitive lexers: unsigned decimal runs, signed integer tokens, and
//! length-prefixed byte strings.
//!
//! Each lexer takes the cursor — the unconsumed suffix of the input buffer —
//! and on success returns the new cursor together with the decoded value,
//! consuming exactly the token's bytes and never backtracking.  Each is
//! proved to return precisely what the corresponding spec function in
//! [`crate::model`] says for its input.

use vstd::prelude::*;
use vstd::slice::{slice_index_get, slice_subrange};

use crate::model::{digits_val, is_digit, is_nonzero_digit};
use crate::model::{lemma_digit_run_bounds, lemma_digit_run_char};
use crate::model::{lemma_digits_val_extend_bound, lemma_digits_val_nonneg};
use crate::model::{spec_byte_string, spec_integer, spec_uint};
use crate::model::{ErrorKind, Fail, SpecStep};
use crate::model::{COLON, DIGIT_NINE, DIGIT_ONE, DIGIT_ZERO, END, INTEGER_START, MINUS};

verus! {

/// Tell whether a byte is an ASCII digit.
fn is_ascii_digit(b: u8) -> (r: bool)
    ensures
        r == is_digit(b),
{
    DIGIT_ZERO <= b && b <= DIGIT_NINE
}

/// Tell whether a byte is a nonzero ASCII digit, the only bytes permitted to
/// open a multi-digit run.
pub fn is_nonzero(b: &u8) -> (r: bool)
    ensures
        r == is_nonzero_digit(*b),
{
    DIGIT_ONE <= *b && *b <= DIGIT_NINE
}

/// The decimal value of the digit run `head` followed by `tail`, for runs
/// whose value fits the target width.
pub fn ascii_to_uint(head: u8, tail: &[u8]) -> (out: u64)
    requires
        is_digit(head),
        forall|k: int| 0 <= k < tail@.len() ==> is_digit(#[trigger] tail@[k]),
        digits_val(seq![head] + tail@) <= u64::MAX as int,
    ensures
        out == digits_val(seq![head] + tail@),
{
    let ghost all = seq![head] + tail@;
    let mut out: u64 = (head - DIGIT_ZERO) as u64;
    proof {
        assert(digits_val(Seq::<u8>::empty()) == 0);
        assert(all.take(1).drop_last() =~= Seq::<u8>::empty());
        assert(all.take(1).last() == head);
    }
    let mut k: usize = 0;
    while k < tail.len()
        invariant
            0 <= k <= tail@.len(),
            is_digit(head),
            forall|t: int| 0 <= t < tail@.len() ==> is_digit(#[trigger] tail@[t]),
            all == seq![head] + tail@,
            digits_val(all) <= u64::MAX as int,
            out == digits_val(all.take(k as int + 1)),
        decreases tail@.len() - k,
    {
        let d: u8 = *slice_index_get(tail, k) - DIGIT_ZERO;
        proof {
            assert(all.take(k as int + 2).drop_last() =~= all.take(k as int + 1));
            assert(all.take(k as int + 2).last() == tail@[k as int]);
            lemma_digits_val_extend_bound(all, k as int + 2);
        }
        out = out * 10 + (d as u64);
        k = k + 1;
    }
    proof {
        assert(all.take(all.len() as int) =~= all);
    }
    out
}

/// Lex an unsigned decimal run, exactly as [`spec_uint`] describes it:
/// `Done` only once the byte after the run is visible, a leading zero before
/// further digits is `MalformedLength`, and a value beyond `u64::MAX` is
/// `LengthOverflow`.  `stall` is what an `Incomplete` here means at end of
/// stream.
pub fn uint(i: &[u8], stall: ErrorKind) -> (r: Result<(&[u8], u64), Fail>)
    ensures
        match spec_uint(i@, stall) {
            SpecStep::Done { used, value } => r matches Ok((rest, v)) && rest@ == i@.skip(used)
                && v == value,
            SpecStep::Incomplete { stall: e } => r matches Err(f) && f == Fail::Incomplete(e),
            SpecStep::Error { kind } => r matches Err(f) && f == Fail::Error(kind),
        },
{
    if i.len() == 0 {
        return Err(Fail::Incomplete(stall));
    }
    let b0: u8 = *slice_index_get(i, 0);
    if b0 == DIGIT_ZERO {
        if i.len() == 1 {
            proof {
                lemma_digit_run_char(i@, 1);
            }
            return Err(Fail::Incomplete(stall));
        }
        let b1: u8 = *slice_index_get(i, 1);
        if is_ascii_digit(b1) {
            return Err(Fail::Error(ErrorKind::MalformedLength));
        }
        proof {
            lemma_digit_run_char(i@, 1);
            assert(digits_val(Seq::<u8>::empty()) == 0);
            assert(i@.take(1).drop_last() =~= Seq::<u8>::empty());
            assert(i@.take(1).last() == DIGIT_ZERO);
            assert(i@.subrange(1, i@.len() as int) =~= i@.skip(1));
        }
        return Ok((slice_subrange(i, 1, i.len()), 0));
    }
    if !is_nonzero(&b0) {
        return Err(Fail::Error(ErrorKind::MalformedLength));
    }
    let mut j: usize = 1;
    while j < i.len() && is_ascii_digit(*slice_index_get(i, j))
        invariant
            1 <= j <= i@.len(),
            forall|k: int| 0 <= k < j ==> is_digit(#[trigger] i@[k]),
        decreases i@.len() - j,
    {
        j = j + 1;
    }
    proof {
        lemma_digit_run_char(i@, j as int);
    }
    if j == i.len() {
        return Err(Fail::Incomplete(stall));
    }
    let mut acc: u64 = (b0 - DIGIT_ZERO) as u64;
    let mut overflow: bool = false;
    proof {
        assert(digits_val(Seq::<u8>::empty()) == 0);
        assert(i@.take(1).drop_last() =~= Seq::<u8>::empty());
        assert(i@.take(1).last() == b0);
    }
    let mut k: usize = 1;
    while k < j
        invariant
            1 <= k <= j <= i@.len(),
            forall|t: int| 0 <= t < j ==> is_digit(#[trigger] i@[t]),
            !overflow ==> acc == digits_val(i@.take(k as int)),
            overflow ==> digits_val(i@.take(k as int)) > u64::MAX as int,
        decreases j - k,
    {
        let d: u8 = *slice_index_get(i, k) - DIGIT_ZERO;
        proof {
            assert(i@.take(k as int + 1).drop_last() =~= i@.take(k as int));
            assert(i@.take(k as int + 1).last() == i@[k as int]);
            if overflow {
                lemma_digits_val_nonneg(i@.take(k as int));
                assert(digits_val(i@.take(k as int)) * 10 >= digits_val(i@.take(k as int)))
                    by (nonlinear_arith)
                    requires
                        digits_val(i@.take(k as int)) >= 0,
                ;
            }
        }
        if !overflow {
            match acc.checked_mul(10) {
                Some(m) => match m.checked_add(d as u64) {
                    Some(v) => {
                        acc = v;
                    },
                    None => {
                        overflow = true;
                    },
                },
                None => {
                    overflow = true;
                },
            }
        }
        k = k + 1;
    }
    if overflow {
        return Err(Fail::Error(ErrorKind::LengthOverflow));
    }
    proof {
        assert(i@.subrange(j as int, i@.len() as int) =~= i@.skip(j as int));
    }
    Ok((slice_subrange(i, j, i.len()), acc))
}

/// Lex a signed integer token `i [-] digits e`, exactly as [`spec_integer`]
/// describes it: `-0` is rejected, magnitudes are limited to `i64::MAX` for
/// either sign, and a missing terminator is `MalformedInteger`.
pub fn integer(i: &[u8]) -> (r: Result<(&[u8], i64), Fail>)
    ensures
        match spec_integer(i@) {
            SpecStep::Done { used, value } => r matches Ok((rest, v)) && rest@ == i@.skip(used)
                && v == value,
            SpecStep::Incomplete { stall } => r matches Err(f) && f == Fail::Incomplete(stall),
            SpecStep::Error { kind } => r matches Err(f) && f == Fail::Error(kind),
        },
{
    if i.len() == 0 {
        return Err(Fail::Incomplete(ErrorKind::UnterminatedContainer));
    }
    if *slice_index_get(i, 0) != INTEGER_START {
        return Err(Fail::Error(ErrorKind::UnexpectedToken));
    }
    let t = slice_subrange(i, 1, i.len());
    proof {
        assert(t@ =~= i@.skip(1));
    }
    let neg = t.len() > 0 && *slice_index_get(t, 0) == MINUS;
    let u = if neg {
        let u0 = slice_subrange(t, 1, t.len());
        proof {
            assert(u0@ =~= t@.skip(1));
        }
        u0
    } else {
        t
    };
    let ghost off: int = if neg { 2 } else { 1 };
    match uint(u, ErrorKind::UnterminatedContainer) {
        Err(f) => Err(f),
        Ok((rest, v)) => {
            proof {
                lemma_digit_run_bounds(u@);
            }
            if neg && v == 0 {
                return Err(Fail::Error(ErrorKind::MalformedInteger));
            }
            if v > i64::MAX as u64 {
                return Err(Fail::Error(ErrorKind::LengthOverflow));
            }
            if *slice_index_get(rest, 0) == END {
                let out = slice_subrange(rest, 1, rest.len());
                proof {
                    let used = spec_uint(u@, ErrorKind::UnterminatedContainer)->used;
                    assert(out@ =~= i@.skip(off + used + 1));
                }
                let sv: i64 = if neg {
                    -(v as i64)
                } else {
                    v as i64
                };
                Ok((out, sv))
            } else {
                Err(Fail::Error(ErrorKind::MalformedInteger))
            }
        },
    }
}

/// Lex a byte-string token `length : payload`, exactly as
/// [`spec_byte_string`] describes it: the payload is returned as a borrowed
/// slice of the input buffer, and fewer payload bytes than declared is
/// `Incomplete`, never an error.
pub fn byte_string(i: &[u8]) -> (r: Result<(&[u8], &[u8]), Fail>)
    ensures
        match spec_byte_string(i@) {
            SpecStep::Done { used, value } => r matches Ok((rest, s)) && rest@ == i@.skip(used)
                && s@ == value,
            SpecStep::Incomplete { stall } => r matches Err(f) && f == Fail::Incomplete(stall),
            SpecStep::Error { kind } => r matches Err(f) && f == Fail::Error(kind),
        },
{
    match uint(i, ErrorKind::TruncatedByteString) {
        Err(f) => Err(f),
        Ok((rest, len)) => {
            proof {
                lemma_digit_run_bounds(i@);
            }
            if *slice_index_get(rest, 0) != COLON {
                return Err(Fail::Error(ErrorKind::MalformedLength));
            }
            let avail: usize = rest.len() - 1;
            if (avail as u64) < len {
                return Err(Fail::Incomplete(ErrorKind::TruncatedByteString));
            }
            let n: usize = len as usize;
            let payload = slice_subrange(rest, 1, 1 + n);
            let out = slice_subrange(rest, 1 + n, rest.len());
            proof {
                let used = spec_uint(i@, ErrorKind::TruncatedByteString)->used;
                assert(payload@ =~= i@.subrange(used + 1, used + 1 + len as int));
                assert(out@ =~= i@.skip(used + 1 + len as int));
            }
            Ok((out, payload))
        },
    }
}

} // verus!
