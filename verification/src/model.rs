//! The mathematical model of the bencode wire grammar.
//!
//! Every decode operation of this crate is specified against the spec
//! functions in this module: each takes the unconsumed suffix of the input
//! buffer as a `Seq<u8>` and says exactly whether the bytes at its front form
//! a token (and how many bytes that token occupies), whether more bytes are
//! needed before that can be decided, or why the input is malformed.
//!
//! Streaming discipline: a spec function reports `Done` only when the bytes
//! that decide the token are all visible.  In particular a digit run is
//! complete only once the byte after it is in the buffer, so feeding a buffer
//! in increments can never commit to a result that a longer buffer would
//! contradict (see the `*_prefix_stable` lemmas in this crate).

use vstd::prelude::*;

verus! {

/// ASCII `0`, the only digit allowed to stand alone with a zero value.
pub const DIGIT_ZERO: u8 = 48;

/// ASCII `9`, the last digit.
pub const DIGIT_NINE: u8 = 57;

/// ASCII `1`, the first digit allowed to open a multi-digit run.
pub const DIGIT_ONE: u8 = 49;

/// ASCII `-`, the optional integer sign.
pub const MINUS: u8 = 45;

/// ASCII `:`, separating a byte string's length from its payload.
pub const COLON: u8 = 58;

/// ASCII `i`, opening an integer token.
pub const INTEGER_START: u8 = 105;

/// ASCII `e`, terminating integers, lists and dictionaries.
pub const END: u8 = 101;

/// ASCII `l`, opening a list.
pub const LIST_START: u8 = 108;

/// ASCII `d`, opening a dictionary.
pub const DICTIONARY_START: u8 = 100;

/// Why an input cannot be decoded.  Inside `Fail::Incomplete` the same type
/// names what the stall becomes if the caller declares the buffer final:
/// a stalled integer or container is `UnterminatedContainer`, a stalled
/// byte-string length or payload is `TruncatedByteString`, and a dictionary
/// that stalls between a key and its value is `OddEntryCount`.
#[derive(Debug, Clone, Copy, PartialEq, Eq, Hash, Structural)]
pub enum ErrorKind {
    /// A length or magnitude run with a leading zero, an empty run, or a
    /// run followed by an unexpected byte.
    MalformedLength,
    /// A misplaced sign, a `-0` magnitude, or a missing integer terminator.
    MalformedInteger,
    /// A digit run whose value exceeds the width of the target integer.
    /// This crate rejects such runs rather than saturating; integer
    /// magnitudes are limited to `i64::MAX` for either sign.
    LengthOverflow,
    /// The input ended before the matching terminator, with no more bytes
    /// to come.
    UnterminatedContainer,
    /// A declared byte-string length that the remaining bytes cannot satisfy.
    TruncatedByteString,
    /// A dictionary key with no value before the terminator.
    OddEntryCount,
    /// A leading byte that starts none of the four bencode forms.
    UnexpectedToken,
}

/// How a decode attempt ends when it does not produce a value.
/// `Incomplete` is not a terminal failure: it asks the caller to retry the
/// same operation once more bytes have been appended to the buffer.
#[derive(Debug, Clone, Copy, PartialEq, Eq, Hash, Structural)]
pub enum Fail {
    /// The available bytes decide neither success nor failure.  The carried
    /// kind is what the stall means if the buffer is declared final.
    Incomplete(ErrorKind),
    /// The input is malformed; appending bytes cannot repair it.
    Error(ErrorKind),
}

/// The outcome of running a spec-level parser on a byte sequence:
/// `Done` gives the number of bytes the token occupies and the decoded value.
pub ghost enum SpecStep<T> {
    Done { used: int, value: T },
    Incomplete { stall: ErrorKind },
    Error { kind: ErrorKind },
}

/// The abstract form of a lazily decoded value: containers appear only as
/// markers, since their contents are pulled by further calls.
pub ghost enum SpecValue {
    Integer(int),
    ByteString(Seq<u8>),
    List,
    Dictionary,
}

pub open spec fn is_digit(b: u8) -> bool {
    DIGIT_ZERO <= b && b <= DIGIT_NINE
}

pub open spec fn is_nonzero_digit(b: u8) -> bool {
    DIGIT_ONE <= b && b <= DIGIT_NINE
}

/// Length of the maximal run of ASCII digits at the front of `s`.
pub open spec fn digit_run(s: Seq<u8>) -> int
    decreases s.len(),
{
    if s.len() == 0 || !is_digit(s[0]) {
        0
    } else {
        1 + digit_run(s.skip(1))
    }
}

/// The base-ten value of a sequence of ASCII digits.
pub open spec fn digits_val(s: Seq<u8>) -> int
    decreases s.len(),
{
    if s.len() == 0 {
        0
    } else {
        digits_val(s.drop_last()) * 10 + (s.last() - DIGIT_ZERO)
    }
}

/// An unsigned decimal run: `0`, or a nonzero digit followed by more digits.
/// A leading zero before further digits is malformed.  `Done` is reported
/// only when the byte after the run is visible, so the run is known to be
/// over; a run that touches the end of the buffer is `Incomplete`, and the
/// caller supplies `stall` to say what that means at end of stream.
pub open spec fn spec_uint(s: Seq<u8>, stall: ErrorKind) -> SpecStep<int> {
    if s.len() == 0 {
        SpecStep::Incomplete { stall }
    } else if !is_digit(s[0]) {
        SpecStep::Error { kind: ErrorKind::MalformedLength }
    } else if s[0] == DIGIT_ZERO && s.len() >= 2 && is_digit(s[1]) {
        SpecStep::Error { kind: ErrorKind::MalformedLength }
    } else if digit_run(s) == s.len() {
        SpecStep::Incomplete { stall }
    } else if digits_val(s.take(digit_run(s))) > u64::MAX as int {
        SpecStep::Error { kind: ErrorKind::LengthOverflow }
    } else {
        SpecStep::Done { used: digit_run(s), value: digits_val(s.take(digit_run(s))) }
    }
}

/// A signed integer token: `i`, an optional `-`, a decimal run, `e`.
/// `-0` is rejected as `MalformedInteger` (the sign demands a nonzero
/// magnitude), and magnitudes above `i64::MAX` are rejected as
/// `LengthOverflow` for either sign.
pub open spec fn spec_integer(s: Seq<u8>) -> SpecStep<int> {
    if s.len() == 0 {
        SpecStep::Incomplete { stall: ErrorKind::UnterminatedContainer }
    } else if s[0] != INTEGER_START {
        SpecStep::Error { kind: ErrorKind::UnexpectedToken }
    } else {
        let t = s.skip(1);
        let neg = t.len() > 0 && t[0] == MINUS;
        let u = if neg { t.skip(1) } else { t };
        let off: int = if neg { 2 } else { 1 };
        match spec_uint(u, ErrorKind::UnterminatedContainer) {
            SpecStep::Done { used, value } => {
                if neg && value == 0 {
                    SpecStep::Error { kind: ErrorKind::MalformedInteger }
                } else if value > i64::MAX as int {
                    SpecStep::Error { kind: ErrorKind::LengthOverflow }
                } else if u[used] == END {
                    SpecStep::Done {
                        used: off + used + 1,
                        value: if neg { -value } else { value },
                    }
                } else {
                    SpecStep::Error { kind: ErrorKind::MalformedInteger }
                }
            }
            SpecStep::Incomplete { stall } => SpecStep::Incomplete { stall },
            SpecStep::Error { kind } => SpecStep::Error { kind },
        }
    }
}

/// A byte-string token: a decimal length, `:`, then exactly that many raw
/// bytes.  Fewer payload bytes than declared is `Incomplete`, never an
/// error, since more may arrive.
pub open spec fn spec_byte_string(s: Seq<u8>) -> SpecStep<Seq<u8>> {
    match spec_uint(s, ErrorKind::TruncatedByteString) {
        SpecStep::Done { used, value } => {
            if s[used] != COLON {
                SpecStep::Error { kind: ErrorKind::MalformedLength }
            } else if s.len() - (used + 1) < value {
                SpecStep::Incomplete { stall: ErrorKind::TruncatedByteString }
            } else {
                SpecStep::Done {
                    used: used + 1 + value,
                    value: s.subrange(used + 1, used + 1 + value),
                }
            }
        }
        SpecStep::Incomplete { stall } => SpecStep::Incomplete { stall },
        SpecStep::Error { kind } => SpecStep::Error { kind },
    }
}

/// Single-byte dispatch over the four bencode forms: `l` commits to a list,
/// `d` to a dictionary, `i` to an integer, a digit to a byte string, and
/// anything else is `UnexpectedToken`.  A container is consumed only up to
/// its opening byte; its contents are pulled by later calls.
pub open spec fn spec_val(s: Seq<u8>) -> SpecStep<SpecValue> {
    if s.len() == 0 {
        SpecStep::Incomplete { stall: ErrorKind::UnterminatedContainer }
    } else if s[0] == LIST_START {
        SpecStep::Done { used: 1, value: SpecValue::List }
    } else if s[0] == DICTIONARY_START {
        SpecStep::Done { used: 1, value: SpecValue::Dictionary }
    } else if s[0] == INTEGER_START {
        match spec_integer(s) {
            SpecStep::Done { used, value } => SpecStep::Done {
                used,
                value: SpecValue::Integer(value),
            },
            SpecStep::Incomplete { stall } => SpecStep::Incomplete { stall },
            SpecStep::Error { kind } => SpecStep::Error { kind },
        }
    } else if is_digit(s[0]) {
        match spec_byte_string(s) {
            SpecStep::Done { used, value } => SpecStep::Done {
                used,
                value: SpecValue::ByteString(value),
            },
            SpecStep::Incomplete { stall } => SpecStep::Incomplete { stall },
            SpecStep::Error { kind } => SpecStep::Error { kind },
        }
    } else {
        SpecStep::Error { kind: ErrorKind::UnexpectedToken }
    }
}

/// One step of container iteration: the terminator `e` consumes one byte and
/// yields `None`; anything else must be a value.
pub open spec fn spec_next_nested(s: Seq<u8>) -> SpecStep<Option<SpecValue>> {
    if s.len() == 0 {
        SpecStep::Incomplete { stall: ErrorKind::UnterminatedContainer }
    } else if s[0] == END {
        SpecStep::Done { used: 1, value: None }
    } else {
        match spec_val(s) {
            SpecStep::Done { used, value } => SpecStep::Done { used, value: Some(value) },
            SpecStep::Incomplete { stall } => SpecStep::Incomplete { stall },
            SpecStep::Error { kind } => SpecStep::Error { kind },
        }
    }
}

/// One step of the root-level stream: end of buffer is the valid terminator
/// between independent root values, so an empty buffer yields `None`.
pub open spec fn spec_next_outer(s: Seq<u8>) -> SpecStep<Option<SpecValue>> {
    if s.len() == 0 {
        SpecStep::Done { used: 0, value: None }
    } else {
        match spec_val(s) {
            SpecStep::Done { used, value } => SpecStep::Done { used, value: Some(value) },
            SpecStep::Incomplete { stall } => SpecStep::Incomplete { stall },
            SpecStep::Error { kind } => SpecStep::Error { kind },
        }
    }
}

/// One step of dictionary iteration: the terminator yields `None`; otherwise
/// a key value must be followed by a second value.  A terminator where the
/// value should stand is `OddEntryCount`, and a buffer that ends there
/// stalls with the same meaning.
pub open spec fn spec_next_pair(s: Seq<u8>) -> SpecStep<Option<(SpecValue, SpecValue)>> {
    if s.len() == 0 {
        SpecStep::Incomplete { stall: ErrorKind::UnterminatedContainer }
    } else if s[0] == END {
        SpecStep::Done { used: 1, value: None }
    } else {
        match spec_val(s) {
            SpecStep::Done { used: n, value: k } => {
                let r = s.skip(n);
                if r.len() == 0 {
                    SpecStep::Incomplete { stall: ErrorKind::OddEntryCount }
                } else if r[0] == END {
                    SpecStep::Error { kind: ErrorKind::OddEntryCount }
                } else {
                    match spec_val(r) {
                        SpecStep::Done { used: m, value: v } => SpecStep::Done {
                            used: n + m,
                            value: Some((k, v)),
                        },
                        SpecStep::Incomplete { stall } => SpecStep::Incomplete { stall },
                        SpecStep::Error { kind } => SpecStep::Error { kind },
                    }
                }
            }
            SpecStep::Incomplete { stall } => SpecStep::Incomplete { stall },
            SpecStep::Error { kind } => SpecStep::Error { kind },
        }
    }
}

/// `digit_run` is the length of a digit prefix, so it stays within the
/// sequence and is bounded by the first non-digit.
pub proof fn lemma_digit_run_bounds(s: Seq<u8>)
    ensures
        0 <= digit_run(s) <= s.len(),
        forall|k: int| 0 <= k < digit_run(s) ==> is_digit(#[trigger] s[k]),
        digit_run(s) < s.len() ==> !is_digit(s[digit_run(s)]),
    decreases s.len(),
{
    if s.len() == 0 || !is_digit(s[0]) {
    } else {
        lemma_digit_run_bounds(s.skip(1));
        assert forall|k: int| 0 <= k < digit_run(s) implies is_digit(#[trigger] s[k]) by {
            if k > 0 {
                assert(s[k] == s.skip(1)[k - 1]);
            }
        }
    }
}

/// A position that has only digits before it and a non-digit (or the end of
/// the sequence) at it is exactly `digit_run`.
pub proof fn lemma_digit_run_char(s: Seq<u8>, n: int)
    requires
        0 <= n <= s.len(),
        forall|k: int| 0 <= k < n ==> is_digit(#[trigger] s[k]),
        n < s.len() ==> !is_digit(s[n]),
    ensures
        digit_run(s) == n,
    decreases n,
{
    if n == 0 {
    } else {
        assert(is_digit(s[0]));
        lemma_digit_run_char(s.skip(1), n - 1);
    }
}

/// A sequence of digit bytes has a non-negative decimal value.
pub proof fn lemma_digits_val_nonneg(s: Seq<u8>)
    requires
        forall|k: int| 0 <= k < s.len() ==> is_digit(#[trigger] s[k]),
    ensures
        digits_val(s) >= 0,
    decreases s.len(),
{
    if s.len() > 0 {
        lemma_digits_val_nonneg(s.drop_last());
        assert(digits_val(s.drop_last()) * 10 >= 0) by (nonlinear_arith)
            requires
                digits_val(s.drop_last()) >= 0,
        ;
    }
}

/// Extending a digit prefix cannot shrink its value: the value of the first
/// `n` digits is bounded by the value of the whole run.
pub proof fn lemma_digits_val_extend_bound(s: Seq<u8>, n: int)
    requires
        0 <= n <= s.len(),
        forall|k: int| 0 <= k < s.len() ==> is_digit(#[trigger] s[k]),
    ensures
        digits_val(s.take(n)) <= digits_val(s),
    decreases s.len() - n,
{
    if n == s.len() {
        assert(s.take(n) =~= s);
    } else {
        lemma_digits_val_extend_bound(s, n + 1);
        assert(s.take(n + 1).drop_last() =~= s.take(n));
        assert(s.take(n + 1).last() == s[n]);
        lemma_digits_val_nonneg(s.take(n));
        assert(digits_val(s.take(n)) * 10 >= digits_val(s.take(n))) by (nonlinear_arith)
            requires
                digits_val(s.take(n)) >= 0,
        ;
    }
}

/// A completed unsigned run occupies at least one byte, leaves the byte
/// after it visible, and its value fits the target width.
pub proof fn lemma_uint_used_bounds(s: Seq<u8>, stall: ErrorKind)
    ensures
        spec_uint(s, stall) matches SpecStep::Done { used, value } ==> 1 <= used < s.len()
            && 0 <= value <= u64::MAX as int,
{
    if s.len() > 0 && is_digit(s[0]) {
        lemma_digit_run_bounds(s);
        if digit_run(s) != s.len() {
            let run = s.take(digit_run(s));
            assert(forall|k: int| 0 <= k < run.len() ==> is_digit(#[trigger] run[k]));
            lemma_digits_val_nonneg(run);
        }
    }
}

/// A completed integer token spans `i`, an optional sign, at least one
/// digit, and `e`, all within the sequence.
pub proof fn lemma_integer_used_bounds(s: Seq<u8>)
    ensures
        spec_integer(s) matches SpecStep::Done { used, value } ==> 3 <= used <= s.len()
            && i64::MIN as int <= value <= i64::MAX as int,
{
    if s.len() > 0 && s[0] == INTEGER_START {
        let t = s.skip(1);
        let neg = t.len() > 0 && t[0] == MINUS;
        let u = if neg { t.skip(1) } else { t };
        lemma_uint_used_bounds(u, ErrorKind::UnterminatedContainer);
    }
}

/// A completed byte-string token spans its length run, the colon, and
/// exactly the declared payload, all within the sequence.
pub proof fn lemma_byte_string_used_bounds(s: Seq<u8>)
    ensures
        spec_byte_string(s) matches SpecStep::Done { used, value } ==> 2 <= used <= s.len()
            && value.len() == used - 1 - digit_run(s),
{
    lemma_uint_used_bounds(s, ErrorKind::TruncatedByteString);
}

/// Every completed value consumes at least one byte and never more than the
/// sequence holds: the cursor only ever shrinks.
pub proof fn lemma_val_used_bounds(s: Seq<u8>)
    ensures
        spec_val(s) matches SpecStep::Done { used, value } ==> 1 <= used <= s.len(),
{
    lemma_integer_used_bounds(s);
    lemma_byte_string_used_bounds(s);
}

} // verus!
