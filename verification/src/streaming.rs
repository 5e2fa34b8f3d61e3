//! The incremental-feed laws.
//!
//! A caller may feed a buffer in increments: run an operation, and when it
//! reports `Incomplete`, append bytes and re-invoke the same operation on the
//! grown buffer.  The lemmas here prove that this protocol is equivalent to
//! decoding the full buffer in one call: once an operation decides — returns
//! a value or reports a malformed input — feeding more bytes cannot change
//! that decision.  Only `Incomplete` outcomes are revisited, and a retry
//! re-derives everything from the grown buffer, so decoding a valid encoding
//! split at any byte boundary yields exactly the one-call result.
//!
//! The sole exception is the root-level entry point on an empty cursor: its
//! `None` means "end of stream", a judgment only the caller can make, so its
//! law assumes the fed prefix is nonempty.

use vstd::prelude::*;

use crate::model::{digit_run, is_digit};
use crate::model::{lemma_digit_run_bounds, lemma_digit_run_char};
use crate::model::{lemma_uint_used_bounds, lemma_val_used_bounds};
use crate::model::{
    spec_byte_string, spec_integer, spec_next_nested, spec_next_outer, spec_next_pair, spec_uint,
    spec_val,
};
use crate::model::{ErrorKind, SpecStep};
use crate::model::{COLON, DIGIT_ZERO, END, INTEGER_START, MINUS};

verus! {

/// Decoding is deterministic.  Each decode operation's contract pins its
/// entire result — the value's view, the bytes consumed, or the failure —
/// to one spec-function verdict on the buffer's bytes, never on where the
/// buffer lives or how often it is read: two buffers holding the same bytes
/// decode identically, so decoding a fixed buffer twice yields bit-for-bit
/// equal results.
pub proof fn lemma_decoding_deterministic(s: Seq<u8>, t: Seq<u8>)
    requires
        s == t,
    ensures
        spec_val(s) == spec_val(t),
        spec_next_outer(s) == spec_next_outer(t),
        spec_next_nested(s) == spec_next_nested(t),
        spec_next_pair(s) == spec_next_pair(t),
{
}

/// Once an unsigned run decides on a prefix of the buffer, the full buffer
/// decides the same: `Done` stays `Done` with the same span and value, and a
/// malformed run stays malformed.
pub proof fn lemma_uint_prefix_stable(s: Seq<u8>, t: Seq<u8>, stall: ErrorKind)
    requires
        s.is_prefix_of(t),
        !(spec_uint(s, stall) is Incomplete),
    ensures
        spec_uint(t, stall) == spec_uint(s, stall),
{
    assert(s.len() > 0);
    assert(s[0] == t[0]);
    if !is_digit(s[0]) {
    } else if s[0] == DIGIT_ZERO && s.len() >= 2 && is_digit(s[1]) {
        assert(t[1] == s[1]);
    } else {
        lemma_digit_run_bounds(s);
        let n = digit_run(s);
        assert(n < s.len());
        assert forall|k: int| 0 <= k < n implies is_digit(#[trigger] t[k]) by {
            assert(t[k] == s[k]);
            assert(is_digit(s[k]));
        }
        assert(t[n] == s[n]);
        lemma_digit_run_char(t, n);
        assert(s.take(n) =~= t.take(n));
        if s.len() >= 2 {
            assert(t[1] == s[1]);
        }
    }
}

/// Once an integer token decides on a prefix of the buffer, the full buffer
/// decides the same.
pub proof fn lemma_integer_prefix_stable(s: Seq<u8>, t: Seq<u8>)
    requires
        s.is_prefix_of(t),
        !(spec_integer(s) is Incomplete),
    ensures
        spec_integer(t) == spec_integer(s),
{
    assert(s.len() > 0);
    assert(s[0] == t[0]);
    if s[0] == INTEGER_START {
        let st = s.skip(1);
        let tt = t.skip(1);
        assert(st.is_prefix_of(tt)) by {
            assert(st =~= tt.subrange(0, st.len() as int));
        }
        assert(st.len() > 0);
        assert(st[0] == tt[0]);
        let neg = st[0] == MINUS;
        let su = if neg { st.skip(1) } else { st };
        let tu = if neg { tt.skip(1) } else { tt };
        assert(su.is_prefix_of(tu)) by {
            assert(su =~= tu.subrange(0, su.len() as int));
        }
        lemma_uint_prefix_stable(su, tu, ErrorKind::UnterminatedContainer);
        lemma_uint_used_bounds(su, ErrorKind::UnterminatedContainer);
        match spec_uint(su, ErrorKind::UnterminatedContainer) {
            SpecStep::Done { used, value } => {
                assert(su[used] == tu[used]);
            },
            _ => {},
        }
    }
}

/// Once a byte-string token decides on a prefix of the buffer, the full
/// buffer decides the same, and the payload is the same bytes.
pub proof fn lemma_byte_string_prefix_stable(s: Seq<u8>, t: Seq<u8>)
    requires
        s.is_prefix_of(t),
        !(spec_byte_string(s) is Incomplete),
    ensures
        spec_byte_string(t) == spec_byte_string(s),
{
    lemma_uint_prefix_stable(s, t, ErrorKind::TruncatedByteString);
    lemma_uint_used_bounds(s, ErrorKind::TruncatedByteString);
    match spec_uint(s, ErrorKind::TruncatedByteString) {
        SpecStep::Done { used, value } => {
            assert(s[used] == t[used]);
            if s[used] == COLON && s.len() - (used + 1) >= value {
                assert(s.subrange(used + 1, used + 1 + value) =~= t.subrange(
                    used + 1,
                    used + 1 + value,
                ));
            }
        },
        _ => {},
    }
}

/// Once the dispatcher decides on a prefix of the buffer, the full buffer
/// decides the same value.
pub proof fn lemma_val_prefix_stable(s: Seq<u8>, t: Seq<u8>)
    requires
        s.is_prefix_of(t),
        !(spec_val(s) is Incomplete),
    ensures
        spec_val(t) == spec_val(s),
{
    assert(s.len() > 0);
    assert(s[0] == t[0]);
    if s[0] == INTEGER_START {
        lemma_integer_prefix_stable(s, t);
    } else if is_digit(s[0]) {
        lemma_byte_string_prefix_stable(s, t);
    }
}

/// Once one container-iteration step decides on a prefix of the buffer, the
/// full buffer decides the same: this is the incremental-feed equivalence
/// for list elements and for the nested positions a caller descends into.
pub proof fn lemma_next_nested_prefix_stable(s: Seq<u8>, t: Seq<u8>)
    requires
        s.is_prefix_of(t),
        !(spec_next_nested(s) is Incomplete),
    ensures
        spec_next_nested(t) == spec_next_nested(s),
{
    assert(s.len() > 0);
    assert(s[0] == t[0]);
    if s[0] != END {
        lemma_val_prefix_stable(s, t);
    }
}

/// Once a root-level step decides on a nonempty prefix of the buffer, the
/// full buffer decides the same.  The empty cursor is excluded: there the
/// root stream reports "end of stream", which only a caller that knows no
/// more bytes will come may rely on.
pub proof fn lemma_next_outer_prefix_stable(s: Seq<u8>, t: Seq<u8>)
    requires
        s.is_prefix_of(t),
        s.len() > 0,
        !(spec_next_outer(s) is Incomplete),
    ensures
        spec_next_outer(t) == spec_next_outer(s),
{
    assert(s[0] == t[0]);
    lemma_val_prefix_stable(s, t);
}

/// Once one dictionary-iteration step decides on a prefix of the buffer, the
/// full buffer decides the same pair — or the same missing-value error.
pub proof fn lemma_next_pair_prefix_stable(s: Seq<u8>, t: Seq<u8>)
    requires
        s.is_prefix_of(t),
        !(spec_next_pair(s) is Incomplete),
    ensures
        spec_next_pair(t) == spec_next_pair(s),
{
    assert(s.len() > 0);
    assert(s[0] == t[0]);
    if s[0] != END {
        lemma_val_prefix_stable(s, t);
        lemma_val_used_bounds(s);
        match spec_val(s) {
            SpecStep::Done { used: n, value: k } => {
                let rs = s.skip(n);
                let rt = t.skip(n);
                assert(rs.is_prefix_of(rt)) by {
                    assert(rs =~= rt.subrange(0, rs.len() as int));
                }
                assert(rs.len() > 0);
                assert(rs[0] == rt[0]);
                if rs[0] != END {
                    lemma_val_prefix_stable(rs, rt);
                }
            },
            _ => {},
        }
    }
}

} // verus!
