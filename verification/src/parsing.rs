//! The value dispatcher: single-byte lookahead over the four bencode forms,
//! plus the two entry points that drive iteration — one for positions inside
//! a container, where `e` terminates, and one for the root-level stream,
//! where the end of the buffer terminates.

use vstd::prelude::*;
use vstd::slice::{slice_index_get, slice_subrange};

use crate::lexing::{byte_string, integer};
use crate::model::{spec_next_nested, spec_next_outer, spec_val};
use crate::model::{ErrorKind, Fail, SpecStep, SpecValue};
use crate::model::{DICTIONARY_START, DIGIT_NINE, DIGIT_ZERO, END, INTEGER_START, LIST_START};

verus! {

/// A lazily decoded value: containers appear as bare markers, and the caller
/// descends into them with [`next_nested`].  Byte strings borrow from the
/// input buffer.
#[derive(Debug, Clone, Copy, PartialEq, Eq, Hash)]
pub enum Value<'a> {
    Integer(i64),
    ByteString(&'a [u8]),
    List,
    Dictionary,
}

impl View for Value<'_> {
    type V = SpecValue;

    open spec fn view(&self) -> SpecValue {
        match *self {
            Value::Integer(n) => SpecValue::Integer(n as int),
            Value::ByteString(b) => SpecValue::ByteString(b@),
            Value::List => SpecValue::List,
            Value::Dictionary => SpecValue::Dictionary,
        }
    }
}

/// Decode the single value that begins at the cursor, deciding its form from
/// the first byte alone: `l` commits to a list, `d` to a dictionary, `i` to
/// an integer, a digit to a byte string; any other leading byte is
/// `UnexpectedToken`.  A container is consumed only up to its opening byte.
pub fn val(i: &[u8]) -> (r: Result<(&[u8], Value<'_>), Fail>)
    ensures
        match spec_val(i@) {
            SpecStep::Done { used, value } => r matches Ok((rest, v)) && rest@ == i@.skip(used)
                && v@ == value,
            SpecStep::Incomplete { stall } => r matches Err(f) && f == Fail::Incomplete(stall),
            SpecStep::Error { kind } => r matches Err(f) && f == Fail::Error(kind),
        },
{
    if i.len() == 0 {
        return Err(Fail::Incomplete(ErrorKind::UnterminatedContainer));
    }
    let b0: u8 = *slice_index_get(i, 0);
    if b0 == LIST_START {
        return Ok((slice_subrange(i, 1, i.len()), Value::List));
    }
    if b0 == DICTIONARY_START {
        return Ok((slice_subrange(i, 1, i.len()), Value::Dictionary));
    }
    if b0 == INTEGER_START {
        match integer(i) {
            Ok((rest, n)) => Ok((rest, Value::Integer(n))),
            Err(f) => Err(f),
        }
    } else if DIGIT_ZERO <= b0 && b0 <= DIGIT_NINE {
        match byte_string(i) {
            Ok((rest, s)) => Ok((rest, Value::ByteString(s))),
            Err(f) => Err(f),
        }
    } else {
        Err(Fail::Error(ErrorKind::UnexpectedToken))
    }
}

/// One step at a position inside a container: consuming the terminator `e`
/// yields `None`, anything else must be a value.
pub fn next_nested(i: &[u8]) -> (r: Result<(&[u8], Option<Value<'_>>), Fail>)
    ensures
        match spec_next_nested(i@) {
            SpecStep::Done { used, value } => r matches Ok((rest, ov)) && rest@ == i@.skip(used)
                && (match (ov, value) {
                (Some(v), Some(sv)) => v@ == sv,
                (None, None) => true,
                _ => false,
            }),
            SpecStep::Incomplete { stall } => r matches Err(f) && f == Fail::Incomplete(stall),
            SpecStep::Error { kind } => r matches Err(f) && f == Fail::Error(kind),
        },
{
    if i.len() == 0 {
        return Err(Fail::Incomplete(ErrorKind::UnterminatedContainer));
    }
    if *slice_index_get(i, 0) == END {
        return Ok((slice_subrange(i, 1, i.len()), None));
    }
    match val(i) {
        Ok((rest, v)) => Ok((rest, Some(v))),
        Err(f) => Err(f),
    }
}

/// One step of the root-level stream: the end of the buffer is the valid
/// terminator between independent root values, so an empty cursor yields
/// `None` rather than an error.
pub fn next_outer(i: &[u8]) -> (r: Result<(&[u8], Option<Value<'_>>), Fail>)
    ensures
        match spec_next_outer(i@) {
            SpecStep::Done { used, value } => r matches Ok((rest, ov)) && rest@ == i@.skip(used)
                && (match (ov, value) {
                (Some(v), Some(sv)) => v@ == sv,
                (None, None) => true,
                _ => false,
            }),
            SpecStep::Incomplete { stall } => r matches Err(f) && f == Fail::Incomplete(stall),
            SpecStep::Error { kind } => r matches Err(f) && f == Fail::Error(kind),
        },
{
    if i.len() == 0 {
        proof {
            assert(i@.skip(0) =~= i@);
        }
        return Ok((i, None));
    }
    match val(i) {
        Ok((rest, v)) => Ok((rest, Some(v))),
        Err(f) => Err(f),
    }
}

} // verus!
