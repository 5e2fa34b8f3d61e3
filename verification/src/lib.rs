//! A streaming, zero-copy bencode decoder.
//!
//! The decoder reads the bencode wire format (integers, byte strings, lists,
//! dictionaries) from a byte buffer that may arrive incrementally.  Every
//! operation takes the unconsumed suffix of the buffer — the cursor — and
//! returns the new cursor together with its result; no state lives anywhere
//! else.  Byte-string payloads are borrowed from the input buffer, never
//! copied.  When the available bytes decide neither success nor failure the
//! operation reports `Fail::Incomplete`, and the caller re-invokes it on the
//! grown buffer.
//!
//! Containers are walked lazily: decoding `l` or `d` consumes only the
//! opening byte and hands back a stateless handle ([`ListIter`],
//! [`DictionaryIter`]) whose `next` operation yields one element (or pair) at
//! a time.  Correctness requires the caller to always supply the cursor
//! returned by the previous call on the same handle lineage; using a handle
//! with a foreign or stale cursor is a caller contract violation that no
//! runtime check catches.

use vstd::prelude::*;

pub mod lexing;
pub mod model;
pub mod parsing;
pub mod streaming;

use crate::model::{ErrorKind, Fail, SpecStep, SpecValue, END};
use crate::model::{lemma_val_used_bounds, spec_next_nested, spec_next_pair, spec_val};
use crate::parsing::Value;
use vstd::slice::{slice_index_get, slice_subrange};

verus! {

/// A lazily decoded value.  Byte strings borrow from the input buffer;
/// containers carry a stateless handle for pulling their contents.
#[derive(Debug, Clone, Copy, PartialEq, Eq, Hash)]
pub enum ValuePull<'a> {
    Integer(i64),
    ByteString(&'a [u8]),
    List(ListIter),
    Dictionary(DictionaryIter),
}

impl View for ValuePull<'_> {
    type V = SpecValue;

    open spec fn view(&self) -> SpecValue {
        match *self {
            ValuePull::Integer(n) => SpecValue::Integer(n as int),
            ValuePull::ByteString(b) => SpecValue::ByteString(b@),
            ValuePull::List(_) => SpecValue::List,
            ValuePull::Dictionary(_) => SpecValue::Dictionary,
        }
    }
}

/// A stateless handle on a list being walked: the position lives entirely in
/// the cursor the caller threads through `next_value`.
#[derive(Debug, Clone, Copy, PartialEq, Eq, Hash)]
pub struct ListIter;

impl ListIter {
    /// Pull the next list element.  Consuming the terminator yields `None`;
    /// otherwise the element is decoded and the cursor advanced past it.
    pub fn next_value(self, i: &[u8]) -> (r: Result<(&[u8], Option<ValuePull<'_>>), Fail>)
        ensures
            match spec_next_nested(i@) {
                SpecStep::Done { used, value } => r matches Ok((rest, ov)) && rest@ == i@.skip(
                    used,
                ) && (match (ov, value) {
                    (Some(v), Some(sv)) => v@ == sv,
                    (None, None) => true,
                    _ => false,
                }),
                SpecStep::Incomplete { stall } => r matches Err(f) && f == Fail::Incomplete(stall),
                SpecStep::Error { kind } => r matches Err(f) && f == Fail::Error(kind),
            },
    {
        maybe_val(i)
    }
}

/// A stateless handle on a dictionary being walked, pulling one key-value
/// pair per call to `next_pair`.
#[derive(Debug, Clone, Copy, PartialEq, Eq, Hash)]
pub struct DictionaryIter;

impl DictionaryIter {
    /// Pull the next key-value pair.  Consuming the terminator yields
    /// `None`; otherwise a key is decoded and a value is unconditionally
    /// required after it — a terminator where the value should stand is
    /// `OddEntryCount`.
    pub fn next_pair(self, i: &[u8]) -> (r: Result<
        (&[u8], Option<(ValuePull<'_>, ValuePull<'_>)>),
        Fail,
    >)
        ensures
            match spec_next_pair(i@) {
                SpecStep::Done { used, value } => r matches Ok((rest, op)) && rest@ == i@.skip(
                    used,
                ) && (match (op, value) {
                    (Some((k, v)), Some((sk, sv))) => k@ == sk && v@ == sv,
                    (None, None) => true,
                    _ => false,
                }),
                SpecStep::Incomplete { stall } => r matches Err(f) && f == Fail::Incomplete(stall),
                SpecStep::Error { kind } => r matches Err(f) && f == Fail::Error(kind),
            },
    {
        if i.len() == 0 {
            return Err(Fail::Incomplete(ErrorKind::UnterminatedContainer));
        }
        if *slice_index_get(i, 0) == END {
            return Ok((slice_subrange(i, 1, i.len()), None));
        }
        let (r1, k) = match crate::parsing::val(i) {
            Ok(p) => p,
            Err(f) => {
                return Err(f);
            },
        };
        if r1.len() == 0 {
            return Err(Fail::Incomplete(ErrorKind::OddEntryCount));
        }
        if *slice_index_get(r1, 0) == END {
            return Err(Fail::Error(ErrorKind::OddEntryCount));
        }
        let (r2, v) = match crate::parsing::val(r1) {
            Ok(p) => p,
            Err(f) => {
                return Err(f);
            },
        };
        proof {
            lemma_val_used_bounds(i@);
            let n = spec_val(i@)->used;
            lemma_val_used_bounds(i@.skip(n));
            let m = spec_val(i@.skip(n))->used;
            assert(i@.skip(n).skip(m) =~= i@.skip(n + m));
        }
        Ok((r2, Some((to_pull(k), to_pull(v)))))
    }
}

/// Repackage a dispatched value as its pull-protocol form, attaching the
/// stateless handle to each container marker.
fn to_pull<'a>(v: Value<'a>) -> (r: ValuePull<'a>)
    ensures
        r@ == v@,
{
    match v {
        Value::Integer(n) => ValuePull::Integer(n),
        Value::ByteString(b) => ValuePull::ByteString(b),
        Value::List => ValuePull::List(ListIter),
        Value::Dictionary => ValuePull::Dictionary(DictionaryIter),
    }
}

/// Decode the next value, or consume the container terminator and yield
/// `None`: the pull-protocol form of [`parsing::next_nested`].
pub fn maybe_val(i: &[u8]) -> (r: Result<(&[u8], Option<ValuePull<'_>>), Fail>)
    ensures
        match spec_next_nested(i@) {
            SpecStep::Done { used, value } => r matches Ok((rest, ov)) && rest@ == i@.skip(used)
                && (match (ov, value) {
                (Some(v), Some(sv)) => v@ == sv,
                (None, None) => true,
                _ => false,
            }),
            SpecStep::Incomplete { stall } => r matches Err(f) && f == Fail::Incomplete(stall),
            SpecStep::Error { kind } => r matches Err(f) && f == Fail::Error(kind),
        },
{
    match crate::parsing::next_nested(i) {
        Ok((rest, Some(v))) => Ok((rest, Some(to_pull(v)))),
        Ok((rest, None)) => Ok((rest, None)),
        Err(f) => Err(f),
    }
}

} // verus!
