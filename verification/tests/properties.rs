use bencode::lexing::{ascii_to_uint, byte_string, integer, is_nonzero, uint};
use bencode::model::{ErrorKind, Fail};
use bencode::parsing::{next_outer, val, Value};
use bencode::{maybe_val, ValuePull};

#[test]
fn decoding_twice_is_deterministic() {
    let buf = b"l3:fooi42e3:bare";
    assert_eq!(maybe_val(buf), maybe_val(buf));
    assert_eq!(integer(b"i-12e"), integer(b"i-12e"));
    assert_eq!(byte_string(b"4:spam"), byte_string(b"4:spam"));
    let first = next_outer(buf);
    let second = next_outer(buf);
    assert_eq!(first, second);
}

#[test]
fn leading_zeros_are_rejected() {
    assert_eq!(integer(b"i01e"), Err(Fail::Error(ErrorKind::MalformedLength)));
    assert_eq!(integer(b"i-01e"), Err(Fail::Error(ErrorKind::MalformedLength)));
    assert_eq!(byte_string(b"01:x"), Err(Fail::Error(ErrorKind::MalformedLength)));
}

#[test]
fn integer_values() {
    assert_eq!(integer(b"i0e"), Ok((&[][..], 0)));
    assert_eq!(integer(b"i-12e"), Ok((&[][..], -12)));
    assert_eq!(integer(b"i115e"), Ok((&[][..], 115)));
}

#[test]
fn byte_string_values() {
    assert_eq!(byte_string(b"4:spam"), Ok((&[][..], &b"spam"[..])));
    assert_eq!(byte_string(b"0:"), Ok((&[][..], &b""[..])));
}

#[test]
fn list_of_two_integers() {
    let i = b"li115ei-12ee";
    let Ok((i, Some(ValuePull::List(it)))) = maybe_val(i) else {
        panic!("Expected a list");
    };
    let Ok((i, Some(ValuePull::Integer(115)))) = it.next_value(i) else {
        panic!("Expected 115");
    };
    let Ok((i, Some(ValuePull::Integer(-12)))) = it.next_value(i) else {
        panic!("Expected -12");
    };
    let Ok((b"", None)) = it.next_value(i) else {
        panic!("Expected end of list");
    };
}

#[test]
fn empty_list_terminates_immediately() {
    let i = b"le";
    let Ok((i, Some(ValuePull::List(it)))) = maybe_val(i) else {
        panic!("Expected a list");
    };
    let Ok((b"", None)) = it.next_value(i) else {
        panic!("Expected the terminator at once");
    };
}

#[test]
fn dictionary_of_one_pair() {
    let i = b"di1ei2ee";
    let Ok((i, Some(ValuePull::Dictionary(it)))) = maybe_val(i) else {
        panic!("Expected a dictionary");
    };
    let Ok((i, Some((ValuePull::Integer(1), ValuePull::Integer(2))))) = it.next_pair(i) else {
        panic!("Expected 1 -> 2");
    };
    let Ok((b"", None)) = it.next_pair(i) else {
        panic!("Expected end of dictionary");
    };
}

#[test]
fn dictionary_key_without_value_is_odd() {
    let i = b"di1ee";
    let Ok((i, Some(ValuePull::Dictionary(it)))) = maybe_val(i) else {
        panic!("Expected a dictionary");
    };
    assert_eq!(it.next_pair(i), Err(Fail::Error(ErrorKind::OddEntryCount)));
}

#[test]
fn dictionary_stalling_after_key_means_odd_at_end_of_stream() {
    let i = b"di1e";
    let Ok((i, Some(ValuePull::Dictionary(it)))) = maybe_val(i) else {
        panic!("Expected a dictionary");
    };
    assert_eq!(it.next_pair(i), Err(Fail::Incomplete(ErrorKind::OddEntryCount)));
}

#[test]
fn root_stream_of_two_values() {
    let i = b"i1ei2e";
    let Ok((i, Some(Value::Integer(1)))) = next_outer(i) else {
        panic!("Expected 1");
    };
    let Ok((i, Some(Value::Integer(2)))) = next_outer(i) else {
        panic!("Expected 2");
    };
    let Ok((b"", None)) = next_outer(i) else {
        panic!("Expected end of stream");
    };
}

// Feeding any prefix of a valid encoding either stalls with `Incomplete` —
// and the retry on the grown buffer re-derives everything — or yields the
// same value, consuming the same number of bytes, as the one-call decode.
fn integer_prefixes_agree(full: &[u8]) {
    let (rest_full, value_full) = integer(full).expect("the full buffer must decode");
    let consumed_full = full.len() - rest_full.len();
    for cut in 0..full.len() {
        match integer(&full[..cut]) {
            Err(Fail::Incomplete(_)) => {}
            Ok((rest, value)) => {
                assert_eq!(value, value_full);
                assert_eq!(cut - rest.len(), consumed_full);
            }
            Err(Fail::Error(kind)) => panic!("prefix wrongly rejected: {:?}", kind),
        }
    }
}

fn byte_string_prefixes_agree(full: &[u8]) {
    let (rest_full, payload_full) = byte_string(full).expect("the full buffer must decode");
    let consumed_full = full.len() - rest_full.len();
    for cut in 0..full.len() {
        match byte_string(&full[..cut]) {
            Err(Fail::Incomplete(_)) => {}
            Ok((rest, payload)) => {
                assert_eq!(payload, payload_full);
                assert_eq!(cut - rest.len(), consumed_full);
            }
            Err(Fail::Error(kind)) => panic!("prefix wrongly rejected: {:?}", kind),
        }
    }
}

#[test]
fn incremental_feed_matches_one_call() {
    integer_prefixes_agree(b"i0e");
    integer_prefixes_agree(b"i115e");
    integer_prefixes_agree(b"i-12e");
    byte_string_prefixes_agree(b"4:spam");
    byte_string_prefixes_agree(b"0:");
    byte_string_prefixes_agree(b"10:0123456789");
}

#[test]
fn incremental_feed_walks_a_list() {
    // Decode the same list from a whole buffer and from one grown in steps:
    // every stalled step is retried on a longer buffer and must agree.
    let full = b"li115ei-12ee";
    for cut in 0..full.len() {
        let prefix = &full[..cut];
        match maybe_val(prefix) {
            Err(Fail::Incomplete(_)) => {}
            Ok((rest, Some(ValuePull::List(_)))) => {
                assert_eq!(cut - rest.len(), 1);
            }
            other => panic!("unexpected prefix outcome: {:?}", other),
        }
    }
    let Ok((i, Some(ValuePull::List(it)))) = maybe_val(full) else {
        panic!("Expected a list");
    };
    let Ok((i, Some(ValuePull::Integer(115)))) = it.next_value(i) else {
        panic!("Expected 115");
    };
    let Ok((i, Some(ValuePull::Integer(-12)))) = it.next_value(i) else {
        panic!("Expected -12");
    };
    let Ok((b"", None)) = it.next_value(i) else {
        panic!("Expected end of list");
    };
}

#[test]
fn minus_zero_is_rejected() {
    assert_eq!(integer(b"i-0e"), Err(Fail::Error(ErrorKind::MalformedInteger)));
}

#[test]
fn missing_terminator_is_malformed() {
    assert_eq!(integer(b"i12x"), Err(Fail::Error(ErrorKind::MalformedInteger)));
    assert_eq!(byte_string(b"2x"), Err(Fail::Error(ErrorKind::MalformedLength)));
}

#[test]
fn oversized_runs_overflow() {
    // One above u64::MAX.
    assert_eq!(
        integer(b"i18446744073709551616e"),
        Err(Fail::Error(ErrorKind::LengthOverflow))
    );
    // One above i64::MAX, though it fits an unsigned run.
    assert_eq!(
        integer(b"i9223372036854775808e"),
        Err(Fail::Error(ErrorKind::LengthOverflow))
    );
    assert_eq!(
        integer(b"i-9223372036854775808e"),
        Err(Fail::Error(ErrorKind::LengthOverflow))
    );
    assert_eq!(
        byte_string(b"99999999999999999999:"),
        Err(Fail::Error(ErrorKind::LengthOverflow))
    );
    // The largest magnitude this decoder accepts.
    assert_eq!(
        integer(b"i9223372036854775807e"),
        Ok((&[][..], i64::MAX))
    );
    assert_eq!(
        integer(b"i-9223372036854775807e"),
        Ok((&[][..], -i64::MAX))
    );
}

#[test]
fn unexpected_leading_bytes() {
    assert_eq!(next_outer(b"x"), Err(Fail::Error(ErrorKind::UnexpectedToken)));
    // A terminator at root level starts no value.
    assert_eq!(next_outer(b"e"), Err(Fail::Error(ErrorKind::UnexpectedToken)));
    assert_eq!(val(b":"), Err(Fail::Error(ErrorKind::UnexpectedToken)));
}

#[test]
fn stalls_name_their_end_of_stream_meaning() {
    assert_eq!(integer(b"i12"), Err(Fail::Incomplete(ErrorKind::UnterminatedContainer)));
    assert_eq!(integer(b"i-"), Err(Fail::Incomplete(ErrorKind::UnterminatedContainer)));
    assert_eq!(byte_string(b"3:ab"), Err(Fail::Incomplete(ErrorKind::TruncatedByteString)));
    assert_eq!(byte_string(b"12"), Err(Fail::Incomplete(ErrorKind::TruncatedByteString)));
    assert_eq!(maybe_val(b""), Err(Fail::Incomplete(ErrorKind::UnterminatedContainer)));
}

#[test]
fn digit_helpers() {
    assert!(is_nonzero(&b'5'));
    assert!(is_nonzero(&b'1'));
    assert!(is_nonzero(&b'9'));
    assert!(!is_nonzero(&b'0'));
    assert!(!is_nonzero(&b'x'));
    assert_eq!(ascii_to_uint(b'4', b"2"), 42);
    assert_eq!(ascii_to_uint(b'0', b""), 0);
    assert_eq!(ascii_to_uint(b'1', b"8446744073709551615"), u64::MAX);
}

#[test]
fn uint_waits_for_the_run_boundary() {
    assert_eq!(
        uint(b"115", ErrorKind::UnterminatedContainer),
        Err(Fail::Incomplete(ErrorKind::UnterminatedContainer))
    );
    assert_eq!(uint(b"115e", ErrorKind::UnterminatedContainer), Ok((&b"e"[..], 115)));
    assert_eq!(uint(b"0:", ErrorKind::TruncatedByteString), Ok((&b":"[..], 0)));
    assert_eq!(
        uint(b"0", ErrorKind::TruncatedByteString),
        Err(Fail::Incomplete(ErrorKind::TruncatedByteString))
    );
}
