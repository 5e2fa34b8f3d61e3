use bencode::lexing::{byte_string, integer};
use bencode::parsing::{next_nested, next_outer, Value};
use bencode::{maybe_val, ValuePull};

#[test]
fn lib_valid_ints() {
    assert_eq!(integer(b"i0e"), Ok((&[][..], 0)));
    assert_eq!(integer(b"i115e"), Ok((&[][..], 115)));
    assert_eq!(integer(b"i-12e"), Ok((&[][..], -12)));
}

#[test]
fn lib_valid_byte_string() {
    assert_eq!(byte_string(b"6:foobar"), Ok((&[][..], &b"foobar"[..])));
}

#[test]
fn lib_valid_list() {
    let i = b"l3:fooi42e3:bare";
    let Ok((i, Some(ValuePull::List(it)))) = maybe_val(i) else {
        panic!("Expected a list");
    };
    let Ok((i, Some(ValuePull::ByteString(b"foo")))) = it.next_value(i) else {
        panic!("Expected foo");
    };
    let Ok((i, Some(ValuePull::Integer(42)))) = it.next_value(i) else {
        panic!("Expected 42");
    };
    let Ok((i, Some(ValuePull::ByteString(b"bar")))) = it.next_value(i) else {
        panic!("Expected bar");
    };
    let Ok((b"", None)) = it.next_value(i) else {
        panic!("Expected end of list");
    };
}

#[test]
fn valid_dictionary() {
    let i = b"d3:fooi42e3:bari69ee";
    let Ok((i, Some(ValuePull::Dictionary(it)))) = maybe_val(i) else {
        panic!("Expected a dictionary")
    };
    let Ok((i, Some((ValuePull::ByteString(b"foo"), ValuePull::Integer(42))))) = it.next_pair(i)
    else {
        panic!("Expected foo -> 42");
    };
    let Ok((i, Some((ValuePull::ByteString(b"bar"), ValuePull::Integer(69))))) = it.next_pair(i)
    else {
        panic!("Expected bar -> 69");
    };
    let Ok((b"", None)) = it.next_pair(i) else {
        panic!("Expected end of dictionary")
    };
}

#[test]
fn parsing_valid_ints() {
    assert_eq!(integer(b"i0e"), Ok((&[][..], 0)));
    assert_eq!(integer(b"i115e"), Ok((&[][..], 115)));
    assert_eq!(integer(b"i-12e"), Ok((&[][..], -12)));
}

#[test]
fn parsing_valid_byte_string() {
    assert_eq!(byte_string(b"6:foobar"), Ok((&[][..], &b"foobar"[..])));
}

#[test]
fn parsing_valid_list() {
    let i = b"l3:fooi42e3:bare";
    let Ok((i, Some(Value::List))) = next_outer(i) else {
        panic!("Expected a list");
    };
    let Ok((i, Some(Value::ByteString(b"foo")))) = next_nested(i) else {
        panic!("Expected foo");
    };
    let Ok((i, Some(Value::Integer(42)))) = next_nested(i) else {
        panic!("Expected 42");
    };
    let Ok((i, Some(Value::ByteString(b"bar")))) = next_nested(i) else {
        panic!("Expected bar");
    };
    let Ok((b"", None)) = next_nested(i) else {
        panic!("Expected end of list");
    };
}
