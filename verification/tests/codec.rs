//! Tests for the byte-level codec: parsing, serialization, and their
//! round trip.

use miniredis::resp::{
    parse_int, parse_int_with_sign, parse_integer, parse_message, read_until_crlf, RedisValue,
    RespError,
};

fn bulk(s: &[u8]) -> RedisValue {
    RedisValue::BulkString(s.to_vec())
}

fn simple(s: &[u8]) -> RedisValue {
    RedisValue::SimpleString(s.to_vec())
}

#[test]
fn parse_simple_string_exact() {
    let (v, n) = parse_message(b"+OK\r\n").unwrap();
    assert_eq!(v, simple(b"OK"));
    assert_eq!(n, 5);
}

#[test]
fn parse_empty_simple_string() {
    let (v, n) = parse_message(b"+\r\n").unwrap();
    assert_eq!(v, simple(b""));
    assert_eq!(n, 3);
}

#[test]
fn round_trip_simple_string() {
    let v = simple(b"PONG");
    let bytes = v.clone().serialize();
    assert_eq!(bytes, b"+PONG\r\n".to_vec());
    let (back, n) = parse_message(&bytes).unwrap();
    assert_eq!(back, v);
    assert_eq!(n, bytes.len());
}

#[test]
fn round_trip_bulk_string() {
    let v = bulk(b"hey");
    let bytes = v.clone().serialize();
    assert_eq!(bytes, b"$3\r\nhey\r\n".to_vec());
    let (back, n) = parse_message(&bytes).unwrap();
    assert_eq!(back, v);
    assert_eq!(n, bytes.len());
}

#[test]
fn round_trip_bulk_with_embedded_crlf() {
    let v = bulk(b"a\r\nb");
    let bytes = v.clone().serialize();
    assert_eq!(bytes, b"$4\r\na\r\nb\r\n".to_vec());
    let (back, n) = parse_message(&bytes).unwrap();
    assert_eq!(back, v);
    assert_eq!(n, bytes.len());
}

#[test]
fn null_sentinel_serializes_short() {
    let v = bulk(b"-1");
    let bytes = v.clone().serialize();
    assert_eq!(bytes, b"$-1\r\n".to_vec());
    let (back, n) = parse_message(&bytes).unwrap();
    assert_eq!(back, v);
    assert_eq!(n, 5);
}

#[test]
fn parse_array_of_bulk_strings() {
    let bytes = b"*2\r\n$4\r\nECHO\r\n$3\r\nhey\r\n";
    let (v, n) = parse_message(bytes).unwrap();
    assert_eq!(v, RedisValue::Array(vec![bulk(b"ECHO"), bulk(b"hey")]));
    assert_eq!(n, bytes.len());
}

#[test]
fn parse_array_consumes_exactly_its_bytes() {
    let mut bytes = b"*2\r\n$4\r\nECHO\r\n$3\r\nhey\r\n".to_vec();
    let declared = bytes.len();
    bytes.extend_from_slice(b"+trailing garbage\r\n");
    let (v, n) = parse_message(&bytes).unwrap();
    assert_eq!(v, RedisValue::Array(vec![bulk(b"ECHO"), bulk(b"hey")]));
    assert_eq!(n, declared);
}

#[test]
fn parse_empty_array() {
    let (v, n) = parse_message(b"*0\r\n").unwrap();
    assert_eq!(v, RedisValue::Array(vec![]));
    assert_eq!(n, 4);
}

#[test]
fn parse_negative_count_array_is_empty() {
    let (v, n) = parse_message(b"*-1\r\n").unwrap();
    assert_eq!(v, RedisValue::Array(vec![]));
    assert_eq!(n, 5);
}

#[test]
fn parse_nested_array() {
    let bytes = b"*2\r\n*1\r\n$1\r\na\r\n$1\r\nb\r\n";
    let (v, n) = parse_message(bytes).unwrap();
    assert_eq!(
        v,
        RedisValue::Array(vec![RedisValue::Array(vec![bulk(b"a")]), bulk(b"b")])
    );
    assert_eq!(n, bytes.len());
}

#[test]
fn parse_integer_frame() {
    let (v, n) = parse_message(b":+42\r\n").unwrap();
    assert_eq!(v, RedisValue::Integer(42));
    assert_eq!(n, 6);
    let (v, n) = parse_integer(b":-7\r\n").unwrap();
    assert_eq!(v, RedisValue::Integer(-7));
    assert_eq!(n, 5);
}

#[test]
fn parse_rejects_unknown_tag() {
    assert_eq!(parse_message(b"?foo\r\n"), Err(RespError::MalformedFrame));
}

#[test]
fn parse_rejects_empty_buffer() {
    assert_eq!(parse_message(b""), Err(RespError::MalformedFrame));
}

#[test]
fn parse_rejects_missing_terminator() {
    assert_eq!(parse_message(b"+abc"), Err(RespError::MalformedFrame));
}

#[test]
fn parse_rejects_short_bulk_payload() {
    assert_eq!(parse_message(b"$5\r\nab\r\n"), Err(RespError::MalformedFrame));
}

#[test]
fn parse_rejects_bulk_without_trailing_terminator() {
    assert_eq!(parse_message(b"$2\r\nabXY"), Err(RespError::MalformedFrame));
}

#[test]
fn parse_rejects_bad_length_field() {
    assert_eq!(parse_message(b"$zz\r\nab\r\n"), Err(RespError::MalformedFrame));
}

#[test]
fn parse_rejects_array_with_missing_elements() {
    assert_eq!(parse_message(b"*2\r\n$1\r\na\r\n"), Err(RespError::MalformedFrame));
}

#[test]
fn int_with_sign_examples() {
    assert_eq!(parse_int_with_sign(b"+123"), Ok(123));
    assert_eq!(parse_int_with_sign(b"-45"), Ok(-45));
    assert_eq!(parse_int_with_sign(b""), Err(RespError::InvalidInteger));
}

#[test]
fn int_with_sign_plain_digits() {
    assert_eq!(parse_int_with_sign(b"0"), Ok(0));
    assert_eq!(parse_int_with_sign(b"1000"), Ok(1000));
}

#[test]
fn int_with_sign_rejects_stray_bytes() {
    assert_eq!(parse_int_with_sign(b"12a"), Err(RespError::InvalidInteger));
    assert_eq!(parse_int_with_sign(b"+"), Err(RespError::InvalidInteger));
    assert_eq!(parse_int_with_sign(b"-"), Err(RespError::InvalidInteger));
    assert_eq!(parse_int_with_sign(b"+-1"), Err(RespError::InvalidInteger));
}

#[test]
fn int_with_sign_range_is_exactly_i64() {
    assert_eq!(parse_int_with_sign(b"9223372036854775807"), Ok(i64::MAX));
    assert_eq!(
        parse_int_with_sign(b"9223372036854775808"),
        Err(RespError::InvalidInteger)
    );
    assert_eq!(parse_int_with_sign(b"-9223372036854775808"), Ok(i64::MIN));
    assert_eq!(
        parse_int_with_sign(b"-9223372036854775809"),
        Err(RespError::InvalidInteger)
    );
    assert_eq!(
        parse_int_with_sign(b"99999999999999999999999"),
        Err(RespError::InvalidInteger)
    );
}

#[test]
fn parse_int_matches_parse_int_with_sign() {
    assert_eq!(parse_int(b"-1"), Ok(-1));
    assert_eq!(parse_int(b"17"), Ok(17));
    assert_eq!(parse_int(b"x"), Err(RespError::InvalidInteger));
}

#[test]
fn read_until_crlf_finds_first_pair() {
    let (line, n) = read_until_crlf(b"ab\r\ncd\r\n").unwrap();
    assert_eq!(line, b"ab");
    assert_eq!(n, 4);
    assert!(read_until_crlf(b"no terminator").is_none());
    let (line, n) = read_until_crlf(b"\r\n").unwrap();
    assert_eq!(line, b"");
    assert_eq!(n, 2);
}

#[test]
fn bulk_payload_is_raw_bytes() {
    let v = bulk(&[0u8, 255u8, 13u8, 10u8, 128u8]);
    let bytes = v.clone().serialize();
    let (back, n) = parse_message(&bytes).unwrap();
    assert_eq!(back, v);
    assert_eq!(n, bytes.len());
}

#[test]
fn simple_string_with_lone_cr_round_trips() {
    let v = simple(b"a\rb");
    let bytes = v.clone().serialize();
    let (back, n) = parse_message(&bytes).unwrap();
    assert_eq!(back, v);
    assert_eq!(n, bytes.len());
}
