//! End-to-end tests of one request step: raw bytes in, parse, respond
//! against a store, serialize the reply, and check the exact bytes out.

use miniredis::command::{extract_command, to_command, unpack_bulk_str, RedisCommand};
use miniredis::resp::{parse_message, RedisValue, RespError};
use miniredis::session::respond;
use miniredis::store::Store;

fn bulk(s: &[u8]) -> RedisValue {
    RedisValue::BulkString(s.to_vec())
}

/// Parses one request off `bytes`, runs it at `now_ms`, and returns
/// the serialized reply.
fn step(store: &mut Store, bytes: &[u8], now_ms: u64) -> Vec<u8> {
    let (value, _) = parse_message(bytes).unwrap();
    respond(value, store, now_ms).serialize()
}

#[test]
fn ping_replies_pong() {
    let mut store = Store::new();
    assert_eq!(step(&mut store, b"*1\r\n$4\r\nping\r\n", 0), b"+PONG\r\n".to_vec());
}

#[test]
fn ping_is_case_insensitive() {
    let mut store = Store::new();
    assert_eq!(step(&mut store, b"*1\r\n$4\r\nPING\r\n", 0), b"+PONG\r\n".to_vec());
    assert_eq!(step(&mut store, b"*1\r\n$4\r\nPiNg\r\n", 0), b"+PONG\r\n".to_vec());
}

#[test]
fn echo_replies_argument() {
    let mut store = Store::new();
    assert_eq!(
        step(&mut store, b"*2\r\n$4\r\nECHO\r\n$3\r\nhey\r\n", 0),
        b"$3\r\nhey\r\n".to_vec()
    );
}

#[test]
fn set_then_get_round_trip() {
    let mut store = Store::new();
    assert_eq!(
        step(&mut store, b"*3\r\n$3\r\nSET\r\n$1\r\nk\r\n$1\r\nv\r\n", 0),
        b"+OK\r\n".to_vec()
    );
    assert_eq!(
        step(&mut store, b"*2\r\n$3\r\nGET\r\n$1\r\nk\r\n", 0),
        b"$1\r\nv\r\n".to_vec()
    );
}

#[test]
fn get_missing_key_replies_null_bulk() {
    let mut store = Store::new();
    assert_eq!(
        step(&mut store, b"*2\r\n$3\r\nGET\r\n$1\r\nk\r\n", 0),
        b"$-1\r\n".to_vec()
    );
}

#[test]
fn set_with_ttl_expires_at_the_wire() {
    let mut store = Store::new();
    assert_eq!(
        step(
            &mut store,
            b"*5\r\n$3\r\nSET\r\n$1\r\nk\r\n$1\r\nv\r\n$2\r\nPX\r\n$3\r\n100\r\n",
            0
        ),
        b"+OK\r\n".to_vec()
    );
    // Immediately: the value.
    assert_eq!(
        step(&mut store, b"*2\r\n$3\r\nGET\r\n$1\r\nk\r\n", 0),
        b"$1\r\nv\r\n".to_vec()
    );
    // After 150 ms have elapsed: the miss representation, not the value.
    assert_eq!(
        step(&mut store, b"*2\r\n$3\r\nGET\r\n$1\r\nk\r\n", 150),
        b"$-1\r\n".to_vec()
    );
}

#[test]
fn expired_and_missing_read_alike_on_the_wire() {
    let mut store = Store::new();
    let _ = step(
        &mut store,
        b"*5\r\n$3\r\nSET\r\n$1\r\nk\r\n$1\r\nv\r\n$2\r\npx\r\n$2\r\n10\r\n",
        0,
    );
    let expired = step(&mut store, b"*2\r\n$3\r\nGET\r\n$1\r\nk\r\n", 50);
    let missing = step(&mut store, b"*2\r\n$3\r\nGET\r\n$1\r\nm\r\n", 50);
    assert_eq!(expired, b"$-1\r\n".to_vec());
    assert_eq!(expired, missing);
}

#[test]
fn reset_clears_prior_ttl() {
    let mut store = Store::new();
    let _ = step(
        &mut store,
        b"*5\r\n$3\r\nSET\r\n$1\r\nk\r\n$2\r\nv1\r\n$2\r\nPX\r\n$2\r\n10\r\n",
        0,
    );
    let _ = step(&mut store, b"*3\r\n$3\r\nSET\r\n$1\r\nk\r\n$2\r\nv2\r\n", 5);
    assert_eq!(
        step(&mut store, b"*2\r\n$3\r\nGET\r\n$1\r\nk\r\n", 1_000),
        b"$2\r\nv2\r\n".to_vec()
    );
}

#[test]
fn echo_without_argument_is_an_arity_error() {
    let mut store = Store::new();
    assert_eq!(
        step(&mut store, b"*1\r\n$4\r\nECHO\r\n", 0),
        b"+ERR arity\r\n".to_vec()
    );
}

#[test]
fn get_and_info_without_argument_are_arity_errors() {
    let mut store = Store::new();
    assert_eq!(step(&mut store, b"*1\r\n$3\r\nGET\r\n", 0), b"+ERR arity\r\n".to_vec());
    assert_eq!(step(&mut store, b"*1\r\n$4\r\nINFO\r\n", 0), b"+ERR arity\r\n".to_vec());
}

#[test]
fn set_with_one_argument_is_an_arity_error() {
    let mut store = Store::new();
    assert_eq!(
        step(&mut store, b"*2\r\n$3\r\nSET\r\n$1\r\nk\r\n", 0),
        b"+ERR arity\r\n".to_vec()
    );
}

#[test]
fn set_option_other_than_px_is_unsupported() {
    let mut store = Store::new();
    assert_eq!(
        step(
            &mut store,
            b"*5\r\n$3\r\nSET\r\n$1\r\nk\r\n$1\r\nv\r\n$2\r\nEX\r\n$2\r\n10\r\n",
            0
        ),
        b"+ERR option\r\n".to_vec()
    );
}

#[test]
fn set_with_three_arguments_ignores_the_extra() {
    let mut store = Store::new();
    assert_eq!(
        step(
            &mut store,
            b"*4\r\n$3\r\nSET\r\n$1\r\nk\r\n$1\r\nv\r\n$2\r\nEX\r\n",
            0
        ),
        b"+OK\r\n".to_vec()
    );
    assert_eq!(
        step(&mut store, b"*2\r\n$3\r\nGET\r\n$1\r\nk\r\n", 0),
        b"$1\r\nv\r\n".to_vec()
    );
}

#[test]
fn px_with_unparseable_ttl_is_an_integer_error() {
    let mut store = Store::new();
    assert_eq!(
        step(
            &mut store,
            b"*5\r\n$3\r\nSET\r\n$1\r\nk\r\n$1\r\nv\r\n$2\r\nPX\r\n$3\r\nabc\r\n",
            0
        ),
        b"+ERR integer\r\n".to_vec()
    );
}

#[test]
fn unknown_command_is_reported() {
    let mut store = Store::new();
    assert_eq!(
        step(&mut store, b"*1\r\n$5\r\nHELLO\r\n", 0),
        b"+ERR unknown\r\n".to_vec()
    );
}

#[test]
fn non_array_request_is_a_format_error() {
    let mut store = Store::new();
    assert_eq!(step(&mut store, b"+ping\r\n", 0), b"+ERR format\r\n".to_vec());
}

#[test]
fn info_replication_replies_role_master() {
    let mut store = Store::new();
    assert_eq!(
        step(&mut store, b"*2\r\n$4\r\nINFO\r\n$11\r\nreplication\r\n", 0),
        b"$11\r\nrole:master\r\n".to_vec()
    );
}

#[test]
fn info_other_section_is_unsupported_but_does_not_crash() {
    let mut store = Store::new();
    assert_eq!(
        step(&mut store, b"*2\r\n$4\r\nINFO\r\n$6\r\nmemory\r\n", 0),
        b"+ERR option\r\n".to_vec()
    );
}

#[test]
fn extract_command_splits_verb_and_arguments() {
    let v = RedisValue::Array(vec![bulk(b"GET"), bulk(b"k")]);
    let (name, args) = extract_command(v).unwrap();
    assert_eq!(name, b"GET".to_vec());
    assert_eq!(args, vec![bulk(b"k")]);
}

#[test]
fn extract_command_rejects_empty_array_and_non_array() {
    assert_eq!(
        extract_command(RedisValue::Array(vec![])),
        Err(RespError::UnexpectedFormat)
    );
    assert_eq!(
        extract_command(RedisValue::Integer(3)),
        Err(RespError::UnexpectedFormat)
    );
}

#[test]
fn unpack_bulk_str_accepts_only_bulk_strings() {
    assert_eq!(unpack_bulk_str(bulk(b"hey")), Ok(b"hey".to_vec()));
    assert_eq!(
        unpack_bulk_str(RedisValue::SimpleString(b"hey".to_vec())),
        Err(RespError::UnexpectedFormat)
    );
}

#[test]
fn to_command_builds_typed_commands() {
    assert_eq!(
        to_command((b"SeT".to_vec(), vec![bulk(b"k"), bulk(b"v")])),
        Ok(RedisCommand::SetValue(bulk(b"k"), bulk(b"v")))
    );
    assert_eq!(
        to_command((
            b"set".to_vec(),
            vec![bulk(b"k"), bulk(b"v"), bulk(b"px"), bulk(b"250")]
        )),
        Ok(RedisCommand::SetTimeout(bulk(b"k"), bulk(b"v"), 250))
    );
    assert_eq!(to_command((b"ping".to_vec(), vec![])), Ok(RedisCommand::Ping));
    assert_eq!(
        to_command((b"bogus".to_vec(), vec![])),
        Err(RespError::UnknownCommand(b"bogus".to_vec()))
    );
}
