//! One request's worth of a session: translate a parsed value into a
//! command, run it against the store, and build the protocol reply.
//!
//! A request-level fault never stops the server: it becomes an error
//! reply, a status string naming the fault. Only an unparseable byte
//! stream (`MalformedFrame`) is left to the connection owner, which
//! closes the connection.

use crate::command::{
    extract_command, lower_eq, spec_extract, spec_to_command, to_command, word_replication,
    CommandModel, RedisCommand,
};
use crate::resp::{ErrorModel, RedisValue, RespError, ValueModel};
use crate::store::{spec_get, EntryModel, LookupModel, Lookup, Store};
use vstd::prelude::*;

verus! {

/// The reply text `PONG`.
pub open spec fn word_pong() -> Seq<u8> {
    seq![80u8, 79u8, 78u8, 71u8]
}

/// The reply text `OK`.
pub open spec fn word_ok() -> Seq<u8> {
    seq![79u8, 75u8]
}

/// The reply text `role:master`.
pub open spec fn word_role_master() -> Seq<u8> {
    seq![114u8, 111u8, 108u8, 101u8, 58u8, 109u8, 97u8, 115u8, 116u8, 101u8, 114u8]
}

/// The null bulk sentinel payload, `-1`.
pub open spec fn word_null() -> Seq<u8> {
    seq![45u8, 49u8]
}

/// The status text that reports a request-level fault.
pub open spec fn spec_error_text(e: ErrorModel) -> Seq<u8> {
    match e {
        // `ERR malformed`
        ErrorModel::MalformedFrame => seq![
            69u8, 82u8, 82u8, 32u8, 109u8, 97u8, 108u8, 102u8, 111u8, 114u8, 109u8, 101u8, 100u8,
        ],
        // `ERR format`
        ErrorModel::UnexpectedFormat => seq![
            69u8, 82u8, 82u8, 32u8, 102u8, 111u8, 114u8, 109u8, 97u8, 116u8,
        ],
        // `ERR arity`
        ErrorModel::ArityError => seq![69u8, 82u8, 82u8, 32u8, 97u8, 114u8, 105u8, 116u8, 121u8],
        // `ERR option`
        ErrorModel::UnsupportedOption => seq![
            69u8, 82u8, 82u8, 32u8, 111u8, 112u8, 116u8, 105u8, 111u8, 110u8,
        ],
        // `ERR unknown`
        ErrorModel::UnknownCommand(_) => seq![
            69u8, 82u8, 82u8, 32u8, 117u8, 110u8, 107u8, 110u8, 111u8, 119u8, 110u8,
        ],
        // `ERR integer`
        ErrorModel::InvalidInteger => seq![
            69u8, 82u8, 82u8, 32u8, 105u8, 110u8, 116u8, 101u8, 103u8, 101u8, 114u8,
        ],
    }
}

/// The reply that reports a request-level fault: a status string.
pub open spec fn spec_error_reply(e: ErrorModel) -> ValueModel {
    ValueModel::SimpleString(spec_error_text(e))
}

/// Whether a value has a shape the server may write as a reply: a
/// status string or a bulk string.
pub open spec fn reply_shaped(m: ValueModel) -> bool {
    m is SimpleString || m is BulkString
}

/// What running a command at instant `now_ms` replies and leaves in
/// the store.
///
/// A read miss — a key never set or one whose time-to-live has lapsed —
/// is reported as the null bulk string: the store keeps the two cases
/// apart, the wire deliberately does not. An `ECHO` argument or stored
/// value that is not itself reply-shaped is reported as a format fault
/// rather than crashing the writer.
pub open spec fn spec_execute(
    cmd: CommandModel,
    m: Map<ValueModel, EntryModel>,
    now_ms: u64,
) -> (ValueModel, Map<ValueModel, EntryModel>) {
    match cmd {
        CommandModel::Ping => (ValueModel::SimpleString(word_pong()), m),
        CommandModel::Echo(v) => if reply_shaped(v) {
            (v, m)
        } else {
            (spec_error_reply(ErrorModel::UnexpectedFormat), m)
        },
        CommandModel::SetValue(k, v) => (
            ValueModel::SimpleString(word_ok()),
            m.insert(k, EntryModel { value: v, expiry: None }),
        ),
        CommandModel::SetTimeout(k, v, ttl_ms) => (
            ValueModel::SimpleString(word_ok()),
            m.insert(k, EntryModel { value: v, expiry: Some((ttl_ms as i64, now_ms)) }),
        ),
        CommandModel::Get(k) => (
            match spec_get(m, k, now_ms) {
                LookupModel::Found(v) => if reply_shaped(v) {
                    v
                } else {
                    spec_error_reply(ErrorModel::UnexpectedFormat)
                },
                LookupModel::Absent => ValueModel::BulkString(word_null()),
                LookupModel::Expired => ValueModel::BulkString(word_null()),
            },
            m,
        ),
        CommandModel::Info(section) => (
            match section {
                ValueModel::BulkString(s) => if crate::command::lower_seq(s)
                    == word_replication() {
                    ValueModel::BulkString(word_role_master())
                } else {
                    spec_error_reply(ErrorModel::UnsupportedOption)
                },
                _ => spec_error_reply(ErrorModel::UnsupportedOption),
            },
            m,
        ),
    }
}

/// What one whole request replies and leaves in the store: translate,
/// then run; a translation fault becomes an error reply and leaves the
/// store unchanged.
pub open spec fn spec_respond(
    m: ValueModel,
    st: Map<ValueModel, EntryModel>,
    now_ms: u64,
) -> (ValueModel, Map<ValueModel, EntryModel>) {
    match spec_extract(m) {
        Option::None => (spec_error_reply(ErrorModel::UnexpectedFormat), st),
        Option::Some((name, args)) => match spec_to_command(name, args) {
            Result::Err(e) => (spec_error_reply(e), st),
            Result::Ok(cmd) => spec_execute(cmd, st, now_ms),
        },
    }
}

/// Builds the error reply for a request-level fault.
pub fn error_reply(e: &RespError) -> (r: RedisValue)
    ensures
        r@ == spec_error_reply(e@),
{
    let text: Vec<u8> = match e {
        RespError::MalformedFrame => vec![
            69u8, 82u8, 82u8, 32u8, 109u8, 97u8, 108u8, 102u8, 111u8, 114u8, 109u8, 101u8, 100u8,
        ],
        RespError::UnexpectedFormat => vec![
            69u8, 82u8, 82u8, 32u8, 102u8, 111u8, 114u8, 109u8, 97u8, 116u8,
        ],
        RespError::ArityError => vec![69u8, 82u8, 82u8, 32u8, 97u8, 114u8, 105u8, 116u8, 121u8],
        RespError::UnsupportedOption => vec![
            69u8, 82u8, 82u8, 32u8, 111u8, 112u8, 116u8, 105u8, 111u8, 110u8,
        ],
        RespError::UnknownCommand(_) => vec![
            69u8, 82u8, 82u8, 32u8, 117u8, 110u8, 107u8, 110u8, 111u8, 119u8, 110u8,
        ],
        RespError::InvalidInteger => vec![
            69u8, 82u8, 82u8, 32u8, 105u8, 110u8, 116u8, 101u8, 103u8, 101u8, 114u8,
        ],
    };
    proof {
        assert(text@ =~= spec_error_text(e@));
    }
    RedisValue::SimpleString(text)
}

/// Runs one typed command against the store at instant `now_ms` and
/// builds its reply.
pub fn handle_command(command: RedisCommand, store: &mut Store, now_ms: u64) -> (r: RedisValue)
    requires
        old(store).wf(),
    ensures
        final(store).wf(),
        r@ == spec_execute(command@, old(store)@, now_ms).0,
        final(store)@ == spec_execute(command@, old(store)@, now_ms).1,
        reply_shaped(r@),
{
    match command {
        RedisCommand::Ping => {
            let text = vec![80u8, 79u8, 78u8, 71u8];
            proof {
                assert(text@ =~= word_pong());
            }
            RedisValue::SimpleString(text)
        },
        RedisCommand::Echo(v) => {
            if matches!(v, RedisValue::SimpleString(_) | RedisValue::BulkString(_)) {
                v
            } else {
                error_reply(&RespError::UnexpectedFormat)
            }
        },
        RedisCommand::SetValue(k, v) => {
            store.set(k, v);
            let text = vec![79u8, 75u8];
            proof {
                assert(text@ =~= word_ok());
            }
            RedisValue::SimpleString(text)
        },
        RedisCommand::SetTimeout(k, v, ttl_ms) => {
            store.set_with_expiry(k, v, ttl_ms, now_ms);
            let text = vec![79u8, 75u8];
            proof {
                assert(text@ =~= word_ok());
            }
            RedisValue::SimpleString(text)
        },
        RedisCommand::Get(k) => {
            match store.get(&k, now_ms) {
                Lookup::Found(v) => {
                    if matches!(v, RedisValue::SimpleString(_) | RedisValue::BulkString(_)) {
                        v
                    } else {
                        error_reply(&RespError::UnexpectedFormat)
                    }
                },
                Lookup::Absent => {
                    let text = vec![45u8, 49u8];
                    proof {
                        assert(text@ =~= word_null());
                    }
                    RedisValue::BulkString(text)
                },
                Lookup::Expired => {
                    let text = vec![45u8, 49u8];
                    proof {
                        assert(text@ =~= word_null());
                    }
                    RedisValue::BulkString(text)
                },
            }
        },
        RedisCommand::Info(section) => {
            match section {
                RedisValue::BulkString(s) => {
                    let w = vec![
                        114u8, 101u8, 112u8, 108u8, 105u8, 99u8, 97u8, 116u8, 105u8, 111u8, 110u8,
                    ];
                    proof {
                        assert(w@ =~= word_replication());
                    }
                    if lower_eq(&s, &w) {
                        let text = vec![
                            114u8, 111u8, 108u8, 101u8, 58u8, 109u8, 97u8, 115u8, 116u8, 101u8,
                            114u8,
                        ];
                        proof {
                            assert(text@ =~= word_role_master());
                        }
                        RedisValue::BulkString(text)
                    } else {
                        error_reply(&RespError::UnsupportedOption)
                    }
                },
                _ => error_reply(&RespError::UnsupportedOption),
            }
        },
    }
}

/// Handles one whole request: translates the parsed value and runs the
/// command; a translation fault becomes an error reply and leaves the
/// store unchanged. The reply always has a shape the codec can write.
pub fn respond(value: RedisValue, store: &mut Store, now_ms: u64) -> (r: RedisValue)
    requires
        old(store).wf(),
    ensures
        final(store).wf(),
        r@ == spec_respond(value@, old(store)@, now_ms).0,
        final(store)@ == spec_respond(value@, old(store)@, now_ms).1,
        reply_shaped(r@),
{
    let pair = match extract_command(value) {
        Result::Ok(p) => p,
        Result::Err(e) => {
            return error_reply(&e);
        },
    };
    let command = match to_command(pair) {
        Result::Ok(c) => c,
        Result::Err(e) => {
            return error_reply(&e);
        },
    };
    handle_command(command, store, now_ms)
}

} // verus!
