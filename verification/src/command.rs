//! The command translator: turns a parsed protocol value into a typed
//! command, checking each command's arity. A pure mapping; it never
//! touches the store.

use crate::decimal::i64_of_signed;
use crate::resp::{
    array_model, copy_bytes, lemma_array_model, value_model, ErrorModel, RedisValue, RespError,
    ValueModel,
};
use vstd::prelude::*;

verus! {

/// ASCII lowercasing of one byte.
pub open spec fn lower(b: u8) -> u8 {
    if 65 <= b <= 90 {
        (b + 32) as u8
    } else {
        b
    }
}

/// ASCII lowercasing of a byte sequence; command verbs are matched
/// case-insensitively through it.
pub open spec fn lower_seq(s: Seq<u8>) -> Seq<u8> {
    s.map_values(|b: u8| lower(b))
}

/// The verb `echo`.
pub open spec fn word_echo() -> Seq<u8> {
    seq![101u8, 99u8, 104u8, 111u8]
}

/// The verb `set`.
pub open spec fn word_set() -> Seq<u8> {
    seq![115u8, 101u8, 116u8]
}

/// The verb `get`.
pub open spec fn word_get() -> Seq<u8> {
    seq![103u8, 101u8, 116u8]
}

/// The verb `ping`.
pub open spec fn word_ping() -> Seq<u8> {
    seq![112u8, 105u8, 110u8, 103u8]
}

/// The verb `info`.
pub open spec fn word_info() -> Seq<u8> {
    seq![105u8, 110u8, 102u8, 111u8]
}

/// The `SET` option `px`.
pub open spec fn word_px() -> Seq<u8> {
    seq![112u8, 120u8]
}

/// The `INFO` section `replication`.
pub open spec fn word_replication() -> Seq<u8> {
    seq![114u8, 101u8, 112u8, 108u8, 105u8, 99u8, 97u8, 116u8, 105u8, 111u8, 110u8]
}

/// A typed command, derived from a request value.
#[derive(Debug, PartialEq, Eq)]
pub enum RedisCommand {
    Echo(RedisValue),
    Ping,
    SetValue(RedisValue, RedisValue),
    SetTimeout(RedisValue, RedisValue, i64),
    Get(RedisValue),
    Info(RedisValue),
}

/// Ghost model of a typed command.
pub enum CommandModel {
    Echo(ValueModel),
    Ping,
    SetValue(ValueModel, ValueModel),
    SetTimeout(ValueModel, ValueModel, int),
    Get(ValueModel),
    Info(ValueModel),
}

impl View for RedisCommand {
    type V = CommandModel;

    open spec fn view(&self) -> CommandModel {
        match self {
            RedisCommand::Echo(v) => CommandModel::Echo(value_model(*v)),
            RedisCommand::Ping => CommandModel::Ping,
            RedisCommand::SetValue(k, v) => CommandModel::SetValue(value_model(*k), value_model(*v)),
            RedisCommand::SetTimeout(k, v, t) => CommandModel::SetTimeout(
                value_model(*k),
                value_model(*v),
                *t as int,
            ),
            RedisCommand::Get(k) => CommandModel::Get(value_model(*k)),
            RedisCommand::Info(s) => CommandModel::Info(value_model(*s)),
        }
    }
}

/// What a request value names: its verb and its arguments. Only an
/// array whose first element is a bulk string names anything.
pub open spec fn spec_extract(m: ValueModel) -> Option<(Seq<u8>, Seq<ValueModel>)> {
    match m {
        ValueModel::Array(items) => if items.len() == 0 {
            None
        } else {
            match items[0] {
                ValueModel::BulkString(name) => Some((name, items.drop_first())),
                _ => None,
            }
        },
        _ => None,
    }
}

/// The command a verb and its arguments denote, or the exact failure:
/// too few arguments, an option other than `px`, an unparseable
/// time-to-live, or an unknown verb.
pub open spec fn spec_to_command(name: Seq<u8>, args: Seq<ValueModel>) -> Result<
    CommandModel,
    ErrorModel,
> {
    let verb = lower_seq(name);
    if verb == word_echo() {
        if args.len() < 1 {
            Err(ErrorModel::ArityError)
        } else {
            Ok(CommandModel::Echo(args[0]))
        }
    } else if verb == word_set() {
        if args.len() < 2 {
            Err(ErrorModel::ArityError)
        } else if args.len() == 4 {
            match args[2] {
                ValueModel::BulkString(opt) => if lower_seq(opt) == word_px() {
                    match args[3] {
                        ValueModel::BulkString(num) => match i64_of_signed(num) {
                            Option::Some(v) => Ok(
                                CommandModel::SetTimeout(args[0], args[1], v),
                            ),
                            Option::None => Err(ErrorModel::InvalidInteger),
                        },
                        _ => Err(ErrorModel::InvalidInteger),
                    }
                } else {
                    Err(ErrorModel::UnsupportedOption)
                },
                _ => Err(ErrorModel::UnsupportedOption),
            }
        } else {
            Ok(CommandModel::SetValue(args[0], args[1]))
        }
    } else if verb == word_get() {
        if args.len() < 1 {
            Err(ErrorModel::ArityError)
        } else {
            Ok(CommandModel::Get(args[0]))
        }
    } else if verb == word_ping() {
        Ok(CommandModel::Ping)
    } else if verb == word_info() {
        if args.len() < 1 {
            Err(ErrorModel::ArityError)
        } else {
            Ok(CommandModel::Info(args[0]))
        }
    } else {
        Err(ErrorModel::UnknownCommand(name))
    }
}

/// ASCII lowercasing of one byte, executably.
fn lower_byte(b: u8) -> (r: u8)
    ensures
        r == lower(b),
{
    if 65 <= b && b <= 90 {
        b + 32
    } else {
        b
    }
}

/// Whether `name`, lowercased byte by byte, equals `word`.
pub(crate) fn lower_eq(name: &Vec<u8>, word: &Vec<u8>) -> (r: bool)
    ensures
        r == (lower_seq(name@) == word@),
{
    if name.len() != word.len() {
        proof {
            assert(lower_seq(name@).len() == name@.len());
        }
        return false;
    }
    let mut i: usize = 0;
    while i < name.len()
        invariant
            i <= name@.len(),
            name@.len() == word@.len(),
            forall|j: int| 0 <= j < i ==> lower(name@[j]) == word@[j],
        decreases name@.len() - i,
    {
        if lower_byte(name[i]) != word[i] {
            proof {
                assert(lower_seq(name@)[i as int] == lower(name@[i as int]));
            }
            return false;
        }
        i = i + 1;
    }
    proof {
        assert(lower_seq(name@) =~= word@);
    }
    true
}

/// Splits a request into its verb and its arguments; anything but an
/// array headed by a bulk string is rejected.
pub fn extract_command(value: RedisValue) -> (r: Result<(Vec<u8>, Vec<RedisValue>), RespError>)
    ensures
        match r {
            Result::Ok((name, args)) => spec_extract(value@) == Some(
                (name@, array_model(args@)),
            ),
            Result::Err(e) => spec_extract(value@) is None && e@ == ErrorModel::UnexpectedFormat,
        },
{
    match value {
        RedisValue::Array(items) => {
            proof {
                lemma_array_model(items@);
            }
            if items.len() == 0 {
                return Err(RespError::UnexpectedFormat);
            }
            let name = match &items[0] {
                RedisValue::BulkString(s) => copy_bytes(s),
                _ => {
                    return Err(RespError::UnexpectedFormat);
                },
            };
            let mut args: Vec<RedisValue> = Vec::new();
            let mut i: usize = 1;
            while i < items.len()
                invariant
                    1 <= i <= items@.len(),
                    args@.len() == i - 1,
                    forall|j: int|
                        0 <= j < i - 1 ==> value_model(#[trigger] args@[j]) == value_model(
                            items@[j + 1],
                        ),
                decreases items@.len() - i,
            {
                args.push(items[i].clone());
                i = i + 1;
            }
            proof {
                lemma_array_model(args@);
                lemma_array_model(items@);
                assert forall|j: int| 0 <= j < args@.len() implies array_model(args@)[j]
                    == array_model(items@).drop_first()[j] by {
                    assert(value_model(args@[j]) == value_model(items@[j + 1]));
                }
                assert(array_model(args@) =~= array_model(items@).drop_first());
            }
            Ok((name, args))
        },
        _ => Err(RespError::UnexpectedFormat),
    }
}

/// Unwraps a bulk string's payload; any other shape is rejected.
pub fn unpack_bulk_str(value: RedisValue) -> (r: Result<Vec<u8>, RespError>)
    ensures
        match r {
            Result::Ok(s) => value@ == ValueModel::BulkString(s@),
            Result::Err(e) => !(value@ is BulkString) && e@ == ErrorModel::UnexpectedFormat,
        },
{
    match value {
        RedisValue::BulkString(s) => Ok(s),
        _ => Err(RespError::UnexpectedFormat),
    }
}

/// Turns a verb and its arguments into a typed command, applying each
/// command's arity rule, case-insensitively on the verb.
pub fn to_command(input: (Vec<u8>, Vec<RedisValue>)) -> (r: Result<RedisCommand, RespError>)
    ensures
        match r {
            Result::Ok(c) => spec_to_command(input.0@, array_model(input.1@)) == Ok::<
                CommandModel,
                ErrorModel,
            >(c@),
            Result::Err(e) => spec_to_command(input.0@, array_model(input.1@)) == Err::<
                CommandModel,
                ErrorModel,
            >(e@),
        },
{
    let (name, args) = input;
    proof {
        lemma_array_model(args@);
    }
    let ghost margs = array_model(args@);
    let w_echo = vec![101u8, 99u8, 104u8, 111u8];
    let w_set = vec![115u8, 101u8, 116u8];
    let w_get = vec![103u8, 101u8, 116u8];
    let w_ping = vec![112u8, 105u8, 110u8, 103u8];
    let w_info = vec![105u8, 110u8, 102u8, 111u8];
    if lower_eq(&name, &w_echo) {
        proof {
            assert(w_echo@ =~= word_echo());
        }
        if args.len() < 1 {
            Err(RespError::ArityError)
        } else {
            Ok(RedisCommand::Echo(args[0].clone()))
        }
    } else if lower_eq(&name, &w_set) {
        proof {
            assert(w_set@ =~= word_set());
        }
        if args.len() < 2 {
            Err(RespError::ArityError)
        } else if args.len() == 4 {
            let opt = match &args[2] {
                RedisValue::BulkString(s) => s,
                _ => {
                    return Err(RespError::UnsupportedOption);
                },
            };
            let w_px = vec![112u8, 120u8];
            if lower_eq(opt, &w_px) {
                proof {
                    assert(w_px@ =~= word_px());
                    assert(margs[2] == ValueModel::BulkString(opt@));
                }
                let num = match &args[3] {
                    RedisValue::BulkString(s) => s,
                    _ => {
                        return Err(RespError::InvalidInteger);
                    },
                };
                proof {
                    assert(margs[3] == ValueModel::BulkString(num@));
                }
                match crate::resp::parse_int_with_sign(num.as_slice()) {
                    Result::Ok(ttl_ms) => Ok(
                        RedisCommand::SetTimeout(args[0].clone(), args[1].clone(), ttl_ms),
                    ),
                    Result::Err(_) => Err(RespError::InvalidInteger),
                }
            } else {
                proof {
                    assert(w_px@ =~= word_px());
                }
                Err(RespError::UnsupportedOption)
            }
        } else {
            Ok(RedisCommand::SetValue(args[0].clone(), args[1].clone()))
        }
    } else if lower_eq(&name, &w_get) {
        proof {
            assert(w_get@ =~= word_get());
        }
        if args.len() < 1 {
            Err(RespError::ArityError)
        } else {
            Ok(RedisCommand::Get(args[0].clone()))
        }
    } else if lower_eq(&name, &w_ping) {
        proof {
            assert(w_ping@ =~= word_ping());
        }
        Ok(RedisCommand::Ping)
    } else if lower_eq(&name, &w_info) {
        proof {
            assert(w_info@ =~= word_info());
        }
        if args.len() < 1 {
            Err(RespError::ArityError)
        } else {
            Ok(RedisCommand::Info(args[0].clone()))
        }
    } else {
        proof {
            assert(w_echo@ =~= word_echo());
            assert(w_set@ =~= word_set());
            assert(w_get@ =~= word_get());
            assert(w_ping@ =~= word_ping());
            assert(w_info@ =~= word_info());
        }
        Err(RespError::UnknownCommand(name))
    }
}

} // verus!
