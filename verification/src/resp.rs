//! RESP protocol values and their byte-level codec.

use crate::decimal::{
    all_digits, dec_digits, dec_int, digits_val, i64_of_signed, is_digit, parse_signed_dec,
    push_dec,
};
use vstd::prelude::*;
use vstd::slice::{slice_subrange, slice_to_vec};

verus! {

broadcast use vstd::std_specs::vec::group_vec_axioms;

/// The leading type byte of a simple string frame, `+`.
pub const TAG_SIMPLE: u8 = 43;

/// The leading type byte of an integer frame, `:`.
pub const TAG_INTEGER: u8 = 58;

/// The leading type byte of a bulk string frame, `$`.
pub const TAG_BULK: u8 = 36;

/// The leading type byte of an array frame, `*`.
pub const TAG_ARRAY: u8 = 42;

/// Carriage return, the first byte of a line terminator.
pub const CR: u8 = 13;

/// Line feed, the second byte of a line terminator.
pub const LF: u8 = 10;

/// Mathematical model of a RESP value: payloads are byte sequences, an
/// array is a sequence of child models.
#[verifier::ext_equal]
pub enum ValueModel {
    SimpleString(Seq<u8>),
    Integer(int),
    BulkString(Seq<u8>),
    Array(Seq<ValueModel>),
}

/// A RESP datum: a short status line, a signed 64-bit integer, a
/// length-prefixed byte string, or an ordered sequence of values.
///
/// The payload of a `BulkString` is exactly the bytes carried on the wire;
/// the two-byte payload `-1` doubles as the distinguished "null" sentinel.
#[derive(Debug, PartialEq, Eq)]
pub enum RedisValue {
    SimpleString(Vec<u8>),
    Integer(i64),
    BulkString(Vec<u8>),
    Array(Vec<RedisValue>),
}

/// The model a `RedisValue` denotes.
pub open spec fn value_model(v: RedisValue) -> ValueModel
    decreases v, 1int,
{
    match v {
        RedisValue::SimpleString(s) => ValueModel::SimpleString(s@),
        RedisValue::Integer(n) => ValueModel::Integer(n as int),
        RedisValue::BulkString(s) => ValueModel::BulkString(s@),
        RedisValue::Array(items) => ValueModel::Array(array_model(items@)),
    }
}

/// The models of a sequence of values, element by element.
pub open spec fn array_model(s: Seq<RedisValue>) -> Seq<ValueModel>
    decreases s, 0int,
{
    if s.len() == 0 {
        Seq::empty()
    } else {
        array_model(s.drop_last()).push(value_model(s.last()))
    }
}

/// `array_model` maps each element to its model and keeps the length.
pub proof fn lemma_array_model(s: Seq<RedisValue>)
    ensures
        array_model(s).len() == s.len(),
        forall|i: int| 0 <= i < s.len() ==> array_model(s)[i] == value_model(#[trigger] s[i]),
    decreases s.len(),
{
    if s.len() > 0 {
        lemma_array_model(s.drop_last());
        assert forall|i: int| 0 <= i < s.len() implies array_model(s)[i] == value_model(#[trigger] s[i]) by {
            if i < s.len() - 1 {
                assert(s.drop_last()[i] == s[i]);
                assert(array_model(s)[i] == array_model(s.drop_last())[i]);
            } else {
                assert(s.last() == s[i]);
            }
        }
    }
}

/// `decreases_to!` from an array value to each of its elements, for
/// recursion over `RedisValue`.
proof fn lemma_array_element_decreases(v: RedisValue, i: int)
    requires
        v is Array,
        0 <= i < v->Array_0@.len(),
    ensures
        decreases_to!(v => v->Array_0@[i]),
{
    assert(decreases_to!(v => v->Array_0));
    vstd::std_specs::vec::axiom_vec_index_decreases(v->Array_0, i);
}

impl View for RedisValue {
    type V = ValueModel;

    open spec fn view(&self) -> ValueModel {
        value_model(*self)
    }
}

impl Clone for RedisValue {
    /// A clone denotes the same model as the original.
    fn clone(&self) -> (r: Self)
        ensures
            r@ == self@,
        decreases *self,
    {
        match self {
            RedisValue::SimpleString(s) => RedisValue::SimpleString(copy_bytes(s)),
            RedisValue::Integer(n) => RedisValue::Integer(*n),
            RedisValue::BulkString(s) => RedisValue::BulkString(copy_bytes(s)),
            RedisValue::Array(items) => {
                let mut out: Vec<RedisValue> = Vec::new();
                let mut i: usize = 0;
                while i < items.len()
                    invariant
                        i <= items.len(),
                        self == RedisValue::Array(*items),
                        out@.len() == i as int,
                        forall|j: int| 0 <= j < i ==> value_model(#[trigger] out@[j]) == value_model(items@[j]),
                    decreases items.len() - i,
                {
                    proof {
                        lemma_array_element_decreases(*self, i as int);
                    }
                    out.push(items[i].clone());
                    i = i + 1;
                }
                proof {
                    lemma_array_model(out@);
                    lemma_array_model(items@);
                    assert forall|j: int| 0 <= j < out@.len() implies array_model(out@)[j]
                        == array_model(items@)[j] by {
                        assert(value_model(out@[j]) == value_model(items@[j]));
                    }
                    assert(array_model(out@) =~= array_model(items@));
                }
                RedisValue::Array(out)
            },
        }
    }
}

/// Decides equality of the models of two values.
pub fn value_eq(a: &RedisValue, b: &RedisValue) -> (r: bool)
    ensures
        r == (a@ == b@),
    decreases *a,
{
    match (a, b) {
        (RedisValue::SimpleString(x), RedisValue::SimpleString(y)) => bytes_eq(x, y),
        (RedisValue::Integer(x), RedisValue::Integer(y)) => *x == *y,
        (RedisValue::BulkString(x), RedisValue::BulkString(y)) => bytes_eq(x, y),
        (RedisValue::Array(xs), RedisValue::Array(ys)) => {
            if xs.len() != ys.len() {
                proof {
                    lemma_array_model(xs@);
                    lemma_array_model(ys@);
                }
                false
            } else {
                let mut i: usize = 0;
                let mut same = true;
                while i < xs.len()
                    invariant
                        i <= xs.len(),
                        xs.len() == ys.len(),
                        a == RedisValue::Array(*xs),
                        b == RedisValue::Array(*ys),
                        same == forall|j: int| 0 <= j < i ==> value_model(xs@[j]) == value_model(ys@[j]),
                    decreases xs.len() - i,
                {
                    proof {
                        lemma_array_element_decreases(*a, i as int);
                    }
                    if !value_eq(&xs[i], &ys[i]) {
                        same = false;
                    }
                    i = i + 1;
                }
                proof {
                    lemma_array_model(xs@);
                    lemma_array_model(ys@);
                    if same {
                        assert forall|j: int| 0 <= j < xs@.len() implies array_model(xs@)[j]
                            == array_model(ys@)[j] by {
                            assert(value_model(xs@[j]) == value_model(ys@[j]));
                        }
                        assert(array_model(xs@) =~= array_model(ys@));
                    } else {
                        let j = choose|j: int| 0 <= j < xs@.len()
                            && value_model(xs@[j]) != value_model(ys@[j]);
                        assert(array_model(xs@)[j] != array_model(ys@)[j]);
                    }
                }
                same
            }
        },
        _ => {
            proof {
                assert(a@ != b@);
            }
            false
        },
    }
}

/// Returns a fresh byte vector with the same contents.
pub fn copy_bytes(s: &Vec<u8>) -> (r: Vec<u8>)
    ensures
        r@ == s@,
{
    let mut out: Vec<u8> = Vec::new();
    let mut i: usize = 0;
    while i < s.len()
        invariant
            i <= s.len(),
            out@ == s@.take(i as int),
        decreases s.len() - i,
    {
        out.push(s[i]);
        proof {
            assert(out@ =~= s@.take(i + 1 as int));
        }
        i = i + 1;
    }
    proof {
        assert(s@.take(s@.len() as int) =~= s@);
    }
    out
}

/// The failures of the protocol layer.
///
/// `MalformedFrame` means the byte stream itself is unparseable and the
/// connection cannot be resynchronized; the others fault only the one
/// request that carried them.
#[derive(Debug, PartialEq, Eq)]
pub enum RespError {
    /// The bytes do not form a protocol value.
    MalformedFrame,
    /// A request is not an array whose first element is a bulk string.
    UnexpectedFormat,
    /// A recognized command came with too few arguments.
    ArityError,
    /// A `SET` option other than `PX` was given.
    UnsupportedOption,
    /// The command verb is not one this server knows; carries the verb.
    UnknownCommand(Vec<u8>),
    /// A field that must be a signed decimal integer is not one.
    InvalidInteger,
}

/// Ghost model of a protocol-layer failure.
pub enum ErrorModel {
    MalformedFrame,
    UnexpectedFormat,
    ArityError,
    UnsupportedOption,
    UnknownCommand(Seq<u8>),
    InvalidInteger,
}

impl View for RespError {
    type V = ErrorModel;

    open spec fn view(&self) -> ErrorModel {
        match self {
            RespError::MalformedFrame => ErrorModel::MalformedFrame,
            RespError::UnexpectedFormat => ErrorModel::UnexpectedFormat,
            RespError::ArityError => ErrorModel::ArityError,
            RespError::UnsupportedOption => ErrorModel::UnsupportedOption,
            RespError::UnknownCommand(name) => ErrorModel::UnknownCommand(name@),
            RespError::InvalidInteger => ErrorModel::InvalidInteger,
        }
    }
}

/// The position of the first line terminator at or after position `i`:
/// the least `j >= max(i, 1)` with a carriage return at `j - 1` and a
/// line feed at `j`.
pub open spec fn spec_crlf_pos(b: Seq<u8>, i: int) -> Option<int>
    decreases b.len() - i,
{
    if i < 1 || i >= b.len() {
        None
    } else if b[i - 1] == CR && b[i] == LF {
        Some(i)
    } else {
        spec_crlf_pos(b, i + 1)
    }
}

/// The first line of `b`: the bytes before the first CRLF, and the count
/// of bytes up to and including that terminator.
pub open spec fn spec_read_line(b: Seq<u8>) -> Option<(Seq<u8>, int)> {
    match spec_crlf_pos(b, 1) {
        Option::None => None,
        Option::Some(j) => Some((b.take(j - 1), j + 1)),
    }
}

/// No CRLF pair occurs inside `s`.
pub open spec fn no_crlf_pair(s: Seq<u8>) -> bool {
    forall|i: int| 0 <= i < s.len() - 1 ==> !(#[trigger] s[i] == CR && s[i + 1] == LF)
}

/// What a simple-string frame (after its `+` tag) denotes: the first
/// line, as a `SimpleString`.
pub open spec fn spec_parse_simple(b: Seq<u8>) -> Option<(ValueModel, int)> {
    match spec_read_line(b.skip(1)) {
        Option::None => None,
        Option::Some((line, n)) => Some((ValueModel::SimpleString(line), n + 1)),
    }
}

/// What an integer frame (after its `:` tag) denotes: the first line
/// read as a signed decimal.
pub open spec fn spec_parse_integer(b: Seq<u8>) -> Option<(ValueModel, int)> {
    match spec_read_line(b.skip(1)) {
        Option::None => None,
        Option::Some((line, n)) => match i64_of_signed(line) {
            Option::None => None,
            Option::Some(v) => Some((ValueModel::Integer(v), n + 1)),
        },
    }
}

/// What a bulk-string frame (after its `$` tag) denotes: a declared
/// length, then exactly that many payload bytes, then a CRLF. The
/// declared length `-1` denotes the null sentinel, written `-1`.
pub open spec fn spec_parse_bulk(b: Seq<u8>) -> Option<(ValueModel, int)> {
    match spec_read_line(b.skip(1)) {
        Option::None => None,
        Option::Some((line, n)) => match i64_of_signed(line) {
            Option::None => None,
            Option::Some(len) => if len == -1 {
                Some((ValueModel::BulkString(seq![45u8, 49u8]), n + 1))
            } else if len < 0 {
                None
            } else {
                let start = n + 1;
                if start + len + 2 <= b.len() && b[start + len] == CR && b[start + len + 1] == LF {
                    Some((ValueModel::BulkString(b.subrange(start, start + len)), start + len + 2))
                } else {
                    None
                }
            },
        },
    }
}

/// What a buffer denotes as one protocol value: the variant chosen by
/// the leading tag byte, and the count of bytes the value occupies.
pub open spec fn spec_parse(b: Seq<u8>) -> Option<(ValueModel, int)>
    decreases b.len(), 1int,
{
    if b.len() == 0 {
        None
    } else if b[0] == TAG_SIMPLE {
        spec_parse_simple(b)
    } else if b[0] == TAG_INTEGER {
        spec_parse_integer(b)
    } else if b[0] == TAG_BULK {
        spec_parse_bulk(b)
    } else if b[0] == TAG_ARRAY {
        spec_parse_array(b)
    } else {
        None
    }
}

/// What an array frame denotes: a declared element count, then that
/// many values in sequence. A negative count declares no elements.
pub open spec fn spec_parse_array(b: Seq<u8>) -> Option<(ValueModel, int)>
    decreases b.len(), 0int,
{
    match spec_read_line(b.skip(1)) {
        Option::None => None,
        Option::Some((line, n)) => match i64_of_signed(line) {
            Option::None => None,
            Option::Some(count) => {
                let start = n + 1;
                // A header that claims to reach outside the buffer is malformed.
                if start < 1 || start > b.len() {
                    None
                } else {
                    let cnt = if count < 0 {
                        0
                    } else {
                        count
                    };
                    match spec_parse_elems(b.skip(start), cnt) {
                        Option::None => None,
                        Option::Some((items, used)) => Some((ValueModel::Array(items), start + used)),
                    }
                }
            },
        },
    }
}

/// What `count` consecutive values at the front of `b` denote, with the
/// total count of bytes they occupy. An element that would occupy no
/// byte, or more bytes than are there, is malformed.
pub open spec fn spec_parse_elems(b: Seq<u8>, count: int) -> Option<(Seq<ValueModel>, int)>
    decreases b.len(), count + 2,
{
    if count <= 0 {
        Some((Seq::empty(), 0))
    } else {
        match spec_parse(b) {
            Option::None => None,
            Option::Some((v, used)) => if used < 1 || used > b.len() {
                None
            } else {
                match spec_parse_elems(b.skip(used), count - 1) {
                    Option::None => None,
                    Option::Some((items, rest_used)) => Some((seq![v] + items, used + rest_used)),
                }
            },
        }
    }
}

/// The bytes that encode `m` on the wire. The bulk string whose payload
/// is `-1` is written as the null bulk string.
pub open spec fn spec_encode(m: ValueModel) -> Seq<u8>
    decreases m,
{
    match m {
        ValueModel::SimpleString(s) => seq![TAG_SIMPLE] + s + seq![CR, LF],
        ValueModel::Integer(n) => seq![TAG_INTEGER] + dec_int(n) + seq![CR, LF],
        ValueModel::BulkString(s) => if s == seq![45u8, 49u8] {
            seq![TAG_BULK, 45u8, 49u8, CR, LF]
        } else {
            seq![TAG_BULK] + dec_int(s.len() as int) + seq![CR, LF] + s + seq![CR, LF]
        },
        ValueModel::Array(items) => seq![TAG_ARRAY] + dec_int(items.len() as int) + seq![CR, LF]
            + spec_encode_list(items),
    }
}

/// The concatenation of the encodings of `items`, in order.
pub open spec fn spec_encode_list(items: Seq<ValueModel>) -> Seq<u8>
    decreases items,
{
    if items.len() == 0 {
        Seq::empty()
    } else {
        spec_encode(items.first()) + spec_encode_list(items.drop_first())
    }
}

/// A model the codec can carry faithfully: simple strings hold no CRLF
/// pair, and every declared length fits the signed 64-bit length field.
pub open spec fn wf_model(m: ValueModel) -> bool
    decreases m,
{
    match m {
        ValueModel::SimpleString(s) => no_crlf_pair(s),
        ValueModel::Integer(n) => i64::MIN <= n <= i64::MAX,
        ValueModel::BulkString(s) => s.len() <= i64::MAX,
        ValueModel::Array(items) => items.len() <= i64::MAX && wf_list(items),
    }
}

/// Every element of `items` is well formed.
pub open spec fn wf_list(items: Seq<ValueModel>) -> bool
    decreases items,
{
    if items.len() == 0 {
        true
    } else {
        wf_model(items.first()) && wf_list(items.drop_first())
    }
}

/// Scans for the first CRLF pair; yields the bytes before it and the
/// count of bytes up to and including it, or nothing when the window
/// holds no terminator.
pub fn read_until_crlf(buffer: &[u8]) -> (r: Option<(&[u8], usize)>)
    ensures
        match r {
            Option::Some((line, n)) => spec_read_line(buffer@) == Some((line@, n as int))
                && 2 <= n <= buffer@.len() && line@.len() == n - 2,
            Option::None => spec_read_line(buffer@) is None,
        },
{
    let mut i: usize = 1;
    while i < buffer.len()
        invariant
            i >= 1,
            spec_crlf_pos(buffer@, 1) == spec_crlf_pos(buffer@, i as int),
        decreases buffer.len() - i,
    {
        if buffer[i - 1] == CR && buffer[i] == LF {
            let line = slice_subrange(buffer, 0, i - 1);
            proof {
                assert(line@ =~= buffer@.take(i - 1));
            }
            return Some((line, i + 1));
        }
        i = i + 1;
    }
    None
}

/// Parses an optional sign and decimal digits as a signed 64-bit
/// integer; empty input, stray bytes, and values outside the `i64`
/// range fail.
pub fn parse_int_with_sign(line: &[u8]) -> (r: Result<i64, RespError>)
    ensures
        match r {
            Result::Ok(n) => i64_of_signed(line@) == Some(n as int),
            Result::Err(e) => i64_of_signed(line@) is None && e == RespError::InvalidInteger,
        },
{
    match parse_signed_dec(line) {
        Option::Some(n) => Ok(n),
        Option::None => Err(RespError::InvalidInteger),
    }
}

/// Parses a frame's declared length or count, under the same grammar as
/// `parse_int_with_sign`.
pub fn parse_int(buffer: &[u8]) -> (r: Result<i64, RespError>)
    ensures
        match r {
            Result::Ok(n) => i64_of_signed(buffer@) == Some(n as int),
            Result::Err(e) => i64_of_signed(buffer@) is None && e == RespError::InvalidInteger,
        },
{
    match parse_signed_dec(buffer) {
        Option::Some(n) => Ok(n),
        Option::None => Err(RespError::InvalidInteger),
    }
}

/// Parses a simple-string frame: the bytes after the tag byte up to the
/// first CRLF.
pub fn parse_simple_string(buffer: &[u8]) -> (r: Result<(RedisValue, usize), RespError>)
    requires
        buffer@.len() >= 1,
    ensures
        match r {
            Result::Ok((v, n)) => spec_parse_simple(buffer@) == Some((v@, n as int))
                && 3 <= n <= buffer@.len(),
            Result::Err(e) => spec_parse_simple(buffer@) is None && e == RespError::MalformedFrame,
        },
{
    let rest = slice_subrange(buffer, 1, buffer.len());
    proof {
        assert(rest@ =~= buffer@.skip(1));
    }
    match read_until_crlf(rest) {
        Option::Some((line, n)) => Ok((RedisValue::SimpleString(slice_to_vec(line)), n + 1)),
        Option::None => Err(RespError::MalformedFrame),
    }
}

/// Parses an integer frame: the first line after the tag byte, read as
/// a signed decimal.
pub fn parse_integer(buffer: &[u8]) -> (r: Result<(RedisValue, usize), RespError>)
    requires
        buffer@.len() >= 1,
    ensures
        match r {
            Result::Ok((v, n)) => spec_parse_integer(buffer@) == Some((v@, n as int))
                && 3 <= n <= buffer@.len(),
            Result::Err(e) => spec_parse_integer(buffer@) is None && e == RespError::MalformedFrame,
        },
{
    let rest = slice_subrange(buffer, 1, buffer.len());
    proof {
        assert(rest@ =~= buffer@.skip(1));
    }
    match read_until_crlf(rest) {
        Option::Some((line, n)) => match parse_int(line) {
            Result::Ok(v) => Ok((RedisValue::Integer(v), n + 1)),
            Result::Err(_) => Err(RespError::MalformedFrame),
        },
        Option::None => Err(RespError::MalformedFrame),
    }
}

/// Pushing a value onto a sequence appends its model to the sequence's
/// model.
pub proof fn lemma_array_model_push(s: Seq<RedisValue>, v: RedisValue)
    ensures
        array_model(s.push(v)) == array_model(s).push(value_model(v)),
{
    assert(s.push(v).drop_last() =~= s);
    assert(s.push(v).last() == v);
}

/// Parses a bulk-string frame: a declared length, that many payload
/// bytes, and a trailing CRLF. A declared length of `-1` yields the
/// null sentinel.
pub fn parse_bulk_string(buffer: &[u8]) -> (r: Result<(RedisValue, usize), RespError>)
    requires
        buffer@.len() >= 1,
    ensures
        match r {
            Result::Ok((v, n)) => spec_parse_bulk(buffer@) == Some((v@, n as int))
                && 3 <= n <= buffer@.len(),
            Result::Err(e) => spec_parse_bulk(buffer@) is None && e == RespError::MalformedFrame,
        },
{
    let rest = slice_subrange(buffer, 1, buffer.len());
    proof {
        assert(rest@ =~= buffer@.skip(1));
    }
    let (line, n) = match read_until_crlf(rest) {
        Option::Some(p) => p,
        Option::None => {
            return Err(RespError::MalformedFrame);
        },
    };
    let len = match parse_int(line) {
        Result::Ok(v) => v,
        Result::Err(_) => {
            return Err(RespError::MalformedFrame);
        },
    };
    if len == -1 {
        let payload = vec![45u8, 49u8];
        proof {
            assert(payload@ =~= seq![45u8, 49u8]);
        }
        return Ok((RedisValue::BulkString(payload), n + 1));
    }
    if len < 0 {
        return Err(RespError::MalformedFrame);
    }
    let start = n + 1;
    let remaining = buffer.len() - start;
    if remaining < 2 || (len as u64) > ((remaining - 2) as u64) {
        return Err(RespError::MalformedFrame);
    }
    let l = len as usize;
    let end = start + l;
    if buffer[end] != CR || buffer[end + 1] != LF {
        return Err(RespError::MalformedFrame);
    }
    let payload = slice_to_vec(slice_subrange(buffer, start, end));
    Ok((RedisValue::BulkString(payload), end + 2))
}

/// Parses one protocol value off the front of the buffer, dispatching
/// on the leading tag byte; yields the value and the count of bytes it
/// occupied.
pub fn parse_message(buffer: &[u8]) -> (r: Result<(RedisValue, usize), RespError>)
    ensures
        match r {
            Result::Ok((v, n)) => spec_parse(buffer@) == Some((v@, n as int))
                && 3 <= n <= buffer@.len(),
            Result::Err(e) => spec_parse(buffer@) is None && e == RespError::MalformedFrame,
        },
    decreases buffer@.len(), 1int,
{
    if buffer.len() == 0 {
        return Err(RespError::MalformedFrame);
    }
    let tag = buffer[0];
    if tag == TAG_SIMPLE {
        parse_simple_string(buffer)
    } else if tag == TAG_INTEGER {
        parse_integer(buffer)
    } else if tag == TAG_BULK {
        parse_bulk_string(buffer)
    } else if tag == TAG_ARRAY {
        parse_array(buffer)
    } else {
        Err(RespError::MalformedFrame)
    }
}

/// Parses an array frame: a declared element count, then that many
/// values in sequence. A nested failure propagates; nothing is
/// recovered from a partial array.
pub fn parse_array(buffer: &[u8]) -> (r: Result<(RedisValue, usize), RespError>)
    requires
        buffer@.len() >= 1,
    ensures
        match r {
            Result::Ok((v, n)) => spec_parse_array(buffer@) == Some((v@, n as int))
                && 3 <= n <= buffer@.len(),
            Result::Err(e) => spec_parse_array(buffer@) is None && e == RespError::MalformedFrame,
        },
    decreases buffer@.len(), 0int,
{
    let rest = slice_subrange(buffer, 1, buffer.len());
    proof {
        assert(rest@ =~= buffer@.skip(1));
    }
    let (line, n) = match read_until_crlf(rest) {
        Option::Some(p) => p,
        Option::None => {
            return Err(RespError::MalformedFrame);
        },
    };
    let count = match parse_int(line) {
        Result::Ok(v) => v,
        Result::Err(_) => {
            return Err(RespError::MalformedFrame);
        },
    };
    let start = n + 1;
    let ghost b = buffer@;
    let ghost tail0 = b.skip(start as int);
    let ghost cnt: int = if count < 0 {
        0
    } else {
        count as int
    };
    let mut items: Vec<RedisValue> = Vec::new();
    let mut consumed: usize = start;
    let mut k: i64 = 0;
    while k < count
        invariant
            0 <= k,
            count > 0 ==> k <= count,
            count <= 0 ==> k == 0,
            cnt == (if count < 0 { 0int } else { count as int }),
            3 <= start <= b.len(),
            start <= consumed <= b.len(),
            b == buffer@,
            tail0 == b.skip(start as int),
            spec_read_line(b.skip(1)) == Some((line@, n as int)),
            i64_of_signed(line@) == Some(count as int),
            start == n + 1,
            items@.len() == k as int,
            spec_parse_elems(tail0, cnt) == (match spec_parse_elems(
                b.skip(consumed as int),
                cnt - k,
            ) {
                Option::None => Option::<(Seq<ValueModel>, int)>::None,
                Option::Some((more, used)) => Option::Some(
                    (array_model(items@) + more, consumed - start + used),
                ),
            }),
        decreases count - k,
    {
        let sub = slice_subrange(buffer, consumed, buffer.len());
        proof {
            assert(sub@ =~= b.skip(consumed as int));
        }
        match parse_message(sub) {
            Result::Err(_) => {
                proof {
                    assert(spec_parse_elems(b.skip(consumed as int), cnt - k) is None);
                    assert(spec_parse_elems(tail0, cnt) is None);
                    assert(spec_read_line(b.skip(1)) == Some((line@, n as int)));
                    assert(spec_parse_array(b) is None);
                }
                return Err(RespError::MalformedFrame);
            },
            Result::Ok((v, used)) => {
                let ghost prev_items = items@;
                let ghost prev_consumed = consumed as int;
                items.push(v);
                consumed = consumed + used;
                k = k + 1;
                proof {
                    let tail_prev = b.skip(prev_consumed);
                    let tail_new = b.skip(prev_consumed + used);
                    assert(tail_prev.skip(used as int) =~= tail_new);
                    assert(spec_parse(tail_prev) == Some((v@, used as int)));
                    lemma_array_model_push(prev_items, v);
                    assert(items@ == prev_items.push(v));
                    match spec_parse_elems(tail_new, cnt - k) {
                        Option::None => {
                            assert(spec_parse_elems(tail_prev, cnt - (k - 1)) is None);
                        },
                        Option::Some((more, used2)) => {
                            assert(spec_parse_elems(tail_prev, cnt - (k - 1)) == Some(
                                (seq![v@] + more, used + used2),
                            ));
                            assert(array_model(prev_items) + (seq![v@] + more) =~= array_model(
                                items@,
                            ) + more);
                        },
                    }
                }
            },
        }
    }
    proof {
        assert(cnt - k <= 0);
        assert(spec_parse_elems(b.skip(consumed as int), cnt - k) == Some(
            (Seq::<ValueModel>::empty(), 0int),
        ));
        assert(array_model(items@) + Seq::<ValueModel>::empty() =~= array_model(items@));
        assert(spec_parse_elems(tail0, cnt) == Some((array_model(items@), consumed - start)));
    }
    Ok((RedisValue::Array(items), consumed))
}

/// Appends all of `s` to `out`.
fn push_all(out: &mut Vec<u8>, s: &[u8])
    ensures
        final(out)@ == old(out)@ + s@,
{
    let mut i: usize = 0;
    while i < s.len()
        invariant
            i <= s.len(),
            out@ == old(out)@ + s@.take(i as int),
        decreases s.len() - i,
    {
        out.push(s[i]);
        proof {
            assert(out@ =~= old(out)@ + s@.take(i + 1 as int));
        }
        i = i + 1;
    }
    proof {
        assert(old(out)@ + s@.take(s@.len() as int) =~= old(out)@ + s@);
    }
}

impl RedisValue {
    /// Writes this value in its wire form. Only status and bulk replies
    /// are ever sent, so only those two shapes are accepted.
    pub fn serialize(self) -> (r: Vec<u8>)
        requires
            self@ is SimpleString || self@ is BulkString,
        ensures
            r@ == spec_encode(self@),
    {
        match self {
            RedisValue::SimpleString(s) => {
                let mut out: Vec<u8> = Vec::new();
                out.push(TAG_SIMPLE);
                push_all(&mut out, s.as_slice());
                out.push(CR);
                out.push(LF);
                proof {
                    assert(out@ =~= spec_encode(ValueModel::SimpleString(s@)));
                }
                out
            },
            RedisValue::BulkString(s) => {
                if s.len() == 2 && s[0] == 45 && s[1] == 49 {
                    let out = vec![TAG_BULK, 45u8, 49u8, CR, LF];
                    proof {
                        assert(s@ =~= seq![45u8, 49u8]);
                        assert(out@ =~= spec_encode(ValueModel::BulkString(s@)));
                    }
                    out
                } else {
                    let mut out: Vec<u8> = Vec::new();
                    out.push(TAG_BULK);
                    push_dec(s.len() as u64, &mut out);
                    out.push(CR);
                    out.push(LF);
                    push_all(&mut out, s.as_slice());
                    out.push(CR);
                    out.push(LF);
                    proof {
                        if s@ == seq![45u8, 49u8] {
                            assert(s@.len() == 2 && s@[0] == 45 && s@[1] == 49);
                            assert(false);
                        }
                        assert(out@ =~= spec_encode(ValueModel::BulkString(s@)));
                    }
                    out
                }
            },
            RedisValue::Integer(_) => {
                proof {
                    assert(false);
                }
                Vec::new()
            },
            RedisValue::Array(_) => {
                proof {
                    assert(false);
                }
                Vec::new()
            },
        }
    }
}

/// The first terminator at or after `i` is the one at `j`, when no pair
/// sits between them.
proof fn lemma_crlf_pos_from(b: Seq<u8>, i: int, j: int)
    requires
        1 <= i <= j < b.len(),
        b[j - 1] == CR,
        b[j] == LF,
        forall|p: int| i <= p < j ==> !(#[trigger] b[p - 1] == CR && b[p] == LF),
    ensures
        spec_crlf_pos(b, i) == Some(j),
    decreases j - i,
{
    if i < j {
        lemma_crlf_pos_from(b, i + 1, j);
    }
}

/// A clean line followed by a terminator and anything else reads back
/// as exactly that line.
pub proof fn lemma_read_line_of(line: Seq<u8>, tail: Seq<u8>)
    requires
        no_crlf_pair(line),
    ensures
        spec_read_line(line + seq![CR, LF] + tail) == Some((line, line.len() as int + 2)),
{
    let b = line + seq![CR, LF] + tail;
    let j = line.len() as int + 1;
    assert(b[j - 1] == CR);
    assert(b[j] == LF);
    assert forall|p: int| 1 <= p < j implies !(#[trigger] b[p - 1] == CR && b[p] == LF) by {
        if p < line.len() {
            assert(b[p - 1] == line[p - 1]);
            assert(b[p] == line[p]);
        } else {
            assert(b[p] == CR);
        }
    }
    lemma_crlf_pos_from(b, 1, j);
    assert(b.take(j - 1) =~= line);
}

/// Every encoding is at least a tag byte and a terminator long.
pub proof fn lemma_encode_len(m: ValueModel)
    ensures
        spec_encode(m).len() >= 3,
{
    match m {
        ValueModel::Integer(n) => {
            assert(dec_int(n).len() >= 1);
        },
        ValueModel::BulkString(s) => {
            if s != seq![45u8, 49u8] {
                assert(dec_int(s.len() as int).len() >= 1);
            }
        },
        ValueModel::Array(items) => {
            assert(dec_int(items.len() as int).len() >= 1);
        },
        _ => {},
    }
}

/// The canonical decimal rendering of an in-range number denotes that
/// number back, and contains no carriage return.
pub proof fn lemma_int_of_dec(n: int)
    requires
        i64::MIN <= n <= i64::MAX,
    ensures
        i64_of_signed(dec_int(n)) == Some(n),
        no_crlf_pair(dec_int(n)),
{
    let s = dec_int(n);
    if n >= 0 {
        crate::decimal::lemma_dec_digits(n);
        assert(is_digit(s[0]));
        assert(s[0] != 43 && s[0] != 45);
    } else {
        crate::decimal::lemma_dec_digits(-n);
        assert(s[0] == 45);
        assert(s.skip(1) =~= dec_digits(-n));
        assert(all_digits(s.skip(1)));
        assert(digits_val(s.skip(1)) == -n);
    }
    assert forall|i: int| 0 <= i < s.len() - 1 implies !(#[trigger] s[i] == CR && s[i + 1] == LF)
        by {
        if n >= 0 {
            assert(is_digit(s[i]));
        } else {
            if i > 0 {
                assert(is_digit(dec_digits(-n)[i - 1]));
                assert(s[i] == dec_digits(-n)[i - 1]);
            }
        }
    }
}

/// Completeness for simple-string encodings.
proof fn lemma_parse_of_encode_simple(s: Seq<u8>, rest: Seq<u8>)
    requires
        no_crlf_pair(s),
    ensures
        spec_parse(spec_encode(ValueModel::SimpleString(s)) + rest) == Some(
            (ValueModel::SimpleString(s), spec_encode(ValueModel::SimpleString(s)).len() as int),
        ),
{
    let enc = spec_encode(ValueModel::SimpleString(s));
    let b = enc + rest;
    assert(b[0] == TAG_SIMPLE);
    assert(b.skip(1) =~= s + seq![CR, LF] + rest);
    lemma_read_line_of(s, rest);
    assert(enc.len() == s.len() + 3);
}

/// Completeness for integer encodings.
proof fn lemma_parse_of_encode_integer(n: int, rest: Seq<u8>)
    requires
        i64::MIN <= n <= i64::MAX,
    ensures
        spec_parse(spec_encode(ValueModel::Integer(n)) + rest) == Some(
            (ValueModel::Integer(n), spec_encode(ValueModel::Integer(n)).len() as int),
        ),
{
    let enc = spec_encode(ValueModel::Integer(n));
    let b = enc + rest;
    let d = dec_int(n);
    lemma_int_of_dec(n);
    assert(b[0] == TAG_INTEGER);
    assert(b.skip(1) =~= d + seq![CR, LF] + rest);
    lemma_read_line_of(d, rest);
    assert(enc.len() == d.len() + 3);
}

/// Completeness for bulk-string encodings.
proof fn lemma_parse_of_encode_bulk(s: Seq<u8>, rest: Seq<u8>)
    requires
        s.len() <= i64::MAX,
    ensures
        spec_parse(spec_encode(ValueModel::BulkString(s)) + rest) == Some(
            (ValueModel::BulkString(s), spec_encode(ValueModel::BulkString(s)).len() as int),
        ),
{
    let enc = spec_encode(ValueModel::BulkString(s));
    let b = enc + rest;
    assert(b[0] == TAG_BULK);
    if s == seq![45u8, 49u8] {
        assert(b.skip(1) =~= seq![45u8, 49u8] + seq![CR, LF] + rest);
        assert(no_crlf_pair(seq![45u8, 49u8]));
        lemma_read_line_of(seq![45u8, 49u8], rest);
        assert(i64_of_signed(seq![45u8, 49u8]) == Some(-1int)) by {
            let ds = seq![45u8, 49u8].skip(1);
            assert(ds =~= seq![49u8]);
            assert(all_digits(ds)) by {
                assert(ds[0] == 49);
            }
            assert(ds.drop_last() =~= Seq::<u8>::empty());
            assert(digits_val(Seq::<u8>::empty()) == 0);
            assert(ds.last() == 49);
            assert(digits_val(ds) == 1);
        };
        assert(enc.len() == 5);
    } else {
        let len = s.len() as int;
        let d = dec_int(len);
        lemma_int_of_dec(len);
        assert(b.skip(1) =~= d + seq![CR, LF] + (s + seq![CR, LF] + rest));
        lemma_read_line_of(d, s + seq![CR, LF] + rest);
        let start = d.len() + 3;
        assert(enc.len() == start + len + 2);
        assert(b.subrange(start as int, start + len) =~= s);
        assert(b[start + len] == CR);
        assert(b[start + len + 1] == LF);
    }
}

/// Completeness of the parser on canonical encodings: a buffer that
/// begins with the encoding of a well-formed value parses to that
/// value, consuming exactly its encoding, whatever bytes follow.
pub proof fn lemma_parse_of_encode(m: ValueModel, rest: Seq<u8>)
    requires
        wf_model(m),
    ensures
        spec_parse(spec_encode(m) + rest) == Some((m, spec_encode(m).len() as int)),
    decreases m, 0int,
{
    let enc = spec_encode(m);
    let b = enc + rest;
    match m {
        ValueModel::SimpleString(s) => {
            lemma_parse_of_encode_simple(s, rest);
        },
        ValueModel::Integer(n) => {
            lemma_parse_of_encode_integer(n, rest);
        },
        ValueModel::BulkString(s) => {
            lemma_parse_of_encode_bulk(s, rest);
        },
        ValueModel::Array(items) => {
            let cnt = items.len() as int;
            let d = dec_int(cnt);
            lemma_int_of_dec(cnt);
            assert(b[0] == TAG_ARRAY);
            let list = spec_encode_list(items);
            assert(b.skip(1) =~= d + seq![CR, LF] + (list + rest));
            lemma_read_line_of(d, list + rest);
            let start = d.len() + 3;
            assert(enc.len() == start + list.len());
            assert(b.skip(start as int) =~= list + rest);
            lemma_parse_elems_of_encode(items, rest);
        },
    }
}

/// Completeness for element lists: the concatenated encodings of `n`
/// well-formed values parse back as those `n` values.
pub proof fn lemma_parse_elems_of_encode(items: Seq<ValueModel>, rest: Seq<u8>)
    requires
        wf_list(items),
    ensures
        spec_parse_elems(spec_encode_list(items) + rest, items.len() as int) == Some(
            (items, spec_encode_list(items).len() as int),
        ),
    decreases items, 1int,
{
    if items.len() == 0 {
        assert(spec_encode_list(items) + rest =~= rest);
        assert(items =~= Seq::<ValueModel>::empty());
    } else {
        let first = items.first();
        let tail = items.drop_first();
        let e1 = spec_encode(first);
        let el = spec_encode_list(tail);
        let b = spec_encode_list(items) + rest;
        assert(spec_encode_list(items) == e1 + el);
        assert(b =~= e1 + (el + rest));
        lemma_parse_of_encode(first, el + rest);
        lemma_encode_len(first);
        assert(b.skip(e1.len() as int) =~= el + rest);
        lemma_parse_elems_of_encode(tail, rest);
        assert(seq![first] + tail =~= items);
    }
}

/// Round-trip: parsing the bytes a simple or bulk string serializes to
/// yields the value back, consuming the whole serialization.
pub proof fn lemma_round_trip(m: ValueModel)
    requires
        wf_model(m),
        m is SimpleString || m is BulkString,
    ensures
        spec_parse(spec_encode(m)) == Some((m, spec_encode(m).len() as int)),
{
    lemma_parse_of_encode(m, Seq::empty());
    assert(spec_encode(m) + Seq::<u8>::empty() =~= spec_encode(m));
}

/// A buffer that begins with a valid array of bulk strings parses to
/// exactly that array, consuming exactly the array's encoded bytes and
/// no more, whatever bytes follow them.
pub proof fn lemma_array_parse_exact(items: Seq<ValueModel>, rest: Seq<u8>)
    requires
        wf_model(ValueModel::Array(items)),
        forall|i: int| 0 <= i < items.len() ==> #[trigger] items[i] is BulkString,
    ensures
        spec_parse(spec_encode(ValueModel::Array(items)) + rest) == Some(
            (ValueModel::Array(items), spec_encode(ValueModel::Array(items)).len() as int),
        ),
{
    lemma_parse_of_encode(ValueModel::Array(items), rest);
}

/// Decides equality of the views of two byte vectors.
pub fn bytes_eq(a: &Vec<u8>, b: &Vec<u8>) -> (r: bool)
    ensures
        r == (a@ == b@),
{
    if a.len() != b.len() {
        return false;
    }
    let mut i: usize = 0;
    while i < a.len()
        invariant
            i <= a.len(),
            a.len() == b.len(),
            forall|j: int| 0 <= j < i ==> a@[j] == b@[j],
        decreases a.len() - i,
    {
        if a[i] != b[i] {
            return false;
        }
        i = i + 1;
    }
    proof {
        assert(a@ =~= b@);
    }
    true
}

} // verus!
