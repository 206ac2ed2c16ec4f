//! Decimal integers on the wire: parsing an optional sign followed by
//! digits into an `i64`, and rendering a number as its decimal digits.

use vstd::prelude::*;

verus! {

/// An ASCII decimal digit.
pub open spec fn is_digit(b: u8) -> bool {
    48 <= b <= 57
}

/// Every byte of `s` is an ASCII decimal digit.
pub open spec fn all_digits(s: Seq<u8>) -> bool {
    forall|i: int| 0 <= i < s.len() ==> is_digit(#[trigger] s[i])
}

/// The number the digit sequence `s` denotes in base ten.
pub open spec fn digits_val(s: Seq<u8>) -> int
    decreases s.len(),
{
    if s.len() == 0 {
        0
    } else {
        digits_val(s.drop_last()) * 10 + (s.last() - 48)
    }
}

/// The exact signed integer a byte sequence denotes: an optional leading
/// `+` or `-`, then at least one digit; anything else denotes nothing.
pub open spec fn int_of_signed(s: Seq<u8>) -> Option<int> {
    if s.len() == 0 {
        None
    } else {
        let neg = s[0] == 45;
        let ds = if s[0] == 43 || s[0] == 45 {
            s.skip(1)
        } else {
            s
        };
        if ds.len() == 0 || !all_digits(ds) {
            None
        } else {
            if neg {
                Some(-digits_val(ds))
            } else {
                Some(digits_val(ds))
            }
        }
    }
}

/// As `int_of_signed`, but denoting nothing when the value does not fit
/// in a signed 64-bit integer.
pub open spec fn i64_of_signed(s: Seq<u8>) -> Option<int> {
    match int_of_signed(s) {
        Option::None => None,
        Option::Some(v) => if i64::MIN <= v <= i64::MAX {
            Some(v)
        } else {
            None
        },
    }
}

/// The decimal digits of `n` (for `n >= 0`), most significant first.
pub open spec fn dec_digits(n: int) -> Seq<u8>
    decreases n,
{
    if n < 10 {
        seq![(48 + n) as u8]
    } else {
        dec_digits(n / 10).push((48 + n % 10) as u8)
    }
}

/// The decimal rendering of a signed number: a `-` for a negative one,
/// then its digits.
pub open spec fn dec_int(n: int) -> Seq<u8> {
    if n < 0 {
        seq![45u8] + dec_digits(-n)
    } else {
        dec_digits(n)
    }
}

/// Appending one digit multiplies the prefix value by ten.
pub proof fn lemma_digits_val_extend(s: Seq<u8>, i: int)
    requires
        0 <= i < s.len(),
    ensures
        digits_val(s.take(i + 1)) == digits_val(s.take(i)) * 10 + (s[i] - 48),
{
    assert(s.take(i + 1).drop_last() =~= s.take(i));
    assert(s.take(i + 1).last() == s[i]);
}

/// A digit sequence denotes a number no smaller than any of its prefixes.
pub proof fn lemma_digits_val_mono(s: Seq<u8>, i: int)
    requires
        all_digits(s),
        0 <= i <= s.len(),
    ensures
        0 <= digits_val(s.take(i)) <= digits_val(s),
    decreases s.len() - i,
{
    lemma_digits_val_mono_prefix_nonneg(s, i);
    if i == s.len() {
        assert(s.take(i) =~= s);
    } else {
        lemma_digits_val_extend(s, i);
        lemma_digits_val_mono(s, i + 1);
        assert(is_digit(s[i]));
    }
}

/// A prefix of an all-digit sequence denotes a nonnegative number.
proof fn lemma_digits_val_mono_prefix_nonneg(s: Seq<u8>, i: int)
    requires
        all_digits(s),
        0 <= i <= s.len(),
    ensures
        digits_val(s.take(i)) >= 0,
    decreases i,
{
    if i > 0 {
        lemma_digits_val_extend(s, i - 1);
        lemma_digits_val_mono_prefix_nonneg(s, i - 1);
    }
}

/// The digits of a nonnegative number are digits, and denote it back.
pub proof fn lemma_dec_digits(n: int)
    requires
        n >= 0,
    ensures
        all_digits(dec_digits(n)),
        dec_digits(n).len() >= 1,
        digits_val(dec_digits(n)) == n,
    decreases n,
{
    if n < 10 {
        let d = dec_digits(n);
        assert(d == seq![(48 + n) as u8]);
        assert(d.last() == (48 + n) as u8);
        assert(d.drop_last() =~= Seq::<u8>::empty());
        assert(digits_val(d.drop_last()) == 0);
    } else {
        lemma_dec_digits(n / 10);
        let d = dec_digits(n);
        assert(d.drop_last() =~= dec_digits(n / 10));
        assert(all_digits(d)) by {
            assert forall|i: int| 0 <= i < d.len() implies is_digit(#[trigger] d[i]) by {
                if i < d.len() - 1 {
                    assert(d[i] == dec_digits(n / 10)[i]);
                }
            }
        }
    }
}

/// `i64::MIN / 10`, rounded toward zero: the last accumulator value from
/// which one more digit can still be taken without leaving the range.
const MIN_ACC_BEFORE_DIGIT: i64 = -922337203685477580;

/// Parses an optional sign and decimal digits as a signed 64-bit integer;
/// empty input, stray bytes, and values outside the `i64` range denote
/// nothing and yield `None`.
pub fn parse_signed_dec(line: &[u8]) -> (r: Option<i64>)
    ensures
        match r {
            Option::Some(n) => i64_of_signed(line@) == Some(n as int),
            Option::None => i64_of_signed(line@) is None,
        },
{
    if line.len() == 0 {
        return None;
    }
    let first = line[0];
    let neg = first == 45;
    let start: usize = if first == 43 || first == 45 {
        1
    } else {
        0
    };
    let ghost ds = if first == 43 || first == 45 {
        line@.skip(1)
    } else {
        line@
    };
    if start >= line.len() {
        return None;
    }
    // Accumulate the magnitude as a nonpositive number, so that the full
    // magnitude 2^63 of i64::MIN is still representable.
    let mut acc: i64 = 0;
    let mut i: usize = start;
    while i < line.len()
        invariant
            start <= i <= line.len(),
            start < line.len(),
            start == 0 || start == 1,
            neg == (line@[0] == 45),
            start == 1 <==> (line@[0] == 43 || line@[0] == 45),
            ds == (if start == 1 {
                line@.skip(1)
            } else {
                line@
            }),
            ds.len() == line@.len() - start,
            forall|j: int| 0 <= j < ds.len() ==> ds[j] == line@[start + j],
            all_digits(ds.take(i - start)),
            acc == -digits_val(ds.take(i - start)),
            acc <= 0,
        decreases line.len() - i,
    {
        let b = line[i];
        if b < 48 || b > 57 {
            proof {
                assert(!is_digit(ds[i - start]));
            }
            return None;
        }
        let d = (b - 48) as i64;
        proof {
            lemma_digits_val_extend(ds, i - start);
        }
        if acc < MIN_ACC_BEFORE_DIGIT || (acc == MIN_ACC_BEFORE_DIGIT && d > 8) {
            proof {
                let k = i - start + 1;
                assert(all_digits(ds.take(k)));
                assert(digits_val(ds.take(k)) > i64::MAX + 1);
                if all_digits(ds) {
                    lemma_digits_val_mono(ds, k);
                    assert(digits_val(ds) > i64::MAX + 1);
                }
            }
            return None;
        }
        acc = acc * 10 - d;
        i = i + 1;
    }
    proof {
        assert(ds.take(ds.len() as int) =~= ds);
    }
    if neg {
        Some(acc)
    } else {
        if acc == i64::MIN {
            None
        } else {
            Some(-acc)
        }
    }
}

/// Appends the decimal digits of `n` to `out`.
pub fn push_dec(n: u64, out: &mut Vec<u8>)
    ensures
        final(out)@ == old(out)@ + dec_digits(n as int),
    decreases n,
{
    if n < 10 {
        out.push(48 + n as u8);
        proof {
            assert(out@ =~= old(out)@ + dec_digits(n as int));
        }
    } else {
        push_dec(n / 10, out);
        out.push(48 + (n % 10) as u8);
        proof {
            assert(out@ =~= old(out)@ + dec_digits(n as int));
        }
    }
}

} // verus!
