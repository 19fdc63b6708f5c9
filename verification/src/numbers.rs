//! Decimal numbers as the builtins read and print them: the forms that
//! `str::parse` accepts for unsigned and signed integers, and
//! right-aligned counters.
use vstd::prelude::*;

use crate::expand::{decimal, decimal_chars};
use crate::lexer::{digits_value, lemma_digits_value_grows};
use crate::text::{chars_of, is_digit};

verus! {

/// Whether `d` is one or more ASCII digits.
pub open spec fn all_digits(d: Seq<char>) -> bool {
    d.len() > 0 && forall|i: int| 0 <= i < d.len() ==> is_digit(#[trigger] d[i])
}

/// `s` without one leading `c`.
pub open spec fn without_sign(s: Seq<char>, c: char) -> Seq<char> {
    if s.len() > 0 && s[0] == c {
        s.drop_first()
    } else {
        s
    }
}

/// The value of `s` read as an unsigned integer of at most `max`: digits
/// after an optional `+`, nothing else.
pub open spec fn parse_unsigned_spec(s: Seq<char>, max: nat) -> Option<nat> {
    let d = without_sign(s, '+');
    if all_digits(d) && digits_value(d) <= max {
        Some(digits_value(d))
    } else {
        None
    }
}

/// The value of `s` read as an `i32`: digits after an optional `+` or
/// `-`, within the type's range.
pub open spec fn parse_i32_spec(s: Seq<char>) -> Option<int> {
    if s.len() > 0 && s[0] == '-' {
        let d = s.drop_first();
        if all_digits(d) && digits_value(d) <= 0x8000_0000 {
            Some(-(digits_value(d) as int))
        } else {
            None
        }
    } else {
        match parse_unsigned_spec(s, 0x7fff_ffff) {
            Some(v) => Some(v as int),
            None => None,
        }
    }
}

/// The value of the digits `d[from..]`, or `None` once it passes `max`.
fn digits_upto(d: &Vec<char>, from: usize, max: u64) -> (r: Option<u64>)
    requires
        from <= d@.len(),
        max <= u32::MAX,
    ensures
        match r {
            Some(v) => all_digits(d@.subrange(from as int, d@.len() as int)) && v as nat
                == digits_value(d@.subrange(from as int, d@.len() as int)) && v <= max,
            None => !(all_digits(d@.subrange(from as int, d@.len() as int)) && digits_value(
                d@.subrange(from as int, d@.len() as int),
            ) <= max),
        },
{
    let ghost whole = d@.subrange(from as int, d@.len() as int);
    if from == d.len() {
        return None;
    }
    let mut v: u64 = 0;
    let mut k = from;
    while k < d.len()
        invariant
            from <= k <= d@.len(),
            whole == d@.subrange(from as int, d@.len() as int),
            forall|m: int| from <= m < k ==> is_digit(#[trigger] d@[m]),
            v as nat == digits_value(d@.subrange(from as int, k as int)),
            v <= max,
            max <= u32::MAX,
        decreases d@.len() - k,
    {
        let c = d[k];
        if !('0' <= c && c <= '9') {
            assert(!is_digit(whole[k - from]));
            return None;
        }
        let digit = (c as u64) - ('0' as u64);
        assert(d@.subrange(from as int, k + 1).drop_last() =~= d@.subrange(from as int, k as int));
        let nv = v * 10 + digit;
        k += 1;
        if nv > max {
            proof {
                if all_digits(whole) {
                    lemma_digits_value_grows(whole, (k - from) as int);
                    assert(whole.subrange(0, (k - from) as int) =~= d@.subrange(from as int, k as int));
                }
            }
            return None;
        }
        v = nv;
    }
    assert(d@.subrange(from as int, k as int) =~= whole);
    Some(v)
}

/// `s` read as an unsigned integer of at most `max` (`str::parse` for
/// `u8`, `u16` or `u32`, with `max` the type's largest value).
pub fn parse_unsigned(s: &str, max: u64) -> (r: Option<u64>)
    requires
        max <= u32::MAX,
    ensures
        match r {
            Some(v) => parse_unsigned_spec(s@, max as nat) == Some(v as nat),
            None => parse_unsigned_spec(s@, max as nat) is None,
        },
{
    let d = chars_of(s);
    let from: usize = if d.len() > 0 && d[0] == '+' {
        1
    } else {
        0
    };
    assert(d@.subrange(from as int, d@.len() as int) =~= without_sign(s@, '+'));
    digits_upto(&d, from, max)
}

/// `s` read as an `i32` (`str::parse::<i32>`).
pub fn parse_i32(s: &str) -> (r: Option<i32>)
    ensures
        match r {
            Some(v) => parse_i32_spec(s@) == Some(v as int),
            None => parse_i32_spec(s@) is None,
        },
{
    let d = chars_of(s);
    if d.len() > 0 && d[0] == '-' {
        assert(d@.subrange(1, d@.len() as int) =~= s@.drop_first());
        match digits_upto(&d, 1, 0x8000_0000) {
            Some(v) => {
                if v == 0x8000_0000 {
                    Some(i32::MIN)
                } else {
                    let n = v as i32;
                    Some(-n)
                }
            },
            None => None,
        }
    } else {
        match parse_unsigned(s, 0x7fff_ffff) {
            Some(v) => Some(v as i32),
            None => None,
        }
    }
}

/// `text` preceded by spaces up to `width` characters (`{:>width}`).
pub open spec fn pad_left(text: Seq<char>, width: nat) -> Seq<char> {
    if text.len() >= width {
        text
    } else {
        Seq::new((width - text.len()) as nat, |i: int| ' ') + text
    }
}

/// The decimal text of `n`, right-aligned in `width` characters.
pub fn padded_decimal(n: u64, width: usize) -> (r: Vec<char>)
    ensures
        r@ == pad_left(decimal(n as nat), width as nat),
{
    let digits = decimal_chars(n);
    let mut out: Vec<char> = Vec::new();
    if digits.len() < width {
        let pad = width - digits.len();
        let mut i: usize = 0;
        while i < pad
            invariant
                0 <= i <= pad,
                out@ == Seq::new(i as nat, |k: int| ' '),
            decreases pad - i,
        {
            out.push(' ');
            i += 1;
            assert(out@ =~= Seq::new(i as nat, |k: int| ' '));
        }
    }
    let ghost prefix = out@;
    let mut j: usize = 0;
    while j < digits.len()
        invariant
            0 <= j <= digits@.len(),
            out@ == prefix + digits@.subrange(0, j as int),
        decreases digits@.len() - j,
    {
        out.push(digits[j]);
        j += 1;
        assert(out@ =~= prefix + digits@.subrange(0, j as int));
    }
    assert(digits@.subrange(0, digits@.len() as int) =~= digits@);
    if digits.len() >= width {
        assert(prefix =~= Seq::<char>::empty());
        assert(out@ =~= digits@);
    }
    out
}

} // verus!
