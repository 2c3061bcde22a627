//! Parsing a token as an 8-bit signed integer, as version numbers and
//! parameter keys of a mapping document require, with its mathematical model.

use vstd::prelude::*;
use crate::text::to_char_vec;

verus! {

/// A decimal digit.
pub open spec fn is_digit(c: char) -> bool {
    48 <= c as u32 <= 57
}

/// The value of a decimal digit.
pub open spec fn digit_value(c: char) -> int {
    c as u32 - 48
}

/// Every character of `s` is a decimal digit.
pub open spec fn all_digits(s: Seq<char>) -> bool {
    forall|i: int| 0 <= i < s.len() ==> is_digit(s[i])
}

/// The number the digit string `s` denotes.
pub open spec fn digits_value(s: Seq<char>) -> int
    decreases s.len(),
{
    if s.len() == 0 {
        0
    } else {
        10 * digits_value(s.drop_last()) + digit_value(s.last())
    }
}

/// What parsing a token as an 8-bit signed integer yields: an optional sign,
/// then one or more decimal digits, and a value within -128..=127; anything
/// else yields nothing.
pub open spec fn parse_i8_model(s: Seq<char>) -> Option<int> {
    let digits = if s.len() > 0 && (s[0] == '+' || s[0] == '-') {
        s.drop_first()
    } else {
        s
    };
    let negative = s.len() > 0 && s[0] == '-';
    if digits.len() == 0 || !all_digits(digits) {
        None
    } else {
        let v = if negative {
            -digits_value(digits)
        } else {
            digits_value(digits)
        };
        if -128 <= v <= 127 {
            Some(v)
        } else {
            None
        }
    }
}

/// Parses `token` as an 8-bit signed integer: an optional `+` or `-` sign,
/// then one or more decimal digits, whose value lies within -128..=127.
pub fn parse_i8(token: &str) -> (r: Option<i8>)
    ensures
        match r {
            Some(v) => parse_i8_model(token@) == Some(v as int),
            None => parse_i8_model(token@) is None,
        },
{
    let cs = to_char_vec(token);
    let n: usize = cs.len();
    if n == 0 {
        return None;
    }
    let c0 = cs[0];
    let has_sign = c0 == '+' || c0 == '-';
    let negative = c0 == '-';
    let start: usize = if has_sign {
        1
    } else {
        0
    };
    if start == n {
        return None;
    }
    let ghost digits = if has_sign {
        token@.drop_first()
    } else {
        token@
    };
    proof {
        assert(digits =~= token@.skip(start as int));
    }
    let mut i: usize = start;
    let mut acc: u32 = 0;
    let mut big = false;
    while i < n
        invariant
            cs@ == token@,
            n == cs.len(),
            start <= i <= n,
            start <= 1,
            0 < n == token@.len(),
            has_sign == (token@[0] == '+' || token@[0] == '-'),
            negative == (token@[0] == '-'),
            start == (if has_sign { 1int } else { 0int }),
            digits == token@.skip(start as int),
            forall|k: int| start <= k < i ==> is_digit(token@[k]),
            !big ==> acc <= 200 && acc == digits_value(token@.subrange(start as int, i as int)),
            big ==> digits_value(token@.subrange(start as int, i as int)) > 200,
        decreases n - i,
    {
        let c = cs[i];
        let cv: u32 = c as u32;
        if cv < 48 || cv > 57 {
            proof {
                assert(!is_digit(digits[i - start]));
            }
            return None;
        }
        let d: u32 = cv - 48;
        let ghost before = token@.subrange(start as int, i as int);
        let ghost after = token@.subrange(start as int, i + 1);
        proof {
            assert(after.drop_last() =~= before);
            assert(digits_value(after) == 10 * digits_value(before) + d);
        }
        if !big {
            acc = acc * 10 + d;
            if acc > 200 {
                big = true;
            }
        }
        i = i + 1;
    }
    proof {
        assert(token@.subrange(start as int, n as int) =~= digits);
    }
    if big {
        return None;
    }
    if negative {
        if acc <= 128 {
            let v: i32 = 0 - (acc as i32);
            Some(v as i8)
        } else {
            None
        }
    } else {
        if acc <= 127 {
            Some(acc as i8)
        } else {
            None
        }
    }
}

} // verus!
