//! The status field: a signed decimal number that fits in 32 bits.

use vstd::prelude::*;

verus! {

/// The status that counts as a successful visit.
pub const STATUS_OK: i32 = 200;

/// Whether `c` is one of the ten decimal digits.
pub open spec fn is_digit(c: char) -> bool {
    '0' <= c <= '9'
}

/// The number a decimal digit stands for.
pub open spec fn digit_value(c: char) -> int {
    c as int - '0' as int
}

/// Whether `s` holds decimal digits only.
pub open spec fn all_digits(s: Seq<char>) -> bool {
    forall|i: int| 0 <= i < s.len() ==> is_digit(#[trigger] s[i])
}

/// The number that a run of decimal digits writes, most significant first.
pub open spec fn decimal_value(s: Seq<char>) -> int
    decreases s.len(),
{
    if s.len() == 0 {
        0
    } else {
        decimal_value(s.drop_last()) * 10 + digit_value(s.last())
    }
}

/// Whether `s` begins with a sign.
pub open spec fn has_sign(s: Seq<char>) -> bool {
    s.len() > 0 && (s[0] == '+' || s[0] == '-')
}

/// What follows the sign, or all of `s` where it has none.
pub open spec fn magnitude(s: Seq<char>) -> Seq<char> {
    if has_sign(s) {
        s.skip(1)
    } else {
        s
    }
}

/// The number that `s` writes: its magnitude, negated under a minus sign.
pub open spec fn signed_value(s: Seq<char>) -> int {
    if s.len() > 0 && s[0] == '-' {
        -decimal_value(magnitude(s))
    } else {
        decimal_value(magnitude(s))
    }
}

/// The status that a field writes: an optional sign, then one or more decimal
/// digits and nothing else, of a value that a 32-bit signed integer holds.
/// Any other field writes no status.
pub open spec fn parse_i32(s: Seq<char>) -> Option<i32> {
    if magnitude(s).len() > 0 && all_digits(magnitude(s)) && i32::MIN <= signed_value(s)
        <= i32::MAX {
        Some(signed_value(s) as i32)
    } else {
        None
    }
}

/// Whether a field writes the status of a successful visit.
pub open spec fn is_success(status: Seq<char>) -> bool {
    parse_i32(status) == Some(STATUS_OK)
}

/// Reads a status field.
pub fn parse_status(status: &[char]) -> (parsed: Option<i32>)
    ensures
        parsed == parse_i32(status@),
{
    let n: usize = status.len();
    let negative: bool = n > 0 && status[0] == '-';
    let first: usize = if n > 0 && (status[0] == '+' || status[0] == '-') {
        1
    } else {
        0
    };
    if first == n {
        return None;
    }
    let ghost digits = magnitude(status@);
    let limit: i64 = 2147483648;
    let mut value: i64 = 0;
    let mut beyond: bool = false;
    let mut i: usize = first;
    while i < n
        invariant
            first <= i <= n,
            n == status.len(),
            first <= 1,
            digits == status@.skip(first as int),
            digits == magnitude(status@),
            limit == 2147483648,
            all_digits(digits.take(i - first)),
            0 <= decimal_value(digits.take(i - first)),
            beyond ==> decimal_value(digits.take(i - first)) > limit,
            !beyond ==> value == decimal_value(digits.take(i - first)) && value <= limit,
        decreases n - i,
    {
        let c: char = status[i];
        if !('0' <= c && c <= '9') {
            assert(digits[i - first] == c);
            return None;
        }
        let digit: i64 = (c as u32 - '0' as u32) as i64;
        proof {
            let longer = digits.take(i - first + 1);
            assert(longer.drop_last() == digits.take(i - first));
        }
        if !beyond {
            value = value * 10 + digit;
            if value > limit {
                beyond = true;
            }
        }
        i += 1;
    }
    assert(digits.take(n - first) == digits);
    if beyond {
        None
    } else if negative {
        Some((-value) as i32)
    } else if value == limit {
        None
    } else {
        Some(value as i32)
    }
}

} // verus!
