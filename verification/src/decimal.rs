//! Decimal numerals: the text form of the integers that cursors carry.

use vstd::prelude::*;
use vstd::string::StringExecFns;

verus! {

/// `c` is one of `0` to `9`.
pub open spec fn is_digit(c: char) -> bool {
    48 <= c as u32 <= 57
}

/// The number that the digit `c` stands for.
pub open spec fn digit_value(c: char) -> nat {
    (c as u32 - 48) as nat
}

/// The digit that stands for `d`, for `d` below ten.
pub open spec fn digit_char(d: nat) -> char {
    if d == 0 {
        '0'
    } else if d == 1 {
        '1'
    } else if d == 2 {
        '2'
    } else if d == 3 {
        '3'
    } else if d == 4 {
        '4'
    } else if d == 5 {
        '5'
    } else if d == 6 {
        '6'
    } else if d == 7 {
        '7'
    } else if d == 8 {
        '8'
    } else {
        '9'
    }
}

/// Every character of `s` is a digit.
pub open spec fn all_digits(s: Seq<char>) -> bool {
    forall|i: int| 0 <= i < s.len() ==> is_digit(#[trigger] s[i])
}

/// The number that a run of digits denotes, most significant digit first.
pub open spec fn digits_value(s: Seq<char>) -> nat
    decreases s.len(),
{
    if s.len() == 0 {
        0
    } else {
        digits_value(s.drop_last()) * 10 + digit_value(s.last())
    }
}

/// The shortest run of digits that denotes `n`.
pub open spec fn decimal_digits(n: nat) -> Seq<char>
    decreases n,
{
    if n < 10 {
        seq![digit_char(n)]
    } else {
        decimal_digits(n / 10).push(digit_char(n % 10))
    }
}

/// The text of a signed number: a minus sign before the digits of a negative one.
pub open spec fn decimal_signed(v: int) -> Seq<char> {
    if v < 0 {
        seq!['-'] + decimal_digits((-v) as nat)
    } else {
        decimal_digits(v as nat)
    }
}

/// What is left of `s` once one leading `+` is taken off.
pub open spec fn strip_plus(s: Seq<char>) -> Seq<char> {
    if s.len() > 0 && s[0] == '+' {
        s.skip(1)
    } else {
        s
    }
}

/// What is left of `s` once one leading `+` or `-` is taken off.
pub open spec fn strip_sign(s: Seq<char>) -> Seq<char> {
    if s.len() > 0 && (s[0] == '+' || s[0] == '-') {
        s.skip(1)
    } else {
        s
    }
}

/// The unsigned 64-bit number that `s` spells: an optional `+`, then at least
/// one digit and nothing else, the value within range.
pub open spec fn parse_u64_spec(s: Seq<char>) -> Option<u64> {
    let body = strip_plus(s);
    if body.len() > 0 && all_digits(body) && digits_value(body) <= u64::MAX {
        Some(digits_value(body) as u64)
    } else {
        None
    }
}

/// The signed value that `s` would denote if its digits were well formed.
pub open spec fn signed_value(s: Seq<char>) -> int {
    if s.len() > 0 && s[0] == '-' {
        -(digits_value(strip_sign(s)) as int)
    } else {
        digits_value(strip_sign(s)) as int
    }
}

/// The signed 64-bit number that `s` spells: an optional `+` or `-`, then at
/// least one digit and nothing else, the value within range.
pub open spec fn parse_i64_spec(s: Seq<char>) -> Option<i64> {
    let body = strip_sign(s);
    if body.len() > 0 && all_digits(body) && i64::MIN <= signed_value(s) <= i64::MAX {
        Some(signed_value(s) as i64)
    } else {
        None
    }
}

/// A longer run of digits denotes no smaller a number than any of its prefixes.
pub proof fn lemma_digits_value_prefix(s: Seq<char>, k: int)
    requires
        0 <= k <= s.len(),
    ensures
        digits_value(s.take(k)) <= digits_value(s),
    decreases s.len(),
{
    if k == s.len() {
        assert(s.take(k) =~= s);
    } else {
        lemma_digits_value_prefix(s.drop_last(), k);
        assert(s.drop_last().take(k) =~= s.take(k));
    }
}

/// The digits of `n` are digits, and they denote `n`.
pub proof fn lemma_decimal_digits(n: nat)
    ensures
        decimal_digits(n).len() > 0,
        all_digits(decimal_digits(n)),
        digits_value(decimal_digits(n)) == n,
    decreases n,
{
    if n < 10 {
        let s = decimal_digits(n);
        assert(s.drop_last() =~= Seq::<char>::empty());
        assert(digits_value(s.drop_last()) == 0);
    } else {
        lemma_decimal_digits(n / 10);
        let p = decimal_digits(n / 10);
        let s = decimal_digits(n);
        assert(s.drop_last() =~= p);
        assert(s.last() == digit_char(n % 10));
    }
}

fn is_digit_char(c: char) -> (b: bool)
    ensures
        b == is_digit(c),
{
    let u: u32 = c as u32;
    48 <= u && u <= 57
}

/// The value of the digits `chars[start..]`, if there is at least one
/// character, all are digits, and the value fits.
pub fn parse_magnitude(chars: &Vec<char>, start: usize) -> (r: Option<u64>)
    requires
        start <= chars.len(),
    ensures
        r == (if start < chars.len() && all_digits(chars@.skip(start as int)) && digits_value(
            chars@.skip(start as int),
        ) <= u64::MAX {
            Some(digits_value(chars@.skip(start as int)) as u64)
        } else {
            None
        }),
{
    let n: usize = chars.len();
    if start >= n {
        return None;
    }
    let ghost body = chars@.skip(start as int);
    let mut acc: u64 = 0;
    let mut i: usize = start;
    while i < n
        invariant
            start <= i <= n,
            n == chars.len(),
            body == chars@.skip(start as int),
            all_digits(body.take(i - start)),
            acc == digits_value(body.take(i - start)),
        decreases n - i,
    {
        let c: char = chars[i];
        let ghost next = body.take(i - start + 1);
        proof {
            assert(next.drop_last() =~= body.take(i - start));
            assert(next.last() == c);
            assert(body[i - start] == c);
        }
        if !is_digit_char(c) {
            assert(!all_digits(body));
            return None;
        }
        let d: u64 = (c as u32 - 48) as u64;
        if acc > (u64::MAX - d) / 10 {
            proof {
                assert(digits_value(next) == acc * 10 + d);
                lemma_digits_value_prefix(body, i - start + 1);
            }
            return None;
        }
        acc = acc * 10 + d;
        i = i + 1;
        proof {
            assert forall|j: int| 0 <= j < next.len() implies is_digit(#[trigger] next[j]) by {
                if j < next.len() - 1 {
                    assert(body.take(i - 1 - start)[j] == next[j]);
                }
            }
        }
    }
    proof {
        assert(body.take(n - start) =~= body);
    }
    Some(acc)
}

/// Reads an unsigned 64-bit number as `str::parse::<u64>` does.
pub fn parse_u64(chars: &Vec<char>) -> (r: Option<u64>)
    ensures
        r == parse_u64_spec(chars@),
{
    let start: usize = if chars.len() > 0 && chars[0] == '+' {
        1
    } else {
        0
    };
    assert(chars@.skip(0) =~= chars@);
    parse_magnitude(chars, start)
}

/// Reads a signed 64-bit number as `str::parse::<i64>` does.
pub fn parse_i64(chars: &Vec<char>) -> (r: Option<i64>)
    ensures
        r == parse_i64_spec(chars@),
{
    let negative: bool = chars.len() > 0 && chars[0] == '-';
    let start: usize = if chars.len() > 0 && (chars[0] == '+' || chars[0] == '-') {
        1
    } else {
        0
    };
    assert(chars@.skip(0) =~= chars@);
    match parse_magnitude(chars, start) {
        None => None,
        Some(m) => {
            if negative {
                if m > 9223372036854775808u64 {
                    None
                } else if m == 9223372036854775808u64 {
                    Some(i64::MIN)
                } else {
                    Some(-(m as i64))
                }
            } else if m > 9223372036854775807u64 {
                None
            } else {
                Some(m as i64)
            }
        },
    }
}

fn digit_text(d: u64) -> (s: &'static str)
    requires
        d < 10,
    ensures
        s@ == seq![digit_char(d as nat)],
{
    proof {
        reveal_strlit("0");
        reveal_strlit("1");
        reveal_strlit("2");
        reveal_strlit("3");
        reveal_strlit("4");
        reveal_strlit("5");
        reveal_strlit("6");
        reveal_strlit("7");
        reveal_strlit("8");
        reveal_strlit("9");
    }
    let s: &'static str = if d == 0 {
        "0"
    } else if d == 1 {
        "1"
    } else if d == 2 {
        "2"
    } else if d == 3 {
        "3"
    } else if d == 4 {
        "4"
    } else if d == 5 {
        "5"
    } else if d == 6 {
        "6"
    } else if d == 7 {
        "7"
    } else if d == 8 {
        "8"
    } else {
        "9"
    };
    assert(s@ =~= seq![digit_char(d as nat)]);
    s
}

/// Appends the decimal digits of `v` to `out`.
pub fn push_decimal(out: &mut String, v: u64)
    ensures
        final(out)@ == old(out)@ + decimal_digits(v as nat),
    decreases v,
{
    if v >= 10 {
        push_decimal(out, v / 10);
    }
    out.append(digit_text(v % 10));
    proof {
        if v >= 10 {
            assert(old(out)@ + decimal_digits((v / 10) as nat) + seq![digit_char((v % 10) as nat)]
                =~= old(out)@ + decimal_digits(v as nat));
        }
    }
}

/// Appends the decimal text of the signed number `v` to `out`.
pub fn push_decimal_signed(out: &mut String, v: i64)
    ensures
        final(out)@ == old(out)@ + decimal_signed(v as int),
{
    if v < 0 {
        proof {
            reveal_strlit("-");
        }
        out.append("-");
        let m: u64 = (-(v as i128)) as u64;
        push_decimal(out, m);
        assert(old(out)@ + "-"@ + decimal_digits(m as nat) =~= old(out)@ + decimal_signed(v as int));
    } else {
        push_decimal(out, v as u64);
    }
}

} // verus!
