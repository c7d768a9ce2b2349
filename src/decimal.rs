//! Decimal integers as text: what a signed 32-bit integer parses from, and
//! how an integer is written.

use vstd::prelude::*;
use vstd::string::StringExecFns;
use crate::text::chars_of;

verus! {

pub open spec fn is_digit(c: char) -> bool {
    '0' <= c && c <= '9'
}

pub open spec fn all_digits(s: Seq<char>) -> bool {
    forall|i: int| 0 <= i < s.len() ==> is_digit(#[trigger] s[i])
}

pub open spec fn digit_value(c: char) -> int {
    c as int - '0' as int
}

/// The number that a sequence of decimal digits denotes (most significant first).
pub open spec fn digits_value(s: Seq<char>) -> int
    decreases s.len(),
{
    if s.len() == 0 {
        0
    } else {
        digits_value(s.drop_last()) * 10 + digit_value(s.last())
    }
}

/// The value of an optional sign followed by one or more decimal digits.
pub open spec fn signed_value(s: Seq<char>) -> Option<int> {
    if s.len() > 0 && (s[0] == '-' || s[0] == '+') {
        let d = s.drop_first();
        if d.len() > 0 && all_digits(d) {
            Some(if s[0] == '-' { -digits_value(d) } else { digits_value(d) })
        } else {
            None
        }
    } else if s.len() > 0 && all_digits(s) {
        Some(digits_value(s))
    } else {
        None
    }
}

/// The `i32` that the text denotes: a signed decimal within the type's range.
pub open spec fn parse_i32_spec(s: Seq<char>) -> Option<int> {
    match signed_value(s) {
        Some(v) => if i32::MIN <= v <= i32::MAX {
            Some(v)
        } else {
            None
        },
        None => None,
    }
}

/// The decimal digit for `d` in `0..10`.
pub open spec fn digit_char(d: int) -> char {
    ((d + '0' as int) as u32) as char
}

/// The shortest decimal digits of `n`.
pub open spec fn decimal_digits(n: nat) -> Seq<char>
    decreases n,
{
    if n < 10 {
        seq![digit_char(n as int)]
    } else {
        decimal_digits(n / 10).push(digit_char((n % 10) as int))
    }
}

/// `n` written in decimal, with a leading `-` when negative.
pub open spec fn decimal_text(n: int) -> Seq<char> {
    if n < 0 {
        seq!['-'] + decimal_digits((-n) as nat)
    } else {
        decimal_digits(n as nat)
    }
}

/// The decimal digits of `n` are digits, at least one, and denote `n`.
pub proof fn lemma_decimal_digits(n: nat)
    ensures
        decimal_digits(n).len() > 0,
        all_digits(decimal_digits(n)),
        digits_value(decimal_digits(n)) == n,
    decreases n,
{
    let s = decimal_digits(n);
    assert(digit_value(digit_char((n % 10) as int)) == n % 10);
    assert(s.last() == digit_char((n % 10) as int));
    if n < 10 {
        assert(s.drop_last() =~= Seq::<char>::empty());
        assert(digits_value(s.drop_last()) == 0);
    } else {
        lemma_decimal_digits(n / 10);
        assert(s.drop_last() =~= decimal_digits(n / 10));
        assert(n == (n / 10) * 10 + n % 10);
    }
}

/// The text of a non-negative `i32` parses back to it.
pub proof fn lemma_parse_decimal_text(n: nat)
    requires
        n <= i32::MAX,
    ensures
        parse_i32_spec(decimal_digits(n)) == Some(n as int),
{
    lemma_decimal_digits(n);
    let s = decimal_digits(n);
    assert(is_digit(s[0]));
}

/// Digit values are at least 0, and a longer run of digits is worth at
/// least as much as any of its prefixes.
pub proof fn lemma_digits_prefix(s: Seq<char>, k: int)
    requires
        all_digits(s),
        0 <= k <= s.len(),
    ensures
        0 <= digits_value(s.subrange(0, k)) <= digits_value(s),
    decreases s.len(),
{
    if s.len() > 0 {
        let p = s.drop_last();
        assert(is_digit(s[s.len() - 1]));
        if k == s.len() {
            assert(s.subrange(0, k) =~= s);
            lemma_digits_prefix(p, p.len() as int);
            assert(p.subrange(0, p.len() as int) =~= p);
        } else {
            lemma_digits_prefix(p, k);
            assert(p.subrange(0, k) =~= s.subrange(0, k));
            lemma_digits_prefix(p, p.len() as int);
            assert(p.subrange(0, p.len() as int) =~= p);
        }
    } else {
        assert(s.subrange(0, k) =~= s);
    }
}

/// The `i32` that `s` denotes: an optional `+` or `-`, then one or more
/// ASCII digits whose value fits in `i32`.
pub fn parse_i32(s: &str) -> (r: Option<i32>)
    ensures
        match r {
            Some(v) => parse_i32_spec(s@) == Some(v as int),
            None => parse_i32_spec(s@) is None,
        },
{
    let c = chars_of(s);
    let n: usize = c.len();
    if n == 0 {
        return None;
    }
    let negative = c[0] == '-';
    let start: usize = if c[0] == '-' || c[0] == '+' {
        1
    } else {
        0
    };
    if start == n {
        return None;
    }
    let ghost d = c@.subrange(start as int, n as int);
    proof {
        if start == 1 {
            assert(d =~= c@.drop_first());
        } else {
            assert(d =~= c@);
        }
    }
    let mut v: i64 = 0;
    let mut i: usize = start;
    while i < n
        invariant
            c@ == s@,
            n == c@.len(),
            start <= i <= n,
            start <= 1,
            d == c@.subrange(start as int, n as int),
            start == 1 ==> d == c@.drop_first(),
            start == 0 ==> d == c@,
            n > 0,
            (start == 1) == (c@[0] == '-' || c@[0] == '+'),
            negative == (c@[0] == '-'),
            all_digits(d.subrange(0, i - start)),
            v == digits_value(d.subrange(0, i - start)),
            0 <= v <= 0x8000_0000,
        decreases n - i,
    {
        let ch = c[i];
        if !('0' <= ch && ch <= '9') {
            proof {
                assert(!is_digit(d[i - start]));
                assert(!all_digits(d));
            }
            return None;
        }
        let ghost prev = d.subrange(0, i - start);
        let ghost next = d.subrange(0, i + 1 - start);
        proof {
            assert(next.drop_last() =~= prev);
            assert(next.last() == ch);
        }
        v = v * 10 + (ch as i64 - '0' as i64);
        proof {
            assert(all_digits(next));
        }
        if v > 0x8000_0000 {
            proof {
                if all_digits(d) {
                    lemma_digits_prefix(d, i + 1 - start);
                    assert(digits_value(d) > 0x8000_0000);
                }
            }
            return None;
        }
        i = i + 1;
    }
    proof {
        assert(d.subrange(0, n - start) =~= d);
    }
    if negative {
        Some((-v) as i32)
    } else if v > 0x7fff_ffff {
        None
    } else {
        Some(v as i32)
    }
}

/// The one-character text of the digit `d`.
fn digit_str(d: u128) -> (r: &'static str)
    requires
        d < 10,
    ensures
        r@ =~= seq![digit_char(d as int)],
{
    proof {
        reveal_strlit("0");
        reveal_strlit("1");
        reveal_strlit("2");
        reveal_strlit("3");
        reveal_strlit("4");
        reveal_strlit("5");
        reveal_strlit("6");
        reveal_strlit("7");
        reveal_strlit("8");
        reveal_strlit("9");
    }
    if d == 0 {
        "0"
    } else if d == 1 {
        "1"
    } else if d == 2 {
        "2"
    } else if d == 3 {
        "3"
    } else if d == 4 {
        "4"
    } else if d == 5 {
        "5"
    } else if d == 6 {
        "6"
    } else if d == 7 {
        "7"
    } else if d == 8 {
        "8"
    } else {
        "9"
    }
}

/// `n` written in decimal, with a leading `-` when negative.
pub fn integer_text(n: i128) -> (r: String)
    ensures
        r@ == decimal_text(n as int),
{
    let magnitude: u128 = if n >= 0 {
        n as u128
    } else {
        (-(n + 1)) as u128 + 1
    };
    let mut m: u128 = magnitude;
    let mut acc = String::new();
    while m >= 10
        invariant
            decimal_digits(magnitude as nat) == decimal_digits(m as nat) + acc@,
        decreases m,
    {
        let ghost before = acc@;
        acc = String::from_str(digit_str(m % 10)).concat(acc.as_str());
        proof {
            assert(decimal_digits(m as nat) == decimal_digits((m / 10) as nat).push(
                digit_char((m % 10) as int),
            ));
            assert(decimal_digits((m / 10) as nat) + acc@ =~= decimal_digits(m as nat) + before);
        }
        m = m / 10;
    }
    let digits = String::from_str(digit_str(m)).concat(acc.as_str());
    proof {
        assert(digits@ =~= decimal_digits(m as nat) + acc@);
        reveal_strlit("-");
    }
    if n < 0 {
        let r = String::from_str("-").concat(digits.as_str());
        proof {
            assert(r@ =~= seq!['-'] + digits@);
        }
        r
    } else {
        digits
    }
}

} // verus!
