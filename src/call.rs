//! Finding the call duration announced in a message's text.

use vstd::prelude::*;
use crate::decimal::{decimal_digits, is_digit, lemma_decimal_digits, lemma_parse_decimal_text, parse_i32, parse_i32_spec};
use crate::text::{chars_of, find_from, find_spec, first_from, lemma_first_unique, occurs_at};

verus! {

/// The phrase that opens a call announcement.
pub open spec fn call_start() -> Seq<char> {
    "Started a call that lasted "@
}

/// The phrase that closes a call announcement.
pub open spec fn call_end() -> Seq<char> {
    " minutes."@
}

/// The duration announced in `c`: the text between the first opening phrase
/// and the next closing phrase after it, read as an `i32`.
pub open spec fn call_duration(c: Seq<char>) -> Option<int> {
    match find_spec(c, call_start(), 0) {
        Some(i) => {
            let b = i + call_start().len();
            match find_spec(c, call_end(), b) {
                Some(e) => parse_i32_spec(c.subrange(b, e)),
                None => None,
            }
        },
        None => None,
    }
}

/// The call duration, in minutes, that `content` announces, if any.
pub fn extract_call_duration(content: &str) -> (r: Option<i32>)
    ensures
        match r {
            Some(d) => call_duration(content@) == Some(d as int),
            None => call_duration(content@) is None,
        },
{
    let text = chars_of(content);
    let start = chars_of("Started a call that lasted ");
    let end = chars_of(" minutes.");
    proof {
        reveal_strlit("Started a call that lasted ");
        reveal_strlit(" minutes.");
    }
    match find_from(&text, &start, 0) {
        Some(i) => {
            proof {
                assert(text@.len() == text.len());
            }
            let b = i + start.len();
            match find_from(&text, &end, b) {
                Some(e) => {
                    let digits = content.substring_char(b, e);
                    parse_i32(digits)
                },
                None => None,
            }
        },
        None => None,
    }
}

/// The opening phrase cannot begin inside a text that does not contain it
/// and end inside a copy of the phrase that follows: only its first
/// character is an `S`.
proof fn lemma_no_straddling_start(before: Seq<char>, i: int)
    requires
        0 <= i < before.len(),
        forall|j: int| !occurs_at(before, call_start(), j),
    ensures
        !occurs_at(before + call_start(), call_start(), i),
{
    reveal_strlit("Started a call that lasted ");
    let s = call_start();
    let c = before + s;
    if occurs_at(c, s, i) {
        if i + s.len() <= before.len() {
            assert(before.subrange(i, i + s.len()) =~= c.subrange(i, i + s.len()));
            assert(occurs_at(before, s, i));
        } else {
            let k = before.len() - i;
            assert(0 < k < s.len());
            assert(c.subrange(i, i + s.len())[k] == c[before.len() as int]);
            assert(c[before.len() as int] == s[0]);
            assert(s[k] == 'S');
            assert(false);
        }
    }
}

/// A duration written between the two phrases is read back exactly, whatever
/// text stands before and after, provided the text before does not contain
/// the opening phrase.
pub proof fn lemma_extract_round_trip(before: Seq<char>, d: nat, after: Seq<char>)
    requires
        d <= i32::MAX,
        forall|i: int| !occurs_at(before, call_start(), i),
    ensures
        call_duration(before + call_start() + decimal_digits(d) + call_end() + after) == Some(
            d as int,
        ),
{
    reveal_strlit("Started a call that lasted ");
    reveal_strlit(" minutes.");
    let s = call_start();
    let m = call_end();
    let digits = decimal_digits(d);
    let c = before + s + digits + m + after;
    let p = before.len() as int;
    let b = p + s.len();
    let e = b + digits.len();
    lemma_decimal_digits(d);
    lemma_parse_decimal_text(d);

    assert(c.subrange(p, b) =~= s);
    assert forall|i: int| 0 <= i < p implies !occurs_at(c, s, i) by {
        lemma_no_straddling_start(before, i);
        assert(!occurs_at(before + s, s, i));
        assert(c.subrange(i, i + s.len()) =~= (before + s).subrange(i, i + s.len()));
    }
    assert(first_from(c, s, 0, p));
    let i0 = choose|i: int| first_from(c, s, 0, i);
    lemma_first_unique(c, s, 0, p, i0);
    assert(find_spec(c, s, 0) == Some(p));

    assert(c.subrange(e, e + m.len()) =~= m);
    assert forall|j: int| b <= j < e implies !occurs_at(c, m, j) by {
        assert(c[j] == digits[j - b]);
        assert(is_digit(digits[j - b]));
        if occurs_at(c, m, j) {
            assert(c.subrange(j, j + m.len())[0] == m[0]);
        }
    }
    assert(first_from(c, m, b, e));
    let e0 = choose|j: int| first_from(c, m, b, j);
    lemma_first_unique(c, m, b, e, e0);
    assert(find_spec(c, m, b) == Some(e));
    assert(c.subrange(b, e) =~= digits);
}

} // verus!
