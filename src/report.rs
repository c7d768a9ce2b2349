//! The parts of the report that are decided from the statistics: durations
//! as hours and minutes, and which of two senders wrote more.

use vstd::prelude::*;
use vstd::string::StringExecFns;
use crate::decimal::{decimal_text, integer_text};

verus! {

/// Whole hours in `n` minutes, truncated toward zero.
pub open spec fn hours_of(n: int) -> int {
    if n >= 0 {
        n / 60
    } else {
        -((-n) / 60)
    }
}

/// The minutes left over after `hours_of(n)`, with the sign of `n`.
pub open spec fn minutes_of(n: int) -> int {
    if n >= 0 {
        n % 60
    } else {
        -((-n) % 60)
    }
}

/// "H hours and M minutes" for a duration of `n` minutes.
pub open spec fn duration_text(n: int) -> Seq<char> {
    decimal_text(hours_of(n)) + " hours and "@ + decimal_text(minutes_of(n)) + " minutes"@
}

/// The duration `duration`, in minutes, as "H hours and M minutes".
pub fn format_time(duration: i128) -> (r: String)
    ensures
        r@ == duration_text(duration as int),
{
    let magnitude: u128 = if duration >= 0 {
        duration as u128
    } else {
        (-(duration + 1)) as u128 + 1
    };
    let h: u128 = magnitude / 60;
    let m: u128 = magnitude % 60;
    let hours: i128 = if duration >= 0 {
        h as i128
    } else {
        -(h as i128)
    };
    let minutes: i128 = if duration >= 0 {
        m as i128
    } else {
        -(m as i128)
    };
    proof {
        reveal_strlit(" hours and ");
        reveal_strlit(" minutes");
    }
    let r = integer_text(hours).concat(" hours and ");
    let r = r.concat(integer_text(minutes).as_str());
    r.concat(" minutes")
}

/// Two senders of differing message counts: who wrote more, and who fewer.
pub struct Comparison {
    pub more: String,
    pub more_count: usize,
    pub fewer: String,
    pub fewer_count: usize,
}

/// The comparison of a table of exactly two senders whose counts differ;
/// `None` for any other table.
pub fn calculate_percentage_difference(individual_messages: &Vec<(String, usize)>) -> (r: Option<
    Comparison,
>)
    ensures
        r is Some <==> (individual_messages@.len() == 2 && individual_messages@[0].1
            != individual_messages@[1].1),
        r matches Some(c) ==> {
            let (a, b) = if individual_messages@[0].1 > individual_messages@[1].1 {
                (individual_messages@[0], individual_messages@[1])
            } else {
                (individual_messages@[1], individual_messages@[0])
            };
            &&& c.more@ == a.0@
            &&& c.more_count == a.1
            &&& c.fewer@ == b.0@
            &&& c.fewer_count == b.1
        },
{
    if individual_messages.len() != 2 {
        return None;
    }
    let (p1, c1) = (&individual_messages[0].0, individual_messages[0].1);
    let (p2, c2) = (&individual_messages[1].0, individual_messages[1].1);
    if c1 > c2 {
        Some(Comparison { more: p1.clone(), more_count: c1, fewer: p2.clone(), fewer_count: c2 })
    } else if c2 > c1 {
        Some(Comparison { more: p2.clone(), more_count: c2, fewer: p1.clone(), fewer_count: c1 })
    } else {
        None
    }
}

} // verus!
