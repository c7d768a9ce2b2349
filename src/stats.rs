//! Aggregating a sequence of messages into statistics.

use vstd::prelude::*;
use crate::call::{call_duration, extract_call_duration};

verus! {

/// One message of an archive, with the two fields the statistics read.
pub struct Message {
    /// The sender's nickname, where the record gives one as text.
    pub nickname: Option<String>,
    /// The message body, where the record gives one as text.
    pub content: Option<String>,
}

/// A message as values: the nickname and the body, where given.
pub struct MessageView {
    pub nickname: Option<Seq<char>>,
    pub content: Option<Seq<char>>,
}

/// The characters of an optional string.
pub open spec fn text_view(o: Option<String>) -> Option<Seq<char>> {
    match o {
        Some(t) => Some(t@),
        None => None,
    }
}

impl View for Message {
    type V = MessageView;

    open spec fn view(&self) -> MessageView {
        MessageView { nickname: text_view(self.nickname), content: text_view(self.content) }
    }
}

/// The messages of `msgs`, as values.
pub open spec fn messages_view(msgs: Seq<Message>) -> Seq<MessageView> {
    msgs.map_values(|m: Message| m@)
}

/// Statistics over an archive.
pub struct DiscordStats {
    /// Messages that carry a textual body.
    pub total_messages: usize,
    /// Each sender's nickname with the number of messages it sent, in the
    /// order in which the nicknames first appear; no nickname twice.
    pub individual_messages: Vec<(String, usize)>,
    /// Sum of all announced call durations, in minutes.
    pub total_call_duration: i128,
    /// The longest announced call, in minutes; 0 when no call is announced.
    pub longest_call: i32,
}

/// The call duration that message `m` announces, if any.
pub open spec fn message_duration(m: MessageView) -> Option<int> {
    match m.content {
        Some(c) => call_duration(c),
        None => None,
    }
}

/// Number of messages in `ms` that carry a textual body.
pub open spec fn content_count(ms: Seq<MessageView>) -> nat
    decreases ms.len(),
{
    if ms.len() == 0 {
        0
    } else {
        content_count(ms.drop_last()) + if ms.last().content is Some {
            1nat
        } else {
            0nat
        }
    }
}

/// Sum of the durations announced in `ms`.
pub open spec fn total_duration(ms: Seq<MessageView>) -> int
    decreases ms.len(),
{
    if ms.len() == 0 {
        0
    } else {
        total_duration(ms.drop_last()) + match message_duration(ms.last()) {
            Some(d) => d,
            None => 0,
        }
    }
}

/// Some message of `ms` announces a call duration.
pub open spec fn has_call(ms: Seq<MessageView>) -> bool {
    exists|i: int| 0 <= i < ms.len() && (#[trigger] message_duration(ms[i])) is Some
}

/// The largest of the durations announced in `ms`, and 0 where none is.
pub open spec fn longest_duration(ms: Seq<MessageView>) -> int
    decreases ms.len(),
{
    if ms.len() == 0 {
        0
    } else {
        let p = ms.drop_last();
        let l = longest_duration(p);
        match message_duration(ms.last()) {
            Some(d) => if has_call(p) && l >= d {
                l
            } else {
                d
            },
            None => l,
        }
    }
}

/// A sequence with a call announced is one with a call announced before its
/// last message, or in that message.
pub proof fn lemma_has_call_step(ms: Seq<MessageView>)
    requires
        ms.len() > 0,
    ensures
        has_call(ms) == (has_call(ms.drop_last()) || message_duration(ms.last()) is Some),
{
    let p = ms.drop_last();
    if has_call(p) {
        let i = choose|i: int| 0 <= i < p.len() && (#[trigger] message_duration(p[i])) is Some;
        assert(ms[i] == p[i]);
    }
    if has_call(ms) {
        let i = choose|i: int| 0 <= i < ms.len() && (#[trigger] message_duration(ms[i])) is Some;
        if i < p.len() {
            assert(ms[i] == p[i]);
        }
    }
    if message_duration(ms.last()) is Some {
        assert(message_duration(ms[ms.len() - 1]) is Some);
    }
}

/// Number of messages in `ms` sent under nickname `n`.
pub open spec fn author_count(ms: Seq<MessageView>, n: Seq<char>) -> nat
    decreases ms.len(),
{
    if ms.len() == 0 {
        0
    } else {
        author_count(ms.drop_last(), n) + match ms.last().nickname {
            Some(k) => if k == n {
                1nat
            } else {
                0nat
            },
            None => 0nat,
        }
    }
}

/// `i` is the first position of key `n` in table `t`.
pub open spec fn first_key(t: Seq<(Seq<char>, nat)>, n: Seq<char>, i: int) -> bool {
    0 <= i < t.len() && t[i].0 == n && forall|j: int| 0 <= j < i ==> t[j].0 != n
}

/// Table `t` with one more message counted for nickname `n`.
pub open spec fn bump(t: Seq<(Seq<char>, nat)>, n: Seq<char>) -> Seq<(Seq<char>, nat)> {
    if exists|i: int| first_key(t, n, i) {
        let i = choose|i: int| first_key(t, n, i);
        t.update(i, (n, t[i].1 + 1))
    } else {
        t.push((n, 1))
    }
}

/// The per-nickname counts of `ms`, nicknames in order of first appearance.
pub open spec fn author_table(ms: Seq<MessageView>) -> Seq<(Seq<char>, nat)>
    decreases ms.len(),
{
    if ms.len() == 0 {
        Seq::empty()
    } else {
        let t = author_table(ms.drop_last());
        match ms.last().nickname {
            Some(n) => bump(t, n),
            None => t,
        }
    }
}

/// A table of nicknames and counts, as values.
pub open spec fn table_view(v: Seq<(String, usize)>) -> Seq<(Seq<char>, nat)> {
    v.map_values(|e: (String, usize)| (e.0@, e.1 as nat))
}

/// `s` holds the statistics of the messages `ms`.
pub open spec fn summarizes(s: DiscordStats, ms: Seq<MessageView>) -> bool {
    &&& s.total_messages == content_count(ms)
    &&& table_view(s.individual_messages@) == author_table(ms)
    &&& s.total_call_duration == total_duration(ms)
    &&& s.longest_call == longest_duration(ms)
}

/// Counts one more message for nickname `n`.
fn count_author(table: &mut Vec<(String, usize)>, n: &String)
    requires
        forall|k: int| 0 <= k < old(table)@.len() ==> old(table)@[k].1 < usize::MAX,
    ensures
        table_view(final(table)@) == bump(table_view(old(table)@), n@),
        forall|k: int|
            0 <= k < final(table)@.len() ==> final(table)@[k].1 == 1 || (k < old(table)@.len()
                && final(table)@[k].1 <= old(table)@[k].1 + 1),
{
    let ghost t0 = table_view(table@);
    let mut j: usize = 0;
    while j < table.len()
        invariant
            table@ == old(table)@,
            forall|k: int| 0 <= k < table@.len() ==> table@[k].1 < usize::MAX,
            t0 == table_view(table@),
            forall|k: int| 0 <= k < j ==> t0[k].0 != n@,
        decreases table@.len() - j,
    {
        if table[j].0 == *n {
            proof {
                assert(first_key(t0, n@, j as int));
                let c = choose|c: int| first_key(t0, n@, c);
                assert(c == j);
            }
            let c: usize = table[j].1;
            let key = table[j].0.clone();
            table.set(j, (key, c + 1));
            proof {
                assert(table_view(table@) =~= bump(t0, n@));
            }
            return;
        }
        j = j + 1;
    }
    table.push((n.clone(), 1));
    proof {
        assert(!exists|i: int| first_key(t0, n@, i));
        assert(table_view(table@) =~= bump(t0, n@));
    }
}

/// Statistics over `msgs`: the messages with a body, each nickname's
/// message count, and the sum and maximum of the announced call durations.
pub fn summarize_messages(msgs: &Vec<Message>) -> (r: DiscordStats)
    ensures
        summarizes(r, messages_view(msgs@)),
{
    let ghost ms = messages_view(msgs@);
    let mut total_messages: usize = 0;
    let mut individual_messages: Vec<(String, usize)> = Vec::new();
    let mut total_call_duration: i128 = 0;
    let mut longest_call: i32 = 0;
    let mut found: bool = false;
    let mut i: usize = 0;
    let n: usize = msgs.len();
    while i < n
        invariant
            ms == messages_view(msgs@),
            n == ms.len(),
            i <= ms.len(),
            total_messages == content_count(ms.subrange(0, i as int)),
            total_messages <= i,
            table_view(individual_messages@) == author_table(ms.subrange(0, i as int)),
            forall|k: int|
                0 <= k < individual_messages@.len() ==> individual_messages@[k].1 <= i,
            total_call_duration == total_duration(ms.subrange(0, i as int)),
            -(i as int) * 0x8000_0000 <= total_call_duration <= (i as int) * 0x8000_0000,
            longest_call == longest_duration(ms.subrange(0, i as int)),
            found == has_call(ms.subrange(0, i as int)),
        decreases ms.len() - i,
    {
        let ghost prev = ms.subrange(0, i as int);
        let ghost next = ms.subrange(0, i + 1);
        proof {
            assert(next.drop_last() =~= prev);
            assert(next.last() == ms[i as int]);
            assert(ms[i as int] == msgs@[i as int]@);
            lemma_has_call_step(next);
        }
        let m = &msgs[i];
        let ghost t_prev = individual_messages@;
        match &m.nickname {
            Some(n) => {
                count_author(&mut individual_messages, n);
            },
            None => {},
        }
        proof {
            assert forall|k: int| 0 <= k < individual_messages@.len() implies individual_messages@[k].1
                <= i + 1 by {
                if k < t_prev.len() {
                    assert(t_prev[k].1 <= i);
                }
            }
        }
        match &m.content {
            Some(c) => {
                total_messages = total_messages + 1;
                match extract_call_duration(c.as_str()) {
                    Some(d) => {
                        total_call_duration = total_call_duration + d as i128;
                        if !found || d > longest_call {
                            longest_call = d;
                        }
                        found = true;
                    },
                    None => {},
                }
            },
            None => {},
        }
        i = i + 1;
    }
    proof {
        assert(ms.subrange(0, ms.len() as int) =~= ms);
    }
    DiscordStats { total_messages, individual_messages, total_call_duration, longest_call }
}

} // verus!
