//! Properties of the statistics that hold for every archive.

use vstd::prelude::*;
use crate::archive::{archive_messages, field_of, json_of, JsonView};
use crate::stats::{
    author_count, author_table, first_key, has_call, lemma_has_call_step, longest_duration, message_duration, summarizes,
    table_view, total_duration, DiscordStats, MessageView,
};

verus! {

/// An archive without messages has no messages with a body, no senders, and
/// no call time.
pub proof fn lemma_no_messages(s: DiscordStats)
    requires
        summarizes(s, Seq::empty()),
    ensures
        s.total_messages == 0,
        s.individual_messages@.len() == 0,
        s.total_call_duration == 0,
        s.longest_call == 0,
{
    assert(table_view(s.individual_messages@).len() == 0);
}

/// The statistics of a sequence of messages are determined by it: two
/// summaries of the same messages agree in every field.
pub proof fn lemma_summary_unique(s1: DiscordStats, s2: DiscordStats, ms: Seq<MessageView>)
    requires
        summarizes(s1, ms),
        summarizes(s2, ms),
    ensures
        s1.total_messages == s2.total_messages,
        s1.individual_messages@.len() == s2.individual_messages@.len(),
        forall|i: int|
            0 <= i < s1.individual_messages@.len() ==> s1.individual_messages@[i].0@
                == s2.individual_messages@[i].0@ && s1.individual_messages@[i].1
                == s2.individual_messages@[i].1,
        s1.total_call_duration == s2.total_call_duration,
        s1.longest_call == s2.longest_call,
{
    let t1 = table_view(s1.individual_messages@);
    let t2 = table_view(s2.individual_messages@);
    assert(t1.len() == s1.individual_messages@.len());
    assert(t2.len() == s2.individual_messages@.len());
    assert forall|i: int| 0 <= i < s1.individual_messages@.len() implies s1.individual_messages@[i].0@
        == s2.individual_messages@[i].0@ && s1.individual_messages@[i].1
        == s2.individual_messages@[i].1 by {
        assert(t1[i] == t2[i]);
        assert(t1[i].0 == s1.individual_messages@[i].0@);
        assert(t2[i].0 == s2.individual_messages@[i].0@);
    }
}

/// Parsing the same archive text twice gives the same statistics: any two
/// results that `parse_archive` may return for `text` agree in every field.
pub proof fn lemma_parse_repeatable(text: Seq<char>, s1: DiscordStats, s2: DiscordStats)
    requires
        json_of(text) is Some,
        summarizes(s1, archive_messages(json_of(text)->0)),
        summarizes(s2, archive_messages(json_of(text)->0)),
    ensures
        s1.total_messages == s2.total_messages,
        s1.individual_messages@.len() == s2.individual_messages@.len(),
        forall|i: int|
            0 <= i < s1.individual_messages@.len() ==> s1.individual_messages@[i].0@
                == s2.individual_messages@[i].0@ && s1.individual_messages@[i].1
                == s2.individual_messages@[i].1,
        s1.total_call_duration == s2.total_call_duration,
        s1.longest_call == s2.longest_call,
{
    lemma_summary_unique(s1, s2, archive_messages(json_of(text)->0));
}

/// A document whose `messages` member is missing or is not an array has no
/// messages, so its statistics are those of an empty archive.
pub proof fn lemma_no_message_array(doc: JsonView, s: DiscordStats)
    requires
        !(field_of(doc, "messages"@) is Some && field_of(doc, "messages"@)->0 is Arr),
        summarizes(s, archive_messages(doc)),
    ensures
        archive_messages(doc).len() == 0,
        s.total_messages == 0,
        s.individual_messages@.len() == 0,
        s.total_call_duration == 0,
        s.longest_call == 0,
{
    assert(archive_messages(doc) =~= Seq::<MessageView>::empty());
    lemma_no_messages(s);
}

/// The longest call is the maximum of the announced durations: none is
/// longer, one of them equals it, and it is 0 when no call is announced.
pub proof fn lemma_longest_is_maximum(ms: Seq<MessageView>)
    ensures
        !has_call(ms) ==> longest_duration(ms) == 0,
        forall|i: int|
            0 <= i < ms.len() ==> (#[trigger] message_duration(ms[i])) is Some ==> message_duration(
                ms[i],
            )->0 <= longest_duration(ms),
        has_call(ms) ==> exists|i: int|
            0 <= i < ms.len() && #[trigger] message_duration(ms[i]) == Some(longest_duration(ms)),
    decreases ms.len(),
{
    if ms.len() > 0 {
        let p = ms.drop_last();
        let last = ms.len() - 1;
        lemma_longest_is_maximum(p);
        lemma_has_call_step(ms);
        assert(ms.last() == ms[last]);
        assert forall|i: int|
            0 <= i < ms.len() && (#[trigger] message_duration(ms[i])) is Some implies message_duration(
            ms[i],
        )->0 <= longest_duration(ms) by {
            if i < last {
                assert(ms[i] == p[i]);
            }
        }
        if has_call(ms) {
            if has_call(p) && (message_duration(ms[last]) is None || longest_duration(p)
                >= message_duration(ms[last])->0) {
                let j = choose|j: int|
                    0 <= j < p.len() && #[trigger] message_duration(p[j]) == Some(
                        longest_duration(p),
                    );
                assert(ms[j] == p[j]);
            } else {
                assert(message_duration(ms[last]) == Some(longest_duration(ms)));
            }
        }
    }
}

/// Message `m` announces no negative duration.
pub open spec fn nonnegative_call(m: MessageView) -> bool {
    match message_duration(m) {
        Some(d) => d >= 0,
        None => true,
    }
}

/// Where no announced duration is negative, the total call time is at least
/// the longest call, which is at least 0.
pub proof fn lemma_total_covers_longest(ms: Seq<MessageView>)
    requires
        forall|i: int| 0 <= i < ms.len() ==> nonnegative_call(#[trigger] ms[i]),
    ensures
        total_duration(ms) >= longest_duration(ms) >= 0,
    decreases ms.len(),
{
    if ms.len() > 0 {
        let p = ms.drop_last();
        assert forall|i: int| 0 <= i < p.len() implies nonnegative_call(#[trigger] p[i]) by {
            assert(p[i] == ms[i]);
        }
        lemma_total_covers_longest(p);
        assert(nonnegative_call(ms[ms.len() - 1]));
    }
}

/// The per-sender table lists each nickname once, counts for each exactly
/// the messages sent under it (at least one), and omits no sender.
pub proof fn lemma_author_table(ms: Seq<MessageView>)
    ensures
        forall|i: int, j: int|
            0 <= i < j < author_table(ms).len() ==> author_table(ms)[i].0 != author_table(ms)[j].0,
        forall|i: int|
            0 <= i < author_table(ms).len() ==> author_table(ms)[i].1 == author_count(
                ms,
                author_table(ms)[i].0,
            ) && author_table(ms)[i].1 > 0,
        forall|n: Seq<char>|
            author_count(ms, n) > 0 ==> exists|i: int|
                0 <= i < author_table(ms).len() && author_table(ms)[i].0 == n,
    decreases ms.len(),
{
    if ms.len() > 0 {
        let p = ms.drop_last();
        lemma_author_table(p);
        let t = author_table(p);
        match ms.last().nickname {
            None => {
                assert forall|k: Seq<char>| author_count(ms, k) == author_count(p, k) by {}
            },
            Some(n) => {
                assert forall|k: Seq<char>|
                    author_count(ms, k) == author_count(p, k) + if k == n {
                        1int
                    } else {
                        0int
                    } by {}
                if exists|i: int| first_key(t, n, i) {
                    let i0 = choose|i: int| first_key(t, n, i);
                    let t2 = t.update(i0, (n, t[i0].1 + 1));
                    assert(author_table(ms) == t2);
                    assert forall|n2: Seq<char>| author_count(ms, n2) > 0 implies exists|i: int|
                        0 <= i < t2.len() && t2[i].0 == n2 by {
                        if n2 == n {
                            assert(t2[i0].0 == n2);
                        } else {
                            let j = choose|j: int| 0 <= j < t.len() && t[j].0 == n2;
                            assert(t2[j].0 == n2);
                        }
                    }
                } else {
                    let t2 = t.push((n, 1));
                    assert(author_table(ms) == t2);
                    assert forall|i: int| 0 <= i < t.len() implies t[i].0 != n by {
                        if t[i].0 == n {
                            assert(first_key(t, n, i));
                        }
                    }
                    assert(author_count(p, n) == 0);
                    assert forall|n2: Seq<char>| author_count(ms, n2) > 0 implies exists|i: int|
                        0 <= i < t2.len() && t2[i].0 == n2 by {
                        if n2 == n {
                            assert(t2[t.len() as int].0 == n2);
                        } else {
                            let j = choose|j: int| 0 <= j < t.len() && t[j].0 == n2;
                            assert(t2[j].0 == n2);
                        }
                    }
                }
            },
        }
    }
}

} // verus!
