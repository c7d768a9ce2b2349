//! Reading an archive document: the JSON decoding is serde_json's, the
//! choice of fields and the tolerance for missing ones are this module's.

use vstd::prelude::*;
use crate::stats::{messages_view, summarize_messages, summarizes, DiscordStats, Message, MessageView};

verus! {

#[verifier::external_type_specification]
#[verifier::external_body]
pub struct ExValue(serde_json::Value);

#[verifier::external_type_specification]
#[verifier::external_body]
pub struct ExJsonError(serde_json::Error);

/// A JSON value as a mathematical tree. Numbers are not read here, so their
/// value is left out.
pub enum JsonView {
    Null,
    Bool(bool),
    Number,
    Str(Seq<char>),
    Arr(Seq<JsonView>),
    Obj(Map<Seq<char>, JsonView>),
}

/// The tree that a serde_json value holds.
pub uninterp spec fn json_view(v: serde_json::Value) -> JsonView;

/// The document that serde_json decodes from `text`, or `None` where `text`
/// is not one JSON document.
pub uninterp spec fn json_of(text: Seq<char>) -> Option<JsonView>;

/// The archive text is not a JSON document.
pub struct FormatError {}

/// Relies on `serde_json::from_str`: decodes `text` as one JSON document, or
/// reports that it is not one; the outcome depends on the text alone.
#[verifier::external_body]
fn decode_json(text: &str) -> (r: Result<serde_json::Value, serde_json::Error>)
    ensures
        r is Ok <==> json_of(text@) is Some,
        r matches Ok(v) ==> json_of(text@) == Some(json_view(v)),
{
    serde_json::from_str(text)
}

/// Relies on `serde_json::Value::get` with a `&str` index: the member named
/// `key` of an object; `None` for a missing member or a value of another kind.
#[verifier::external_body]
fn member<'a>(v: &'a serde_json::Value, key: &str) -> (r: Option<&'a serde_json::Value>)
    ensures
        r is Some <==> (json_view(*v) is Obj && json_view(*v)->Obj_0.contains_key(key@)),
        r matches Some(x) ==> json_view(*x) == json_view(*v)->Obj_0[key@],
{
    v.get(key)
}

/// Relies on `serde_json::Value::as_array`: the elements of an array, and
/// `None` for a value of another kind.
#[verifier::external_body]
fn as_sequence(v: &serde_json::Value) -> (r: Option<&Vec<serde_json::Value>>)
    ensures
        r is Some <==> json_view(*v) is Arr,
        r matches Some(a) ==> a@.len() == json_view(*v)->Arr_0.len() && forall|i: int|
            0 <= i < a@.len() ==> json_view(#[trigger] a@[i]) == json_view(*v)->Arr_0[i],
{
    v.as_array()
}

/// Relies on `serde_json::Value::as_str`: the text of a string value, and
/// `None` for a value of another kind.
#[verifier::external_body]
fn as_text(v: &serde_json::Value) -> (r: Option<String>)
    ensures
        r is Some <==> json_view(*v) is Str,
        r matches Some(t) ==> t@ == json_view(*v)->Str_0,
{
    v.as_str().map(|s| s.to_string())
}

/// The member `key` of `j`, where `j` is an object that has one.
pub open spec fn field_of(j: JsonView, key: Seq<char>) -> Option<JsonView> {
    match j {
        JsonView::Obj(m) => if m.contains_key(key) {
            Some(m[key])
        } else {
            None
        },
        _ => None,
    }
}

/// The text of `j`, where `j` is a string.
pub open spec fn text_of(j: Option<JsonView>) -> Option<Seq<char>> {
    match j {
        Some(JsonView::Str(t)) => Some(t),
        _ => None,
    }
}

/// The message that record `j` describes: the text of its
/// `author.nickname`, and the text of its `content`.
pub open spec fn record_view(j: JsonView) -> MessageView {
    MessageView {
        nickname: match field_of(j, "author"@) {
            Some(a) => text_of(field_of(a, "nickname"@)),
            None => None,
        },
        content: text_of(field_of(j, "content"@)),
    }
}

/// The records of an archive document: the elements of its `messages`
/// array, and none where it has no such array.
pub open spec fn archive_records(doc: JsonView) -> Seq<JsonView> {
    match field_of(doc, "messages"@) {
        Some(JsonView::Arr(items)) => items,
        _ => Seq::empty(),
    }
}

/// The messages of an archive document, in order.
pub open spec fn archive_messages(doc: JsonView) -> Seq<MessageView> {
    archive_records(doc).map_values(|j: JsonView| record_view(j))
}

/// The nickname under `author` and the `content` of one message record;
/// a field that is missing or not text is `None`.
pub fn read_message(v: &serde_json::Value) -> (r: Message)
    ensures
        r@ == record_view(json_view(*v)),
{
    proof {
        reveal_strlit("author");
        reveal_strlit("nickname");
        reveal_strlit("content");
    }
    let nickname = match member(v, "author") {
        Some(author) => match member(author, "nickname") {
            Some(n) => as_text(n),
            None => None,
        },
        None => None,
    };
    let content = match member(v, "content") {
        Some(c) => as_text(c),
        None => None,
    };
    Message { nickname, content }
}

/// The message records of an archive document: the elements of its
/// `messages` array, or none where there is no such array.
pub fn read_messages(doc: &serde_json::Value) -> (r: Vec<Message>)
    ensures
        messages_view(r@) == archive_messages(json_view(*doc)),
{
    proof {
        reveal_strlit("messages");
    }
    let ghost target = archive_messages(json_view(*doc));
    let mut out: Vec<Message> = Vec::new();
    match member(doc, "messages") {
        Some(m) => match as_sequence(m) {
            Some(items) => {
                let n: usize = items.len();
                let mut i: usize = 0;
                while i < n
                    invariant
                        n == items@.len(),
                        n == target.len(),
                        forall|k: int|
                            0 <= k < n ==> target[k] == record_view(json_view(#[trigger] items@[k])),
                        i <= n,
                        messages_view(out@) =~= target.subrange(0, i as int),
                    decreases n - i,
                {
                    let ghost before = out@;
                    let msg = read_message(&items[i]);
                    out.push(msg);
                    proof {
                        assert(target[i as int] == record_view(json_view(items@[i as int])));
                        assert(out@ == before.push(msg));
                        assert(messages_view(out@) =~= messages_view(before).push(msg@));
                        assert(target.subrange(0, i + 1) =~= target.subrange(0, i as int).push(
                            target[i as int],
                        ));
                    }
                    i = i + 1;
                }
                proof {
                    assert(target.subrange(0, n as int) =~= target);
                }
            },
            None => {
                proof {
                    assert(messages_view(out@) =~= target);
                }
            },
        },
        None => {
            proof {
                assert(messages_view(out@) =~= target);
            }
        },
    }
    out
}

/// Statistics over the archive `text`. Fails only where the text is not a
/// JSON document; an archive without a `messages` array has no messages.
pub fn parse_archive(text: &str) -> (r: Result<DiscordStats, FormatError>)
    ensures
        r is Ok <==> json_of(text@) is Some,
        r matches Ok(s) ==> summarizes(s, archive_messages(json_of(text@)->0)),
{
    match decode_json(text) {
        Ok(doc) => {
            let msgs = read_messages(&doc);
            Ok(summarize_messages(&msgs))
        },
        Err(_) => Err(FormatError {}),
    }
}

} // verus!
