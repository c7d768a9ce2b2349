use chat_stats::{parse_archive, summarize_messages, DiscordStats, Message};

fn counts(s: &DiscordStats) -> Vec<(String, usize)> {
    s.individual_messages.clone()
}

const SCENARIO: &str = r#"{
  "guild": {"id": "1"},
  "messages": [
    {"id": "1", "content": "Started a call that lasted 45 minutes.", "author": {"id": "9", "nickname": "A"}},
    {"id": "2", "content": "just text", "author": {"nickname": "B"}, "attachments": []},
    {"id": "3", "content": "Started a call that lasted 15 minutes.", "author": {"nickname": "A"}}
  ]
}"#;

#[test]
fn three_message_scenario() {
    let s = parse_archive(SCENARIO).ok().unwrap();
    assert_eq!(s.total_messages, 3);
    assert_eq!(counts(&s), vec![("A".to_string(), 2), ("B".to_string(), 1)]);
    assert_eq!(s.total_call_duration, 60);
    assert_eq!(s.longest_call, 45);
}

#[test]
fn parsing_twice_gives_same_stats() {
    let a = parse_archive(SCENARIO).ok().unwrap();
    let b = parse_archive(SCENARIO).ok().unwrap();
    assert_eq!(a.total_messages, b.total_messages);
    assert_eq!(counts(&a), counts(&b));
    assert_eq!(a.total_call_duration, b.total_call_duration);
    assert_eq!(a.longest_call, b.longest_call);
}

#[test]
fn empty_archive() {
    let s = parse_archive(r#"{"messages": []}"#).ok().unwrap();
    assert_eq!(s.total_messages, 0);
    assert!(s.individual_messages.is_empty());
    assert_eq!(s.total_call_duration, 0);
    assert_eq!(s.longest_call, 0);
}

#[test]
fn missing_or_mistyped_messages_field_is_empty() {
    for text in [r#"{}"#, r#"{"messages": 5}"#, r#"[1, 2]"#, r#""text""#] {
        let s = parse_archive(text).ok().unwrap();
        assert_eq!(s.total_messages, 0);
        assert!(s.individual_messages.is_empty());
    }
}

#[test]
fn invalid_json_is_a_format_error() {
    assert!(parse_archive("{ not json").is_err());
    assert!(parse_archive("").is_err());
}

#[test]
fn mistyped_fields_are_skipped() {
    let text = r#"{"messages": [
        {"content": 7, "author": {"nickname": "A"}},
        {"content": "hi", "author": {"nickname": 3}},
        {"content": "hi", "author": "A"},
        {"author": {"name": "x"}},
        {"content": "Started a call that lasted 5 minutes."}
    ]}"#;
    let s = parse_archive(text).ok().unwrap();
    assert_eq!(s.total_messages, 3);
    assert_eq!(counts(&s), vec![("A".to_string(), 1)]);
    assert_eq!(s.total_call_duration, 5);
    assert_eq!(s.longest_call, 5);
}

fn msg(nickname: Option<&str>, content: Option<&str>) -> Message {
    Message {
        nickname: nickname.map(|n| n.to_string()),
        content: content.map(|c| c.to_string()),
    }
}

#[test]
fn summarize_scenario_directly() {
    let msgs = vec![
        msg(Some("A"), Some("Started a call that lasted 45 minutes.")),
        msg(Some("B"), Some("plain")),
        msg(Some("A"), Some("Started a call that lasted 15 minutes.")),
    ];
    let s = summarize_messages(&msgs);
    assert_eq!(s.total_messages, 3);
    assert_eq!(counts(&s), vec![("A".to_string(), 2), ("B".to_string(), 1)]);
    assert_eq!(s.total_call_duration, 60);
    assert_eq!(s.longest_call, 45);
}

#[test]
fn summarize_no_messages() {
    let s = summarize_messages(&Vec::new());
    assert_eq!(s.total_messages, 0);
    assert!(s.individual_messages.is_empty());
    assert_eq!(s.total_call_duration, 0);
    assert_eq!(s.longest_call, 0);
}

#[test]
fn authors_counted_without_content() {
    let msgs = vec![msg(Some("A"), None), msg(Some("A"), None), msg(None, Some("x"))];
    let s = summarize_messages(&msgs);
    assert_eq!(s.total_messages, 1);
    assert_eq!(counts(&s), vec![("A".to_string(), 2)]);
}

#[test]
fn total_is_sum_and_longest_is_max() {
    let msgs = vec![
        msg(None, Some("Started a call that lasted 10 minutes.")),
        msg(None, Some("Started a call that lasted 30 minutes.")),
        msg(None, Some("Started a call that lasted 20 minutes.")),
        msg(None, Some("nothing")),
    ];
    let s = summarize_messages(&msgs);
    assert_eq!(s.total_call_duration, 60);
    assert_eq!(s.longest_call, 30);
}

#[test]
fn mixed_sign_durations() {
    let msgs = vec![
        msg(None, Some("Started a call that lasted -10 minutes.")),
        msg(None, Some("Started a call that lasted 4 minutes.")),
    ];
    let s = summarize_messages(&msgs);
    assert_eq!(s.total_call_duration, -6);
    assert_eq!(s.longest_call, 4);
}

#[test]
fn large_durations_do_not_overflow() {
    let big = format!("Started a call that lasted {} minutes.", i32::MAX);
    let msgs = vec![msg(None, Some(&big)), msg(None, Some(&big)), msg(None, Some(&big))];
    let s = summarize_messages(&msgs);
    assert_eq!(s.total_call_duration, 3 * i32::MAX as i128);
    assert_eq!(s.longest_call, i32::MAX);
}

fn value(text: &str) -> serde_json::Value {
    serde_json::from_str(text).unwrap()
}

#[test]
fn read_message_takes_nickname_and_content() {
    let m = chat_stats::read_message(&value(
        r#"{"id": "1", "content": "hello", "author": {"name": "x", "nickname": "popo"}}"#,
    ));
    assert_eq!(m.nickname.as_deref(), Some("popo"));
    assert_eq!(m.content.as_deref(), Some("hello"));
}

#[test]
fn read_message_skips_missing_or_mistyped_fields() {
    let m = chat_stats::read_message(&value(r#"{"content": null, "author": {"nickname": 4}}"#));
    assert!(m.nickname.is_none());
    assert!(m.content.is_none());
    let m = chat_stats::read_message(&value(r#"["content", "author"]"#));
    assert!(m.nickname.is_none());
    assert!(m.content.is_none());
}

#[test]
fn read_messages_keeps_every_record_in_order() {
    let msgs = chat_stats::read_messages(&value(
        r#"{"messages": [{"content": "a"}, 3, {"author": {"nickname": "B"}}]}"#,
    ));
    assert_eq!(msgs.len(), 3);
    assert_eq!(msgs[0].content.as_deref(), Some("a"));
    assert!(msgs[1].content.is_none() && msgs[1].nickname.is_none());
    assert_eq!(msgs[2].nickname.as_deref(), Some("B"));
}

#[test]
fn read_messages_without_array_is_empty() {
    assert!(chat_stats::read_messages(&value(r#"{"messages": {"a": 1}}"#)).is_empty());
    assert!(chat_stats::read_messages(&value(r#"{"other": []}"#)).is_empty());
    assert!(chat_stats::read_messages(&value("7")).is_empty());
}

#[test]
fn only_negative_durations() {
    let msgs = vec![msg(Some("A"), Some("Started a call that lasted -5 minutes."))];
    let s = summarize_messages(&msgs);
    assert_eq!(s.total_call_duration, -5);
    assert_eq!(s.longest_call, -5);
    let msgs = vec![
        msg(None, Some("Started a call that lasted -10 minutes.")),
        msg(None, Some("no call here")),
        msg(None, Some("Started a call that lasted -3 minutes.")),
    ];
    let s = summarize_messages(&msgs);
    assert_eq!(s.total_call_duration, -13);
    assert_eq!(s.longest_call, -3);
}

#[test]
fn only_negative_durations_through_parse() {
    let text = r#"{"messages": [{"content": "Started a call that lasted -5 minutes."}]}"#;
    let s = parse_archive(text).ok().unwrap();
    assert_eq!(s.total_call_duration, -5);
    assert_eq!(s.longest_call, -5);
}

#[test]
fn longest_is_zero_without_calls() {
    let msgs = vec![msg(Some("A"), Some("hello")), msg(None, None)];
    let s = summarize_messages(&msgs);
    assert_eq!(s.total_call_duration, 0);
    assert_eq!(s.longest_call, 0);
}
