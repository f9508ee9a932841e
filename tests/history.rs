use rust_glm::{HistoryMessage, MessageProcessor};
use rust_glm::history::create_json;

fn pairs(h: &HistoryMessage) -> Vec<(String, String)> {
    h.turns().iter().map(|t| (t.role.clone(), t.content.clone())).collect()
}

#[test]
fn history_append_order() {
    let mut h = HistoryMessage::new();
    let (u, a) = h.record_exchange("hello", "hi");
    assert_eq!(u, "{\"content\":\"hello\",\"role\":\"user\"},");
    assert_eq!(a, "{\"content\":\"hi\",\"role\":\"assistant\"},");
    assert_eq!(
        pairs(&h),
        vec![("user".to_string(), "hello".to_string()), ("assistant".to_string(), "hi".to_string())]
    );
    let stored = format!("{}\n{}\n", u, a);
    assert_eq!(pairs(&HistoryMessage::load_history(&stored)), pairs(&h));
}

#[test]
fn stored_lines_of_other_shape_are_skipped() {
    let stored = "{\"content\":\"a\",\"role\":\"user\"},\n\nnot json\n{\"role\":1,\"content\":\"x\"},\n  {\"role\":\"assistant\",\"content\":\"b \\\"q\\\"\"}  \r\n";
    let h = HistoryMessage::load_history(stored);
    assert_eq!(
        pairs(&h),
        vec![("user".to_string(), "a".to_string()), ("assistant".to_string(), "b \"q\"".to_string())]
    );
    assert!(pairs(&HistoryMessage::load_history("")).is_empty());
}

#[test]
fn turn_json_escapes_strings() {
    let j: String = create_json("user", "say \"x\"\n").iter().collect();
    assert_eq!(j, "{\"content\":\"say \\\"x\\\"\\n\",\"role\":\"user\"}");
}

#[test]
fn log_text_concatenates_lines() {
    let mut h = HistoryMessage::new();
    assert_eq!(h.load_history_text(), "");
    h.add_history("user", "a");
    h.add_history("assistant", "b");
    assert_eq!(
        h.load_history_text(),
        "{\"content\":\"a\",\"role\":\"user\"},{\"content\":\"b\",\"role\":\"assistant\"},"
    );
}

#[test]
fn input_message_only_when_log_holds_turns() {
    assert_eq!(MessageProcessor::new(HistoryMessage::new()).set_input_message(), None);
    let mut h = HistoryMessage::new();
    h.add_history("user", "a");
    assert_eq!(
        MessageProcessor::new(h).set_input_message(),
        Some("{\"content\":\"a\",\"role\":\"user\"},".to_string())
    );
}

#[test]
fn last_messages_carries_the_most_recent_turn() {
    let p = MessageProcessor::new(HistoryMessage::new());
    assert_eq!(p.last_messages("user", "hello"), "{\"content\":\"hello\",\"role\":\"user\"}");
    let mut h = HistoryMessage::new();
    h.record_exchange("hello", "hi");
    h.record_exchange("again", "yes");
    let p = MessageProcessor::new(h);
    assert_eq!(
        p.last_messages("user", "third"),
        "{\"content\":\"yes\",\"role\":\"assistant\"},{\"content\":\"third\",\"role\":\"user\"}"
    );
    assert_eq!(
        p.last_messages("user", "a, }b,}"),
        "{\"content\":\"yes\",\"role\":\"assistant\"},{\"content\":\"a, }b,}\",\"role\":\"user\"}"
    );
}

#[test]
fn stored_lines_are_single_lines() {
    let mut h = HistoryMessage::new();
    let line = h.add_history("user", "two\nlines\r\tand \u{1}");
    assert_eq!(line, "{\"content\":\"two\\nlines\\r\\tand \\u0001\",\"role\":\"user\"},");
    assert!(!line.contains('\n'));
    let lines = h.stored_lines();
    assert_eq!(lines, vec![line.clone()]);
    let stored = format!("{}\n", lines[0]);
    let back = HistoryMessage::load_history(&stored);
    assert_eq!(back.turns()[0].content, "two\nlines\r\tand \u{1}");
}
