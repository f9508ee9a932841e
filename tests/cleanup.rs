use rust_glm::SyncInvokeModel;
use rust_glm::SSEInvokeModel;
use rust_glm::HistoryMessage;

#[test]
fn unicode_escape_decode() {
    let m = SyncInvokeModel::new();
    assert_eq!(m.convert_unicode_emojis("\\u4f60\\u597d"), "你好");
    assert_eq!(m.convert_unicode_emojis("a\\u0041b\\u00E9"), "aAbé");
}

#[test]
fn surrogate_and_short_escapes_stay() {
    let m = SyncInvokeModel::new();
    assert_eq!(m.convert_unicode_emojis("\\ud83d!"), "\\ud83d!");
    assert_eq!(m.convert_unicode_emojis("\\u12"), "\\u12");
    assert_eq!(m.convert_unicode_emojis("\\u12g4"), "\\u12g4");
}

#[test]
fn clean_text_is_unchanged() {
    let mut m = SyncInvokeModel::new();
    let s = "Hello, world: 你好 — no escapes here\nsecond line";
    assert_eq!(m.process_message_content(s), s);
    assert_eq!(m.get_message(), s);
}

#[test]
fn reply_cleanup_substitutions() {
    let mut m = SyncInvokeModel::new();
    assert_eq!(m.process_message_content("say \"hi\""), "say hi");
    assert_eq!(m.process_message_content("a\\n\\nb"), "a\nb");
    assert_eq!(m.process_message_content("a\\nb"), "a\nb");
    assert_eq!(m.process_message_content("a\\\\b"), "ab");
    assert_eq!(m.process_message_content("a\\\\nnb"), "a\nb");
    assert_eq!(m.process_message_content("x\\u4f60"), "x你");
}

#[test]
fn stream_fragment_cleanup_removes_lone_backslashes() {
    let mut m = SSEInvokeModel::new();
    let mut h = HistoryMessage::new();
    let body = "data: {\"choices\":[{\"delta\":{\"content\":\"a\\\\qb\\\\nc\"}}]}\n";
    assert_eq!(m.process_sse_message(body, "q", &mut h), "aqbnc");
}
