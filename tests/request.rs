use rust_glm::{ChatConfig, ChatConfigFields, ConfigError, GLM4vInvokeModel, HistoryMessage, MessageProcessor, SSEInvokeModel, SyncInvokeModel, AsyncInvokeModel, CogViewInvokeModel};

fn fields() -> ChatConfigFields {
    ChatConfigFields {
        language_model: Some("glm-4".to_string()),
        system_role: Some("system".to_string()),
        system_content: Some("  be brief \n".to_string()),
        user_role: Some("user".to_string()),
        max_tokens: Some("8192.0".to_string()),
        temp_float: Some("0.9".to_string()),
        top_p_float: Some("0.7".to_string()),
    }
}

#[test]
fn config_needs_every_field() {
    let c = ChatConfig::from_fields(fields()).unwrap();
    assert_eq!(c.system_content, "be brief");
    let mut f = fields();
    f.language_model = None;
    assert_eq!(ChatConfig::from_fields(f).err(), Some(ConfigError::MissingLanguageModel));
    let mut f = fields();
    f.system_role = None;
    assert_eq!(ChatConfig::from_fields(f).err(), Some(ConfigError::MissingSystemRole));
    let mut f = fields();
    f.system_content = None;
    assert_eq!(ChatConfig::from_fields(f).err(), Some(ConfigError::MissingSystemContent));
    let mut f = fields();
    f.user_role = None;
    assert_eq!(ChatConfig::from_fields(f).err(), Some(ConfigError::MissingUserRole));
    let mut f = fields();
    f.max_tokens = None;
    assert_eq!(ChatConfig::from_fields(f).err(), Some(ConfigError::MissingMaxTokens));
    let mut f = fields();
    f.temp_float = None;
    assert_eq!(ChatConfig::from_fields(f).err(), Some(ConfigError::MissingTemperature));
    let mut f = fields();
    f.top_p_float = None;
    f.user_role = None;
    assert_eq!(ChatConfig::from_fields(f).err(), Some(ConfigError::MissingUserRole));
}

#[test]
fn sync_body_is_exact() {
    let c = ChatConfig::from_fields(fields()).unwrap();
    let p = MessageProcessor::new(HistoryMessage::new());
    let body = SyncInvokeModel::generate_sync_json_request_body(&c, &p, "hello");
    assert_eq!(
        body,
        "{\"max_tokens\":8192.0,\"messages\":[{\"content\":\"be brief\",\"role\":\"system\"},{\"content\":\"{\\\"content\\\":\\\"hello\\\",\\\"role\\\":\\\"user\\\"}\",\"role\":\"user\"}],\"model\":\"glm-4\",\"stream\":false,\"temperature\":0.9,\"top_p\":0.7}"
    );
    assert_eq!(AsyncInvokeModel::generate_json_request_body(&c, &p, "hello"), body);
}

#[test]
fn stream_body_is_exact() {
    let c = ChatConfig::from_fields(fields()).unwrap();
    let p = MessageProcessor::new(HistoryMessage::new());
    assert_eq!(
        SSEInvokeModel::generate_sse_json_request_body(&c, &p, "hi"),
        "{\"do_sample\":true,\"max_tokens\":8192.0,\"messages\":[{\"content\":\"be brief\",\"role\":\"system\"},{\"content\":\"{\\\"content\\\":\\\"hi\\\",\\\"role\\\":\\\"user\\\"}\",\"role\":\"user\"}],\"model\":\"glm-4\",\"stream\":true,\"temperature\":0.9,\"top_p\":0.7}"
    );
}

#[test]
fn image_body_is_exact() {
    assert_eq!(
        CogViewInvokeModel::generate_cogview_request_body("cogview-3", "a cat"),
        "{\"model\":\"cogview-3\",\"prompt\":\"a cat\"}"
    );
    assert_eq!(
        SyncInvokeModel::generate_cogview_request_body("cogview-3", " a cat "),
        "{\"model\":\"cogview-3\",\"prompt\":\" a cat \"}"
    );
}

#[test]
fn backslash_pass_collapses_escapes() {
    assert_eq!(
        CogViewInvokeModel::generate_cogview_request_body("m", "a\\b"),
        "{\"model\":\"m\",\"prompt\":\"ab\"}"
    );
    assert_eq!(
        CogViewInvokeModel::generate_cogview_request_body("m", "a\\\\b"),
        "{\"model\":\"m\",\"prompt\":\"ab\"}"
    );
    assert_eq!(
        CogViewInvokeModel::generate_cogview_request_body("m", "say \"x\""),
        "{\"model\":\"m\",\"prompt\":\"say \\\"x\\\"\"}"
    );
}

#[test]
fn vision_body_splits_text_and_address() {
    assert_eq!(
        GLM4vInvokeModel::generate_glm4v_json_request_body("glm-4v", "user", "what is this@https://x/a.png"),
        "{\"messages\":[{\"content\":[{\"text\":\"what is this\",\"type\":\"text\"},{\"image_url\":{\"url\":\"https://x/a.png\"},\"type\":\"image_url\"}],\"role\":\"user\"}],\"model\":\"glm-4v\",\"stream\":true}"
    );
    assert_eq!(
        SSEInvokeModel::generate_glm4v_json_request_body("glm-4v", "user", "@@a@@b@c@d"),
        GLM4vInvokeModel::generate_glm4v_json_request_body("glm-4v", "user", "b@c")
    );
}

#[test]
fn vision_input_without_address_sends_empty_fields() {
    assert_eq!(
        GLM4vInvokeModel::generate_glm4v_json_request_body("glm-4v", "user", "no address"),
        "{\"messages\":[{\"content\":[{\"text\":\"\",\"type\":\"text\"},{\"image_url\":{\"url\":\"\"},\"type\":\"image_url\"}],\"role\":\"user\"}],\"model\":\"glm-4v\",\"stream\":true}"
    );
}

#[test]
fn control_characters_are_escaped_in_bodies() {
    assert_eq!(
        CogViewInvokeModel::generate_cogview_request_body("m", "a\nb\u{7}c/d"),
        "{\"model\":\"m\",\"prompt\":\"a\\nb\\u0007c/d\"}"
    );
}

#[test]
fn chat_body_carries_the_last_stored_turn() {
    let c = ChatConfig::from_fields(fields()).unwrap();
    let mut h = HistoryMessage::new();
    h.record_exchange("hello", "hi");
    let p = MessageProcessor::new(h);
    assert_eq!(
        SyncInvokeModel::generate_sync_json_request_body(&c, &p, "more"),
        "{\"max_tokens\":8192.0,\"messages\":[{\"content\":\"be brief\",\"role\":\"system\"},{\"content\":\"{\\\"content\\\":\\\"hi\\\",\\\"role\\\":\\\"assistant\\\"},{\\\"content\\\":\\\"more\\\",\\\"role\\\":\\\"user\\\"}\",\"role\":\"user\"}],\"model\":\"glm-4\",\"stream\":false,\"temperature\":0.9,\"top_p\":0.7}"
    );
}
