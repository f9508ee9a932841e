use rust_glm::response::ends_stream;
use rust_glm::{HistoryMessage, ResponseError, SSEInvokeModel, SyncInvokeModel, GLM4vInvokeModel, CogViewInvokeModel};

fn reply(content_json: &str) -> String {
    format!("{{\"choices\":[{{\"index\":0,\"message\":{{\"role\":\"assistant\",\"content\":{}}}}}]}}", content_json)
}

#[test]
fn sync_reply_is_decoded_and_logged() {
    let mut m = SyncInvokeModel::new();
    let mut h = HistoryMessage::new();
    let r = m.process_sync_task_status(&reply("\"hi \\\\u4f60\""), "hello", &mut h);
    assert_eq!(r, Ok("hi 你".to_string()));
    let turns: Vec<(String, String)> = h.turns().iter().map(|t| (t.role.clone(), t.content.clone())).collect();
    assert_eq!(
        turns,
        vec![("user".to_string(), "hello".to_string()), ("assistant".to_string(), "hi 你".to_string())]
    );
}

#[test]
fn each_reply_shape_error() {
    let mut m = SyncInvokeModel::new();
    let mut h = HistoryMessage::new();
    let cases = [
        ("not json", ResponseError::Unparsable),
        ("{}", ResponseError::ChoicesNotFound),
        ("{\"choices\":{}}", ResponseError::ChoicesNotFound),
        ("{\"choices\":[]}", ResponseError::ChoiceNotFound),
        ("{\"choices\":[1]}", ResponseError::ChoiceNotFound),
        ("{\"choices\":[{}]}", ResponseError::MessageNotFound),
        ("{\"choices\":[{\"message\":\"x\"}]}", ResponseError::MessageNotFound),
        ("{\"choices\":[{\"message\":{}}]}", ResponseError::ContentNotFound),
        ("{\"choices\":[{\"message\":{\"content\":3}}]}", ResponseError::ContentNotFound),
    ];
    for (body, e) in cases {
        assert_eq!(m.process_sync_task_status(body, "u", &mut h), Err(e), "{}", body);
    }
    assert!(h.turns().is_empty());
    assert_eq!(ResponseError::ContentNotFound.message(), "Content not found in message");
}

#[test]
fn image_url_is_decoded() {
    let mut m = CogViewInvokeModel::new();
    let r = m.process_cogview_task_status("{\"created\":1,\"data\":[{\"url\":\"https://x/y.png\"}]}");
    assert_eq!(r, Ok("https://x/y.png".to_string()));
}

#[test]
fn each_image_shape_error() {
    let mut m = CogViewInvokeModel::new();
    assert_eq!(m.process_cogview_task_status("["), Err(ResponseError::Unparsable));
    assert_eq!(m.process_cogview_task_status("{}"), Err(ResponseError::DataNotFound));
    assert_eq!(m.process_cogview_task_status("{\"data\":[]}"), Err(ResponseError::ImageNotFound));
    assert_eq!(m.process_cogview_task_status("{\"data\":[{}]}"), Err(ResponseError::UrlNotFound));
}

fn chunk(content: &str) -> String {
    format!("data: {{\"id\":\"1\",\"choices\":[{{\"index\":0,\"delta\":{{\"role\":\"assistant\",\"content\":\"{}\"}}}}]}}", content)
}

#[test]
fn streaming_accumulation_order() {
    let body = format!("{}\n{}\ndata: [DONE]\n", chunk("A"), chunk("B"));
    let mut m = SSEInvokeModel::new();
    let mut h = HistoryMessage::new();
    assert_eq!(m.process_sse_message(&body, "hello", &mut h), "AB");
    assert_eq!(h.turns().len(), 2);
    assert_eq!(h.turns()[1].content, "AB");
}

#[test]
fn stream_skips_bad_chunks_and_stops_at_done() {
    let body = format!(
        "{}\r\n\r\ndata: {{oops\ndata: [1,2]\ndata: {{\"choices\":[]}}\n{}\ndata:  [DONE] \n{}\n",
        chunk("x"),
        chunk("y"),
        chunk("z")
    );
    let mut m = GLM4vInvokeModel::new();
    assert_eq!(m.process_glm4v_task_status(&body), "xy");
}

#[test]
fn empty_stream_is_not_logged() {
    let mut m = SSEInvokeModel::new();
    let mut h = HistoryMessage::new();
    assert_eq!(m.process_sse_message("data: [DONE]\n", "hello", &mut h), "");
    assert!(h.turns().is_empty());
}

#[test]
fn repeated_data_prefixes_are_all_removed() {
    let mut m = GLM4vInvokeModel::new();
    let body = format!("data: {}", chunk("q"));
    assert_eq!(m.process_glm4v_task_status(&body), "q");
}

#[test]
fn stream_ends_at_done_marker() {
    assert!(ends_stream("data: {\"a\":1}\n\ndata: [DONE]\n\n"));
    assert!(!ends_stream("data: {\"a\":1}\n"));
    assert!(!ends_stream("data: [DONE"));
    assert!(!ends_stream(""));
}
