use rust_glm::{Mode, ReceiveAsyncInvokeOnlyText, ReceiveCogviewInvokeModel, ReceiveInvokeModelOnlyText, ReceiveSSEInvokeModelOnlyText, Receive4VInvokeModelwithText, ResponseError};
use rust_glm::modes::{request_headers, request_url, task_status_url};

#[test]
fn endpoints() {
    assert_eq!(request_url(Mode::Sync), "https://open.bigmodel.cn/api/paas/v4/chat/completions");
    assert_eq!(request_url(Mode::Sse), "https://open.bigmodel.cn/api/paas/v4/chat/completions");
    assert_eq!(request_url(Mode::Async), "https://open.bigmodel.cn/api/paas/v4/async/chat/completions");
    assert_eq!(request_url(Mode::CogView), "https://open.bigmodel.cn/api/paas/v4/images/generations");
    assert_eq!(task_status_url("t1"), "https://open.bigmodel.cn/api/paas/v4/async-result/t1");
}

#[test]
fn headers_per_mode() {
    let h = request_headers(Mode::Sync, "tok");
    assert_eq!(
        h,
        vec![
            ("Accept".to_string(), "application/json".to_string()),
            ("Content-Type".to_string(), "application/json;charset=UTF-8".to_string()),
            ("Authorization".to_string(), "Bearer tok".to_string()),
        ]
    );
    let s = request_headers(Mode::Glm4v, "tok");
    assert_eq!(s.len(), 5);
    assert_eq!(s[0], ("Cache-Control".to_string(), "no-cache".to_string()));
    assert_eq!(s[1], ("Connection".to_string(), "keep-alive".to_string()));
    assert_eq!(s[2], ("Accept".to_string(), "text/event-stream".to_string()));
    assert_eq!(s[4], ("Authorization".to_string(), "Bearer tok".to_string()));
}

#[test]
fn holders_leave_empty_text_on_shape_error() {
    assert_eq!(ReceiveInvokeModelOnlyText::new(Some(Ok("a".to_string()))).get_response_message(), Some("a"));
    assert_eq!(ReceiveInvokeModelOnlyText::new(Some(Err(ResponseError::ChoicesNotFound))).get_response_message(), Some(""));
    assert_eq!(ReceiveInvokeModelOnlyText::new(None).get_response_message(), None);
    assert_eq!(ReceiveAsyncInvokeOnlyText::new(Some(Ok("b".to_string()))).get_response(), Some("b"));
    assert_eq!(ReceiveCogviewInvokeModel::new(Some(Err(ResponseError::UrlNotFound))).get_cogview_response_message(), Some(""));
    assert_eq!(ReceiveSSEInvokeModelOnlyText::new(Some("c".to_string())).get_response_message(), Some("c"));
    assert_eq!(Receive4VInvokeModelwithText::new(None).get_response_glm4v_message(), None);
}
