use rust_glm::{AsyncInvokeModel, HistoryMessage, PollAction, PollFailure};
use rust_glm::poll::{is_task_complete, poll_decision, submit_failure_message, POLL_INTERVAL_MS};

#[test]
fn task_id_is_taken_from_submission() {
    let mut m = AsyncInvokeModel::new();
    assert_eq!(m.process_response_data("{\"id\":\"abc-1\",\"task_status\":\"PROCESSING\"}"), "abc-1");
    assert_eq!(m.search_task_id(), "abc-1");
    assert_eq!(m.process_response_data("{\"id\":12}"), "");
    assert_eq!(m.process_response_data("nope"), "");
}

#[test]
fn task_status_is_read_in_any_case() {
    assert_eq!(is_task_complete("{\"task_status\":\"SUCCESS\"}"), Some(true));
    assert_eq!(is_task_complete("{\"task_status\":\"success\"}"), Some(true));
    assert_eq!(is_task_complete("{\"task_status\":\"PROCESSING\"}"), Some(false));
    assert_eq!(is_task_complete("{}"), Some(false));
    assert_eq!(is_task_complete("<html>"), None);
}

#[test]
fn poll_decisions() {
    assert!(matches!(poll_decision(None), PollAction::Abort(PollFailure::Transport)));
    assert!(matches!(poll_decision(Some("x".to_string())), PollAction::Abort(PollFailure::Unparsable)));
    assert!(matches!(poll_decision(Some("{\"task_status\":\"PROCESSING\"}".to_string())), PollAction::Retry(100)));
    assert_eq!(POLL_INTERVAL_MS, 100);
    match poll_decision(Some("{\"task_status\":\"SUCCESS\",\"choices\":[]}".to_string())) {
        PollAction::Finish(b) => assert_eq!(b, "{\"task_status\":\"SUCCESS\",\"choices\":[]}"),
        _ => panic!("expected finish"),
    }
}

#[test]
fn async_reply_is_decoded_and_logged() {
    let mut m = AsyncInvokeModel::new();
    let mut h = HistoryMessage::new();
    let body = "{\"task_status\":\"SUCCESS\",\"choices\":[{\"message\":{\"content\":\"ok\\\\n\\\\nfine\"}}]}";
    assert_eq!(m.process_task_status(body, "q", &mut h), Ok("ok\nfine".to_string()));
    assert_eq!(h.turns().len(), 2);
    assert_eq!(h.turns()[0].content, "q");
}

#[test]
fn refused_submission_message() {
    assert_eq!(
        submit_failure_message("400 Bad Request", "{\"id\":12,\"task_status\":\"FAIL\"}"),
        "HTTP request failure, Your request id is: 12, Status: FAIL"
    );
    assert_eq!(
        submit_failure_message("400 Bad Request", "{\"id\":-9223372036854775808,\"task_status\":\"X\"}"),
        "HTTP request failure, Your request id is: -9223372036854775808, Status: X"
    );
    assert_eq!(
        submit_failure_message("400 Bad Request", "{\"id\":9223372036854775808,\"task_status\":\"X\"}"),
        "HTTP request failure, Code: 400 Bad Request"
    );
    assert_eq!(
        submit_failure_message("500 Internal Server Error", "{\"id\":\"12\",\"task_status\":\"FAIL\"}"),
        "HTTP request failure, Code: 500 Internal Server Error"
    );
    assert_eq!(submit_failure_message("502 Bad Gateway", "<html>"), "HTTP request failure, Code: 502 Bad Gateway");
    assert_eq!(
        submit_failure_message("400 Bad Request", "{\"id\":1.5,\"task_status\":\"X\"}"),
        "HTTP request failure, Code: 400 Bad Request"
    );
}
