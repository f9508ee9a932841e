use rust_glm::history::{turn_from, HistoryMessage};
use rust_glm::json::Json;
use rust_glm::poll::{failure_message_from, task_complete_from, task_id_from};
use rust_glm::request::chat_family;
use rust_glm::response::{fragment_of, stream_text_parsed};
use rust_glm::ChatFamily;

fn s(x: &str) -> Json {
    Json::Str(x.to_string())
}

fn obj(members: Vec<(&str, Json)>) -> Json {
    Json::Object(members.into_iter().map(|(k, v)| (k.to_string(), v)).collect())
}

fn chars(x: &str) -> Vec<char> {
    x.chars().collect()
}

#[test]
fn task_id_from_parsed_document() {
    assert_eq!(task_id_from(&obj(vec![("id", s("a\"b\\n\\nc"))])), "ab\nc");
    assert_eq!(task_id_from(&obj(vec![("id", Json::Number("7".to_string()))])), "");
    assert_eq!(task_id_from(&Json::Array(vec![])), "");
}

#[test]
fn task_status_from_parsed_document() {
    assert!(task_complete_from(&obj(vec![("task_status", s("Success"))])));
    assert!(!task_complete_from(&obj(vec![("task_status", s("PROCESSING"))])));
    assert!(!task_complete_from(&obj(vec![("task_status", Json::Bool(true))])));
    assert!(!task_complete_from(&Json::Null));
}

#[test]
fn failure_message_from_parsed_document() {
    let doc = obj(vec![("id", Json::Number("-5".to_string())), ("task_status", s("FAIL"))]);
    assert_eq!(failure_message_from("400", &Some(doc)), "HTTP request failure, Your request id is: -5, Status: FAIL");
    let doc = obj(vec![("id", Json::Number("5e3".to_string())), ("task_status", s("FAIL"))]);
    assert_eq!(failure_message_from("400", &Some(doc)), "HTTP request failure, Code: 400");
    let doc = obj(vec![("id", Json::Number("5".to_string()))]);
    assert_eq!(failure_message_from("400", &Some(doc)), "HTTP request failure, Code: 400");
    assert_eq!(failure_message_from("503", &None), "HTTP request failure, Code: 503");
}

#[test]
fn turn_from_parsed_line() {
    let t = turn_from(&obj(vec![("content", s("hi")), ("role", s("assistant"))])).unwrap();
    assert_eq!((t.role.as_str(), t.content.as_str()), ("assistant", "hi"));
    assert!(turn_from(&obj(vec![("content", s("hi"))])).is_none());
    assert!(turn_from(&obj(vec![("content", s("hi")), ("role", Json::Null)])).is_none());
    assert!(turn_from(&Json::Array(vec![s("x")])).is_none());
}

fn chunk(content: Json) -> Json {
    obj(vec![("choices", Json::Array(vec![obj(vec![("delta", obj(vec![("content", content)]))])]))])
}

#[test]
fn fragment_from_parsed_chunk() {
    assert_eq!(fragment_of(&chunk(s("a\\\\nb\"c"))), chars("a\nbc"));
    assert_eq!(fragment_of(&chunk(Json::Number("1".to_string()))), chars(""));
    assert_eq!(fragment_of(&obj(vec![("choices", Json::Array(vec![]))])), chars(""));
}

#[test]
fn stream_from_parsed_lines() {
    let lines = vec![chars("data: x"), chars(""), chars("data: y"), chars("data: z"), chars("data: [DONE]"), chars("data: w")];
    let docs = vec![Some(chunk(s("A"))), None, None, Some(chunk(s("B"))), None, Some(chunk(s("C")))];
    assert_eq!(stream_text_parsed(&lines, &docs), chars("AB"));
}

#[test]
fn config_family_by_version() {
    assert_eq!(chat_family("glm-3"), Some(ChatFamily::Glm3));
    assert_eq!(chat_family("glm-4"), Some(ChatFamily::Glm4));
    assert_eq!(chat_family("GLM-4"), None);
    assert_eq!(chat_family("glm-4v"), None);
}

#[test]
fn stored_text_appends_user_then_assistant() {
    let mut h = HistoryMessage::new();
    h.record_exchange("hello", "hi");
    assert_eq!(
        h.stored_text(),
        "{\"content\":\"hello\",\"role\":\"user\"},\n{\"content\":\"hi\",\"role\":\"assistant\"},\n"
    );
    let back = HistoryMessage::load_history(&h.stored_text());
    assert_eq!(back.turns().len(), 2);
    assert_eq!(back.turns()[0].role, "user");
    assert_eq!(back.turns()[1].content, "hi");
}
