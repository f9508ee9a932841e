use rust_glm::{Command, Mode, RustGLM};
use rust_glm::dispatch::parse_command;

fn send(c: Command) -> (Mode, String) {
    match c {
        Command::Send(m, p) => (m, p),
        Command::Switch(m) => panic!("switch to {:?}", m),
        Command::Exit => panic!("exit"),
    }
}

#[test]
fn mode_stickiness() {
    let mut glm = RustGLM::new();
    assert_eq!(glm.mode(), Mode::Sync);
    glm.set_user_input("async".to_string());
    assert!(matches!(glm.next_command(), Command::Switch(Mode::Async)));
    glm.set_user_input("sync".to_string());
    assert!(matches!(glm.next_command(), Command::Switch(Mode::Sync)));
    glm.set_user_input("tell me a joke".to_string());
    assert_eq!(send(glm.next_command()), (Mode::Sync, "tell me a joke".to_string()));
    glm.set_user_input("async:tell me a joke".to_string());
    assert_eq!(send(glm.next_command()), (Mode::Async, "tell me a joke".to_string()));
    assert_eq!(glm.mode(), Mode::Sync);
}

#[test]
fn prefix_ignores_sticky_mode() {
    for m in [Mode::Sync, Mode::Async, Mode::Sse, Mode::Glm4v, Mode::CogView] {
        assert_eq!(send(parse_command(m, "async:tell me a joke")), (Mode::Async, "tell me a joke".to_string()));
    }
}

#[test]
fn keywords_ignore_letter_case_and_space() {
    assert!(matches!(parse_command(Mode::Sync, "  SSE \n"), Command::Switch(Mode::Sse)));
    assert!(matches!(parse_command(Mode::Sync, "GLM4V"), Command::Switch(Mode::Glm4v)));
    assert!(matches!(parse_command(Mode::Sync, "CogView3"), Command::Switch(Mode::CogView)));
    assert!(matches!(parse_command(Mode::Sse, "Exit"), Command::Exit));
    assert_eq!(send(parse_command(Mode::Sync, " CogView3 : a red fox ")), (Mode::CogView, "a red fox".to_string()));
}

#[test]
fn unknown_prefix_is_sent_whole_in_sticky_mode() {
    assert_eq!(send(parse_command(Mode::Sse, "note: buy milk")), (Mode::Sse, "note: buy milk".to_string()));
    assert_eq!(send(parse_command(Mode::Sync, "")), (Mode::Sync, String::new()));
}

#[test]
fn response_is_kept() {
    let mut glm = RustGLM::new();
    assert_eq!(glm.get_ai_response(), "");
    glm.set_ai_response("hi".to_string());
    assert_eq!(glm.get_ai_response(), "hi");
}

#[test]
fn exit_before_a_colon_ends_the_session() {
    assert!(matches!(parse_command(Mode::Sync, "exit:foo"), Command::Exit));
    assert!(matches!(parse_command(Mode::Async, " EXIT : now"), Command::Exit));
    let mut glm = RustGLM::new();
    glm.set_user_input("exit:foo".to_string());
    assert!(matches!(glm.next_command(), Command::Exit));
    assert_eq!(glm.mode(), Mode::Sync);
}
