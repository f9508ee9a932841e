//! Mode dispatch: each line of user input either switches the sticky mode,
//! ends the session, or is sent as a request in some mode.
use vstd::prelude::*;
use crate::text::{chars_of, string_of, trim, trimmed, eq_ignore_case, eq_ascii_fold, ascii_folded, find_char, index_of, slice_of};

verus! {

/// The invocation strategies.
#[derive(PartialEq, Eq, Structural, Clone, Copy, Debug)]
pub enum Mode {
    /// One request, one response.
    Sync,
    /// Submit a task, then poll until it completes.
    Async,
    /// A response streamed as server-sent events.
    Sse,
    /// Vision: text and an image address, streamed.
    Glm4v,
    /// Image generation.
    CogView,
}

/// What one line of input asks for.
pub enum Command {
    /// Switch the sticky mode; nothing is sent.
    Switch(Mode),
    /// Send the payload in the given mode.
    Send(Mode, String),
    /// End the session.
    Exit,
}

/// The mathematical form of a `Command`.
pub ghost enum Dispatch {
    Switch(Mode),
    Send(Mode, Seq<char>),
    Exit,
}

impl View for Command {
    type V = Dispatch;

    open spec fn view(&self) -> Dispatch {
        match self {
            Command::Switch(m) => Dispatch::Switch(*m),
            Command::Send(m, p) => Dispatch::Send(*m, p@),
            Command::Exit => Dispatch::Exit,
        }
    }
}

/// The mode a keyword names, letter case aside.
pub open spec fn mode_keyword(w: Seq<char>) -> Option<Mode> {
    if eq_ascii_fold(w, "sync"@) {
        Some(Mode::Sync)
    } else if eq_ascii_fold(w, "async"@) {
        Some(Mode::Async)
    } else if eq_ascii_fold(w, "sse"@) {
        Some(Mode::Sse)
    } else if eq_ascii_fold(w, "glm4v"@) {
        Some(Mode::Glm4v)
    } else if eq_ascii_fold(w, "cogview3"@) {
        Some(Mode::CogView)
    } else {
        None
    }
}

/// The mode that a `mode:payload` input selects: the trimmed text before
/// its first `:` is a mode keyword.
pub open spec fn prefix_mode(t: Seq<char>) -> Option<Mode> {
    let i = index_of(t, ':');
    if 0 <= i < t.len() {
        mode_keyword(trimmed(t.subrange(0, i)))
    } else {
        None
    }
}

/// Whether the trimmed text before the first `:` of `t` is `exit`.
pub open spec fn exit_prefix(t: Seq<char>) -> bool {
    let i = index_of(t, ':');
    0 <= i < t.len() && eq_ascii_fold(trimmed(t.subrange(0, i)), "exit"@)
}

/// The command for `input` while `current` is the sticky mode. A bare
/// keyword switches mode, and `exit`, bare or before a `:`, ends; a
/// `mode:payload` input with a known keyword is sent in that mode whatever
/// the sticky one; anything else is sent whole, trimmed, in the sticky mode.
pub open spec fn command_of(current: Mode, input: Seq<char>) -> Dispatch {
    let t = trimmed(input);
    if mode_keyword(t) is Some {
        Dispatch::Switch(mode_keyword(t)->Some_0)
    } else if eq_ascii_fold(t, "exit"@) {
        Dispatch::Exit
    } else if prefix_mode(t) is Some {
        Dispatch::Send(
            prefix_mode(t)->Some_0,
            trimmed(t.subrange(index_of(t, ':') + 1, t.len() as int)),
        )
    } else if exit_prefix(t) {
        Dispatch::Exit
    } else {
        Dispatch::Send(current, t)
    }
}

fn keyword(w: &[char]) -> (r: Option<Mode>)
    ensures
        r == mode_keyword(w@),
{
    if eq_ignore_case(w, &chars_of("sync")) {
        Some(Mode::Sync)
    } else if eq_ignore_case(w, &chars_of("async")) {
        Some(Mode::Async)
    } else if eq_ignore_case(w, &chars_of("sse")) {
        Some(Mode::Sse)
    } else if eq_ignore_case(w, &chars_of("glm4v")) {
        Some(Mode::Glm4v)
    } else if eq_ignore_case(w, &chars_of("cogview3")) {
        Some(Mode::CogView)
    } else {
        None
    }
}

proof fn lemma_index_from_find(s: Seq<char>, c: char, i: int)
    requires
        0 <= i <= s.len(),
        forall|j: int| 0 <= j < i ==> s[j] != c,
        i == s.len() || s[i] == c,
    ensures
        index_of(s, c) == i,
    decreases i,
{
    if i > 0 {
        lemma_index_from_find(s.drop_first(), c, i - 1);
    }
}

/// Decides what `input` asks for while `current` is the sticky mode.
pub fn parse_command(current: Mode, input: &str) -> (r: Command)
    ensures
        r@ == command_of(current, input@),
{
    let t = trim(&chars_of(input));
    if let Some(m) = keyword(&t) {
        return Command::Switch(m);
    }
    if eq_ignore_case(&t, &chars_of("exit")) {
        return Command::Exit;
    }
    match find_char(&t, ':') {
        Some(i) => {
            proof {
                lemma_index_from_find(t@, ':', i as int);
            }
            let head = trim(&slice_of(&t, 0, i));
            match keyword(&head) {
                Some(m) => {
                    let rest = trim(&slice_of(&t, i + 1, t.len()));
                    Command::Send(m, string_of(&rest))
                },
                None => if eq_ignore_case(&head, &chars_of("exit")) {
                    Command::Exit
                } else {
                    Command::Send(current, string_of(&t))
                },
            }
        },
        None => {
            proof {
                lemma_index_from_find(t@, ':', t@.len() as int);
            }
            Command::Send(current, string_of(&t))
        },
    }
}

/// An input with a known `mode:` prefix is sent in that mode, whatever the
/// sticky mode is.
pub proof fn lemma_prefix_ignores_sticky_mode(a: Mode, b: Mode, input: Seq<char>)
    requires
        mode_keyword(trimmed(input)) is None,
        prefix_mode(trimmed(input)) is Some,
    ensures
        command_of(a, input) == command_of(b, input),
        command_of(a, input) is Send,
{
    let t = trimmed(input);
    if eq_ascii_fold(t, "exit"@) {
        reveal_strlit("exit");
        assert forall|j: int| 0 <= j < t.len() implies t[j] != ':' by {
            assert(ascii_folded(t[j]) == ascii_folded("exit"@[j]));
        }
        lemma_index_from_find(t, ':', t.len() as int);
    }
}

/// After a bare keyword switches the mode, plain input (no `:`, no keyword,
/// not `exit`) is sent, trimmed, in the mode switched to.
pub proof fn lemma_switch_is_sticky(current: Mode, keyword_input: Seq<char>, text: Seq<char>)
    requires
        command_of(current, keyword_input) is Switch,
        index_of(trimmed(text), ':') == trimmed(text).len(),
        mode_keyword(trimmed(text)) is None,
        !eq_ascii_fold(trimmed(text), "exit"@),
    ensures
        command_of(
            command_of(current, keyword_input)->Switch_0,
            text,
        ) == Dispatch::Send(command_of(current, keyword_input)->Switch_0, trimmed(text)),
{
}

/// The session front end: the latest input, the sticky mode and the latest
/// reply.
pub struct RustGLM {
    chatglm_response: String,
    chatglm_input: String,
    mode: Mode,
}

impl RustGLM {
    /// A session with no input or reply yet, in synchronous mode.
    pub fn new() -> (r: RustGLM)
        ensures
            r.input() == Seq::<char>::empty(),
            r.response() == Seq::<char>::empty(),
            r.current_mode() == Mode::Sync,
    {
        RustGLM { chatglm_response: String::new(), chatglm_input: String::new(), mode: Mode::Sync }
    }

    pub closed spec fn input(&self) -> Seq<char> {
        self.chatglm_input@
    }

    pub closed spec fn response(&self) -> Seq<char> {
        self.chatglm_response@
    }

    pub closed spec fn current_mode(&self) -> Mode {
        self.mode
    }

    pub fn set_user_input(&mut self, input: String)
        ensures
            final(self).input() == input@,
            final(self).response() == old(self).response(),
            final(self).current_mode() == old(self).current_mode(),
    {
        self.chatglm_input = input;
    }

    /// The sticky mode.
    pub fn mode(&self) -> (r: Mode)
        ensures
            r == self.current_mode(),
    {
        self.mode
    }

    /// The command for the latest input; a switch also changes the sticky
    /// mode.
    pub fn next_command(&mut self) -> (r: Command)
        ensures
            r@ == command_of(old(self).current_mode(), old(self).input()),
            final(self).current_mode() == (match r@ {
                Dispatch::Switch(m) => m,
                _ => old(self).current_mode(),
            }),
            final(self).input() == old(self).input(),
            final(self).response() == old(self).response(),
    {
        let c = parse_command(self.mode, self.chatglm_input.as_str());
        if let Command::Switch(m) = c {
            self.mode = m;
        }
        c
    }

    pub fn set_ai_response(&mut self, response: String)
        ensures
            final(self).response() == response@,
            final(self).input() == old(self).input(),
            final(self).current_mode() == old(self).current_mode(),
    {
        self.chatglm_response = response;
    }

    pub fn get_ai_response(&self) -> (r: String)
        ensures
            r@ == self.response(),
    {
        self.chatglm_response.clone()
    }
}

} // verus!
