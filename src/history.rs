//! The conversation log: an append-only sequence of role/content turns,
//! stored one JSON object per line with a trailing comma.
use vstd::prelude::*;
use crate::json::{Json, json_parsed, json_quoted, lemma_quoted_one_line, member_of, text_of, is_object, parse_json, member, text, quote};
use crate::text::{chars_of, string_of, push_all, trim, trimmed, slice_of, lacks, lemma_lacks_concat};
use crate::text::lines_of;

verus! {

/// One turn of a conversation.
pub struct Turn {
    pub role: String,
    pub content: String,
}

/// The JSON object of a turn, members in serde_json's key order.
pub open spec fn turn_json(role: Seq<char>, content: Seq<char>) -> Seq<char> {
    "{\"content\":"@ + json_quoted(content) + ",\"role\":"@ + json_quoted(role) + "}"@
}

/// The stored line of a turn: its JSON object and a comma.
pub open spec fn turn_line(role: Seq<char>, content: Seq<char>) -> Seq<char> {
    turn_json(role, content) + seq![',']
}

/// The stored lines of `turns`, concatenated as the log is read back.
pub open spec fn log_text(turns: Seq<(Seq<char>, Seq<char>)>) -> Seq<char>
    decreases turns.len(),
{
    if turns.len() == 0 {
        seq![]
    } else {
        log_text(turns.drop_last()) + turn_line(turns.last().0, turns.last().1)
    }
}

/// A stored line holds no line feed, so each turn takes exactly one line.
pub proof fn lemma_turn_line_one_line(role: Seq<char>, content: Seq<char>)
    ensures
        lacks(turn_line(role, content), '\n'),
{
    reveal_strlit("{\"content\":");
    reveal_strlit(",\"role\":");
    reveal_strlit("}");
    lemma_quoted_one_line(role);
    lemma_quoted_one_line(content);
    assert(lacks("{\"content\":"@, '\n'));
    assert(lacks(",\"role\":"@, '\n'));
    assert(lacks("}"@, '\n'));
    assert(lacks(seq![','], '\n'));
    lemma_lacks_concat("{\"content\":"@, json_quoted(content), '\n');
    lemma_lacks_concat("{\"content\":"@ + json_quoted(content), ",\"role\":"@, '\n');
    lemma_lacks_concat("{\"content\":"@ + json_quoted(content) + ",\"role\":"@, json_quoted(role), '\n');
    lemma_lacks_concat(
        "{\"content\":"@ + json_quoted(content) + ",\"role\":"@ + json_quoted(role),
        "}"@,
        '\n',
    );
    lemma_lacks_concat(turn_json(role, content), seq![','], '\n');
}

/// The text that stores `turns`: each turn's line followed by a line feed.
pub open spec fn stored_text_of(turns: Seq<(Seq<char>, Seq<char>)>) -> Seq<char>
    decreases turns.len(),
{
    if turns.len() == 0 {
        seq![]
    } else {
        stored_text_of(turns.drop_last()) + turn_line(turns.last().0, turns.last().1) + seq!['\n']
    }
}

/// Recording an exchange appends to the stored text the user's line and then
/// the assistant's, each on a line of its own, and nothing else.
pub proof fn lemma_exchange_appends(
    log: Seq<(Seq<char>, Seq<char>)>,
    user_input: Seq<char>,
    reply: Seq<char>,
)
    ensures
        stored_text_of(log.push(("user"@, user_input)).push(("assistant"@, reply))) == stored_text_of(
            log,
        ) + turn_line("user"@, user_input) + seq!['\n'] + turn_line("assistant"@, reply) + seq![
            '\n',
        ],
{
    let one = log.push(("user"@, user_input));
    let two = one.push(("assistant"@, reply));
    assert(two.drop_last() =~= one);
    assert(one.drop_last() =~= log);
    assert(two.last() == ("assistant"@, reply));
    assert(one.last() == ("user"@, user_input));
    assert(stored_text_of(two) == stored_text_of(one) + turn_line("assistant"@, reply) + seq!['\n']);
    assert(stored_text_of(one) == stored_text_of(log) + turn_line("user"@, user_input) + seq!['\n']);
    assert(stored_text_of(two) =~= stored_text_of(log) + turn_line("user"@, user_input) + seq![
        '\n',
    ] + turn_line("assistant"@, reply) + seq!['\n']);
}

/// Renders the JSON object of a turn.
pub fn create_json(role: &str, content: &str) -> (r: Vec<char>)
    ensures
        r@ == turn_json(role@, content@),
{
    let mut r = chars_of("{\"content\":");
    push_all(&mut r, &quote(&chars_of(content)));
    push_all(&mut r, &chars_of(",\"role\":"));
    push_all(&mut r, &quote(&chars_of(role)));
    push_all(&mut r, &chars_of("}"));
    r
}

/// The turn a stored line holds: the line, trimmed and without one final
/// comma, is a JSON object with string members `role` and `content`.
pub open spec fn line_turn(line: Seq<char>) -> Option<(Seq<char>, Seq<char>)> {
    let t = trimmed(line);
    let body = if t.len() > 0 && t.last() == ',' {
        t.drop_last()
    } else {
        t
    };
    match json_parsed(body) {
        None => None,
        Some(doc) => turn_in(doc),
    }
}

/// The turn a parsed line holds: an object with string members `role` and
/// `content`.
pub open spec fn turn_in(doc: Json) -> Option<(Seq<char>, Seq<char>)> {
    if !is_object(doc) {
        None
    } else {
        let role = member_of(doc, "role"@);
        let content = member_of(doc, "content"@);
        if role is None || content is None || text_of(role->Some_0) is None || text_of(
            content->Some_0,
        ) is None {
            None
        } else {
            Some((text_of(role->Some_0)->Some_0, text_of(content->Some_0)->Some_0))
        }
    }
}

/// The turns that stored lines hold, in order; a line holding no turn is
/// passed over.
pub open spec fn turns_of_lines(lines: Seq<Seq<char>>) -> Seq<(Seq<char>, Seq<char>)>
    decreases lines.len(),
{
    if lines.len() == 0 {
        seq![]
    } else {
        let rest = turns_of_lines(lines.drop_last());
        match line_turn(lines.last()) {
            Some(t) => rest.push(t),
            None => rest,
        }
    }
}

/// Reads the turn of one stored line.
pub fn parse_turn_line(line: &[char]) -> (r: Option<Turn>)
    ensures
        match r {
            Some(t) => line_turn(line@) == Some((t.role@, t.content@)),
            None => line_turn(line@) is None,
        },
{
    let t = trim(line);
    let body = if t.len() > 0 && t[t.len() - 1] == ',' {
        slice_of(&t, 0, t.len() - 1)
    } else {
        slice_of(&t, 0, t.len())
    };
    assert(body@ =~= (if t@.len() > 0 && t@.last() == ',' { t@.drop_last() } else { t@ }));
    let s = string_of(&body);
    match parse_json(s.as_str()) {
        Some(d) => turn_from(&d),
        None => None,
    }
}

/// Reads the turn a parsed line holds.
pub fn turn_from(doc: &Json) -> (r: Option<Turn>)
    ensures
        match r {
            Some(t) => turn_in(*doc) == Some((t.role@, t.content@)),
            None => turn_in(*doc) is None,
        },
{
    if !matches!(doc, Json::Object(_)) {
        return None;
    }
    let role = match member(doc, "role") {
        Some(v) => match text(v) {
            Some(x) => x,
            None => return None,
        },
        None => return None,
    };
    let content = match member(doc, "content") {
        Some(v) => match text(v) {
            Some(x) => x,
            None => return None,
        },
        None => return None,
    };
    Some(Turn { role: string_of(&role), content: string_of(&content) })
}

/// The conversation log, oldest turn first.
pub struct HistoryMessage {
    turns: Vec<Turn>,
}

impl View for HistoryMessage {
    type V = Seq<(Seq<char>, Seq<char>)>;

    closed spec fn view(&self) -> Seq<(Seq<char>, Seq<char>)> {
        self.turns@.map_values(|t: Turn| (t.role@, t.content@))
    }
}

impl HistoryMessage {
    /// An empty log.
    pub fn new() -> (r: HistoryMessage)
        ensures
            r@ == Seq::<(Seq<char>, Seq<char>)>::empty(),
    {
        let r = HistoryMessage { turns: Vec::new() };
        assert(r@ =~= Seq::<(Seq<char>, Seq<char>)>::empty());
        r
    }

    /// The log that a stored text holds: the turns of its lines, in order.
    pub fn load_history(stored: &str) -> (r: HistoryMessage)
        ensures
            r@ == turns_of_lines(lines_of(stored@)),
    {
        let lines = crate::text::split_lines(&chars_of(stored));
        let mut r = HistoryMessage { turns: Vec::new() };
        let mut i: usize = 0;
        assert(lines_of(stored@).subrange(0, 0) =~= Seq::<Seq<char>>::empty());
        assert(r@ =~= Seq::<(Seq<char>, Seq<char>)>::empty());
        while i < lines.len()
            invariant
                i <= lines@.len() == lines_of(stored@).len(),
                forall|k: int| 0 <= k < lines@.len() ==> #[trigger] lines@[k]@ == lines_of(stored@)[k],
                r@ == turns_of_lines(lines_of(stored@).subrange(0, i as int)),
            decreases lines.len() - i,
        {
            let ghost prefix = lines_of(stored@).subrange(0, i + 1);
            assert(prefix.drop_last() =~= lines_of(stored@).subrange(0, i as int));
            assert(prefix.last() == lines@[i as int]@);
            match parse_turn_line(&lines[i]) {
                Some(t) => {
                    let ghost before = r@;
                    r.turns.push(t);
                    assert(r@ =~= before.push((t.role@, t.content@)));
                },
                None => {},
            }
            i = i + 1;
        }
        assert(lines_of(stored@).subrange(0, i as int) =~= lines_of(stored@));
        r
    }

    /// Appends a turn and returns the line that stores it.
    pub fn add_history(&mut self, role: &str, content: &str) -> (r: String)
        ensures
            final(self)@ == old(self)@.push((role@, content@)),
            r@ == turn_line(role@, content@),
            lacks(r@, '\n'),
    {
        proof {
            lemma_turn_line_one_line(role@, content@);
        }
        let mut line = create_json(role, content);
        line.push(',');
        let t = Turn { role: string_of(&chars_of(role)), content: string_of(&chars_of(content)) };
        let ghost before = self@;
        self.turns.push(t);
        assert(self@ =~= before.push((role@, content@)));
        assert(line@ =~= turn_line(role@, content@));
        string_of(&line)
    }

    /// Records one exchange: the user's turn, then the assistant's. Returns
    /// the two stored lines, in that order.
    pub fn record_exchange(&mut self, user_input: &str, reply: &str) -> (r: (String, String))
        ensures
            final(self)@ == old(self)@.push(("user"@, user_input@)).push(("assistant"@, reply@)),
            r.0@ == turn_line("user"@, user_input@),
            r.1@ == turn_line("assistant"@, reply@),
    {
        let a = self.add_history("user", user_input);
        let b = self.add_history("assistant", reply);
        (a, b)
    }

    /// The turns, oldest first.
    pub fn turns(&self) -> (r: &Vec<Turn>)
        ensures
            r@.map_values(|t: Turn| (t.role@, t.content@)) == self@,
    {
        &self.turns
    }

    /// The stored line of each turn, oldest first.
    pub fn stored_lines(&self) -> (r: Vec<String>)
        ensures
            r@.len() == self@.len(),
            forall|i: int| 0 <= i < r@.len() ==> #[trigger] r@[i]@ == turn_line(self@[i].0, self@[i].1),
            forall|i: int| 0 <= i < r@.len() ==> lacks(#[trigger] r@[i]@, '\n'),
    {
        let mut out: Vec<String> = Vec::new();
        let mut i: usize = 0;
        while i < self.turns.len()
            invariant
                i <= self.turns@.len(),
                self@ == self.turns@.map_values(|t: Turn| (t.role@, t.content@)),
                out@.len() == i,
                forall|k: int| 0 <= k < i ==> #[trigger] out@[k]@ == turn_line(self@[k].0, self@[k].1),
                forall|k: int| 0 <= k < i ==> lacks(#[trigger] out@[k]@, '\n'),
            decreases self.turns.len() - i,
        {
            let t = &self.turns[i];
            let mut line = create_json(t.role.as_str(), t.content.as_str());
            line.push(',');
            assert(line@ =~= turn_line(self@[i as int].0, self@[i as int].1));
            proof {
                lemma_turn_line_one_line(self@[i as int].0, self@[i as int].1);
            }
            out.push(string_of(&line));
            i = i + 1;
        }
        out
    }

    /// The text that stores the log: one line per turn, each ended by a line
    /// feed.
    pub fn stored_text(&self) -> (r: String)
        ensures
            r@ == stored_text_of(self@),
    {
        let mut out: Vec<char> = Vec::new();
        let mut i: usize = 0;
        while i < self.turns.len()
            invariant
                i <= self.turns@.len(),
                self@ == self.turns@.map_values(|t: Turn| (t.role@, t.content@)),
                out@ == stored_text_of(self@.subrange(0, i as int)),
            decreases self.turns.len() - i,
        {
            let t = &self.turns[i];
            let j = create_json(t.role.as_str(), t.content.as_str());
            push_all(&mut out, &j);
            out.push(',');
            out.push('\n');
            proof {
                let p = self@.subrange(0, i + 1);
                assert(p.drop_last() =~= self@.subrange(0, i as int));
                assert(p.last() == (t.role@, t.content@));
                assert(out@ =~= stored_text_of(p));
            }
            i = i + 1;
        }
        assert(self@.subrange(0, i as int) =~= self@);
        string_of(&out)
    }

    /// The stored lines of the log, concatenated.
    pub fn load_history_text(&self) -> (r: String)
        ensures
            r@ == log_text(self@),
    {
        let mut out: Vec<char> = Vec::new();
        let mut i: usize = 0;
        while i < self.turns.len()
            invariant
                i <= self.turns@.len(),
                self@ == self.turns@.map_values(|t: Turn| (t.role@, t.content@)),
                out@ == log_text(self@.subrange(0, i as int)),
            decreases self.turns.len() - i,
        {
            let t = &self.turns[i];
            let j = create_json(t.role.as_str(), t.content.as_str());
            push_all(&mut out, &j);
            out.push(',');
            proof {
                let p = self@.subrange(0, i + 1);
                assert(p.drop_last() =~= self@.subrange(0, i as int));
                assert(p.last() == (t.role@, t.content@));
                assert(out@ =~= log_text(p));
            }
            i = i + 1;
        }
        assert(self@.subrange(0, i as int) =~= self@);
        string_of(&out)
    }
}

/// Builds the user content of a chat request from the conversation log.
pub struct MessageProcessor {
    messages: HistoryMessage,
}

impl View for MessageProcessor {
    type V = Seq<(Seq<char>, Seq<char>)>;

    closed spec fn view(&self) -> Seq<(Seq<char>, Seq<char>)> {
        self.messages@
    }
}

/// The user content of a request: the most recent stored turn, as stored,
/// then the new turn's object. Each request thus carries the turn before it;
/// earlier turns are not replayed.
pub open spec fn user_content(log: Seq<(Seq<char>, Seq<char>)>, role: Seq<char>, message: Seq<char>) -> Seq<char> {
    if log.len() == 0 {
        turn_json(role, message)
    } else {
        turn_line(log.last().0, log.last().1) + turn_json(role, message)
    }
}

impl MessageProcessor {
    pub fn new(messages: HistoryMessage) -> (r: MessageProcessor)
        ensures
            r@ == messages@,
    {
        MessageProcessor { messages }
    }

    /// The stored log as text, where it holds any turn.
    pub fn set_input_message(&self) -> (r: Option<String>)
        ensures
            match r {
                Some(s) => s@ == log_text(self@) && s@.len() > 0,
                None => log_text(self@).len() == 0,
            },
    {
        let s = self.messages.load_history_text();
        if s.as_str().is_empty() {
            None
        } else {
            Some(s)
        }
    }

    /// The user content for a new turn of `role` saying `messages`.
    pub fn last_messages(&self, role: &str, messages: &str) -> (r: String)
        ensures
            r@ == user_content(self@, role@, messages@),
    {
        let turns = self.messages.turns();
        let mut r: Vec<char> = Vec::new();
        if turns.len() > 0 {
            let last = &turns[turns.len() - 1];
            r = create_json(last.role.as_str(), last.content.as_str());
            r.push(',');
            proof {
                let n = turns@.len() - 1;
                assert(self@[n] == (last.role@, last.content@));
                assert(self@.last() == self@[n]);
            }
        }
        let ghost before = r@;
        push_all(&mut r, &create_json(role, messages));
        proof {
            if self@.len() == 0 {
                assert(r@ =~= turn_json(role@, messages@));
            } else {
                assert(r@ =~= user_content(self@, role@, messages@));
            }
        }
        string_of(&r)
    }
}

} // verus!
