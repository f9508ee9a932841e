//! Asynchronous tasks: the id a submission returns, and the decision taken
//! on each poll of the task's status.
use vstd::prelude::*;
use crate::json::{Json, json_parsed, member_of, text_of, parse_json, member, text};
use crate::text::{chars_of, string_of, replaced, replace_all, eq_ignore_case, eq_ascii_fold, push_all};

verus! {

/// The interval between two polls of a task, in milliseconds.
pub const POLL_INTERVAL_MS: u64 = 100;

/// The task id in a submission response: the `id` string with quote
/// characters removed and an escaped blank line made a newline; empty where
/// there is none.
pub open spec fn task_id_of(body: Seq<char>) -> Seq<char> {
    match json_parsed(body) {
        None => seq![],
        Some(doc) => task_id_in(doc),
    }
}

/// The task id in a parsed submission response.
pub open spec fn task_id_in(doc: Json) -> Seq<char> {
    let id = member_of(doc, "id"@);
    if id is None || text_of(id->Some_0) is None {
        seq![]
    } else {
        replaced(
            replaced(text_of(id->Some_0)->Some_0, seq!['"'], seq![]),
            seq!['\\', 'n', '\\', 'n'],
            seq!['\n'],
        )
    }
}

/// Takes the task id out of a submission response.
pub fn task_id(body: &str) -> (r: String)
    ensures
        r@ == task_id_of(body@),
{
    match parse_json(body) {
        Some(d) => task_id_from(&d),
        None => String::new(),
    }
}

/// Takes the task id out of a parsed submission response.
pub fn task_id_from(doc: &Json) -> (r: String)
    ensures
        r@ == task_id_in(*doc),
{
    let id = match member(doc, "id") {
        Some(v) => match text(v) {
            Some(t) => t,
            None => return String::new(),
        },
        None => return String::new(),
    };
    let quote = vec!['"'];
    let blank = vec!['\\', 'n', '\\', 'n'];
    let nl = vec!['\n'];
    let none: Vec<char> = Vec::new();
    assert(quote@ =~= seq!['"']);
    assert(blank@ =~= seq!['\\', 'n', '\\', 'n']);
    assert(nl@ =~= seq!['\n']);
    assert(none@ =~= seq![]);
    let a = replace_all(&id, &quote, &none);
    let b = replace_all(&a, &blank, &nl);
    string_of(&b)
}

/// What a status body says of its task: `Some(true)` when `task_status` is
/// `SUCCESS` in any letter case, `Some(false)` for any other or no status,
/// `None` when the body does not parse.
pub open spec fn task_complete(body: Seq<char>) -> Option<bool> {
    match json_parsed(body) {
        None => None,
        Some(doc) => Some(status_success(doc)),
    }
}

/// A parsed status body has `task_status` equal to `SUCCESS` in any letter
/// case.
pub open spec fn status_success(doc: Json) -> bool {
    let status = member_of(doc, "task_status"@);
    status is Some && text_of(status->Some_0) is Some && eq_ascii_fold(
        text_of(status->Some_0)->Some_0,
        "SUCCESS"@,
    )
}

/// Reads whether a status body reports the task complete.
pub fn is_task_complete(body: &str) -> (r: Option<bool>)
    ensures
        r == task_complete(body@),
{
    match parse_json(body) {
        Some(d) => Some(task_complete_from(&d)),
        None => None,
    }
}

/// Reads whether a parsed status body reports the task complete.
pub fn task_complete_from(doc: &Json) -> (r: bool)
    ensures
        r == status_success(*doc),
{
    match member(doc, "task_status") {
        Some(v) => match text(v) {
            Some(t) => eq_ignore_case(&t, &chars_of("SUCCESS")),
            None => false,
        },
        None => false,
    }
}

/// Why polling stopped without a result.
#[derive(PartialEq, Eq, Structural, Clone, Copy, Debug)]
pub enum PollFailure {
    /// The status request failed or the server answered with an error.
    Transport,
    /// The status body was not JSON.
    Unparsable,
}

/// What to do after one poll.
pub enum PollAction {
    /// The task is complete; its status body is the final response.
    Finish(String),
    /// Wait this many milliseconds, then poll again.
    Retry(u64),
    /// Stop polling.
    Abort(PollFailure),
}

/// Decides the next step from one poll's outcome: `None` for a transport
/// failure, else the status body. Polling has no bound of its own: it ends
/// on completion or on a failure.
pub fn poll_decision(reply: Option<String>) -> (r: PollAction)
    ensures
        match reply {
            None => r == PollAction::Abort(PollFailure::Transport),
            Some(body) => match task_complete(body@) {
                None => r == PollAction::Abort(PollFailure::Unparsable),
                Some(true) => r == PollAction::Finish(body),
                Some(false) => r == PollAction::Retry(POLL_INTERVAL_MS),
            },
        },
{
    match reply {
        None => PollAction::Abort(PollFailure::Transport),
        Some(body) => match is_task_complete(body.as_str()) {
            None => PollAction::Abort(PollFailure::Unparsable),
            Some(true) => PollAction::Finish(body),
            Some(false) => PollAction::Retry(POLL_INTERVAL_MS),
        },
    }
}

/// Text made of decimal digits only, at least one.
pub open spec fn is_digits(s: Seq<char>) -> bool {
    s.len() > 0 && forall|i: int| 0 <= i < s.len() ==> 48 <= #[trigger] (s[i] as u32) <= 57
}

/// The value of a run of decimal digits.
pub open spec fn digits_value(s: Seq<char>) -> nat
    decreases s.len(),
{
    if s.len() == 0 {
        0
    } else {
        digits_value(s.drop_last()) * 10 + ((s.last() as u32) - 48) as nat
    }
}

/// A number's text that names a 64-bit signed integer, as `as_i64` accepts.
pub open spec fn is_i64_text(t: Seq<char>) -> bool {
    if t.len() > 0 && t[0] == '-' {
        is_digits(t.drop_first()) && digits_value(t.drop_first()) <= 9223372036854775808
    } else {
        is_digits(t) && digits_value(t) <= 9223372036854775807
    }
}

/// The id and status in the error body of a refused submission, where the
/// id is an integer and the status a string.
pub open spec fn refusal_of(body: Seq<char>) -> Option<(Seq<char>, Seq<char>)> {
    match json_parsed(body) {
        None => None,
        Some(doc) => refusal_in(doc),
    }
}

/// The id and status in a parsed error body, where the id is an integer and
/// the status a string.
pub open spec fn refusal_in(doc: Json) -> Option<(Seq<char>, Seq<char>)> {
    let id = member_of(doc, "id"@);
    let status = member_of(doc, "task_status"@);
    if id is Some && id->Some_0 is Number && is_i64_text(id->Some_0->Number_0@) && status is Some
        && text_of(status->Some_0) is Some {
        Some((id->Some_0->Number_0@, text_of(status->Some_0)->Some_0))
    } else {
        None
    }
}

/// The message for a refused submission with HTTP status `code` and error
/// body `body`.
pub open spec fn refusal_message(code: Seq<char>, body: Seq<char>) -> Seq<char> {
    refusal_message_parsed(code, json_parsed(body))
}

/// The message for a refused submission whose error body parsed to `doc`.
pub open spec fn refusal_message_parsed(code: Seq<char>, doc: Option<Json>) -> Seq<char> {
    match (match doc {
        Some(d) => refusal_in(d),
        None => None,
    }) {
        Some((id, status)) => "HTTP request failure, Your request id is: "@ + id + ", Status: "@
            + status,
        None => "HTTP request failure, Code: "@ + code,
    }
}

/// Reads a run of digits, with the value capped just above the largest
/// magnitude a 64-bit signed integer has.
fn capped_value(s: &[char], from: usize) -> (r: Option<u128>)
    requires
        from <= s@.len(),
    ensures
        match r {
            Some(v) => is_digits(s@.subrange(from as int, s@.len() as int)) && (digits_value(
                s@.subrange(from as int, s@.len() as int),
            ) <= 9223372036854775808 ==> v == digits_value(
                s@.subrange(from as int, s@.len() as int),
            )) && (digits_value(s@.subrange(from as int, s@.len() as int)) > 9223372036854775808
                ==> v > 9223372036854775808),
            None => !is_digits(s@.subrange(from as int, s@.len() as int)),
        },
{
    let ghost t = s@.subrange(from as int, s@.len() as int);
    if from == s.len() {
        return None;
    }
    let cap: u128 = 9223372036854775808;
    let mut acc: u128 = 0;
    let mut i: usize = from;
    assert(s@.subrange(from as int, from as int) =~= Seq::<char>::empty());
    while i < s.len()
        invariant
            from <= i <= s@.len(),
            t == s@.subrange(from as int, s@.len() as int),
            cap == 9223372036854775808,
            forall|j: int| from <= j < i ==> 48 <= #[trigger] (s@[j] as u32) <= 57,
            digits_value(s@.subrange(from as int, i as int)) <= cap ==> acc == digits_value(
                s@.subrange(from as int, i as int),
            ),
            digits_value(s@.subrange(from as int, i as int)) > cap ==> acc > cap,
            acc <= cap * 10 + 9,
        decreases s.len() - i,
    {
        let c = s[i] as u32;
        if c < 48 || c > 57 {
            assert(t[i - from] == s@[i as int]);
            return None;
        }
        let ghost before = s@.subrange(from as int, i as int);
        let ghost after = s@.subrange(from as int, i + 1);
        assert(after.drop_last() =~= before);
        assert(digits_value(after) == digits_value(before) * 10 + (c - 48) as nat);
        if acc <= cap {
            acc = acc * 10 + (c - 48) as u128;
        }
        i = i + 1;
    }
    assert(s@.subrange(from as int, i as int) =~= t);
    assert forall|j: int| 0 <= j < t.len() implies 48 <= #[trigger] (t[j] as u32) <= 57 by {
        assert(t[j] == s@[from + j]);
    }
    Some(acc)
}

/// Whether a number's text names a 64-bit signed integer.
fn i64_text(t: &[char]) -> (r: bool)
    ensures
        r == is_i64_text(t@),
{
    if t.len() > 0 && t[0] == '-' {
        assert(t@.subrange(1, t@.len() as int) =~= t@.drop_first());
        match capped_value(t, 1) {
            Some(v) => v <= 9223372036854775808,
            None => false,
        }
    } else {
        assert(t@.subrange(0, t@.len() as int) =~= t@);
        match capped_value(t, 0) {
            Some(v) => v <= 9223372036854775807,
            None => false,
        }
    }
}

/// The message for a refused submission: the request id and task status the
/// error body reports, or else the HTTP status `code`.
pub fn submit_failure_message(code: &str, body: &str) -> (r: String)
    ensures
        r@ == refusal_message(code@, body@),
{
    failure_message_from(code, &parse_json(body))
}

/// The message for a refused submission whose error body parsed to `doc`.
pub fn failure_message_from(code: &str, doc: &Option<Json>) -> (r: String)
    ensures
        r@ == refusal_message_parsed(code@, *doc),
{
    let mut m: Vec<char>;
    let found = match doc {
        Some(doc) => {
            let id = match member(doc, "id") {
                Some(Json::Number(n)) => {
                    let t = chars_of(n.as_str());
                    if i64_text(&t) {
                        Some(t)
                    } else {
                        None
                    }
                },
                _ => None,
            };
            let status = match member(doc, "task_status") {
                Some(v) => text(v),
                None => None,
            };
            match (id, status) {
                (Some(i), Some(s)) => Some((i, s)),
                _ => None,
            }
        },
        None => None,
    };
    match found {
        Some((id, status)) => {
            m = chars_of("HTTP request failure, Your request id is: ");
            push_all(&mut m, &id);
            push_all(&mut m, &chars_of(", Status: "));
            push_all(&mut m, &status);
        },
        None => {
            m = chars_of("HTTP request failure, Code: ");
            push_all(&mut m, &chars_of(code));
        },
    }
    string_of(&m)
}

} // verus!
