//! Request bodies for each mode, and the configuration they are made from.
//! Bodies are rendered as JSON text with members in serde_json's key order;
//! a fixed backslash-collapsing pass then runs over the whole body, as the
//! remote service has always received it.
use vstd::prelude::*;
use crate::json::{json_quoted, quote};
use crate::text::{chars_of, string_of, push_all, replaced, replace_all, trim, trimmed, index_of, slice_of, same_chars};

verus! {

/// A chat configuration section as read: every field may be missing. The
/// numbers are held as the JSON text of the configured values.
pub struct ChatConfigFields {
    pub language_model: Option<String>,
    pub system_role: Option<String>,
    pub system_content: Option<String>,
    pub user_role: Option<String>,
    pub max_tokens: Option<String>,
    pub temp_float: Option<String>,
    pub top_p_float: Option<String>,
}

/// A complete chat configuration.
pub struct ChatConfig {
    pub language_model: String,
    pub system_role: String,
    pub system_content: String,
    pub user_role: String,
    pub max_tokens: String,
    pub temperature: String,
    pub top_p: String,
}

/// The configuration field that was missing.
#[derive(PartialEq, Eq, Structural, Clone, Copy, Debug)]
pub enum ConfigError {
    MissingLanguageModel,
    MissingSystemRole,
    MissingSystemContent,
    MissingUserRole,
    MissingMaxTokens,
    MissingTemperature,
    MissingTopP,
}

/// The first missing field of a section, in the order the fields are read.
pub open spec fn first_missing(f: ChatConfigFields) -> Option<ConfigError> {
    if f.language_model is None {
        Some(ConfigError::MissingLanguageModel)
    } else if f.system_role is None {
        Some(ConfigError::MissingSystemRole)
    } else if f.system_content is None {
        Some(ConfigError::MissingSystemContent)
    } else if f.user_role is None {
        Some(ConfigError::MissingUserRole)
    } else if f.max_tokens is None {
        Some(ConfigError::MissingMaxTokens)
    } else if f.temp_float is None {
        Some(ConfigError::MissingTemperature)
    } else if f.top_p_float is None {
        Some(ConfigError::MissingTopP)
    } else {
        None
    }
}

impl ChatConfig {
    /// Checks that every field is present; the system content is trimmed.
    pub fn from_fields(f: ChatConfigFields) -> (r: Result<ChatConfig, ConfigError>)
        ensures
            match r {
                Ok(c) => first_missing(f) is None && c.language_model@ == f.language_model->Some_0@
                    && c.system_role@ == f.system_role->Some_0@ && c.system_content@ == trimmed(
                    f.system_content->Some_0@,
                ) && c.user_role@ == f.user_role->Some_0@ && c.max_tokens@
                    == f.max_tokens->Some_0@ && c.temperature@ == f.temp_float->Some_0@ && c.top_p@
                    == f.top_p_float->Some_0@,
                Err(e) => first_missing(f) == Some(e),
            },
    {
        let ghost g = f;
        let language_model = match f.language_model {
            Some(x) => x,
            None => return Err(ConfigError::MissingLanguageModel),
        };
        let system_role = match f.system_role {
            Some(x) => x,
            None => return Err(ConfigError::MissingSystemRole),
        };
        let system_content = match f.system_content {
            Some(x) => x,
            None => return Err(ConfigError::MissingSystemContent),
        };
        let user_role = match f.user_role {
            Some(x) => x,
            None => return Err(ConfigError::MissingUserRole),
        };
        let max_tokens = match f.max_tokens {
            Some(x) => x,
            None => return Err(ConfigError::MissingMaxTokens),
        };
        let temperature = match f.temp_float {
            Some(x) => x,
            None => return Err(ConfigError::MissingTemperature),
        };
        let top_p = match f.top_p_float {
            Some(x) => x,
            None => return Err(ConfigError::MissingTopP),
        };
        let system_content = string_of(&trim(&chars_of(system_content.as_str())));
        Ok(
            ChatConfig {
                language_model,
                system_role,
                system_content,
                user_role,
                max_tokens,
                temperature,
                top_p,
            },
        )
    }
}

/// The pass every body goes through before it is sent: four backslashes
/// become two, then every pair of backslashes goes, then the text is trimmed.
pub open spec fn body_fixed(s: Seq<char>) -> Seq<char> {
    trimmed(
        replaced(
            replaced(s, seq!['\\', '\\', '\\', '\\'], seq!['\\', '\\']),
            seq!['\\', '\\'],
            seq![],
        ),
    )
}

fn fix_body(s: &[char]) -> (r: String)
    ensures
        r@ == body_fixed(s@),
{
    let four = vec!['\\', '\\', '\\', '\\'];
    let two = vec!['\\', '\\'];
    let none: Vec<char> = Vec::new();
    assert(four@ =~= seq!['\\', '\\', '\\', '\\']);
    assert(two@ =~= seq!['\\', '\\']);
    assert(none@ =~= seq![]);
    let a = replace_all(s, &four, &two);
    let b = replace_all(&a, &two, &none);
    string_of(&trim(&b))
}

/// The two chat messages: the system prompt, then the user's content.
pub open spec fn chat_messages(c: ChatConfig, content: Seq<char>) -> Seq<char> {
    "[{\"content\":"@ + json_quoted(c.system_content@) + ",\"role\":"@ + json_quoted(
        c.system_role@,
    ) + "},{\"content\":"@ + json_quoted(content) + ",\"role\":"@ + json_quoted(c.user_role@)
        + "}]"@
}

/// The body of a synchronous or asynchronous chat request, before the
/// backslash pass.
pub open spec fn chat_body(c: ChatConfig, content: Seq<char>) -> Seq<char> {
    "{\"max_tokens\":"@ + c.max_tokens@ + ",\"messages\":"@ + chat_messages(c, content)
        + ",\"model\":"@ + json_quoted(c.language_model@) + ",\"stream\":false,\"temperature\":"@
        + c.temperature@ + ",\"top_p\":"@ + c.top_p@ + "}"@
}

/// The body of a streamed chat request, before the backslash pass.
pub open spec fn stream_body(c: ChatConfig, content: Seq<char>) -> Seq<char> {
    "{\"do_sample\":true,\"max_tokens\":"@ + c.max_tokens@ + ",\"messages\":"@ + chat_messages(
        c,
        content,
    ) + ",\"model\":"@ + json_quoted(c.language_model@) + ",\"stream\":true,\"temperature\":"@
        + c.temperature@ + ",\"top_p\":"@ + c.top_p@ + "}"@
}

fn render_messages(c: &ChatConfig, content: &[char], out: &mut Vec<char>)
    ensures
        final(out)@ == old(out)@ + chat_messages(*c, content@),
{
    push_all(out, &chars_of("[{\"content\":"));
    push_all(out, &quote(&chars_of(c.system_content.as_str())));
    push_all(out, &chars_of(",\"role\":"));
    push_all(out, &quote(&chars_of(c.system_role.as_str())));
    push_all(out, &chars_of("},{\"content\":"));
    push_all(out, &quote(content));
    push_all(out, &chars_of(",\"role\":"));
    push_all(out, &quote(&chars_of(c.user_role.as_str())));
    push_all(out, &chars_of("}]"));
    assert(final(out)@ =~= old(out)@ + chat_messages(*c, content@));
}

/// The body of a synchronous or asynchronous chat request whose user turn
/// says `content`.
pub fn chat_request_body(c: &ChatConfig, content: &str) -> (r: String)
    ensures
        r@ == body_fixed(chat_body(*c, content@)),
{
    let mut b = chars_of("{\"max_tokens\":");
    push_all(&mut b, &chars_of(c.max_tokens.as_str()));
    push_all(&mut b, &chars_of(",\"messages\":"));
    render_messages(c, &chars_of(content), &mut b);
    push_all(&mut b, &chars_of(",\"model\":"));
    push_all(&mut b, &quote(&chars_of(c.language_model.as_str())));
    push_all(&mut b, &chars_of(",\"stream\":false,\"temperature\":"));
    push_all(&mut b, &chars_of(c.temperature.as_str()));
    push_all(&mut b, &chars_of(",\"top_p\":"));
    push_all(&mut b, &chars_of(c.top_p.as_str()));
    push_all(&mut b, &chars_of("}"));
    assert(b@ =~= chat_body(*c, content@));
    fix_body(&b)
}

/// The body of a streamed chat request whose user turn says `content`.
pub fn stream_request_body(c: &ChatConfig, content: &str) -> (r: String)
    ensures
        r@ == body_fixed(stream_body(*c, content@)),
{
    let mut b = chars_of("{\"do_sample\":true,\"max_tokens\":");
    push_all(&mut b, &chars_of(c.max_tokens.as_str()));
    push_all(&mut b, &chars_of(",\"messages\":"));
    render_messages(c, &chars_of(content), &mut b);
    push_all(&mut b, &chars_of(",\"model\":"));
    push_all(&mut b, &quote(&chars_of(c.language_model.as_str())));
    push_all(&mut b, &chars_of(",\"stream\":true,\"temperature\":"));
    push_all(&mut b, &chars_of(c.temperature.as_str()));
    push_all(&mut b, &chars_of(",\"top_p\":"));
    push_all(&mut b, &chars_of(c.top_p.as_str()));
    push_all(&mut b, &chars_of("}"));
    assert(b@ =~= stream_body(*c, content@));
    fix_body(&b)
}

/// The body of an image-generation request, before the backslash pass.
pub open spec fn image_body(model: Seq<char>, prompt: Seq<char>) -> Seq<char> {
    "{\"model\":"@ + json_quoted(model) + ",\"prompt\":"@ + json_quoted(prompt) + "}"@
}

/// The body of an image-generation request.
pub fn image_request_body(model: &str, prompt: &str) -> (r: String)
    ensures
        r@ == body_fixed(image_body(model@, prompt@)),
{
    let mut b = chars_of("{\"model\":");
    push_all(&mut b, &quote(&chars_of(model)));
    push_all(&mut b, &chars_of(",\"prompt\":"));
    push_all(&mut b, &quote(&chars_of(prompt)));
    push_all(&mut b, &chars_of("}"));
    assert(b@ =~= image_body(model@, prompt@));
    fix_body(&b)
}

/// The text and image address of a vision input `text@address`: the first
/// run free of `@` that an `@` and another such run follow, and that second
/// run. `None` where the input has no such shape.
pub open spec fn vision_parts(s: Seq<char>) -> Option<(Seq<char>, Seq<char>)>
    decreases s.len(),
{
    if s.len() == 0 {
        None
    } else if s[0] == '@' {
        vision_parts(s.drop_first())
    } else {
        let e = index_of(s, '@');
        if 0 <= e && e + 1 < s.len() && s[e + 1] != '@' {
            let rest = s.subrange(e + 1, s.len() as int);
            Some((s.subrange(0, e), rest.subrange(0, index_of(rest, '@'))))
        } else if 0 <= e < s.len() {
            vision_parts(s.subrange(e + 1, s.len() as int))
        } else {
            None
        }
    }
}

proof fn lemma_index_at(s: Seq<char>, c: char, p: int, q: int)
    requires
        0 <= p <= q <= s.len(),
        forall|j: int| p <= j < q ==> s[j] != c,
        q == s.len() || s[q] == c,
    ensures
        index_of(s.subrange(p, s.len() as int), c) == q - p,
    decreases q - p,
{
    let t = s.subrange(p, s.len() as int);
    if p < q {
        assert(t.drop_first() =~= s.subrange(p + 1, s.len() as int));
        lemma_index_at(s, c, p + 1, q);
    }
}

/// The end of the `@`-free run of `s` that starts at `p`.
fn run_end(s: &[char], p: usize) -> (q: usize)
    requires
        p <= s@.len(),
    ensures
        p <= q <= s@.len(),
        forall|j: int| p <= j < q ==> s@[j] != '@',
        q == s@.len() || s@[q as int] == '@',
        index_of(s@.subrange(p as int, s@.len() as int), '@') == q - p,
{
    let mut q = p;
    while q < s.len() && s[q] != '@'
        invariant
            p <= q <= s@.len(),
            forall|j: int| p <= j < q ==> s@[j] != '@',
        decreases s.len() - q,
    {
        q = q + 1;
    }
    proof {
        lemma_index_at(s@, '@', p as int, q as int);
    }
    q
}

/// Splits a vision input into its text and image address.
pub fn split_vision_input(s: &[char]) -> (r: Option<(Vec<char>, Vec<char>)>)
    ensures
        match r {
            Some(p) => vision_parts(s@) == Some((p.0@, p.1@)),
            None => vision_parts(s@) is None,
        },
{
    let n = s.len();
    let mut p: usize = 0;
    assert(s@.subrange(0, n as int) =~= s@);
    while p < n
        invariant
            n == s@.len(),
            p <= n,
            vision_parts(s@.subrange(p as int, n as int)) == vision_parts(s@),
        decreases n - p,
    {
        let ghost t = s@.subrange(p as int, n as int);
        if s[p] == '@' {
            assert(t.drop_first() =~= s@.subrange(p + 1, n as int));
            p = p + 1;
        } else {
            let e = run_end(s, p);
            if e < n && e + 1 < n && s[e + 1] != '@' {
                let f = run_end(s, e + 1);
                proof {
                    let rest = t.subrange(e - p + 1, t.len() as int);
                    assert(rest =~= s@.subrange(e + 1, n as int));
                    assert(t.subrange(0, e - p) =~= s@.subrange(p as int, e as int));
                    assert(rest.subrange(0, f - e - 1) =~= s@.subrange(e + 1, f as int));
                }
                return Some((slice_of(s, p, e), slice_of(s, e + 1, f)));
            } else if e < n {
                assert(t.subrange(e - p + 1, t.len() as int) =~= s@.subrange(e + 1, n as int));
                p = e + 1;
            } else {
                return None;
            }
        }
    }
    None
}

/// The body of a vision request, before the backslash pass.
pub open spec fn vision_body(model: Seq<char>, user_role: Seq<char>, text: Seq<char>, url: Seq<char>) -> Seq<char> {
    "{\"messages\":[{\"content\":[{\"text\":"@ + json_quoted(text)
        + ",\"type\":\"text\"},{\"image_url\":{\"url\":"@ + json_quoted(url)
        + "},\"type\":\"image_url\"}],\"role\":"@ + json_quoted(user_role) + "}],\"model\":"@
        + json_quoted(model) + ",\"stream\":true}"@
}

/// The body of a vision request for an input `text@address`; an input of
/// another shape sends empty text and address.
pub fn vision_request_body(model: &str, user_role: &str, input: &str) -> (r: String)
    ensures
        r@ == body_fixed(
            match vision_parts(input@) {
                Some(p) => vision_body(model@, user_role@, p.0, p.1),
                None => vision_body(model@, user_role@, seq![], seq![]),
            },
        ),
{
    let (text, url) = match split_vision_input(&chars_of(input)) {
        Some(p) => p,
        None => (Vec::new(), Vec::new()),
    };
    let mut b = chars_of("{\"messages\":[{\"content\":[{\"text\":");
    push_all(&mut b, &quote(&text));
    push_all(&mut b, &chars_of(",\"type\":\"text\"},{\"image_url\":{\"url\":"));
    push_all(&mut b, &quote(&url));
    push_all(&mut b, &chars_of("},\"type\":\"image_url\"}],\"role\":"));
    push_all(&mut b, &quote(&chars_of(user_role)));
    push_all(&mut b, &chars_of("}],\"model\":"));
    push_all(&mut b, &quote(&chars_of(model)));
    push_all(&mut b, &chars_of(",\"stream\":true}"));
    assert(b@ =~= vision_body(model@, user_role@, text@, url@));
    fix_body(&b)
}

/// The model families that have a chat configuration section.
#[derive(PartialEq, Eq, Structural, Clone, Copy, Debug)]
pub enum ChatFamily {
    Glm3,
    Glm4,
}

/// The family a model version names; any other version is invalid.
pub open spec fn family_of(version: Seq<char>) -> Option<ChatFamily> {
    if version == "glm-3"@ {
        Some(ChatFamily::Glm3)
    } else if version == "glm-4"@ {
        Some(ChatFamily::Glm4)
    } else {
        None
    }
}

/// Chooses the configuration section for a model version.
pub fn chat_family(version: &str) -> (r: Option<ChatFamily>)
    ensures
        r == family_of(version@),
{
    let v = chars_of(version);
    if same_chars(&v, &chars_of("glm-3")) {
        Some(ChatFamily::Glm3)
    } else if same_chars(&v, &chars_of("glm-4")) {
        Some(ChatFamily::Glm4)
    } else {
        None
    }
}

} // verus!
