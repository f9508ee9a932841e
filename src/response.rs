//! Decoding of the three response shapes into user-facing text: one reply
//! document, one image-generation document, and a stream of `data: ` lines.
use vstd::prelude::*;
use crate::json::{Json, json_parsed, member_of, first_of, text_of, is_object, is_array, parse_json, member, first, text};
use crate::cleanup::{reply_cleaned, fragment_cleaned, clean_reply, clean_fragment};
use crate::text::{chars_of, string_of, trimmed, trim, matches_at, occurs_at, push_all, slice_of, lines_of, split_lines};

verus! {

/// Why no text could be taken out of a response document.
#[derive(PartialEq, Eq, Structural, Clone, Copy, Debug)]
pub enum ResponseError {
    /// The response is not one JSON document.
    Unparsable,
    /// No `choices` array.
    ChoicesNotFound,
    /// No object as the first element of `choices`.
    ChoiceNotFound,
    /// No `message` object in that choice.
    MessageNotFound,
    /// No `content` string in the message.
    ContentNotFound,
    /// No `data` array.
    DataNotFound,
    /// No object as the first element of `data`.
    ImageNotFound,
    /// No `url` string in that element.
    UrlNotFound,
}

/// The diagnostic line for each error.
pub open spec fn error_text(e: ResponseError) -> Seq<char> {
    match e {
        ResponseError::Unparsable => "Error processing response data"@,
        ResponseError::ChoicesNotFound => "Choices not found in response"@,
        ResponseError::ChoiceNotFound => "Choice not found in choices"@,
        ResponseError::MessageNotFound => "Message not found in choice"@,
        ResponseError::ContentNotFound => "Content not found in message"@,
        ResponseError::DataNotFound => "data part not found in response"@,
        ResponseError::ImageNotFound => "url not found in data part"@,
        ResponseError::UrlNotFound => "ImageUrl not found in message"@,
    }
}

impl ResponseError {
    /// A line describing the error, for diagnostics.
    pub fn message(&self) -> (r: &'static str)
        ensures
            r@ == error_text(*self),
    {
        match self {
            ResponseError::Unparsable => "Error processing response data",
            ResponseError::ChoicesNotFound => "Choices not found in response",
            ResponseError::ChoiceNotFound => "Choice not found in choices",
            ResponseError::MessageNotFound => "Message not found in choice",
            ResponseError::ContentNotFound => "Content not found in message",
            ResponseError::DataNotFound => "data part not found in response",
            ResponseError::ImageNotFound => "url not found in data part",
            ResponseError::UrlNotFound => "ImageUrl not found in message",
        }
    }
}

/// `choices[0].message.content` of a reply document.
pub open spec fn reply_content(doc: Option<Json>) -> Result<Seq<char>, ResponseError> {
    if doc is None {
        Err(ResponseError::Unparsable)
    } else {
        let choices = member_of(doc->Some_0, "choices"@);
        if choices is None || !is_array(choices->Some_0) {
            Err(ResponseError::ChoicesNotFound)
        } else {
            let choice = first_of(choices->Some_0);
            if choice is None || !is_object(choice->Some_0) {
                Err(ResponseError::ChoiceNotFound)
            } else {
                let message = member_of(choice->Some_0, "message"@);
                if message is None || !is_object(message->Some_0) {
                    Err(ResponseError::MessageNotFound)
                } else {
                    let content = member_of(message->Some_0, "content"@);
                    if content is None || text_of(content->Some_0) is None {
                        Err(ResponseError::ContentNotFound)
                    } else {
                        Ok(text_of(content->Some_0)->Some_0)
                    }
                }
            }
        }
    }
}

/// `data[0].url` of an image-generation document.
pub open spec fn image_url_of(doc: Option<Json>) -> Result<Seq<char>, ResponseError> {
    if doc is None {
        Err(ResponseError::Unparsable)
    } else {
        let data = member_of(doc->Some_0, "data"@);
        if data is None || !is_array(data->Some_0) {
            Err(ResponseError::DataNotFound)
        } else {
            let image = first_of(data->Some_0);
            if image is None || !is_object(image->Some_0) {
                Err(ResponseError::ImageNotFound)
            } else {
                let url = member_of(image->Some_0, "url"@);
                if url is None || text_of(url->Some_0) is None {
                    Err(ResponseError::UrlNotFound)
                } else {
                    Ok(text_of(url->Some_0)->Some_0)
                }
            }
        }
    }
}

/// `choices[0].delta.content` of one streamed chunk, where the chunk is an
/// object that has it.
pub open spec fn delta_content(doc: Option<Json>) -> Option<Seq<char>> {
    if doc is None || !is_object(doc->Some_0) {
        None
    } else {
        let choices = member_of(doc->Some_0, "choices"@);
        if choices is None || !is_array(choices->Some_0) {
            None
        } else {
            let choice = first_of(choices->Some_0);
            if choice is None || !is_object(choice->Some_0) {
                None
            } else {
                let delta = member_of(choice->Some_0, "delta"@);
                if delta is None || !is_object(delta->Some_0) {
                    None
                } else {
                    let content = member_of(delta->Some_0, "content"@);
                    if content is None {
                        None
                    } else {
                        text_of(content->Some_0)
                    }
                }
            }
        }
    }
}

/// Takes `choices[0].message.content` out of a reply document.
pub fn find_reply_content(doc: &Json) -> (r: Result<Vec<char>, ResponseError>)
    ensures
        match r {
            Ok(c) => reply_content(Some(*doc)) == Ok::<Seq<char>, ResponseError>(c@),
            Err(e) => reply_content(Some(*doc)) == Err::<Seq<char>, ResponseError>(e),
        },
{
    let choices = match member(doc, "choices") {
        Some(c) if matches!(c, Json::Array(_)) => c,
        _ => return Err(ResponseError::ChoicesNotFound),
    };
    let choice = match first(choices) {
        Some(c) if matches!(c, Json::Object(_)) => c,
        _ => return Err(ResponseError::ChoiceNotFound),
    };
    let message = match member(choice, "message") {
        Some(m) if matches!(m, Json::Object(_)) => m,
        _ => return Err(ResponseError::MessageNotFound),
    };
    match member(message, "content") {
        Some(c) => match text(c) {
            Some(t) => Ok(t),
            None => Err(ResponseError::ContentNotFound),
        },
        None => Err(ResponseError::ContentNotFound),
    }
}

/// Takes `data[0].url` out of an image-generation document.
pub fn find_image_url(doc: &Json) -> (r: Result<Vec<char>, ResponseError>)
    ensures
        match r {
            Ok(c) => image_url_of(Some(*doc)) == Ok::<Seq<char>, ResponseError>(c@),
            Err(e) => image_url_of(Some(*doc)) == Err::<Seq<char>, ResponseError>(e),
        },
{
    let data = match member(doc, "data") {
        Some(d) if matches!(d, Json::Array(_)) => d,
        _ => return Err(ResponseError::DataNotFound),
    };
    let image = match first(data) {
        Some(i) if matches!(i, Json::Object(_)) => i,
        _ => return Err(ResponseError::ImageNotFound),
    };
    match member(image, "url") {
        Some(u) => match text(u) {
            Some(t) => Ok(t),
            None => Err(ResponseError::UrlNotFound),
        },
        None => Err(ResponseError::UrlNotFound),
    }
}

/// Takes `choices[0].delta.content` out of one streamed chunk.
pub fn find_delta_content(doc: &Json) -> (r: Option<Vec<char>>)
    ensures
        match r {
            Some(c) => delta_content(Some(*doc)) == Some(c@),
            None => delta_content(Some(*doc)) is None,
        },
{
    if !matches!(doc, Json::Object(_)) {
        return None;
    }
    let choices = match member(doc, "choices") {
        Some(c) if matches!(c, Json::Array(_)) => c,
        _ => return None,
    };
    let choice = match first(choices) {
        Some(c) if matches!(c, Json::Object(_)) => c,
        _ => return None,
    };
    let delta = match member(choice, "delta") {
        Some(d) if matches!(d, Json::Object(_)) => d,
        _ => return None,
    };
    match member(delta, "content") {
        Some(c) => text(c),
        None => None,
    }
}

/// The cleaned reply of a synchronous or asynchronous response body.
pub open spec fn reply_result(body: Seq<char>) -> Result<Seq<char>, ResponseError> {
    match reply_content(json_parsed(body)) {
        Ok(c) => Ok(reply_cleaned(c)),
        Err(e) => Err(e),
    }
}

/// The cleaned image address of an image-generation response body.
pub open spec fn image_result(body: Seq<char>) -> Result<Seq<char>, ResponseError> {
    match image_url_of(json_parsed(body)) {
        Ok(c) => Ok(reply_cleaned(c)),
        Err(e) => Err(e),
    }
}

/// Decodes a reply body into the text shown to the user.
pub fn decode_reply(body: &str) -> (r: Result<String, ResponseError>)
    ensures
        match r {
            Ok(s) => reply_result(body@) == Ok::<Seq<char>, ResponseError>(s@),
            Err(e) => reply_result(body@) == Err::<Seq<char>, ResponseError>(e),
        },
{
    let doc = match parse_json(body) {
        Some(d) => d,
        None => return Err(ResponseError::Unparsable),
    };
    match find_reply_content(&doc) {
        Ok(c) => {
            let t = clean_reply(&c);
            Ok(string_of(&t))
        },
        Err(e) => Err(e),
    }
}

/// Decodes an image-generation body into the image's address.
pub fn decode_image_url(body: &str) -> (r: Result<String, ResponseError>)
    ensures
        match r {
            Ok(s) => image_result(body@) == Ok::<Seq<char>, ResponseError>(s@),
            Err(e) => image_result(body@) == Err::<Seq<char>, ResponseError>(e),
        },
{
    let doc = match parse_json(body) {
        Some(d) => d,
        None => return Err(ResponseError::Unparsable),
    };
    match find_image_url(&doc) {
        Ok(c) => {
            let t = clean_reply(&c);
            Ok(string_of(&t))
        },
        Err(e) => Err(e),
    }
}

/// The prefix that marks an event line.
pub open spec fn data_prefix() -> Seq<char> {
    seq!['d', 'a', 't', 'a', ':', ' ']
}

/// The payload that ends a stream.
pub open spec fn done_marker() -> Seq<char> {
    seq!['[', 'D', 'O', 'N', 'E', ']']
}

/// A line with every leading `data: ` removed.
pub open spec fn without_data_prefix(l: Seq<char>) -> Seq<char>
    decreases l.len(),
{
    if l.len() >= 6 && l.subrange(0, 6) == data_prefix() {
        without_data_prefix(l.subrange(6, l.len() as int))
    } else {
        l
    }
}

/// The text that one chunk adds to a stream's reply.
pub open spec fn chunk_text(payload: Seq<char>) -> Seq<char> {
    chunk_of_doc(json_parsed(payload))
}

/// The text that a chunk parsed to `doc` adds: its cleaned fragment, or
/// nothing.
pub open spec fn chunk_of_doc(doc: Option<Json>) -> Seq<char> {
    match delta_content(doc) {
        Some(c) => fragment_cleaned(c),
        None => seq![],
    }
}

/// The reply of a stream's lines, given what each line's payload parsed to.
pub open spec fn stream_reply_parsed(lines: Seq<Seq<char>>, docs: Seq<Option<Json>>) -> Seq<char>
    decreases lines.len(),
{
    if lines.len() == 0 || docs.len() == 0 {
        seq![]
    } else {
        let payload = without_data_prefix(lines[0]);
        if payload.len() == 0 {
            stream_reply_parsed(lines.drop_first(), docs.drop_first())
        } else if trimmed(payload) == done_marker() {
            seq![]
        } else {
            chunk_of_doc(docs[0]) + stream_reply_parsed(lines.drop_first(), docs.drop_first())
        }
    }
}

/// With each payload's real parse result, the two readings agree.
proof fn lemma_stream_parsed(lines: Seq<Seq<char>>, docs: Seq<Option<Json>>)
    requires
        docs.len() == lines.len(),
        forall|i: int| 0 <= i < lines.len() ==> #[trigger] docs[i] == json_parsed(without_data_prefix(lines[i])),
    ensures
        stream_reply(lines) == stream_reply_parsed(lines, docs),
    decreases lines.len(),
{
    if lines.len() > 0 {
        assert forall|i: int| 0 <= i < lines.len() - 1 implies #[trigger] docs.drop_first()[i] == json_parsed(
            without_data_prefix(lines.drop_first()[i]),
        ) by {
            assert(docs[i + 1] == json_parsed(without_data_prefix(lines[i + 1])));
        }
        assert(docs[0] == json_parsed(without_data_prefix(lines[0])));
        lemma_stream_parsed(lines.drop_first(), docs.drop_first());
    }
}

/// The reply carried by a stream's lines: the cleaned fragments of its
/// chunks in order, up to the first `[DONE]`. Empty lines are passed over,
/// and so is a chunk that does not parse or holds no fragment.
pub open spec fn stream_reply(lines: Seq<Seq<char>>) -> Seq<char>
    decreases lines.len(),
{
    if lines.len() == 0 {
        seq![]
    } else {
        let payload = without_data_prefix(lines[0]);
        if payload.len() == 0 {
            stream_reply(lines.drop_first())
        } else if trimmed(payload) == done_marker() {
            seq![]
        } else {
            chunk_text(payload) + stream_reply(lines.drop_first())
        }
    }
}

/// A line that ends a stream.
pub open spec fn is_done_line(l: Seq<char>) -> bool {
    without_data_prefix(l).len() > 0 && trimmed(without_data_prefix(l)) == done_marker()
}

/// Chunks accumulate in arrival order with nothing between them: the reply
/// of two runs of lines is the reply of the first followed by that of the
/// second, where the first holds no `[DONE]`.
pub proof fn lemma_stream_in_order(a: Seq<Seq<char>>, b: Seq<Seq<char>>)
    requires
        forall|i: int| 0 <= i < a.len() ==> !is_done_line(#[trigger] a[i]),
    ensures
        stream_reply(a + b) == stream_reply(a) + stream_reply(b),
    decreases a.len(),
{
    if a.len() == 0 {
        assert(a + b =~= b);
        assert(Seq::<char>::empty() + stream_reply(b) =~= stream_reply(b));
    } else {
        assert((a + b).drop_first() =~= a.drop_first() + b);
        assert((a + b)[0] == a[0]);
        assert(!is_done_line(a[0]));
        lemma_stream_in_order(a.drop_first(), b);
        let p = without_data_prefix(a[0]);
        if p.len() > 0 {
            assert(chunk_text(p) + (stream_reply(a.drop_first()) + stream_reply(b)) =~= (chunk_text(p)
                + stream_reply(a.drop_first())) + stream_reply(b));
        }
    }
}

fn strip_data_prefix(l: &[char]) -> (r: Vec<char>)
    ensures
        r@ == without_data_prefix(l@),
{
    let prefix = vec!['d', 'a', 't', 'a', ':', ' '];
    assert(prefix@ =~= data_prefix());
    let mut i: usize = 0;
    assert(l@.subrange(0, l@.len() as int) =~= l@);
    while matches_at(l, i, &prefix)
        invariant
            prefix@ == data_prefix(),
            i <= l@.len(),
            without_data_prefix(l@.subrange(i as int, l@.len() as int)) == without_data_prefix(l@),
        decreases l.len() - i,
    {
        let ghost t = l@.subrange(i as int, l@.len() as int);
        assert(t.subrange(0, 6) =~= l@.subrange(i as int, i + 6));
        assert(t.subrange(6, t.len() as int) =~= l@.subrange(i + 6, l@.len() as int));
        i = i + 6;
    }
    proof {
        let t = l@.subrange(i as int, l@.len() as int);
        if t.len() >= 6 {
            assert(t.subrange(0, 6) =~= l@.subrange(i as int, i + 6));
        }
    }
    slice_of(l, i, l.len())
}

/// The text a chunk parsed to `doc` adds to a stream's reply.
pub fn fragment_of(doc: &Json) -> (r: Vec<char>)
    ensures
        r@ == chunk_of_doc(Some(*doc)),
{
    match find_delta_content(doc) {
        Some(c) => clean_fragment(&c),
        None => Vec::new(),
    }
}

fn is_done(payload: &[char]) -> (r: bool)
    ensures
        r == (trimmed(payload@) == done_marker()),
{
    let t = trim(payload);
    let done = vec!['[', 'D', 'O', 'N', 'E', ']'];
    assert(done@ =~= done_marker());
    if t.len() == 6 && matches_at(&t, 0, &done) {
        assert(t@.subrange(0, 6) =~= t@);
        return true;
    }
    proof {
        if t@ == done_marker() {
            assert(t@.subrange(0, 6) =~= t@);
        }
    }
    false
}

/// Gathers the reply of a stream's lines, given what each line's payload
/// (the line without its `data: ` prefixes) parsed to.
pub fn stream_text_parsed(lines: &Vec<Vec<char>>, docs: &Vec<Option<Json>>) -> (r: Vec<char>)
    requires
        lines@.len() == docs@.len(),
    ensures
        r@ == stream_reply_parsed(lines@.map_values(|l: Vec<char>| l@), docs@),
{
    let ghost ls = lines@.map_values(|l: Vec<char>| l@);
    let mut out: Vec<char> = Vec::new();
    let mut i: usize = 0;
    assert(ls.subrange(0, ls.len() as int) =~= ls);
    assert(docs@.subrange(0, docs@.len() as int) =~= docs@);
    assert(out@ + stream_reply_parsed(ls, docs@) =~= stream_reply_parsed(ls, docs@));
    while i < lines.len()
        invariant
            ls == lines@.map_values(|l: Vec<char>| l@),
            lines@.len() == docs@.len(),
            i <= ls.len(),
            out@ + stream_reply_parsed(
                ls.subrange(i as int, ls.len() as int),
                docs@.subrange(i as int, docs@.len() as int),
            ) == stream_reply_parsed(ls, docs@),
        decreases lines.len() - i,
    {
        let ghost rest = ls.subrange(i as int, ls.len() as int);
        let ghost drest = docs@.subrange(i as int, docs@.len() as int);
        let ghost next = ls.subrange(i + 1, ls.len() as int);
        let ghost dnext = docs@.subrange(i + 1, docs@.len() as int);
        assert(rest.drop_first() =~= next);
        assert(drest.drop_first() =~= dnext);
        assert(rest[0] == lines@[i as int]@);
        assert(drest[0] == docs@[i as int]);
        let payload = strip_data_prefix(&lines[i]);
        if payload.len() > 0 {
            if is_done(&payload) {
                assert(stream_reply_parsed(rest, drest) == Seq::<char>::empty());
                assert(out@ + Seq::<char>::empty() =~= out@);
                return out;
            }
            let t = match &docs[i] {
                Some(d) => fragment_of(d),
                None => Vec::new(),
            };
            let ghost before = out@;
            push_all(&mut out, &t);
            assert(before + (t@ + stream_reply_parsed(next, dnext)) =~= out@ + stream_reply_parsed(
                next,
                dnext,
            ));
        }
        i = i + 1;
    }
    assert(ls.subrange(i as int, ls.len() as int) =~= Seq::<Seq<char>>::empty());
    assert(out@ + Seq::<char>::empty() =~= out@);
    out
}

/// Gathers the reply carried by a stream body.
pub fn stream_text(body: &[char]) -> (r: Vec<char>)
    ensures
        r@ == stream_reply(lines_of(body@)),
{
    let lines = split_lines(body);
    let ghost ls = lines_of(body@);
    let mut docs: Vec<Option<Json>> = Vec::new();
    let mut i: usize = 0;
    while i < lines.len()
        invariant
            ls == lines_of(body@),
            lines@.len() == ls.len(),
            forall|k: int| 0 <= k < lines@.len() ==> #[trigger] lines@[k]@ == ls[k],
            i <= lines@.len(),
            docs@.len() == i,
            forall|k: int| 0 <= k < i ==> #[trigger] docs@[k] == json_parsed(without_data_prefix(ls[k])),
        decreases lines.len() - i,
    {
        let payload = strip_data_prefix(&lines[i]);
        let s = string_of(&payload);
        docs.push(parse_json(s.as_str()));
        i = i + 1;
    }
    proof {
        assert(lines@.map_values(|l: Vec<char>| l@) =~= ls);
        lemma_stream_parsed(ls, docs@);
    }
    stream_text_parsed(&lines, &docs)
}

/// Whether `pat` occurs anywhere in `s`.
pub open spec fn contains(s: Seq<char>, pat: Seq<char>) -> bool {
    exists|i: int| occurs_at(s, i, pat)
}

/// Whether a received piece of a stream carries the end marker, after which
/// no more is read.
pub fn ends_stream(piece: &str) -> (r: bool)
    ensures
        r == contains(piece@, "data: [DONE]"@),
{
    let s = chars_of(piece);
    let pat = chars_of("data: [DONE]");
    let mut i: usize = 0;
    proof {
        reveal_strlit("data: [DONE]");
    }
    while i < s.len()
        invariant
            s@ == piece@,
            pat@ == "data: [DONE]"@,
            pat@.len() > 0,
            i <= s@.len(),
            forall|j: int| 0 <= j < i ==> !occurs_at(s@, j, pat@),
        decreases s.len() - i,
    {
        if matches_at(&s, i, &pat) {
            return true;
        }
        i = i + 1;
    }
    assert forall|j: int| !occurs_at(s@, j, pat@) by {
        if 0 <= j < i {
        }
    }
    false
}

} // verus!
