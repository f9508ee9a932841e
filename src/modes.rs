//! One type per invocation mode, joining the request builders, the response
//! decoders and the conversation log; the endpoints and headers of each mode;
//! and the holders of a finished call's reply.
use vstd::prelude::*;
use crate::dispatch::Mode;
use crate::history::{HistoryMessage, MessageProcessor, user_content};
use crate::request::{
    ChatConfig, body_fixed, chat_body, stream_body, image_body, vision_body, vision_parts,
    chat_request_body, stream_request_body, image_request_body, vision_request_body,
};
use crate::response::{
    ResponseError, reply_result, image_result, stream_reply, decode_reply, decode_image_url,
    stream_text,
};
use crate::cleanup::{reply_cleaned, unicode_decoded, clean_reply, decode_unicode_escapes};
use crate::poll::{task_id, task_id_of};
use crate::text::{chars_of, string_of, push_all, lines_of};

verus! {

/// The address a mode's request is sent to.
pub open spec fn request_url_of(mode: Mode) -> Seq<char> {
    match mode {
        Mode::Async => "https://open.bigmodel.cn/api/paas/v4/async/chat/completions"@,
        Mode::CogView => "https://open.bigmodel.cn/api/paas/v4/images/generations"@,
        _ => "https://open.bigmodel.cn/api/paas/v4/chat/completions"@,
    }
}

pub fn request_url(mode: Mode) -> (r: &'static str)
    ensures
        r@ == request_url_of(mode),
{
    match mode {
        Mode::Async => "https://open.bigmodel.cn/api/paas/v4/async/chat/completions",
        Mode::CogView => "https://open.bigmodel.cn/api/paas/v4/images/generations",
        _ => "https://open.bigmodel.cn/api/paas/v4/chat/completions",
    }
}

/// The address polled for the status of task `id`.
pub fn task_status_url(id: &str) -> (r: String)
    ensures
        r@ == "https://open.bigmodel.cn/api/paas/v4/async-result/"@ + id@,
{
    let mut u = chars_of("https://open.bigmodel.cn/api/paas/v4/async-result/");
    push_all(&mut u, &chars_of(id));
    string_of(&u)
}

/// Whether a mode's response arrives as a stream of events.
pub open spec fn is_streamed(mode: Mode) -> bool {
    mode == Mode::Sse || mode == Mode::Glm4v
}

/// The headers of a request in `mode` carrying `token`, in order.
pub open spec fn headers_of(mode: Mode, token: Seq<char>) -> Seq<(Seq<char>, Seq<char>)> {
    let common = seq![
        ("Content-Type"@, "application/json;charset=UTF-8"@),
        ("Authorization"@, "Bearer "@ + token),
    ];
    if is_streamed(mode) {
        seq![
            ("Cache-Control"@, "no-cache"@),
            ("Connection"@, "keep-alive"@),
            ("Accept"@, "text/event-stream"@),
        ] + common
    } else {
        seq![("Accept"@, "application/json"@)] + common
    }
}

fn header(name: &str, value: &[char]) -> (r: (String, String))
    ensures
        r.0@ == name@,
        r.1@ == value@,
{
    (string_of(&chars_of(name)), string_of(value))
}

/// The headers of a request in `mode` carrying `token`; status polls use
/// those of the asynchronous mode.
pub fn request_headers(mode: Mode, token: &str) -> (r: Vec<(String, String)>)
    ensures
        r@.len() == headers_of(mode, token@).len(),
        forall|i: int|
            0 <= i < r@.len() ==> (#[trigger] r@[i]).0@ == headers_of(mode, token@)[i].0 && r@[i].1@
                == headers_of(mode, token@)[i].1,
{
    let mut h: Vec<(String, String)> = Vec::new();
    let streamed = matches!(mode, Mode::Sse | Mode::Glm4v);
    if streamed {
        h.push(header("Cache-Control", &chars_of("no-cache")));
        h.push(header("Connection", &chars_of("keep-alive")));
        h.push(header("Accept", &chars_of("text/event-stream")));
    } else {
        h.push(header("Accept", &chars_of("application/json")));
    }
    h.push(header("Content-Type", &chars_of("application/json;charset=UTF-8")));
    let mut bearer = chars_of("Bearer ");
    push_all(&mut bearer, &chars_of(token));
    h.push(header("Authorization", &bearer));
    h
}

/// A reply decoded from a response body, and the log after it: a reply is
/// recorded as the user's turn then the assistant's; a failure leaves the
/// log as it was.
pub open spec fn recorded(
    log: Seq<(Seq<char>, Seq<char>)>,
    user_input: Seq<char>,
    result: Result<Seq<char>, ResponseError>,
) -> Seq<(Seq<char>, Seq<char>)> {
    match result {
        Ok(t) => log.push(("user"@, user_input)).push(("assistant"@, t)),
        Err(_) => log,
    }
}

/// The view of a decoding outcome.
pub open spec fn outcome_view(r: Result<String, ResponseError>) -> Result<Seq<char>, ResponseError> {
    match r {
        Ok(s) => Ok(s@),
        Err(e) => Err(e),
    }
}

/// Decodes a reply body and records the exchange it completes.
fn finish_reply(body: &str, user_input: &str, history: &mut HistoryMessage) -> (r: Result<String, ResponseError>)
    ensures
        outcome_view(r) == reply_result(body@),
        final(history)@ == recorded(old(history)@, user_input@, reply_result(body@)),
{
    let r = decode_reply(body);
    match &r {
        Ok(t) => {
            history.record_exchange(user_input, t.as_str());
        },
        Err(_) => {},
    }
    r
}

/// The synchronous mode: one request, one reply document; also serves image
/// generation when that mode is chosen.
pub struct SyncInvokeModel {
    get_message: String,
}

impl SyncInvokeModel {
    pub fn new() -> (r: SyncInvokeModel)
        ensures
            r.message() == Seq::<char>::empty(),
    {
        SyncInvokeModel { get_message: String::new() }
    }

    /// The latest reply text.
    pub closed spec fn message(&self) -> Seq<char> {
        self.get_message@
    }

    pub fn get_message(&self) -> (r: &str)
        ensures
            r@ == self.message(),
    {
        self.get_message.as_str()
    }

    /// The request body for `user_input`, its user content built from the
    /// log.
    pub fn generate_sync_json_request_body(
        config: &ChatConfig,
        processor: &MessageProcessor,
        user_input: &str,
    ) -> (r: String)
        ensures
            r@ == body_fixed(chat_body(*config, user_content(processor@, config.user_role@, user_input@))),
    {
        let content = processor.last_messages(config.user_role.as_str(), user_input);
        chat_request_body(config, content.as_str())
    }

    /// The request body for an image prompt.
    pub fn generate_cogview_request_body(model: &str, user_input: &str) -> (r: String)
        ensures
            r@ == body_fixed(image_body(model@, user_input@)),
    {
        image_request_body(model, user_input)
    }

    /// Decodes a reply document and records the exchange.
    pub fn process_sync_task_status(
        &mut self,
        response_data: &str,
        user_input: &str,
        history: &mut HistoryMessage,
    ) -> (r: Result<String, ResponseError>)
        ensures
            outcome_view(r) == reply_result(response_data@),
            final(history)@ == recorded(old(history)@, user_input@, reply_result(response_data@)),
            final(self).message() == (match reply_result(response_data@) {
                Ok(t) => t,
                Err(_) => old(self).message(),
            }),
    {
        let r = finish_reply(response_data, user_input, history);
        if let Ok(t) = &r {
            self.get_message = t.clone();
        }
        r
    }

    /// Decodes an image-generation document into the image address.
    pub fn process_cogview_task_status(&mut self, response_data: &str) -> (r: Result<String, ResponseError>)
        ensures
            outcome_view(r) == image_result(response_data@),
            final(self).message() == (match image_result(response_data@) {
                Ok(t) => t,
                Err(_) => old(self).message(),
            }),
    {
        let r = decode_image_url(response_data);
        if let Ok(t) = &r {
            self.get_message = t.clone();
        }
        r
    }

    /// Cleans reply content and keeps it as the latest reply.
    pub fn process_message_content(&mut self, content: &str) -> (r: String)
        ensures
            r@ == reply_cleaned(content@),
            final(self).message() == r@,
    {
        let t = string_of(&clean_reply(&chars_of(content)));
        self.get_message = t.clone();
        t
    }

    /// Decodes the `\uXXXX` escapes of `input`.
    pub fn convert_unicode_emojis(&self, input: &str) -> (r: String)
        ensures
            r@ == unicode_decoded(input@),
    {
        string_of(&decode_unicode_escapes(&chars_of(input)))
    }
}

/// The asynchronous mode: submit a task, poll it, decode its final reply.
pub struct AsyncInvokeModel {
    get_message: String,
    search_task_id: String,
}

impl AsyncInvokeModel {
    pub fn new() -> (r: AsyncInvokeModel)
        ensures
            r.message() == Seq::<char>::empty(),
            r.task() == Seq::<char>::empty(),
    {
        AsyncInvokeModel { get_message: String::new(), search_task_id: String::new() }
    }

    pub closed spec fn message(&self) -> Seq<char> {
        self.get_message@
    }

    pub closed spec fn task(&self) -> Seq<char> {
        self.search_task_id@
    }

    /// The request body for `user_input`, its user content built from the
    /// log.
    pub fn generate_json_request_body(
        config: &ChatConfig,
        processor: &MessageProcessor,
        user_input: &str,
    ) -> (r: String)
        ensures
            r@ == body_fixed(chat_body(*config, user_content(processor@, config.user_role@, user_input@))),
    {
        let content = processor.last_messages(config.user_role.as_str(), user_input);
        chat_request_body(config, content.as_str())
    }

    /// Takes the task id out of the submission response and keeps it.
    pub fn process_response_data(&mut self, response_data: &str) -> (r: String)
        ensures
            r@ == task_id_of(response_data@),
            final(self).task() == r@,
            final(self).message() == old(self).message(),
    {
        let id = task_id(response_data);
        self.search_task_id = id.clone();
        id
    }

    /// The id of the submitted task.
    pub fn search_task_id(&self) -> (r: &str)
        ensures
            r@ == self.task(),
    {
        self.search_task_id.as_str()
    }

    /// Decodes the completed task's reply and records the exchange.
    pub fn process_task_status(
        &mut self,
        response_data: &str,
        user_input: &str,
        history: &mut HistoryMessage,
    ) -> (r: Result<String, ResponseError>)
        ensures
            outcome_view(r) == reply_result(response_data@),
            final(history)@ == recorded(old(history)@, user_input@, reply_result(response_data@)),
            final(self).task() == old(self).task(),
    {
        let r = finish_reply(response_data, user_input, history);
        if let Ok(t) = &r {
            self.get_message = t.clone();
        }
        r
    }
}

/// The streamed chat mode.
pub struct SSEInvokeModel {
    get_message: String,
}

impl SSEInvokeModel {
    pub fn new() -> (r: SSEInvokeModel)
        ensures
            r.message() == Seq::<char>::empty(),
    {
        SSEInvokeModel { get_message: String::new() }
    }

    pub closed spec fn message(&self) -> Seq<char> {
        self.get_message@
    }

    /// The request body for `user_input`, its user content built from the
    /// log.
    pub fn generate_sse_json_request_body(
        config: &ChatConfig,
        processor: &MessageProcessor,
        user_input: &str,
    ) -> (r: String)
        ensures
            r@ == body_fixed(stream_body(*config, user_content(processor@, config.user_role@, user_input@))),
    {
        let content = processor.last_messages(config.user_role.as_str(), user_input);
        stream_request_body(config, content.as_str())
    }

    /// The request body for a vision input `text@address`, sent from the
    /// streamed mode.
    pub fn generate_glm4v_json_request_body(model: &str, user_role: &str, user_input: &str) -> (r: String)
        ensures
            r@ == body_fixed(
                match vision_parts(user_input@) {
                    Some(p) => vision_body(model@, user_role@, p.0, p.1),
                    None => vision_body(model@, user_role@, seq![], seq![]),
                },
            ),
    {
        vision_request_body(model, user_role, user_input)
    }

    /// Gathers the reply of a stream body; a non-empty reply is recorded as
    /// an exchange.
    pub fn process_sse_message(
        &mut self,
        response_data: &str,
        user_message: &str,
        history: &mut HistoryMessage,
    ) -> (r: String)
        ensures
            r@ == stream_reply(lines_of(response_data@)),
            final(history)@ == (if r@.len() > 0 {
                old(history)@.push(("user"@, user_message@)).push(("assistant"@, r@))
            } else {
                old(history)@
            }),
            final(self).message() == r@,
    {
        let t = string_of(&stream_text(&chars_of(response_data)));
        if !t.as_str().is_empty() {
            history.record_exchange(user_message, t.as_str());
        }
        self.get_message = t.clone();
        t
    }
}

/// The vision mode: text and an image address, answered as a stream.
pub struct GLM4vInvokeModel {
    ai_response_data: String,
}

impl GLM4vInvokeModel {
    pub fn new() -> (r: GLM4vInvokeModel)
        ensures
            r.response_data() == Seq::<char>::empty(),
    {
        GLM4vInvokeModel { ai_response_data: String::new() }
    }

    pub closed spec fn response_data(&self) -> Seq<char> {
        self.ai_response_data@
    }

    /// The request body for an input `text@address`.
    pub fn generate_glm4v_json_request_body(model: &str, user_role: &str, user_input: &str) -> (r: String)
        ensures
            r@ == body_fixed(
                match vision_parts(user_input@) {
                    Some(p) => vision_body(model@, user_role@, p.0, p.1),
                    None => vision_body(model@, user_role@, seq![], seq![]),
                },
            ),
    {
        vision_request_body(model, user_role, user_input)
    }

    /// Gathers the reply of a stream body; vision replies are not logged.
    pub fn process_glm4v_task_status(&mut self, response_data: &str) -> (r: String)
        ensures
            r@ == stream_reply(lines_of(response_data@)),
            final(self).response_data() == response_data@,
    {
        self.ai_response_data = string_of(&chars_of(response_data));
        string_of(&stream_text(&chars_of(response_data)))
    }
}

/// The image-generation mode.
pub struct CogViewInvokeModel {
    get_message: String,
}

impl CogViewInvokeModel {
    pub fn new() -> (r: CogViewInvokeModel)
        ensures
            r.message() == Seq::<char>::empty(),
    {
        CogViewInvokeModel { get_message: String::new() }
    }

    pub closed spec fn message(&self) -> Seq<char> {
        self.get_message@
    }

    /// The request body for an image prompt.
    pub fn generate_cogview_request_body(model: &str, user_input: &str) -> (r: String)
        ensures
            r@ == body_fixed(image_body(model@, user_input@)),
    {
        image_request_body(model, user_input)
    }

    /// Decodes an image-generation document into the image address.
    pub fn process_cogview_task_status(&mut self, response_data: &str) -> (r: Result<String, ResponseError>)
        ensures
            outcome_view(r) == image_result(response_data@),
            final(self).message() == (match image_result(response_data@) {
                Ok(t) => t,
                Err(_) => old(self).message(),
            }),
    {
        let r = decode_image_url(response_data);
        if let Ok(t) = &r {
            self.get_message = t.clone();
        }
        r
    }
}

/// What a finished call leaves for its caller: `None` where the call itself
/// failed; otherwise the reply, empty where the response held none.
pub open spec fn left_for_caller(outcome: Option<Result<String, ResponseError>>) -> Option<Seq<char>> {
    match outcome {
        None => None,
        Some(Ok(t)) => Some(t@),
        Some(Err(_)) => Some(Seq::<char>::empty()),
    }
}

fn leave_for_caller(outcome: Option<Result<String, ResponseError>>) -> (r: Option<String>)
    ensures
        match r {
            Some(s) => left_for_caller(outcome) == Some(s@),
            None => left_for_caller(outcome) is None,
        },
{
    match outcome {
        None => None,
        Some(Ok(t)) => Some(t),
        Some(Err(_)) => Some(String::new()),
    }
}

/// The view of a held reply.
pub open spec fn held(m: Option<String>) -> Option<Seq<char>> {
    match m {
        Some(s) => Some(s@),
        None => None,
    }
}

fn held_str(m: &Option<String>) -> (r: Option<&str>)
    ensures
        match r {
            Some(s) => held(*m) == Some(s@),
            None => held(*m) is None,
        },
{
    match m {
        Some(s) => Some(s.as_str()),
        None => None,
    }
}

/// The reply of a synchronous call.
pub struct ReceiveInvokeModelOnlyText {
    response_sync_message: Option<String>,
}

impl ReceiveInvokeModelOnlyText {
    pub fn new(outcome: Option<Result<String, ResponseError>>) -> (r: Self)
        ensures
            r.reply() == left_for_caller(outcome),
    {
        ReceiveInvokeModelOnlyText { response_sync_message: leave_for_caller(outcome) }
    }

    pub closed spec fn reply(&self) -> Option<Seq<char>> {
        held(self.response_sync_message)
    }

    pub fn get_response_message(&self) -> (r: Option<&str>)
        ensures
            match r {
                Some(s) => self.reply() == Some(s@),
                None => self.reply() is None,
            },
    {
        held_str(&self.response_sync_message)
    }
}

/// The reply of an asynchronous call.
pub struct ReceiveAsyncInvokeOnlyText {
    response_async_message: Option<String>,
}

impl ReceiveAsyncInvokeOnlyText {
    pub fn new(outcome: Option<Result<String, ResponseError>>) -> (r: Self)
        ensures
            r.reply() == left_for_caller(outcome),
    {
        ReceiveAsyncInvokeOnlyText { response_async_message: leave_for_caller(outcome) }
    }

    pub closed spec fn reply(&self) -> Option<Seq<char>> {
        held(self.response_async_message)
    }

    pub fn get_response(&self) -> (r: Option<&str>)
        ensures
            match r {
                Some(s) => self.reply() == Some(s@),
                None => self.reply() is None,
            },
    {
        held_str(&self.response_async_message)
    }
}

/// The reply of a streamed call.
pub struct ReceiveSSEInvokeModelOnlyText {
    response_sse_message: Option<String>,
}

impl ReceiveSSEInvokeModelOnlyText {
    /// `None` where the call failed; the gathered reply otherwise.
    pub fn new(outcome: Option<String>) -> (r: Self)
        ensures
            r.reply() == held(outcome),
    {
        ReceiveSSEInvokeModelOnlyText { response_sse_message: outcome }
    }

    pub closed spec fn reply(&self) -> Option<Seq<char>> {
        held(self.response_sse_message)
    }

    pub fn get_response_message(&self) -> (r: Option<&str>)
        ensures
            match r {
                Some(s) => self.reply() == Some(s@),
                None => self.reply() is None,
            },
    {
        held_str(&self.response_sse_message)
    }
}

/// The reply of a vision call.
pub struct Receive4VInvokeModelwithText {
    response_glm4v_message: Option<String>,
}

impl Receive4VInvokeModelwithText {
    /// `None` where the call failed; the gathered reply otherwise.
    pub fn new(outcome: Option<String>) -> (r: Self)
        ensures
            r.reply() == held(outcome),
    {
        Receive4VInvokeModelwithText { response_glm4v_message: outcome }
    }

    pub closed spec fn reply(&self) -> Option<Seq<char>> {
        held(self.response_glm4v_message)
    }

    pub fn get_response_glm4v_message(&self) -> (r: Option<&str>)
        ensures
            match r {
                Some(s) => self.reply() == Some(s@),
                None => self.reply() is None,
            },
    {
        held_str(&self.response_glm4v_message)
    }
}

/// The image address of an image-generation call.
pub struct ReceiveCogviewInvokeModel {
    response_cogview_message: Option<String>,
}

impl ReceiveCogviewInvokeModel {
    pub fn new(outcome: Option<Result<String, ResponseError>>) -> (r: Self)
        ensures
            r.reply() == left_for_caller(outcome),
    {
        ReceiveCogviewInvokeModel { response_cogview_message: leave_for_caller(outcome) }
    }

    pub closed spec fn reply(&self) -> Option<Seq<char>> {
        held(self.response_cogview_message)
    }

    pub fn get_cogview_response_message(&self) -> (r: Option<&str>)
        ensures
            match r {
                Some(s) => self.reply() == Some(s@),
                None => self.reply() is None,
            },
    {
        held_str(&self.response_cogview_message)
    }
}

} // verus!
