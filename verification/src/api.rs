//! The chat-completions API: configuration, errors, the requests that the
//! client sends (URL, headers, timeout and body), and the parts of a
//! response that it reads.
use vstd::prelude::*;
use crate::text::{concat, decimal, decimal_string};

verus! {

#[verifier::external_type_specification]
#[verifier::external_body]
pub struct ExIoError(std::io::Error);

/// Where and how to call the API.
#[derive(Debug, Clone)]
pub struct ApiConfig {
    pub base_url: String,
    pub api_key: String,
    pub model: String,
    pub language: Option<String>,
}

/// Errors of an API call.
#[derive(Debug)]
pub enum ApiError {
    ConfigError(String),
    HttpError(String),
    ParseError(String),
    TimeoutError,
    IoError(std::io::Error),
}

/// Receives the events of a streamed answer.
pub trait Emitter {
    fn emit(&self, event: &str, payload: &str) -> Result<(), String>;
}

/// The view of an optional string.
pub open spec fn opt_view(o: Option<String>) -> Option<Seq<char>> {
    match o {
        Some(s) => Some(s@),
        None => None,
    }
}

/// The first problem with a configuration, if any: the key, the base URL and
/// the model name must not be empty, checked in that order.
pub open spec fn config_problem(c: ApiConfig) -> Option<Seq<char>> {
    if c.api_key@.len() == 0 {
        Some("API Key 不能为空"@)
    } else if c.base_url@.len() == 0 {
        Some("Base URL 不能为空"@)
    } else if c.model@.len() == 0 {
        Some("模型名称不能为空"@)
    } else {
        None
    }
}

impl ApiConfig {
    /// Checks that the configuration can be used for a request.
    pub fn validate(&self) -> (r: Result<(), ApiError>)
        ensures
            match r {
                Ok(_) => config_problem(*self) is None,
                Err(ApiError::ConfigError(m)) => config_problem(*self) == Some(m@),
                Err(_) => false,
            },
    {
        if self.api_key.as_str().is_empty() {
            return Err(ApiError::ConfigError(String::from_str("API Key 不能为空")));
        }
        if self.base_url.as_str().is_empty() {
            return Err(ApiError::ConfigError(String::from_str("Base URL 不能为空")));
        }
        if self.model.as_str().is_empty() {
            return Err(ApiError::ConfigError(String::from_str("模型名称不能为空")));
        }
        Ok(())
    }
}

impl Default for ApiConfig {
    fn default() -> (r: Self)
        ensures
            r.base_url@ == "https://api.xiaomimimo.com/v1"@,
            r.api_key@.len() == 0,
            r.model@ == "mimo-v2.5-asr"@,
            opt_view(r.language) == Some("auto"@),
    {
        ApiConfig {
            base_url: String::from_str("https://api.xiaomimimo.com/v1"),
            api_key: String::new(),
            model: String::from_str("mimo-v2.5-asr"),
            language: Some(String::from_str("auto")),
        }
    }
}

/// Trusted: the `Display` text of an `std::io::Error`; nothing is stated of it.
#[verifier::external_body]
pub fn io_error_text(e: &std::io::Error) -> String {
    e.to_string()
}

/// The text shown for an error, after its kind.
pub open spec fn error_text(e: ApiError) -> Option<Seq<char>> {
    match e {
        ApiError::ConfigError(m) => Some("配置错误: "@ + m@),
        ApiError::HttpError(m) => Some("HTTP 错误: "@ + m@),
        ApiError::ParseError(m) => Some("解析错误: "@ + m@),
        ApiError::TimeoutError => Some("请求超时"@),
        ApiError::IoError(_) => None,
    }
}

impl ApiError {
    /// The text shown for this error. For an I/O error it is `IO 错误: `
    /// followed by the I/O error's own text.
    pub fn message(&self) -> (r: String)
        ensures
            match error_text(*self) {
                Some(t) => r@ == t,
                None => r@.len() >= "IO 错误: "@.len() && r@.take("IO 错误: "@.len() as int)
                    == "IO 错误: "@,
            },
    {
        match self {
            ApiError::ConfigError(m) => concat("配置错误: ", m.as_str()),
            ApiError::HttpError(m) => concat("HTTP 错误: ", m.as_str()),
            ApiError::ParseError(m) => concat("解析错误: ", m.as_str()),
            ApiError::TimeoutError => String::from_str("请求超时"),
            ApiError::IoError(e) => {
                let t = io_error_text(e);
                let r = concat("IO 错误: ", t.as_str());
                assert(r@.take("IO 错误: "@.len() as int) =~= "IO 错误: "@);
                r
            },
        }
    }
}

impl From<std::io::Error> for ApiError {
    fn from(e: std::io::Error) -> (r: Self) {
        ApiError::IoError(e)
    }
}

impl vstd::std_specs::convert::FromSpecImpl<std::io::Error> for ApiError {
    open spec fn obeys_from_spec() -> bool {
        true
    }

    open spec fn from_spec(e: std::io::Error) -> Self {
        ApiError::IoError(e)
    }
}

// ---------------------------------------------------------------------
// Responses
// ---------------------------------------------------------------------

/// Token usage of an answer.
pub struct Usage {
    pub total_tokens: Option<u32>,
}

/// A complete message of a non-streamed answer.
pub struct Message {
    pub content: Option<String>,
}

/// A piece of a streamed answer.
pub struct Delta {
    pub content: Option<String>,
}

/// One choice of an answer.
pub struct Choice {
    pub message: Option<Message>,
    pub delta: Option<Delta>,
}

/// An answer, or one event of a streamed answer.
pub struct ChatCompletionResponse {
    pub choices: Vec<Choice>,
    pub usage: Option<Usage>,
}

/// The message text of the first choice, if there is one.
pub open spec fn message_content(r: ChatCompletionResponse) -> Option<Seq<char>> {
    if r.choices@.len() > 0 {
        match r.choices@[0].message {
            Some(m) => opt_view(m.content),
            None => None,
        }
    } else {
        None
    }
}

/// The streamed text of the first choice, if there is one.
pub open spec fn delta_content(r: ChatCompletionResponse) -> Option<Seq<char>> {
    if r.choices@.len() > 0 {
        match r.choices@[0].delta {
            Some(d) => opt_view(d.content),
            None => None,
        }
    } else {
        None
    }
}

/// The total token count of an answer, if it reports one.
pub open spec fn total_tokens(r: ChatCompletionResponse) -> Option<u32> {
    match r.usage {
        Some(u) => u.total_tokens,
        None => None,
    }
}

/// The transcript of a non-streamed answer: the first choice's message text,
/// or empty text when there is none.
pub fn completion_text(resp: &ChatCompletionResponse) -> (t: String)
    ensures
        t@ == match message_content(*resp) {
            Some(c) => c,
            None => Seq::<char>::empty(),
        },
{
    if resp.choices.len() > 0 {
        match &resp.choices[0].message {
            Some(m) => match &m.content {
                Some(c) => c.clone(),
                None => String::new(),
            },
            None => String::new(),
        }
    } else {
        String::new()
    }
}

/// The streamed text of the first choice, if there is one.
pub fn stream_delta(resp: &ChatCompletionResponse) -> (t: Option<String>)
    ensures
        opt_view(t) == delta_content(*resp),
{
    if resp.choices.len() > 0 {
        match &resp.choices[0].delta {
            Some(d) => match &d.content {
                Some(c) => Some(c.clone()),
                None => None,
            },
            None => None,
        }
    } else {
        None
    }
}

/// The total token count of an answer, if it reports one.
pub fn usage_tokens(resp: &ChatCompletionResponse) -> (n: Option<u32>)
    ensures
        n == total_tokens(*resp),
{
    match &resp.usage {
        Some(u) => u.total_tokens,
        None => None,
    }
}

/// Text of a token count, as the `token-update` event carries it.
pub fn token_count_text(n: u32) -> (s: String)
    ensures
        s@ == decimal(n as nat),
{
    decimal_string(n as u64)
}

// ---------------------------------------------------------------------
// Requests
// ---------------------------------------------------------------------

/// One part of the user's message.
pub enum ContentPart {
    /// Text (`{"type": "text", "text": ...}`).
    Text(String),
    /// Audio as a data URL (`{"type": "input_audio", "input_audio": {"data": ...}}`).
    InputAudio(String),
}

/// The view of a content part: whether it is text, and its text or data URL.
pub open spec fn part_view(p: ContentPart) -> (bool, Seq<char>) {
    match p {
        ContentPart::Text(t) => (true, t@),
        ContentPart::InputAudio(a) => (false, a@),
    }
}

/// The views of the content parts.
pub open spec fn parts_view(v: Seq<ContentPart>) -> Seq<(bool, Seq<char>)> {
    v.map_values(|p: ContentPart| part_view(p))
}

/// The body of a chat-completions request. It serializes as
/// `{"model", "messages": [system?, {"role": "user", "content": [parts]}],
/// "asr_options": {"language"}?, "stream": true?, "response_format": {"type"}?}`.
pub struct CompletionRequest {
    pub model: String,
    /// Content of a leading system message, when there is one.
    pub system_prompt: Option<String>,
    pub user_content: Vec<ContentPart>,
    /// The `asr_options.language` field of a transcription request.
    pub asr_language: Option<String>,
    /// Whether `"stream": true` is sent.
    pub stream: bool,
    /// The `response_format.type` field, when given.
    pub response_format: Option<String>,
}

/// A request ready to send.
pub struct PreparedRequest {
    pub url: String,
    /// The `Authorization` header.
    pub authorization: String,
    pub timeout_secs: u64,
    pub body: CompletionRequest,
}

/// `s` without trailing `/` characters (`trim_end_matches('/')`).
pub open spec fn trim_end_slashes(s: Seq<char>) -> Seq<char>
    decreases s.len(),
{
    if s.len() > 0 && s.last() == '/' {
        trim_end_slashes(s.drop_last())
    } else {
        s
    }
}

/// The chat-completions endpoint under a base URL.
pub open spec fn endpoint_url(base_url: Seq<char>) -> Seq<char> {
    trim_end_slashes(base_url) + "/chat/completions"@
}

/// The chat-completions endpoint under a base URL: trailing slashes of the
/// base are dropped before `/chat/completions` is appended.
pub fn chat_completions_url(base_url: &str) -> (u: String)
    ensures
        u@ == endpoint_url(base_url@),
{
    let v = crate::text::chars_of(base_url);
    let mut end = v.len();
    assert(v@.subrange(0, end as int) == v@);
    while end > 0 && v[end - 1] == '/'
        invariant
            end <= v@.len(),
            v@ == base_url@,
            trim_end_slashes(base_url@) == trim_end_slashes(v@.subrange(0, end as int)),
        decreases end,
    {
        assert(v@.subrange(0, end as int).drop_last() == v@.subrange(0, end - 1));
        end = end - 1;
    }
    let base = crate::text::string_from_chars(&v, 0, end);
    concat(base.as_str(), "/chat/completions")
}

/// The `Authorization` header for an API key.
pub fn bearer_header(api_key: &str) -> (h: String)
    ensures
        h@ == "Bearer "@ + api_key@,
{
    concat("Bearer ", api_key)
}

/// The language sent with a transcription: the configured one, or `auto`.
pub open spec fn asr_language_of(c: ApiConfig) -> Seq<char> {
    match c.language {
        Some(l) => l@,
        None => "auto"@,
    }
}

/// Timeout of a non-streamed transcription, in seconds.
pub const TRANSCRIBE_TIMEOUT_SECS: u64 = 30;

/// Timeout of a streamed transcription, in seconds.
pub const STREAM_TRANSCRIBE_TIMEOUT_SECS: u64 = 120;

/// Timeout of a streamed chat, in seconds.
pub const STREAM_CHAT_TIMEOUT_SECS: u64 = 60;

/// The request for a transcription of one audio data URL: after the
/// configuration is checked, a single user message holding the audio, the
/// language option and, when `stream`, the stream flag.
pub fn prepare_transcription(audio_data_url: &str, config: &ApiConfig, stream: bool) -> (r: Result<
    PreparedRequest,
    ApiError,
>)
    ensures
        match r {
            Ok(p) => {
                &&& config_problem(*config) is None
                &&& p.url@ == endpoint_url(config.base_url@)
                &&& p.authorization@ == "Bearer "@ + config.api_key@
                &&& p.timeout_secs == (if stream {
                    STREAM_TRANSCRIBE_TIMEOUT_SECS
                } else {
                    TRANSCRIBE_TIMEOUT_SECS
                })
                &&& p.body.model@ == config.model@
                &&& p.body.system_prompt is None
                &&& parts_view(p.body.user_content@) == seq![(false, audio_data_url@)]
                &&& opt_view(p.body.asr_language) == Some(asr_language_of(*config))
                &&& p.body.stream == stream
                &&& p.body.response_format is None
            },
            Err(ApiError::ConfigError(m)) => config_problem(*config) == Some(m@),
            Err(_) => false,
        },
{
    config.validate()?;
    let url = chat_completions_url(config.base_url.as_str());
    let language = match &config.language {
        Some(l) => l.clone(),
        None => String::from_str("auto"),
    };
    let mut parts: Vec<ContentPart> = Vec::new();
    parts.push(ContentPart::InputAudio(audio_data_url.to_owned()));
    assert(parts_view(parts@) =~= seq![(false, audio_data_url@)]);
    Ok(
        PreparedRequest {
            url,
            authorization: bearer_header(config.api_key.as_str()),
            timeout_secs: if stream {
                STREAM_TRANSCRIBE_TIMEOUT_SECS
            } else {
                TRANSCRIBE_TIMEOUT_SECS
            },
            body: CompletionRequest {
                model: config.model.clone(),
                system_prompt: None,
                user_content: parts,
                asr_language: Some(language),
                stream,
                response_format: None,
            },
        },
    )
}

/// The user message's parts for a chat: the text when it is not empty, then
/// the audio when it is given and not empty.
pub open spec fn chat_parts(user_text: Seq<char>, audio: Option<Seq<char>>) -> Seq<(bool, Seq<char>)> {
    let text_part: Seq<(bool, Seq<char>)> = if user_text.len() > 0 {
        seq![(true, user_text)]
    } else {
        seq![]
    };
    match audio {
        Some(a) => if a.len() > 0 {
            text_part.push((false, a))
        } else {
            text_part
        },
        None => text_part,
    }
}

/// Law: the user message of a chat holds one text part exactly when the
/// text is not empty, and then it comes first and is that text; it holds one
/// audio part exactly when audio is given and not empty, and then it comes
/// last and is that audio; nothing else.
pub proof fn lemma_chat_parts(user_text: Seq<char>, audio: Option<Seq<char>>)
    ensures
        chat_parts(user_text, audio).len() == (if user_text.len() > 0 {
            1int
        } else {
            0
        }) + (if audio matches Some(a) && a.len() > 0 {
            1int
        } else {
            0
        }),
        user_text.len() > 0 ==> chat_parts(user_text, audio)[0] == (true, user_text),
        audio matches Some(a) ==> (a.len() > 0 ==> chat_parts(user_text, audio).last() == (
            false,
            a,
        )),
        forall|i: int|
            0 <= i < chat_parts(user_text, audio).len() ==> (#[trigger] chat_parts(
                user_text,
                audio,
            )[i].0 ==> chat_parts(user_text, audio)[i].1 == user_text) && (!chat_parts(
                user_text,
                audio,
            )[i].0 ==> audio == Some(chat_parts(user_text, audio)[i].1)),
{
}

/// The view of an optional string slice.
pub open spec fn opt_str_view(o: Option<&str>) -> Option<Seq<char>> {
    match o {
        Some(s) => Some(s@),
        None => None,
    }
}

/// The request for a streamed chat: after the configuration is checked, an
/// optional system message (when the prompt is not empty) and a user message
/// with the parts of `chat_parts`, which must not be empty.
pub fn prepare_chat(
    system_prompt: &str,
    user_text: &str,
    audio_data_url: Option<&str>,
    config: &ApiConfig,
    response_format: Option<&str>,
) -> (r: Result<PreparedRequest, ApiError>)
    ensures
        match r {
            Ok(p) => {
                &&& config_problem(*config) is None
                &&& chat_parts(user_text@, opt_str_view(audio_data_url)).len() > 0
                &&& p.url@ == endpoint_url(config.base_url@)
                &&& p.authorization@ == "Bearer "@ + config.api_key@
                &&& p.timeout_secs == STREAM_CHAT_TIMEOUT_SECS
                &&& p.body.model@ == config.model@
                &&& opt_view(p.body.system_prompt) == (if system_prompt@.len() > 0 {
                    Some(system_prompt@)
                } else {
                    None
                })
                &&& parts_view(p.body.user_content@) == chat_parts(
                    user_text@,
                    opt_str_view(audio_data_url),
                )
                &&& p.body.asr_language is None
                &&& p.body.stream
                &&& opt_view(p.body.response_format) == opt_str_view(response_format)
            },
            Err(ApiError::ConfigError(m)) => match config_problem(*config) {
                Some(problem) => m@ == problem,
                None => chat_parts(user_text@, opt_str_view(audio_data_url)).len() == 0 && m@
                    == "消息内容不能为空"@,
            },
            Err(_) => false,
        },
{
    config.validate()?;
    let url = chat_completions_url(config.base_url.as_str());
    let system = if system_prompt.is_empty() {
        None
    } else {
        Some(system_prompt.to_owned())
    };
    let mut parts: Vec<ContentPart> = Vec::new();
    if !user_text.is_empty() {
        parts.push(ContentPart::Text(user_text.to_owned()));
    }
    let ghost text_parts = parts@;
    match audio_data_url {
        Some(audio) => {
            if !audio.is_empty() {
                parts.push(ContentPart::InputAudio(audio.to_owned()));
            }
        },
        None => {},
    }
    assert(parts_view(parts@) =~= chat_parts(user_text@, opt_str_view(audio_data_url)));
    if parts.len() == 0 {
        return Err(ApiError::ConfigError(String::from_str("消息内容不能为空")));
    }
    let format = match response_format {
        Some(f) => Some(f.to_owned()),
        None => None,
    };
    Ok(
        PreparedRequest {
            url,
            authorization: bearer_header(config.api_key.as_str()),
            timeout_secs: STREAM_CHAT_TIMEOUT_SECS,
            body: CompletionRequest {
                model: config.model.clone(),
                system_prompt: system,
                user_content: parts,
                asr_language: None,
                stream: true,
                response_format: format,
            },
        },
    )
}

/// Whether an HTTP status code means success (200 to 299).
pub fn is_success_status(code: u16) -> (b: bool)
    ensures
        b == (200 <= code <= 299),
{
    200 <= code && code <= 299
}

/// The error for a response with an unsuccessful status: the status text, a
/// colon, and the response body.
pub fn status_error(status: &str, body: &str) -> (e: ApiError)
    ensures
        e matches ApiError::HttpError(m) && m@ == status@ + ": "@ + body@,
{
    ApiError::HttpError(crate::text::concat3(status, ": ", body))
}

/// The error for a request that could not be sent: a timeout, or an HTTP
/// error with the client's message.
pub fn send_error(is_timeout: bool, message: String) -> (e: ApiError)
    ensures
        is_timeout ==> e is TimeoutError,
        !is_timeout ==> (e matches ApiError::HttpError(m) && m@ == message@),
{
    if is_timeout {
        ApiError::TimeoutError
    } else {
        ApiError::HttpError(message)
    }
}

/// Whether a failed streamed transcription is retried once without
/// streaming: exactly when the stream could not be parsed.
pub fn falls_back_to_plain(e: &ApiError) -> (b: bool)
    ensures
        b == (*e is ParseError),
{
    match e {
        ApiError::ParseError(_) => true,
        _ => false,
    }
}

} // verus!
