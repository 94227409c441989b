//! Fake streaming: the server-sent-event frames emitted while a single
//! non-streaming upstream call is in flight, and the decision taken on each
//! event of the scheduler (keep-alive tick, upstream completion, cancellation).
//!
//! Every frame is `data: <json>\n\n`; object keys are written in sorted order.

use vstd::prelude::*;
use crate::error::{ClewdrError, message_of};
use crate::tags::views;
use crate::text::{decimal, digit_char, push_decimal};
use crate::upstream::GeminiApiFormat;

verus! {

/// A lowercase hexadecimal digit for `d < 16`.
pub open spec fn hex_digit(d: nat) -> char {
    if d < 10 {
        digit_char(d)
    } else if d == 10 {
        'a'
    } else if d == 11 {
        'b'
    } else if d == 12 {
        'c'
    } else if d == 13 {
        'd'
    } else if d == 14 {
        'e'
    } else {
        'f'
    }
}

/// How one character is written inside a JSON string: `"` and `\` and the
/// control characters are escaped (short forms where JSON has them,
/// `\u00XX` otherwise); every other character stands for itself.
pub open spec fn json_escape(c: char) -> Seq<char> {
    let u = c as u32;
    if c == '"' {
        seq!['\\', '"']
    } else if c == '\\' {
        seq!['\\', '\\']
    } else if u == 0x8 {
        seq!['\\', 'b']
    } else if u == 0xc {
        seq!['\\', 'f']
    } else if c == '\n' {
        seq!['\\', 'n']
    } else if c == '\r' {
        seq!['\\', 'r']
    } else if c == '\t' {
        seq!['\\', 't']
    } else if u < 0x20 {
        seq!['\\', 'u', '0', '0', hex_digit((u / 16) as nat), hex_digit((u % 16) as nat)]
    } else {
        seq![c]
    }
}

/// The characters of `s`, each escaped.
pub open spec fn json_escape_all(s: Seq<char>) -> Seq<char>
    decreases s.len(),
{
    if s.len() == 0 {
        Seq::empty()
    } else {
        json_escape_all(s.drop_last()) + json_escape(s.last())
    }
}

/// The JSON string literal for `s`: the escaped characters between quotes.
pub open spec fn json_string_of(s: Seq<char>) -> Seq<char> {
    seq!['"'] + json_escape_all(s) + seq!['"']
}

/// Relies on `serde_json::to_string` on a `str`: it writes the string
/// between quotes, escaping by its `ESCAPE` table, and a string never fails
/// to serialize.
#[verifier::external_body]
fn json_string(s: &str) -> (r: String)
    ensures
        r@ == json_string_of(s@),
{
    serde_json::to_string(s).unwrap_or_default()
}

/// A server-sent-event frame carrying `payload`.
pub open spec fn sse(payload: Seq<char>) -> Seq<char> {
    "data: "@ + payload + "\n\n"@
}

/// The frame that ends an OpenAI-compatible stream.
pub open spec fn done_frame() -> Seq<char> {
    "data: [DONE]\n\n"@
}

pub open spec fn gemini_keep_alive(now_ms: u64) -> Seq<char> {
    sse("{\"candidates\":[],\"metadata\":{\"keepalive\":true,\"timestamp\":"@ + decimal(now_ms as nat) + "}}"@)
}

pub open spec fn openai_keep_alive(now_secs: u64) -> Seq<char> {
    sse("{\"choices\":[{\"delta\":{\"content\":\"\"},\"finish_reason\":null,\"index\":0}],\"created\":"@
        + decimal(now_secs as nat)
        + ",\"id\":\"chatcmpl-keepalive\",\"model\":\"keepalive\",\"object\":\"chat.completion.chunk\"}"@)
}

/// The keep-alive frame of a dialect at `now_ms` milliseconds of Unix time:
/// a legal frame with no content.
pub open spec fn keep_alive_of(format: GeminiApiFormat, now_ms: u64) -> Seq<char> {
    match format {
        GeminiApiFormat::Gemini => gemini_keep_alive(now_ms),
        GeminiApiFormat::OpenAI => openai_keep_alive(now_ms / 1000),
    }
}

/// The frame that reports an error with text `msg` to the client.
pub open spec fn error_frame_of(format: GeminiApiFormat, msg: Seq<char>) -> Seq<char> {
    match format {
        GeminiApiFormat::OpenAI => sse("{\"error\":{\"code\":\"internal_error\",\"message\":"@ + json_string_of(msg)
            + ",\"type\":\"api_error\"}}"@),
        GeminiApiFormat::Gemini => sse("{\"error\":{\"code\":500,\"message\":"@ + json_string_of(msg)
            + ",\"status\":\"INTERNAL\"}}"@),
    }
}

/// The tail shared by both OpenAI chunks: creation time, id and model.
pub open spec fn openai_chunk_tail(created: u64, model: Seq<char>) -> Seq<char> {
    "\"created\":"@ + decimal(created as nat) + ",\"id\":\"chatcmpl-"@ + decimal(created as nat) + "\",\"model\":"@
        + json_string_of(model) + ",\"object\":\"chat.completion.chunk\"}"@
}

/// The frames that carry a complete response as a stream: the whole content
/// in one chunk, then a terminal chunk, then (OpenAI) `[DONE]`.
pub open spec fn content_frames_of(format: GeminiApiFormat, model: Seq<char>, created: u64, content: Seq<char>) -> Seq<Seq<char>> {
    match format {
        GeminiApiFormat::OpenAI => seq![
            sse("{\"choices\":[{\"delta\":{\"content\":"@ + json_string_of(content)
                + "},\"finish_reason\":null,\"index\":0}],"@ + openai_chunk_tail(created, model)),
            sse("{\"choices\":[{\"delta\":{},\"finish_reason\":\"stop\",\"index\":0}],"@ + openai_chunk_tail(created, model)),
            done_frame(),
        ],
        GeminiApiFormat::Gemini => seq![
            sse("{\"candidates\":[{\"content\":{\"parts\":[{\"text\":"@ + json_string_of(content)
                + "}],\"role\":\"model\"},\"finishReason\":null,\"index\":0}]}"@),
            sse("{\"candidates\":[{\"content\":{\"parts\":[{\"text\":\"\"}],\"role\":\"model\"},\"finishReason\":\"STOP\",\"index\":0}]}"@),
        ],
    }
}

fn wrap_sse(payload: String) -> (r: String)
    ensures
        r@ == sse(payload@),
{
    let mut r = String::from_str("data: ");
    r.append(payload.as_str());
    r.append("\n\n");
    r
}

/// The keep-alive frame for `format` at `now_ms`.
pub fn create_keep_alive_chunk(format: GeminiApiFormat, now_ms: u64) -> (r: String)
    ensures
        r@ == keep_alive_of(format, now_ms),
{
    match format {
        GeminiApiFormat::Gemini => {
            let mut p = String::from_str("{\"candidates\":[],\"metadata\":{\"keepalive\":true,\"timestamp\":");
            push_decimal(&mut p, now_ms);
            p.append("}}");
            wrap_sse(p)
        },
        GeminiApiFormat::OpenAI => {
            let mut p = String::from_str(
                "{\"choices\":[{\"delta\":{\"content\":\"\"},\"finish_reason\":null,\"index\":0}],\"created\":",
            );
            push_decimal(&mut p, now_ms / 1000);
            p.append(",\"id\":\"chatcmpl-keepalive\",\"model\":\"keepalive\",\"object\":\"chat.completion.chunk\"}");
            wrap_sse(p)
        },
    }
}

/// The frame that reports `error` to the client.
pub fn create_error_chunk(format: GeminiApiFormat, error: &ClewdrError) -> (r: String)
    ensures
        r@ == error_frame_of(format, message_of(*error)),
{
    let msg = json_string(error.message().as_str());
    match format {
        GeminiApiFormat::OpenAI => {
            let mut p = String::from_str("{\"error\":{\"code\":\"internal_error\",\"message\":");
            p.append(msg.as_str());
            p.append(",\"type\":\"api_error\"}}");
            wrap_sse(p)
        },
        GeminiApiFormat::Gemini => {
            let mut p = String::from_str("{\"error\":{\"code\":500,\"message\":");
            p.append(msg.as_str());
            p.append(",\"status\":\"INTERNAL\"}}");
            wrap_sse(p)
        },
    }
}

fn openai_tail(created: u64, model: &str) -> (r: String)
    ensures
        r@ == openai_chunk_tail(created, model@),
{
    let mut r = String::from_str("\"created\":");
    push_decimal(&mut r, created);
    r.append(",\"id\":\"chatcmpl-");
    push_decimal(&mut r, created);
    r.append("\",\"model\":");
    r.append(json_string(model).as_str());
    r.append(",\"object\":\"chat.completion.chunk\"}");
    r
}

/// The frames that stream a complete response whose generated text is
/// `content`, created at `created` seconds of Unix time.
pub fn response_to_stream_chunks(format: GeminiApiFormat, model: &str, created: u64, content: &str) -> (r: Vec<String>)
    ensures
        views(r@) == content_frames_of(format, model@, created, content@),
{
    let text = json_string(content);
    let mut r: Vec<String> = Vec::new();
    match format {
        GeminiApiFormat::OpenAI => {
            let tail = openai_tail(created, model);
            let mut first = String::from_str("{\"choices\":[{\"delta\":{\"content\":");
            first.append(text.as_str());
            first.append("},\"finish_reason\":null,\"index\":0}],");
            first.append(tail.as_str());
            r.push(wrap_sse(first));
            let mut last = String::from_str("{\"choices\":[{\"delta\":{},\"finish_reason\":\"stop\",\"index\":0}],");
            last.append(tail.as_str());
            r.push(wrap_sse(last));
            r.push(String::from_str("data: [DONE]\n\n"));
        },
        GeminiApiFormat::Gemini => {
            let mut first = String::from_str("{\"candidates\":[{\"content\":{\"parts\":[{\"text\":");
            first.append(text.as_str());
            first.append("}],\"role\":\"model\"},\"finishReason\":null,\"index\":0}]}");
            r.push(wrap_sse(first));
            let last = String::from_str(
                "{\"candidates\":[{\"content\":{\"parts\":[{\"text\":\"\"}],\"role\":\"model\"},\"finishReason\":\"STOP\",\"index\":0}]}",
            );
            r.push(wrap_sse(last));
        },
    }
    assert(views(r@) =~= content_frames_of(format, model@, created, content@));
    r
}

/// How a Gemini-family request is served.
#[derive(Debug, Clone, Copy, PartialEq, Eq, Structural)]
pub enum ServeMode {
    /// A streaming request with fake streaming on: one non-streaming upstream
    /// call, with keep-alive frames until it ends.
    FakeStream,
    /// A streaming request passed through as the upstream streams it.
    Passthrough,
    /// A non-streaming request, buffered and validated.
    Buffered,
}

pub fn serve_mode(stream: bool, fake_streaming: bool) -> (r: ServeMode)
    ensures
        r == (if stream && fake_streaming {
            ServeMode::FakeStream
        } else if stream {
            ServeMode::Passthrough
        } else {
            ServeMode::Buffered
        }),
{
    if stream && fake_streaming {
        ServeMode::FakeStream
    } else if stream {
        ServeMode::Passthrough
    } else {
        ServeMode::Buffered
    }
}

/// With completion in the OpenAI dialect the stream ends with exactly one
/// content frame, one terminal frame and one `[DONE]` frame; in the Gemini
/// dialect with one content frame and one terminal frame.
pub proof fn law_completion_frames(format: GeminiApiFormat, model: Seq<char>, created: u64, content: String)
    ensures
        ({
            let (frames, done) = stream_step_of(format, model, created, StreamEvent::Finished(Ok(Some(content))));
            &&& done
            &&& format == GeminiApiFormat::OpenAI ==> frames.len() == 3 && frames[2] == done_frame()
            &&& format == GeminiApiFormat::Gemini ==> frames.len() == 2
        }),
{
}

/// What the fake-streaming scheduler observes.
pub enum StreamEvent {
    /// The request token was cancelled.
    Cancelled,
    /// The keep-alive producer sent a frame.
    KeepAlive(String),
    /// The upstream call ended: the generated text of the response (none
    /// when the body held no text to convert), or the error.
    Finished(Result<Option<String>, ClewdrError>),
}

/// What the scheduler does on an event: the frames to send, in order, and
/// whether the stream ends (the keep-alive producer is then stopped and the
/// connection cancelled).
pub struct StreamStep {
    pub frames: Vec<String>,
    pub done: bool,
}

/// The scheduler's answer to `event`, for a response in `format` from `model`
/// converted at `created` seconds of Unix time.
pub open spec fn stream_step_of(format: GeminiApiFormat, model: Seq<char>, created: u64, event: StreamEvent) -> (Seq<Seq<char>>, bool) {
    match event {
        StreamEvent::Cancelled => (seq![error_frame_of(format, message_of(ClewdrError::RequestCancelled))], true),
        StreamEvent::KeepAlive(f) => (seq![f@], false),
        StreamEvent::Finished(Ok(Some(c))) => (content_frames_of(format, model, created, c@), true),
        StreamEvent::Finished(Ok(None)) => (Seq::empty(), true),
        StreamEvent::Finished(Err(e)) => (seq![error_frame_of(format, message_of(e))], true),
    }
}

/// Decides what the scheduler sends on `event`. Cancellation ends the stream
/// with an error frame; a keep-alive frame is passed on; completion ends the
/// stream with the converted response or an error frame.
pub fn fake_stream_step(format: GeminiApiFormat, model: &str, created: u64, event: StreamEvent) -> (r: StreamStep)
    ensures
        (views(r.frames@), r.done) == stream_step_of(format, model@, created, event),
{
    match event {
        StreamEvent::Cancelled => {
            let mut frames: Vec<String> = Vec::new();
            frames.push(create_error_chunk(format, &ClewdrError::RequestCancelled));
            assert(views(frames@) =~= stream_step_of(format, model@, created, event).0);
            StreamStep { frames, done: true }
        },
        StreamEvent::KeepAlive(f) => {
            let mut frames: Vec<String> = Vec::new();
            let ghost fv = f@;
            frames.push(f);
            assert(views(frames@) =~= seq![fv]);
            StreamStep { frames, done: false }
        },
        StreamEvent::Finished(Ok(Some(c))) => {
            let frames = response_to_stream_chunks(format, model, created, c.as_str());
            StreamStep { frames, done: true }
        },
        StreamEvent::Finished(Ok(None)) => {
            let frames: Vec<String> = Vec::new();
            assert(views(frames@) =~= Seq::<Seq<char>>::empty());
            StreamStep { frames, done: true }
        },
        StreamEvent::Finished(Err(e)) => {
            let mut frames: Vec<String> = Vec::new();
            frames.push(create_error_chunk(format, &e));
            assert(views(frames@) =~= stream_step_of(format, model@, created, event).0);
            StreamStep { frames, done: true }
        },
    }
}

} // verus!
