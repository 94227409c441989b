use clewdr::error::ClewdrError;
use clewdr::stream::{
    create_error_chunk, create_keep_alive_chunk, fake_stream_step, response_to_stream_chunks,
    serve_mode, ServeMode, StreamEvent,
};
use clewdr::upstream::GeminiApiFormat;

#[test]
fn gemini_keep_alive_frame() {
    assert_eq!(
        create_keep_alive_chunk(GeminiApiFormat::Gemini, 1_700_000_000_123),
        "data: {\"candidates\":[],\"metadata\":{\"keepalive\":true,\"timestamp\":1700000000123}}\n\n"
    );
}

#[test]
fn openai_keep_alive_frame() {
    assert_eq!(
        create_keep_alive_chunk(GeminiApiFormat::OpenAI, 1_700_000_000_999),
        "data: {\"choices\":[{\"delta\":{\"content\":\"\"},\"finish_reason\":null,\"index\":0}],\"created\":1700000000,\"id\":\"chatcmpl-keepalive\",\"model\":\"keepalive\",\"object\":\"chat.completion.chunk\"}\n\n"
    );
}

#[test]
fn keep_alive_frames_parse_as_json() {
    for format in [GeminiApiFormat::Gemini, GeminiApiFormat::OpenAI] {
        let frame = create_keep_alive_chunk(format, 0);
        let body = frame.strip_prefix("data: ").unwrap().strip_suffix("\n\n").unwrap();
        assert!(serde_json::from_str::<serde_json::Value>(body).is_ok());
    }
}

#[test]
fn error_frames_escape_the_message() {
    let e = ClewdrError::BadRequest { msg: "say \"hi\"".to_string() };
    assert_eq!(
        create_error_chunk(GeminiApiFormat::OpenAI, &e),
        "data: {\"error\":{\"code\":\"internal_error\",\"message\":\"say \\\"hi\\\"\",\"type\":\"api_error\"}}\n\n"
    );
    assert_eq!(
        create_error_chunk(GeminiApiFormat::Gemini, &ClewdrError::RequestCancelled),
        "data: {\"error\":{\"code\":500,\"message\":\"Request cancelled\",\"status\":\"INTERNAL\"}}\n\n"
    );
}

#[test]
fn openai_completion_frames() {
    let frames = response_to_stream_chunks(GeminiApiFormat::OpenAI, "gemini-x", 42, "line1\nline2");
    assert_eq!(frames.len(), 3);
    assert_eq!(
        frames[0],
        "data: {\"choices\":[{\"delta\":{\"content\":\"line1\\nline2\"},\"finish_reason\":null,\"index\":0}],\"created\":42,\"id\":\"chatcmpl-42\",\"model\":\"gemini-x\",\"object\":\"chat.completion.chunk\"}\n\n"
    );
    assert_eq!(
        frames[1],
        "data: {\"choices\":[{\"delta\":{},\"finish_reason\":\"stop\",\"index\":0}],\"created\":42,\"id\":\"chatcmpl-42\",\"model\":\"gemini-x\",\"object\":\"chat.completion.chunk\"}\n\n"
    );
    assert_eq!(frames[2], "data: [DONE]\n\n");
}

#[test]
fn gemini_completion_frames() {
    let frames = response_to_stream_chunks(GeminiApiFormat::Gemini, "m", 0, "hello");
    assert_eq!(
        frames,
        vec![
            "data: {\"candidates\":[{\"content\":{\"parts\":[{\"text\":\"hello\"}],\"role\":\"model\"},\"finishReason\":null,\"index\":0}]}\n\n".to_string(),
            "data: {\"candidates\":[{\"content\":{\"parts\":[{\"text\":\"\"}],\"role\":\"model\"},\"finishReason\":\"STOP\",\"index\":0}]}\n\n".to_string(),
        ]
    );
}

#[test]
fn keep_alive_event_passes_frame_on() {
    let frame = create_keep_alive_chunk(GeminiApiFormat::Gemini, 5);
    let step = fake_stream_step(GeminiApiFormat::Gemini, "m", 0, StreamEvent::KeepAlive(frame.clone()));
    assert!(!step.done);
    assert_eq!(step.frames, vec![frame]);
}

#[test]
fn completion_events_end_the_stream() {
    let step = fake_stream_step(
        GeminiApiFormat::OpenAI,
        "m",
        1,
        StreamEvent::Finished(Ok(Some("x".to_string()))),
    );
    assert!(step.done);
    assert_eq!(step.frames.len(), 3);
    assert_eq!(step.frames[2], "data: [DONE]\n\n");

    let step = fake_stream_step(GeminiApiFormat::Gemini, "m", 1, StreamEvent::Finished(Ok(None)));
    assert!(step.done);
    assert!(step.frames.is_empty());

    let step = fake_stream_step(
        GeminiApiFormat::Gemini,
        "m",
        1,
        StreamEvent::Finished(Err(ClewdrError::TooManyRetries)),
    );
    assert!(step.done);
    assert_eq!(
        step.frames,
        vec!["data: {\"error\":{\"code\":500,\"message\":\"Too many retries\",\"status\":\"INTERNAL\"}}\n\n".to_string()]
    );
}

#[test]
fn serve_modes() {
    assert_eq!(serve_mode(true, true), ServeMode::FakeStream);
    assert_eq!(serve_mode(true, false), ServeMode::Passthrough);
    assert_eq!(serve_mode(false, true), ServeMode::Buffered);
}

#[test]
fn error_statuses_and_messages() {
    let e = ClewdrError::UpstreamHttp { code: 429, body: "slow down".into() };
    assert_eq!(e.status_code(), 502);
    assert_eq!(e.message(), "Upstream HTTP error 429: slow down");
    assert_eq!(ClewdrError::NoKeyAvailable.status_code(), 503);
    assert_eq!(ClewdrError::RequestCancelled.status_code(), 499);
    assert_eq!(ClewdrError::TooManyRetries.status_code(), 502);
    assert_eq!(ClewdrError::BadRequest { msg: "m".into() }.status_code(), 400);
    assert_eq!(ClewdrError::Io { msg: "disk".into() }.status_code(), 500);
    assert_eq!(ClewdrError::Io { msg: "disk".into() }.message(), "I/O error: disk");
    assert_eq!(ClewdrError::EmptyChoices.status_code(), 502);
    assert_eq!(ClewdrError::Decode { msg: "x".into() }.message(), "Decode error: x");
    assert_eq!(ClewdrError::BuildClient { msg: "x".into() }.status_code(), 500);
}

#[test]
fn error_frames_escape_control_characters() {
    let e = ClewdrError::BadRequest { msg: "a\u{1}b\u{8}\n\\".to_string() };
    assert_eq!(
        create_error_chunk(GeminiApiFormat::Gemini, &e),
        "data: {\"error\":{\"code\":500,\"message\":\"a\\u0001b\\b\\n\\\\\",\"status\":\"INTERNAL\"}}\n\n"
    );
}
