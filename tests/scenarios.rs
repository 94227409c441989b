use clewdr::connection::{ConnectionInfo, ConnectionRegistry};
use clewdr::error::ClewdrError;
use clewdr::pool::{KeyActorMessage, KeyPool, KeyStatus};
use clewdr::retry::{report_message, AttemptOutcome, KeyReport, RetryLoop};
use clewdr::stream::{create_error_chunk, fake_stream_step, StreamEvent};
use clewdr::upstream::{vertex_url, GeminiApiFormat, GeminiArgs, GeminiContext};
use clewdr::validator::{check_gemini_body, GeminiBody};

const NOW: u64 = 1_700_000_000;
const COOLDOWN: u64 = 60;

fn http(code: u16) -> ClewdrError {
    ClewdrError::UpstreamHttp { code, body: "upstream".to_string() }
}

/// Files a report against the key as the background task would.
fn file(pool: &mut KeyPool, key: KeyStatus, report: Option<KeyReport>) -> bool {
    match report.and_then(|r| report_message(Some(key), r, NOW, COOLDOWN)) {
        Some(msg) => pool.handle(msg, NOW).save.is_some(),
        None => false,
    }
}

#[test]
fn rate_limited_key_cools_down_and_next_key_serves() {
    let mut pool = KeyPool::new(vec![KeyStatus::new("K1".into()), KeyStatus::new("K2".into())]);
    let mut attempts = RetryLoop::new(2);

    assert!(attempts.may_attempt());
    let k1 = pool.dispatch(NOW).unwrap();
    assert_eq!(k1.key, "K1");
    let step = attempts.record(AttemptOutcome::Failed(http(429)));
    assert_eq!(step.report, Some(KeyReport::RateLimited429));
    assert!(step.verdict.is_none());
    assert!(file(&mut pool, k1, step.report));

    assert!(attempts.may_attempt());
    let k2 = pool.dispatch(NOW).unwrap();
    assert_eq!(k2.key, "K2");
    let step = attempts.record(AttemptOutcome::Succeeded);
    assert_eq!(step.report, Some(KeyReport::Success));
    assert!(matches!(step.verdict, Some(Ok(()))));
    assert!(!file(&mut pool, k2, step.report));

    let keys = pool.report().valid;
    let k1 = keys.iter().find(|k| k.key == "K1").unwrap();
    let k2 = keys.iter().find(|k| k.key == "K2").unwrap();
    assert!(k1.cooldown_until.unwrap() > NOW);
    assert_eq!(k2.cooldown_until, None);
    // Each lease rotates its key to the tail, so the last key leased is last.
    let order: Vec<&str> = keys.iter().map(|k| k.key.as_str()).collect();
    assert_eq!(order, vec!["K1", "K2"]);
}

#[test]
fn forbidden_key_is_deleted_and_request_fails() {
    let mut pool = KeyPool::new(vec![KeyStatus::new("K1".into())]);
    let mut attempts = RetryLoop::new(2);

    let k1 = pool.dispatch(NOW).unwrap();
    let step = attempts.record(AttemptOutcome::Failed(http(403)));
    assert_eq!(step.report, Some(KeyReport::Forbidden403));
    assert!(step.verdict.is_none());
    assert!(file(&mut pool, k1, step.report), "deleting the key writes a snapshot");
    assert_eq!(pool.len(), 0);

    assert!(attempts.may_attempt());
    let lease = pool.dispatch(NOW);
    assert!(lease.is_err());
    let step = attempts.record(AttemptOutcome::Failed(ClewdrError::NoKeyAvailable));
    let err = match step.verdict {
        Some(Err(e)) => e,
        _ => panic!("the request must fail"),
    };
    assert!(err.status_code() >= 500);
}

#[test]
fn forbidden_key_reported_late_exhausts_retries() {
    let mut attempts = RetryLoop::new(2);
    for _ in 0..3 {
        assert!(attempts.may_attempt());
        let step = attempts.record(AttemptOutcome::Failed(http(403)));
        assert!(step.verdict.is_none());
    }
    assert!(!attempts.may_attempt());
    let err = attempts.give_up();
    assert!(matches!(err, ClewdrError::UpstreamHttp { code: 403, .. }));
    assert_eq!(err.status_code(), 502);
}

#[test]
fn tag_check_passes_then_fails_and_retries() {
    let good = GeminiBody {
        candidate_count: 1,
        first_has_content: true,
        first_finish_stop: true,
        first_texts: vec!["<thinking>a</thinking><content>b</content>".to_string()],
    };
    assert!(check_gemini_body(&good, "thinking,content").is_ok());

    let nested = GeminiBody {
        candidate_count: 1,
        first_has_content: true,
        first_finish_stop: true,
        first_texts: vec!["<content><thinking>a</thinking></content>".to_string()],
    };
    let err = check_gemini_body(&nested, "thinking,content").unwrap_err();
    assert!(matches!(err, ClewdrError::EmptyChoices));
    let mut attempts = RetryLoop::new(1);
    let step = attempts.record(AttemptOutcome::Failed(err));
    assert_eq!(step.report, None);
    assert!(step.verdict.is_none());
    assert!(attempts.may_attempt());
}

#[test]
fn vertex_without_credential_is_bad_request() {
    let ctx = GeminiContext {
        model: "gemini-2.5-pro".to_string(),
        stream: false,
        path: "models/gemini-2.5-pro:generateContent".to_string(),
        vertex: true,
        api_format: GeminiApiFormat::Gemini,
        query: GeminiArgs { alt: None },
    };
    match vertex_url(None, &ctx) {
        Err(ClewdrError::BadRequest { msg }) => assert_eq!(msg, "Vertex credential not found"),
        _ => panic!("expected BadRequest"),
    }
}

#[test]
fn cancelled_stream_ends_with_error_frame_and_leaves_registry() {
    let mut registry = ConnectionRegistry::new();
    let info = ConnectionInfo::new(None, 0);
    let id = info.id;
    let token = info.cancel_token.clone();
    registry.register_connection(info);

    let step = fake_stream_step(GeminiApiFormat::Gemini, "m", 0, StreamEvent::Cancelled);
    assert!(step.done);
    assert_eq!(
        step.frames,
        vec![create_error_chunk(GeminiApiFormat::Gemini, &ClewdrError::RequestCancelled)]
    );
    assert!(registry.cancel_connection(id));
    assert!(token.is_cancelled());
    registry.complete_request(id, true);
    assert!(registry.get_connection(id).is_none());
    assert_eq!(registry.active_connection_count(), 0);
}

#[test]
fn shutdown_ends_two_fake_streams() {
    let mut registry = ConnectionRegistry::new();
    let a = ConnectionInfo::new(Some("10.0.0.1:5000".into()), 0);
    let b = ConnectionInfo::new(None, 0);
    let (ida, idb) = (a.id, b.id);
    registry.register_connection(a);
    registry.register_connection(b);
    assert_eq!(registry.active_connection_count(), 2);

    for (format, id) in [(GeminiApiFormat::Gemini, ida), (GeminiApiFormat::OpenAI, idb)] {
        let step = fake_stream_step(format, "m", 0, StreamEvent::Cancelled);
        assert!(step.done);
        assert_eq!(step.frames.len(), 1);
        assert!(step.frames[0].starts_with("data: {\"error\":"));
        registry.cancel_connection(id);
    }
    registry.cleanup_cancelled_connections();
    assert_eq!(registry.active_connection_count(), 0);
}

#[test]
fn cancellation_ends_the_attempt_loop() {
    let mut attempts = RetryLoop::new(3);
    let step = attempts.record(AttemptOutcome::Cancelled);
    assert_eq!(step.report, None);
    assert!(matches!(step.verdict, Some(Err(ClewdrError::RequestCancelled))));
}

#[test]
fn transient_429_then_success() {
    let mut attempts = RetryLoop::new(3);
    let mut reports = Vec::new();
    let outcomes = vec![
        AttemptOutcome::Failed(http(429)),
        AttemptOutcome::Failed(http(429)),
        AttemptOutcome::Succeeded,
    ];
    let mut verdict = None;
    for o in outcomes {
        assert!(attempts.may_attempt());
        let step = attempts.record(o);
        reports.extend(step.report);
        if step.verdict.is_some() {
            verdict = step.verdict;
            break;
        }
    }
    assert!(matches!(verdict, Some(Ok(()))));
    assert_eq!(
        reports,
        vec![KeyReport::RateLimited429, KeyReport::RateLimited429, KeyReport::Success]
    );
}

#[test]
fn key_reports_map_to_pool_messages() {
    let k = KeyStatus::new("K".into());
    assert!(report_message(None, KeyReport::Success, NOW, COOLDOWN).is_none());
    assert!(matches!(
        report_message(Some(k.clone()), KeyReport::Rejected400, NOW, COOLDOWN),
        Some(KeyActorMessage::Delete(ref d)) if d.key == "K"
    ));
    assert!(matches!(
        report_message(Some(k.clone()), KeyReport::Success, NOW, COOLDOWN),
        Some(KeyActorMessage::Return(ref d)) if d.cooldown_until.is_none()
    ));
    assert!(matches!(
        report_message(Some(k), KeyReport::RateLimited429, NOW, COOLDOWN),
        Some(KeyActorMessage::Return(ref d)) if d.cooldown_until == Some(NOW + COOLDOWN)
    ));
}

#[test]
fn non_http_failure_is_fatal_and_other_http_retries_without_report() {
    let mut attempts = RetryLoop::new(3);
    let step = attempts.record(AttemptOutcome::Failed(http(500)));
    assert_eq!(step.report, None);
    assert!(step.verdict.is_none());
    let step = attempts.record(AttemptOutcome::Failed(ClewdrError::Decode { msg: "bad".into() }));
    assert!(matches!(step.verdict, Some(Err(ClewdrError::Decode { .. }))));
    let empty = RetryLoop::new(0);
    assert!(matches!(empty.give_up(), ClewdrError::TooManyRetries));
}
