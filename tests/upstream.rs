use clewdr::cli::enabled;
use clewdr::upstream::{
    bearer, is_stream_path, is_success_status, gemini_openai_url, gemini_query, gemini_url, generate_method, model_from_path, oauth_proxy_url,
    replace_all_exec, vertex_url, GeminiApiFormat, GeminiArgs, GeminiContext, VertexCredential,
};
use clewdr::validator::{check_gemini_body, check_openai_body, gemini_text, GeminiBody, OpenAiBody};

fn ctx(format: GeminiApiFormat, stream: bool) -> GeminiContext {
    GeminiContext {
        model: "gemini-2.5-pro".to_string(),
        stream,
        path: "models/gemini-2.5-pro:streamGenerateContent".to_string(),
        vertex: true,
        api_format: format,
        query: GeminiArgs { alt: Some("sse".to_string()) },
    }
}

#[test]
fn direct_urls() {
    assert_eq!(
        gemini_url("models/m:generateContent"),
        "https://generativelanguage.googleapis.com/v1beta/models/m:generateContent"
    );
    assert_eq!(
        gemini_openai_url(),
        "https://generativelanguage.googleapis.com/v1beta/openai/chat/completions"
    );
    assert_eq!(bearer("tok"), "Bearer tok");
}

#[test]
fn direct_query_carries_key_last() {
    let q = gemini_query(&GeminiArgs { alt: Some("sse".into()) }, "K");
    assert_eq!(q, vec![("alt".to_string(), "sse".to_string()), ("key".to_string(), "K".to_string())]);
    let q = gemini_query(&GeminiArgs { alt: None }, "K");
    assert_eq!(q, vec![("key".to_string(), "K".to_string())]);
}

#[test]
fn vertex_urls() {
    let cred = VertexCredential { project_id: Some("proj".to_string()) };
    assert_eq!(
        vertex_url(Some(&cred), &ctx(GeminiApiFormat::Gemini, true)).unwrap(),
        "https://aiplatform.googleapis.com/v1/projects/proj/locations/global/publishers/google/models/gemini-2.5-pro:streamGenerateContent"
    );
    assert_eq!(
        vertex_url(Some(&cred), &ctx(GeminiApiFormat::Gemini, false)).unwrap(),
        "https://aiplatform.googleapis.com/v1/projects/proj/locations/global/publishers/google/models/gemini-2.5-pro:generateContent"
    );
    let none = VertexCredential { project_id: None };
    assert_eq!(
        vertex_url(Some(&none), &ctx(GeminiApiFormat::OpenAI, true)).unwrap(),
        "https://aiplatform.googleapis.com/v1beta1/projects//locations/global/endpoints/openapi/chat/completions"
    );
    assert_eq!(generate_method(true), "streamGenerateContent");
    assert_eq!(generate_method(false), "generateContent");
}

#[test]
fn non_streaming_form_of_request() {
    let c = ctx(GeminiApiFormat::Gemini, true).non_streaming();
    assert!(!c.stream);
    assert_eq!(c.path, "models/gemini-2.5-pro:generateContent");
    assert_eq!(c.query.alt, None);
    let mut other = ctx(GeminiApiFormat::Gemini, true);
    other.query.alt = Some("json".to_string());
    assert_eq!(other.non_streaming().query.alt, Some("json".to_string()));
}

#[test]
fn replace_all_is_left_to_right() {
    assert_eq!(replace_all_exec("aaa", "aa", "b"), "ba");
    assert_eq!(replace_all_exec("xaxa", "a", "yy"), "xyyxyy");
    assert_eq!(replace_all_exec("", "a", "b"), "");
}

#[test]
fn oauth_proxy_normalisation() {
    assert_eq!(oauth_proxy_url("socks5://h:1080"), "http://h:1080");
    assert_eq!(oauth_proxy_url("https://h:8080"), "http://h:8080");
    assert_eq!(oauth_proxy_url("http://http://h"), "http://h");
    assert_eq!(oauth_proxy_url("h:3128"), "http://h:3128");
}

#[test]
fn gemini_body_verdicts() {
    let mut b = GeminiBody {
        candidate_count: 0,
        first_has_content: false,
        first_finish_stop: false,
        first_texts: vec![],
    };
    assert!(check_gemini_body(&b, "").is_err());
    b.candidate_count = 1;
    assert!(check_gemini_body(&b, "").is_err());
    b.first_finish_stop = true;
    assert!(check_gemini_body(&b, "").is_ok());
    // No content, finished with STOP: not tag-checked.
    assert!(check_gemini_body(&b, "a").is_ok());
    b.first_has_content = true;
    b.first_texts = vec!["<a>".to_string(), "x</a>".to_string()];
    assert_eq!(gemini_text(&b), "<a>x</a>");
    assert!(check_gemini_body(&b, "a").is_ok());
}

#[test]
fn openai_body_verdicts() {
    let mut b = OpenAiBody { choices_empty: true, first_finish_reason: None, first_content: None };
    assert!(check_openai_body(&b, "").is_err());
    b.choices_empty = false;
    b.first_finish_reason = Some("OTHER".to_string());
    assert!(check_openai_body(&b, "").is_err());
    b.first_finish_reason = Some("stop".to_string());
    assert!(check_openai_body(&b, "").is_ok());
    // Without message.content only the emptiness test decides.
    assert!(check_openai_body(&b, "t").is_ok());
    b.first_content = Some("<t>x</t>".to_string());
    assert!(check_openai_body(&b, "t").is_ok());
    assert!(check_openai_body(&b, "u").is_err());
}

#[test]
fn format_names_and_flags() {
    assert_eq!(GeminiApiFormat::Gemini.name(), "Gemini");
    assert_eq!(GeminiApiFormat::OpenAI.name(), "OpenAI");
    assert_eq!(enabled(true), "Enabled");
    assert_eq!(enabled(false), "Disabled");
}

#[test]
fn model_is_read_from_native_path() {
    assert_eq!(model_from_path("models/gemini-2.5-pro:generateContent"), "gemini-2.5-pro");
    assert_eq!(model_from_path("models/gemini-2.5-flash"), "gemini-2.5-flash");
    assert_eq!(model_from_path("tunedModels/x:generateContent"), "");
}

#[test]
fn upstream_status_and_stream_path() {
    assert!(is_success_status(200));
    assert!(is_success_status(299));
    assert!(!is_success_status(300));
    assert!(!is_success_status(199));
    assert!(is_stream_path("models/m:streamGenerateContent"));
    assert!(!is_stream_path("models/m:generateContent"));
}
