use std::sync::atomic::{AtomicUsize, Ordering};
use std::sync::{Arc, Mutex};

use papervault::auto_tagger::breaker::ApiCircuitBreaker;
use papervault::auto_tagger::config::AutoTagConfig;
use papervault::auto_tagger::deepseek::{
    error_for_body, error_for_status, error_for_transport, extract_json_object, DeepSeekProvider,
};
use papervault::auto_tagger::names::{
    extract_filename_tokens, normalize_person_name, split_camel_case,
};
use papervault::auto_tagger::provider::{Entities, TagError, TagProvider, TagResponse};
use papervault::auto_tagger::worker::{
    accept_request, backoff_seconds, begin_tagging, continue_tagging, job_for_claimed,
    process_request, tag_document, tags_json, IdleClock, RequestAction, TagAction, TagJob,
    TagOutcome,
};
use papervault::indexer::extractors::FileContent;
use papervault::indexer::stages::{create_extractor_chain, run_chain};
use papervault::messages::AutoTagRequest;
use papervault::tags::store::TagStore;
use papervault::tags::tag_json::read_tags;

#[test]
fn normalize_person_name_lowercase() {
    let v = normalize_person_name("Yang Guorui");
    assert!(v.contains(&"yang guorui".to_string()));
}

#[test]
fn normalize_person_name_order_variants() {
    let v = normalize_person_name("Yang Guorui");
    assert!(v.contains(&"yang guorui".to_string()));
    assert!(v.contains(&"guorui yang".to_string()));
}

#[test]
fn normalize_person_name_cjk_space_strip() {
    let v = normalize_person_name("Yang Guo Rui");
    assert!(v.contains(&"yangguorui".to_string()));
}

#[test]
fn normalize_person_name_single_word() {
    assert_eq!(normalize_person_name("Yang"), vec!["yang"]);
}

#[test]
fn normalize_person_name_empty() {
    assert!(normalize_person_name("").is_empty());
}

#[test]
fn normalize_no_spaces_camelcase() {
    let v = normalize_person_name("YangGuoRui");
    assert!(
        v.contains(&"yang guo rui".to_string()),
        "CamelCase should be split: {:?}",
        v
    );
    assert!(v.contains(&"yangguorui".to_string()));
}

#[test]
fn normalize_partial_spaces() {
    let v = normalize_person_name("YangGuo Rui");
    assert!(
        v.contains(&"yang guo rui".to_string()),
        "partial spaces: {:?}",
        v
    );
    assert!(v.contains(&"yangguorui".to_string()));
}

#[test]
fn normalize_single_name_mia() {
    let v = normalize_person_name("Mia");
    assert_eq!(v, vec!["mia"]);
}

#[test]
fn normalize_mixed_case() {
    let v = normalize_person_name("YANG GUORUI");
    assert!(v.contains(&"yang guorui".to_string()));
    assert!(v.contains(&"guorui yang".to_string()));
}

#[test]
fn normalize_chen_yang() {
    let v = normalize_person_name("Chen Yang");
    assert!(v.contains(&"chen yang".to_string()));
    assert!(v.contains(&"yang chen".to_string()));
    assert!(v.contains(&"chenyang".to_string()));
}

#[test]
fn split_camel_case_handles_embedded_spaces() {
    let parts = split_camel_case("YangGuo Rui").unwrap();
    assert_eq!(parts, vec!["yang", "guo", "rui"]);
}

#[test]
fn split_camel_case_treats_spaces_as_delimiters() {
    let parts = split_camel_case("Hello World").unwrap();
    assert_eq!(parts, vec!["hello", "world"]);
}

#[test]
fn extract_filename_tokens_strips_extension_and_splits() {
    let t = extract_filename_tokens("2023-tax-return-yang-guorui.pdf");
    assert!(t.contains(&"tax".to_string()));
    assert!(t.contains(&"return".to_string()));
}

#[test]
fn extract_filename_tokens_filters_stopwords() {
    let t = extract_filename_tokens("final-draft-scan-tax-return.pdf");
    assert!(!t.contains(&"final".to_string()));
    assert!(t.contains(&"tax".to_string()));
}

#[test]
fn circuit_breaker_trips_after_threshold_and_resets_on_success() {
    let mut breaker = ApiCircuitBreaker::new(3, 60_000);
    assert!(breaker.allow_request(), "closed breaker allows calls");
    breaker.record_failure();
    breaker.record_failure();
    assert!(breaker.allow_request(), "below threshold still allows");
    breaker.record_failure();
    assert!(
        !breaker.allow_request(),
        "threshold reached — circuit must be open"
    );
    breaker.record_success();
    assert!(breaker.allow_request(), "success closes the circuit");
}

#[test]
fn circuit_breaker_reopens_after_cooldown() {
    // 1ms cooldown: the half-open probe is allowed almost immediately.
    let mut breaker = ApiCircuitBreaker::new(1, 1);
    breaker.record_failure();
    assert!(!breaker.allow_request());
    let start = std::time::Instant::now();
    while start.elapsed() < std::time::Duration::from_millis(10) {}
    assert!(
        breaker.allow_request(),
        "after cooldown a probe call must be allowed"
    );
    // The probe re-trips on failure (threshold 1).
    breaker.record_failure();
    assert!(!breaker.allow_request());
}

#[test]
fn load_returns_default_when_no_file() {
    let config = AutoTagConfig::default();
    assert!(!config.enabled);
    assert_eq!(config.provider, "deepseek");
    assert_eq!(config.model, "deepseek-v4-flash");
    assert_eq!(config.max_retries, 3);
}

#[test]
fn api_key_env_name_stored_not_value() {
    let config = AutoTagConfig::default();
    assert_eq!(config.api_key_env, "DEEPSEEK_API_KEY");
    // The actual key value is never in the config
}

#[test]
fn default_is_disabled() {
    let config = AutoTagConfig::default();
    assert!(!config.enabled);
}

fn make_provider() -> DeepSeekProvider {
    DeepSeekProvider::new(
        "https://api.deepseek.com/v1/chat/completions",
        "deepseek-chat",
        "DEEPSEEK_API_KEY",
        30,
        500,
    )
}

#[test]
fn truncate_text_under_limit_returns_full_text() {
    let provider = make_provider();
    let text = "hello world";
    assert_eq!(provider.truncate_text(text), "hello world");
}

#[test]
fn truncate_text_at_word_boundary() {
    let provider = make_provider();
    let words: Vec<String> = (0..505).map(|i| format!("word{}", i)).collect();
    let text = words.join(" ");
    let truncated = provider.truncate_text(&text);

    let word_count = truncated.split_whitespace().count();
    assert_eq!(word_count, 500, "provider must truncate to its max_text_words");
    assert!(!truncated.ends_with(' '));
}

#[test]
fn truncate_text_empty_string() {
    let provider = make_provider();
    assert_eq!(provider.truncate_text(""), "");
}

#[test]
fn build_prompt_includes_filename_and_truncated_text() {
    let provider = make_provider();
    let prompt = provider.build_prompt(
        "2023-tax-return.pdf",
        "Form 1040 tax document content here",
        &["tax".into(), "irs".into()],
    );

    assert!(prompt.contains("2023-tax-return.pdf"));
    assert!(prompt.contains("Form 1040 tax document content here"));
    assert!(prompt.contains(r#""tax""#));
    assert!(prompt.contains(r#""irs""#));
    // Verify no unreplaced placeholders remain
    assert!(
        !prompt.contains("{existing_tags"),
        "placeholder not replaced"
    );
    assert!(!prompt.contains("{{FILENAME}}"), "FILENAME not replaced");
}

#[test]
fn truncate_text_handles_consecutive_whitespace() {
    let provider = make_provider();
    let text = "a   b   c   d   e";
    assert_eq!(provider.truncate_text(text), "a   b   c   d   e");
}

#[test]
fn build_prompt_empty_existing_tags_uses_empty_array() {
    let provider = make_provider();
    let prompt = provider.build_prompt("test.pdf", "content", &[]);
    assert!(prompt.contains("[]"), "empty tags should produce '[]'");
}

#[test]
fn parse_response_extracts_tags_and_entities() {
    let body = r#"{
        "choices": [{
            "message": {
                "content": "{\"tags\": [\"tax-return\", \"tax\"], \"entities\": {\"persons\": [\"Yang Guorui\"], \"years\": [\"2023\"], \"organizations\": [], \"doc_id\": [], \"amounts\": []}}"
            }
        }]
    }"#;

    let result = DeepSeekProvider::parse_response(body).unwrap();

    assert_eq!(result.tags, vec!["tax-return", "tax"]);
    assert_eq!(result.entities.persons, vec!["Yang Guorui"]);
    assert_eq!(result.entities.years, vec!["2023"]);
}

#[test]
fn parse_response_handles_empty_entities() {
    let body = r#"{
        "choices": [{
            "message": {
                "content": "{\"tags\": [\"test\"], \"entities\": {}}"
            }
        }]
    }"#;

    let result = DeepSeekProvider::parse_response(body).unwrap();

    assert_eq!(result.tags, vec!["test"]);
    assert!(result.entities.persons.is_empty());
}

#[test]
fn parse_response_rejects_missing_choices() {
    let body = r#"{"error": "not found"}"#;
    let result = DeepSeekProvider::parse_response(body);
    assert!(result.is_err());
}

#[test]
fn parse_response_rejects_invalid_json_in_content() {
    let body = r#"{
        "choices": [{
            "message": {
                "content": "not valid json {{{"
            }
        }]
    }"#;
    let result = DeepSeekProvider::parse_response(body);
    assert!(result.is_err());
}

#[test]
fn parse_response_accepts_markdown_fenced_json() {
    // LLMs often wrap JSON in ```json fences despite the prompt.
    let body = r#"{
        "choices": [{
            "message": {
                "content": "Here are the tags:\n```json\n{\"tags\": [\"tax\", \"CRA\"], \"entities\": {\"persons\": [], \"years\": [], \"organizations\": [], \"doc_id\": [], \"amounts\": []}}\n```"
            }
        }]
    }"#;
    let result = DeepSeekProvider::parse_response(body).unwrap();
    assert_eq!(result.tags, vec!["tax", "CRA"]);
}

#[test]
fn parse_response_accepts_prose_around_json() {
    // Prose before/after the object must not break parsing.
    let body = r#"{
        "choices": [{
            "message": {
                "content": "Sure! Based on the document:\n{\"tags\": [\"notice\"], \"entities\": {\"persons\": [], \"years\": [], \"organizations\": [], \"doc_id\": [], \"amounts\": []}}\nHope that helps."
            }
        }]
    }"#;
    let result = DeepSeekProvider::parse_response(body).unwrap();
    assert_eq!(result.tags, vec!["notice"]);
}

#[test]
fn parse_response_rejects_truncated_json() {
    // Connection cut mid-output: no balanced object → retryable error.
    let body = r#"{
        "choices": [{
            "message": {
                "content": "{\"tags\": [\"tax\"]"
            }
        }]
    }"#;
    let result = DeepSeekProvider::parse_response(body);
    assert!(
        matches!(result, Err(TagError::Unavailable(_))),
        "truncated JSON must be a retryable Unavailable error"
    );
}

#[test]
fn parse_response_retries_empty_model_content() {
    // Empty completions happen under load — must be retryable, not
    // a permanent failure.
    let body = r#"{
        "choices": [{
            "message": {
                "content": ""
            }
        }]
    }"#;
    let result = DeepSeekProvider::parse_response(body);
    assert!(
        matches!(result, Err(TagError::Unavailable(_))),
        "empty content must be retryable"
    );
}

#[test]
fn extract_json_object_ignores_braces_inside_strings() {
    // A tag containing braces must not confuse the extractor.
    let s = r#"pre {"tags": ["a{b}"], "note": "}"} post"#;
    let extracted = extract_json_object(s).unwrap();
    let v: serde_json::Value = serde_json::from_str(&extracted).unwrap();
    assert_eq!(v["tags"][0], "a{b}");
}

/// A provider that gives the same answer each time and counts how often it is asked.
#[derive(Clone)]
struct MockProvider {
    response: TagResponse,
    fail_error: Option<TagError>,
    call_count: Arc<AtomicUsize>,
    last_text: Arc<Mutex<Option<String>>>,
}

impl MockProvider {
    fn new(response: TagResponse) -> Self {
        MockProvider {
            response,
            fail_error: None,
            call_count: Arc::new(AtomicUsize::new(0)),
            last_text: Arc::new(Mutex::new(None)),
        }
    }

    fn failing(error: TagError) -> Self {
        let mut provider = Self::giving(&[]);
        provider.fail_error = Some(error);
        provider
    }

    fn giving(tags: &[&str]) -> Self {
        Self::new(TagResponse {
            tags: tags.iter().map(|t| t.to_string()).collect(),
            entities: Entities::default(),
        })
    }

    fn calls(&self) -> usize {
        self.call_count.load(Ordering::Relaxed)
    }
}

impl TagProvider for MockProvider {
    fn name(&self) -> &str {
        "mock"
    }

    fn generate_tags(
        &self,
        _filename: &str,
        text: &str,
        _existing_tags: &[String],
    ) -> Result<TagResponse, TagError> {
        self.call_count.fetch_add(1, Ordering::Relaxed);
        *self.last_text.lock().unwrap() = Some(text.to_string());
        match &self.fail_error {
            Some(error) => Err(error.clone()),
            None => Ok(self.response.clone()),
        }
    }

    fn health_check(&self) -> Result<(), TagError> {
        match &self.fail_error {
            Some(error) => Err(error.clone()),
            None => Ok(()),
        }
    }
}

#[test]
fn mock_provider_returns_fixture_data() {
    let response = TagResponse {
        tags: vec!["tax".into(), "return".into()],
        entities: Entities {
            persons: vec!["Yang Guorui".into()],
            years: vec!["2023".into()],
            ..Default::default()
        },
    };
    let provider = MockProvider::new(response.clone());

    let result = provider
        .generate_tags("test.pdf", "sample text", &[])
        .unwrap();

    assert_eq!(result.tags, response.tags);
    assert_eq!(result.entities.persons, response.entities.persons);
    assert_eq!(result.entities.years, response.entities.years);
}

#[test]
fn mock_provider_tracks_call_count() {
    let provider = MockProvider::giving(&["test"]);

    provider.generate_tags("a.pdf", "text", &[]).unwrap();
    provider.generate_tags("b.pdf", "text", &[]).unwrap();

    assert_eq!(provider.calls(), 2);
}

#[test]
fn mock_provider_returns_error_when_failing() {
    let provider = MockProvider::failing(TagError::Unavailable("test error".into()));

    let result = provider.generate_tags("test.pdf", "text", &[]);
    assert!(result.is_err());
    match result {
        Err(TagError::Unavailable(msg)) => assert!(msg.contains("test error")),
        _ => panic!("expected Unavailable error"),
    }
}

fn job(hash: &str, filename: &str, text: &str, before: &str) -> TagJob {
    TagJob {
        content_hash: hash.to_string(),
        filename: filename.to_string(),
        text: text.to_string(),
        content_hash_before_tag: before.to_string(),
    }
}

fn enabled() -> AutoTagConfig {
    AutoTagConfig { enabled: true, ..AutoTagConfig::default() }
}

fn no_sleep(_: u64) {}

#[test]
fn tag_document_skips_ai_call_when_breaker_open() {
    let mut store = TagStore::new();
    store.upsert_document("h1", "/a.pdf", "pdf", 0, 0).unwrap();

    let provider = MockProvider::giving(&[]);
    let config = AutoTagConfig::default(); // enabled = false
    let mut breaker = ApiCircuitBreaker::new(1, 60_000);
    breaker.record_failure(); // trip the breaker

    let job = job("h1", "a.pdf", "some text", "hash-before");
    let outcome = tag_document(&job, &mut store, &provider, &config, &mut breaker, &no_sleep);
    assert!(!outcome.counts_as_progress());

    // Off comes before the breaker: switch it on to reach the breaker.
    let outcome = tag_document(&job, &mut store, &provider, &enabled(), &mut breaker, &no_sleep);

    assert_eq!(provider.calls(), 0, "no API call must be made while the breaker is open");
    assert!(outcome.counts_as_progress());
    let status = store.auto_tag_status("h1").unwrap().unwrap();
    assert_eq!(status.status, "failed");
    assert!(
        status.last_error.as_deref().unwrap_or("").contains("circuit breaker"),
        "status must record the breaker skip: {:?}",
        status.last_error
    );
}

#[test]
fn process_request_skips_rows_claimed_by_another_worker() {
    let mut store = TagStore::new();
    store.upsert_document("h1", "/a.pdf", "pdf", 0, 0).unwrap();
    store.upsert_auto_tag_status("h1", "a.pdf", "x", "pending", None, None).unwrap();
    // Row claimed by another worker (startup recovery in flight).
    assert_eq!(store.claim_pending_auto_tags(1).unwrap().len(), 1);

    let provider = MockProvider::giving(&[]);
    let mut breaker = ApiCircuitBreaker::new(6, 60_000);
    let (stop, outcome) = process_request(
        AutoTagRequest::TagDocument {
            content_hash: "h1".into(),
            filename: "a.pdf".into(),
            text: "text".into(),
            content_hash_before_tag: "x".into(),
        },
        &mut store,
        &provider,
        &enabled(),
        &mut breaker,
        &no_sleep,
    );
    assert!(!stop);
    assert!(outcome.is_none());
    assert_eq!(
        provider.calls(),
        0,
        "a row claimed by another worker must not trigger a duplicate AI call"
    );
}

#[test]
fn tag_document_disabled_restores_pending() {
    let mut store = TagStore::new();
    store.upsert_document("h1", "/a.pdf", "pdf", 0, 0).unwrap();
    store.upsert_auto_tag_status("h1", "a.pdf", "x", "pending", None, None).unwrap();
    store.claim_pending_auto_tags(1).unwrap();
    assert_eq!(store.auto_tag_status("h1").unwrap().unwrap().status, "processing");

    let config = AutoTagConfig::default(); // enabled = false
    let mut breaker = ApiCircuitBreaker::new(6, 60_000);
    tag_document(
        &job("h1", "a.pdf", "", "x"),
        &mut store,
        &MockProvider::giving(&[]),
        &config,
        &mut breaker,
        &no_sleep,
    );

    let status = store.auto_tag_status("h1").unwrap().unwrap();
    assert_eq!(
        status.status, "pending",
        "a claimed row must not stay 'processing' when tagging is disabled"
    );
}

#[test]
fn tag_document_signals_completed_hash() {
    let mut store = TagStore::new();
    store.upsert_document("h1", "/a.pdf", "pdf", 0, 0).unwrap();
    store.upsert_auto_tag_status("h1", "a.pdf", "x", "pending", None, None).unwrap();

    let mut breaker = ApiCircuitBreaker::new(6, 60_000);
    let work = job("h1", "a.pdf", "some text", "x");
    let outcome = tag_document(
        &work,
        &mut store,
        &MockProvider::giving(&[]),
        &enabled(),
        &mut breaker,
        &no_sleep,
    );

    assert_eq!(
        outcome.completed_hash(&work),
        Some("h1".to_string()),
        "completion signal must carry the hash so the UI can drop its stale entry"
    );
    assert_eq!(store.auto_tag_status("h1").unwrap().unwrap().status, "tagged");
}

#[test]
fn tag_document_breaker_wiring_unavailable_trips_non_transient_does_not() {
    // Transient (Unavailable) failures must trip the breaker.
    let mut store = TagStore::new();
    store.upsert_document("h1", "/a.pdf", "pdf", 0, 0).unwrap();
    store.upsert_auto_tag_status("h1", "a.pdf", "x", "pending", None, None).unwrap();
    let config = AutoTagConfig {
        enabled: true,
        max_retries: 1, // no backoff sleeps
        ..AutoTagConfig::default()
    };
    let mut breaker = ApiCircuitBreaker::new(1, 60_000);
    let provider = MockProvider::failing(TagError::Unavailable("down".into()));
    tag_document(
        &job("h1", "a.pdf", "text", "x"),
        &mut store,
        &provider,
        &config,
        &mut breaker,
        &no_sleep,
    );
    assert!(
        !breaker.allow_request(),
        "Unavailable failures must trip the circuit breaker"
    );

    // Non-transient (auth) failures must NOT trip it.
    let mut store = TagStore::new();
    store.upsert_document("h2", "/b.pdf", "pdf", 0, 0).unwrap();
    store.upsert_auto_tag_status("h2", "b.pdf", "x", "pending", None, None).unwrap();
    let mut breaker = ApiCircuitBreaker::new(1, 60_000);
    let provider = MockProvider::failing(TagError::Auth("bad key".into()));
    tag_document(
        &job("h2", "b.pdf", "text", "x"),
        &mut store,
        &provider,
        &config,
        &mut breaker,
        &no_sleep,
    );
    assert!(
        breaker.allow_request(),
        "permanent errors (auth) must not trip the breaker — retries are pointless anyway"
    );
}

#[test]
fn tag_document_cjk_text_preview_does_not_panic() {
    let mut store = TagStore::new();
    store.upsert_document("h1", "/a.pdf", "pdf", 0, 0).unwrap();

    // 122 CJK characters in 366 bytes.
    let cjk_text = "中文内容".repeat(30) + "结尾";
    assert!(cjk_text.len() > 120);

    let config = AutoTagConfig::default();
    let mut breaker = ApiCircuitBreaker::new(6, 60_000);
    let outcome = tag_document(
        &job("h1", "a.pdf", &cjk_text, "x"),
        &mut store,
        &MockProvider::giving(&[]),
        &config,
        &mut breaker,
        &no_sleep,
    );
    assert_eq!(outcome, TagOutcome::Disabled);
}

#[test]
fn tag_document_retags_content_when_hash_before_differs() {
    let mut store = TagStore::new();
    store.upsert_document("h1", "/a.pdf", "pdf", 0, 0).unwrap();
    store
        .upsert_auto_tag_status(
            "h1",
            "a.pdf",
            "stale-hash-before",
            "tagged",
            Some(r#"{"tags":["old"]}"#),
            None,
        )
        .unwrap();

    let provider = MockProvider::giving(&["fresh"]);
    let mut breaker = ApiCircuitBreaker::new(6, 60_000);
    tag_document(
        &job("h1", "a.pdf", "text", "reindex-hash"), // differs from the stored hash-before
        &mut store,
        &provider,
        &enabled(),
        &mut breaker,
        &no_sleep,
    );

    assert_eq!(provider.calls(), 1, "reindex must still reach the API for changed content");
    let status = store.auto_tag_status("h1").unwrap().unwrap();
    assert_eq!(status.status, "tagged");
    assert!(
        status.tags_json.as_deref().unwrap_or("").contains("fresh"),
        "the fresh re-tag result must be stored"
    );
}

#[test]
fn shutdown_request_returns_true() {
    let mut store = TagStore::new();
    let config = AutoTagConfig::default();
    let mut breaker = ApiCircuitBreaker::new(1, 60_000);
    let (stop, outcome) = process_request(
        AutoTagRequest::Shutdown,
        &mut store,
        &MockProvider::giving(&[]),
        &config,
        &mut breaker,
        &no_sleep,
    );
    assert!(stop, "Shutdown request should return true");
    assert!(outcome.is_none());
}

/// Tag the one waiting row, given what its file holds.
fn tag_claimed_row(store: &mut TagStore, provider: &MockProvider, on_disk: Option<&str>) {
    let rows = store.claim_pending_auto_tags(100).unwrap();
    assert_eq!(rows.len(), 1);
    let text = on_disk.and_then(|content| {
        let file = FileContent {
            file_name: rows[0].filename.clone(),
            extension: "txt".to_string(),
            bytes: content.as_bytes().to_vec(),
            pdf: None,
        };
        run_chain(&file, &create_extractor_chain()).ok().flatten().map(|c| c.text)
    });
    let mut breaker = ApiCircuitBreaker::new(100, 60_000);
    tag_document(
        &job_for_claimed(&rows[0], text),
        store,
        provider,
        &enabled(),
        &mut breaker,
        &no_sleep,
    );
}

#[test]
fn db_claimed_rows_pass_extracted_text_to_provider() {
    let mut store = TagStore::new();
    store.upsert_document("h1", "/docs/notice.txt", "txt", 0, 0).unwrap();
    store
        .upsert_auto_tag_status("h1", "notice.txt", "before", "pending", None, None)
        .unwrap();

    let provider = MockProvider::giving(&[]);
    tag_claimed_row(
        &mut store,
        &provider,
        Some("Canada Revenue Agency tax assessment for Guorui Yang"),
    );

    let captured = provider.last_text.lock().unwrap().clone();
    assert_eq!(
        captured.as_deref(),
        Some("Canada Revenue Agency tax assessment for Guorui Yang"),
        "DB-claimed rows must send the extracted document text to the API"
    );
}

#[test]
fn db_claimed_row_with_missing_file_falls_back_to_empty_text() {
    let mut store = TagStore::new();
    store.upsert_document("h1", "/gone/notice.pdf", "pdf", 0, 0).unwrap();
    store
        .upsert_auto_tag_status("h1", "notice.pdf", "before", "pending", None, None)
        .unwrap();

    let provider = MockProvider::giving(&[]);
    tag_claimed_row(&mut store, &provider, None);

    let captured = provider.last_text.lock().unwrap().clone();
    assert_eq!(
        captured.as_deref(),
        Some(""),
        "missing file must fall back to empty text"
    );
}

#[test]
fn queue_snapshot_shows_in_flight_row_and_clears_after_drain() {
    let mut store = TagStore::new();
    store.upsert_document("h1", "/notice.txt", "txt", 0, 0).unwrap();
    store
        .upsert_auto_tag_status("h1", "notice.txt", "before", "pending", None, None)
        .unwrap();
    let rows = store.claim_pending_auto_tags(100).unwrap();

    let items = store.list_auto_tag_queue().unwrap();
    assert!(
        items.iter().any(|i| i.status == "processing" && i.filename == "notice.txt"),
        "the claimed row must appear as in-flight during the API call"
    );

    let provider = MockProvider::giving(&["tax"]);
    let mut breaker = ApiCircuitBreaker::new(100, 60_000);
    tag_document(
        &job_for_claimed(&rows[0], None),
        &mut store,
        &provider,
        &enabled(),
        &mut breaker,
        &no_sleep,
    );
    assert_eq!(
        store.list_auto_tag_queue().unwrap(),
        vec![],
        "once the drain finishes, the queue must be empty"
    );
    assert_eq!(provider.calls(), 1, "the API must have been called once");
}

#[test]
fn tagged_content_is_reused() {
    let mut store = TagStore::new();
    store.upsert_document("h1", "/a.pdf", "pdf", 0, 0).unwrap();
    let provider = MockProvider::giving(&["tax"]);
    let mut breaker = ApiCircuitBreaker::new(6, 60_000);
    let job = job("h1", "a.pdf", "text", "x");
    let first = tag_document(&job, &mut store, &provider, &enabled(), &mut breaker, &no_sleep);
    let second = tag_document(&job, &mut store, &provider, &enabled(), &mut breaker, &no_sleep);
    assert_eq!(first, TagOutcome::Tagged);
    assert_eq!(second, TagOutcome::Reused);
    assert!(second.counts_as_progress());
    assert_eq!(second.completed_hash(&job), None);
    assert_eq!(provider.calls(), 1);
}

#[test]
fn similar_file_names_share_their_tags() {
    let mut store = TagStore::new();
    store.upsert_document("h1", "/a.pdf", "pdf", 0, 0).unwrap();
    store.upsert_document("h2", "/b.pdf", "pdf", 0, 0).unwrap();
    let provider = MockProvider::giving(&["tax"]);
    let mut breaker = ApiCircuitBreaker::new(6, 60_000);
    let first = tag_document(
        &job("h1", "tax-return-smith-income-federal.pdf", "text", "x"),
        &mut store,
        &provider,
        &enabled(),
        &mut breaker,
        &no_sleep,
    );
    let second = tag_document(
        &job("h2", "federal-income-tax-return-smith.pdf", "text", "y"),
        &mut store,
        &provider,
        &enabled(),
        &mut breaker,
        &no_sleep,
    );
    assert_eq!(first, TagOutcome::Tagged);
    assert_eq!(second, TagOutcome::Cached);
    assert_eq!(provider.calls(), 1);
    let json = store.auto_tag_status("h2").unwrap().unwrap().tags_json.unwrap();
    assert_eq!(read_tags(&json), vec!["tax"]);
}

#[test]
fn persons_become_tags_and_the_list_is_cut() {
    let mut store = TagStore::new();
    store.upsert_document("h1", "/a.pdf", "pdf", 0, 0).unwrap();
    let mut provider = MockProvider::giving(&["tax", "return"]);
    provider.response.entities.persons = vec!["Yang Guorui".to_string(), "Mia".to_string()];
    let mut config = enabled();
    config.max_tags_per_doc = 3;
    let mut breaker = ApiCircuitBreaker::new(6, 60_000);
    tag_document(
        &job("h1", "a.pdf", "text", "x"),
        &mut store,
        &provider,
        &config,
        &mut breaker,
        &no_sleep,
    );
    let json = store.auto_tag_status("h1").unwrap().unwrap().tags_json.unwrap();
    assert_eq!(read_tags(&json), vec!["tax", "return", "yang guorui"]);
    let value: serde_json::Value = serde_json::from_str(&json).unwrap();
    let persons: Vec<&str> = value["entities"]["persons"]
        .as_array()
        .unwrap()
        .iter()
        .map(|p| p.as_str().unwrap())
        .collect();
    assert_eq!(persons, vec!["yang guorui", "guorui yang", "yangguorui", "mia"]);
}

#[test]
fn transient_failures_are_tried_again_with_growing_waits() {
    let mut store = TagStore::new();
    store.upsert_document("h1", "/a.pdf", "pdf", 0, 0).unwrap();
    let provider = MockProvider::failing(TagError::Unavailable("down".to_string()));
    let waits: Mutex<Vec<u64>> = Mutex::new(Vec::new());
    let sleep = |seconds: u64| waits.lock().unwrap().push(seconds);
    let mut breaker = ApiCircuitBreaker::new(6, 60_000);
    let outcome = tag_document(
        &job("h1", "a.pdf", "text", "x"),
        &mut store,
        &provider,
        &enabled(),
        &mut breaker,
        &sleep,
    );
    assert_eq!(outcome, TagOutcome::Failed);
    assert_eq!(provider.calls(), 3);
    assert_eq!(*waits.lock().unwrap(), vec![1, 2]);
    let status = store.auto_tag_status("h1").unwrap().unwrap();
    assert_eq!(status.status, "failed");
    assert!(status.last_error.unwrap().contains("down"));
    assert_eq!(backoff_seconds(3), 8);
    assert_eq!(backoff_seconds(64), u64::MAX);

    // A refused request is not repeated.
    let provider = MockProvider::failing(TagError::BadRequest("no".to_string()));
    let outcome = tag_document(
        &job("h1", "a.pdf", "text", "x"),
        &mut store,
        &provider,
        &enabled(),
        &mut breaker,
        &sleep,
    );
    assert_eq!(outcome, TagOutcome::Failed);
    assert_eq!(provider.calls(), 1);
}

#[test]
fn errors_tell_what_happened() {
    assert_eq!(TagError::Auth("k".to_string()).message(), "authentication failed: k");
    assert_eq!(TagError::Unavailable("k".to_string()).message(), "provider unavailable: k");
    assert_eq!(TagError::Parse("k".to_string()).message(), "invalid response format: k");
    assert_eq!(TagError::BadRequest("k".to_string()).message(), "bad request: k");
    assert!(matches!(error_for_status(401, ""), TagError::Auth(_)));
    assert!(matches!(error_for_status(403, ""), TagError::Auth(_)));
    assert!(matches!(error_for_status(400, ""), TagError::BadRequest(_)));
    assert!(matches!(error_for_status(429, ""), TagError::Unavailable(_)));
    assert!(matches!(error_for_status(503, ""), TagError::Unavailable(_)));
    assert!(matches!(error_for_transport("reset"), TagError::Unavailable(_)));
    assert!(matches!(error_for_body("cut off"), TagError::Unavailable(_)));
}

#[test]
fn the_key_is_read_by_its_name() {
    let provider = make_provider();
    assert_eq!(provider.api_key(Some("k")).unwrap(), "k");
    match provider.api_key(None) {
        Err(TagError::Auth(detail)) => assert!(detail.contains("DEEPSEEK_API_KEY")),
        _ => panic!("expected an authentication error"),
    }
}

#[test]
fn the_request_is_json_that_carries_the_prompt() {
    let provider = make_provider().with_output(false, 1024);
    let body = provider.request_body("a \"b\".pdf", "line\nline", &["tax".to_string()]);
    let value: serde_json::Value = serde_json::from_str(&body).unwrap();
    assert_eq!(value["model"], "deepseek-chat");
    assert_eq!(value["max_tokens"], 1024);
    assert_eq!(value["temperature"], 0.1);
    assert_eq!(value["stream"], false);
    assert_eq!(value["thinking"]["type"], "disabled");
    let prompt = provider.build_prompt("a \"b\".pdf", "line\nline", &["tax".to_string()]);
    let messages = value["messages"].as_array().unwrap();
    assert!(messages.iter().any(|m| m["content"] == prompt.as_str()));
    let thinking = make_provider().with_output(true, 4096).request_body("a", "b", &[]);
    let value: serde_json::Value = serde_json::from_str(&thinking).unwrap();
    assert_eq!(value["thinking"]["type"], "enabled");
    assert_eq!(value["max_tokens"], 4096);
}

#[test]
fn tags_are_written_as_json() {
    let entities = Entities { years: vec!["2023".to_string()], ..Default::default() };
    let json = tags_json(&vec!["a\"b".to_string(), "中".to_string()], &entities);
    let value: serde_json::Value = serde_json::from_str(&json).unwrap();
    assert_eq!(value["tags"][0], "a\"b");
    assert_eq!(value["tags"][1], "中");
    assert_eq!(value["entities"]["years"][0], "2023");
    assert_eq!(read_tags(&json), vec!["a\"b", "中"]);
}

#[test]
fn idle_work_is_spaced_out() {
    let mut clock = IdleClock::new(0);
    let plan = clock.on_idle(1_999);
    assert!(!plan.sweep && !plan.refresh);
    assert_eq!(plan.claim, 8);
    assert!(clock.on_idle(2_000).refresh);
    assert!(!clock.on_idle(3_999).refresh);
    let plan = clock.on_idle(60_000);
    assert!(plan.sweep && plan.refresh);
    assert!(!clock.on_idle(60_001).sweep);
}

#[test]
fn accents_fold_away() {
    assert_eq!(normalize_person_name("José"), vec!["jose"]);
    assert!(normalize_person_name("  ").is_empty());
    assert_eq!(extract_filename_tokens("2023.pdf"), Vec::<String>::new());
    assert_eq!(split_camel_case(""), None);
}

#[test]
fn the_breaker_goes_by_the_time_it_is_told() {
    let mut breaker = ApiCircuitBreaker::new(2, 1_000);
    breaker.record_failure_at(5_000);
    assert!(breaker.allow_request_at(5_001));
    breaker.record_failure_at(6_000);
    assert!(!breaker.allow_request_at(6_999));
    assert!(breaker.allow_request_at(7_000), "one probe after the cooldown");
    assert!(!breaker.allow_request_at(7_001), "a second call while the probe is out");
    assert!(!breaker.allow_request_at(90_000), "however long it takes");
    breaker.record_failure_at(7_100);
    assert!(!breaker.allow_request_at(8_000), "a failed probe trips it again");
    assert!(breaker.allow_request_at(8_100));
    breaker.record_success();
    assert!(breaker.allow_request_at(8_200));
    breaker.record_failure_at(9_000);
    assert!(breaker.allow_request_at(9_000));
}

#[test]
fn a_probe_ends_without_success_or_failure() {
    let mut breaker = ApiCircuitBreaker::new(1, 1_000);
    breaker.record_failure_at(5_000);
    assert!(breaker.allow_request_at(6_000));
    breaker.record_no_call();
    assert!(breaker.allow_request_at(6_001), "another call may be the probe");
    assert!(!breaker.allow_request_at(6_002));
    breaker.record_answer();
    assert!(breaker.allow_request_at(6_003), "an answer closes the breaker");
    assert!(breaker.allow_request_at(6_004));
    breaker.record_failure_at(7_000);
    breaker.record_answer();
    assert!(!breaker.allow_request_at(7_001), "an answer from before the trip leaves it open");
}

#[test]
fn a_refused_key_ends_the_probe() {
    let mut store = TagStore::new();
    store.upsert_document("h", "/a.pdf", "pdf", 1, 1).unwrap();
    let config = enabled();
    let mut breaker = ApiCircuitBreaker::new(1, 1_000);
    breaker.record_failure_at(5_000);
    let work = job("h", "a.pdf", "text", "before");
    let question = match begin_tagging(&work, &mut store, &config, &mut breaker, "t0", 7_000) {
        TagAction::Ask(question) => question,
        other => panic!("expected a question, got {:?}", other),
    };
    match begin_tagging(&work, &mut store, &config, &mut breaker, "t0", 7_001) {
        TagAction::Done(outcome) => assert_eq!(outcome, TagOutcome::Refused),
        other => panic!("expected a refusal, got {:?}", other),
    }
    let refused = Err(TagError::Auth("no".into()));
    match continue_tagging(&work, question, refused, &mut store, &config, &mut breaker, "t1", 7_100)
    {
        TagAction::Done(outcome) => assert_eq!(outcome, TagOutcome::Failed),
        other => panic!("expected the end, got {:?}", other),
    }
    assert!(breaker.allow_request_at(7_101));
}

#[test]
fn names_have_the_forms_that_are_searched() {
    assert_eq!(normalize_person_name("YangGuoRui"), vec!["yangguorui", "yang guo rui"]);
    assert_eq!(
        normalize_person_name("YangGuo Rui"),
        vec!["yangguo rui", "yang guo rui", "yangguorui"]
    );
    assert_eq!(
        normalize_person_name("Yang Guo Rui"),
        vec!["yang guo rui", "guorui yang", "yangguorui"]
    );
    assert_eq!(
        normalize_person_name("YANG GUORUI"),
        vec!["yang guorui", "guorui yang", "yangguorui"]
    );
    assert_eq!(
        normalize_person_name("Chen Yang"),
        vec!["chen yang", "yang chen", "chenyang"]
    );
    assert_eq!(normalize_person_name("JSmith"), vec!["jsmith", "j smith"]);
    assert_eq!(normalize_person_name("O'BRIEN"), vec!["o'brien"]);
}

#[test]
fn camel_case_is_cut_before_every_capital() {
    let cut = |s: &str| split_camel_case(s).map(|parts| parts.join("|"));
    assert_eq!(cut("ABc").as_deref(), Some("a|bc"));
    assert_eq!(cut("JSmith").as_deref(), Some("j|smith"));
    assert_eq!(cut("YANG").as_deref(), Some("y|a|n|g"));
    assert_eq!(cut("yang guo"), None);
    assert_eq!(cut("Yang"), None);
}

#[test]
fn diacritics_of_extended_latin_fold_away() {
    assert_eq!(normalize_person_name("Łukasz Žižek"), vec![
        "lukasz zizek",
        "zizek lukasz",
        "lukaszzizek"
    ]);
    assert_eq!(normalize_person_name("ĀāĘęŃńŐőŸŽž").first().unwrap(), "aaeennooyzz");
}

#[test]
fn letter_case_and_extension_do_not_matter_to_tokens() {
    let tokens = extract_filename_tokens("tax-return_Yang v1.pdf");
    assert_eq!(tokens, vec!["tax", "return", "yang"]);
    assert_eq!(extract_filename_tokens("TAX-RETURN_YANG V1.TXT"), tokens);
}

#[test]
fn a_document_is_tagged_step_by_step() {
    let mut store = TagStore::new();
    store.upsert_document("h", "/a.pdf", "pdf", 1, 1).unwrap();
    store.create_tag("tax").unwrap();
    let config = AutoTagConfig { max_retries: 2, ..enabled() };
    let mut breaker = ApiCircuitBreaker::new(6, 60_000);
    let work = job("h", "a.pdf", "text", "before");
    let first = match begin_tagging(&work, &mut store, &config, &mut breaker, "t0", 1) {
        TagAction::Ask(question) => question,
        other => panic!("expected a question, got {:?}", other),
    };
    assert_eq!(first.existing, vec!["tax"]);
    assert_eq!(first.attempt, 0);
    let down = Err(TagError::Unavailable("down".into()));
    let second =
        match continue_tagging(&work, first, down, &mut store, &config, &mut breaker, "t1", 2) {
            TagAction::Wait(1, question) => question,
            other => panic!("expected a wait, got {:?}", other),
        };
    assert_eq!(second.existing, vec!["tax"]);
    assert_eq!(second.attempt, 1);
    assert!(store.auto_tag_status("h").unwrap().is_none());
    let response = TagResponse { tags: vec!["report".into()], entities: Entities::default() };
    match continue_tagging(&work, second, Ok(response), &mut store, &config, &mut breaker, "t2", 3)
    {
        TagAction::Done(outcome) => assert_eq!(outcome, TagOutcome::Tagged),
        other => panic!("expected the end, got {:?}", other),
    }
    let row = store.auto_tag_status("h").unwrap().unwrap();
    assert_eq!(row.status, "tagged");
    assert_eq!(row.content_hash_before_tag, "before");
    assert_eq!(row.updated_at, "t2");
    assert_eq!(row.tags_json.as_deref(), Some(r#"{"entities":{},"tags":["report"]}"#));
}

#[test]
fn a_worker_leaves_no_document_in_flight() {
    let mut store = TagStore::new();
    for hash in ["h1", "h2", "h3"] {
        store.upsert_document(hash, "/a.pdf", "pdf", 1, 1).unwrap();
        store.upsert_auto_tag_status(hash, "a.pdf", hash, "pending", None, None).unwrap();
    }
    let claimed = store.claim_pending_auto_tags(2).unwrap();
    assert_eq!(claimed.len(), 2);
    let mut breaker = ApiCircuitBreaker::new(6, 60_000);
    for row in &claimed {
        tag_document(
            &job_for_claimed(row, Some("text".to_string())),
            &mut store,
            &MockProvider::giving(&["tax"]),
            &enabled(),
            &mut breaker,
            &no_sleep,
        );
    }
    for row in &claimed {
        let status = store.auto_tag_status(&row.content_hash).unwrap().unwrap().status;
        assert_eq!(status, "tagged");
    }
    let waiting = store.claim_pending_auto_tags(10).unwrap();
    assert_eq!(waiting.len(), 1, "the document that was not worked on still waits");
}

#[test]
fn requests_are_accepted_unless_claimed() {
    let mut store = TagStore::new();
    store.upsert_document("h", "/a.pdf", "pdf", 1, 1).unwrap();
    store.upsert_auto_tag_status("h", "a.pdf", "b", "pending", None, None).unwrap();
    let request = || AutoTagRequest::TagDocument {
        content_hash: "h".into(),
        filename: "a.pdf".into(),
        text: "t".into(),
        content_hash_before_tag: "b".into(),
    };
    match accept_request(request(), &store) {
        RequestAction::Tag(work) => assert_eq!(work.content_hash, "h"),
        other => panic!("expected a job, got {:?}", other),
    }
    store.claim_pending_auto_tags(1).unwrap();
    assert!(matches!(accept_request(request(), &store), RequestAction::Skip));
    assert!(matches!(accept_request(AutoTagRequest::Shutdown, &store), RequestAction::Stop));
}

#[test]
fn the_workers_share_a_breaker_that_six_failures_open_for_a_minute() {
    assert_eq!(papervault::auto_tagger::worker::WORKERS, 3);
    assert_eq!(papervault::auto_tagger::breaker::TRIP_THRESHOLD, 6);
    assert_eq!(papervault::auto_tagger::breaker::COOLDOWN_MS, 60_000);
}
