use papervault::error::PapervaultError;
use papervault::indexer::pipeline::{IndexDocument, PlannedDocument};
use papervault::search::engine::{
    answer_of, build_document, index_ops, indexed_document, make_snippet, path_in_index,
    results_to_ask, search_with_reader, words_to_find, IndexOp, StoredDocument,
};
use papervault::search::query::{
    compute_highlight_spans, snippet_segments, SearchRequest, SearchResults,
};
use papervault::search::schema::{build_schema, SchemaFields};
use tantivy::tokenizer::{LowerCaser, SimpleTokenizer, TextAnalyzer};
use tantivy::{Index, IndexReader, IndexWriter, ReloadPolicy, Term};
use tempfile::TempDir;

/// An index in a directory of its own.
struct TestEngine {
    fields: SchemaFields,
    writer: IndexWriter,
    reader: IndexReader,
    _dir: TempDir,
}

impl TestEngine {
    fn new() -> Self {
        let dir = TempDir::new().unwrap();
        let schema = build_schema();
        let fields = SchemaFields::from_schema(&schema);
        let index = Index::create_in_dir(dir.path(), schema).unwrap();
        let tokenizer = TextAnalyzer::builder(SimpleTokenizer::default())
            .filter(LowerCaser)
            .build();
        index.tokenizers().register("body", tokenizer);
        let writer = index.writer(50_000_000).unwrap();
        let reader =
            index.reader_builder().reload_policy(ReloadPolicy::Manual).try_into().unwrap();
        TestEngine { fields, writer, reader, _dir: dir }
    }

    fn run(&mut self, op: IndexOp) {
        match op {
            IndexOp::Delete(hash) => {
                self.writer.delete_term(Term::from_field_text(self.fields.content_hash, &hash));
            }
            IndexOp::Add(document) => {
                self.writer.add_document(build_document(&self.fields, &document)).unwrap();
            }
        }
    }

    fn commit(&mut self) {
        self.writer.commit().unwrap();
        self.reader.reload().unwrap();
    }

    fn search(&self, request: &SearchRequest) -> SearchResults {
        search_with_reader(&self.fields, &self.reader, request).unwrap()
    }
}

fn document(name: &str, body: &str, hash: &str) -> IndexDocument {
    IndexDocument {
        doc_id: format!("{}pdf", hash),
        file_path: format!("/test/{}", name),
        file_name: name.to_string(),
        body: body.to_string(),
        file_type: "pdf".to_string(),
        modified_ts: 1700000000,
        content_hash: hash.to_string(),
        tags: Vec::new(),
    }
}

fn engine_with(documents: Vec<IndexDocument>) -> TestEngine {
    let mut engine = TestEngine::new();
    for document in documents {
        engine.run(IndexOp::Add(document));
    }
    engine.commit();
    engine
}

#[test]
fn search_request_default_limit_is_50() {
    let req = SearchRequest::new("test".into());
    assert_eq!(req.limit, 50);
    assert!(req.tag_filters.is_empty());
    assert!(!req.fuzzy);
}

#[test]
fn search_request_with_tag_filters() {
    let req = SearchRequest::new("test".into()).with_tags(vec!["tax".into(), "2025".into()]);
    assert_eq!(req.tag_filters.len(), 2);
    assert_eq!(req.tag_filters[0], "tax");
}

#[test]
fn a_request_may_ask_for_fuzzy_matches() {
    let req = SearchRequest::new("test".into()).with_fuzzy(true);
    assert!(req.fuzzy);
    assert_eq!(req.query, "test");
    assert_eq!(req.limit, 50);
}

#[test]
fn search_request_with_limit() {
    let req = SearchRequest::new("test".into()).with_limit(10);
    assert_eq!(req.limit, 10);
}

#[test]
fn highlight_spans_find_case_insensitive_matches() {
    let snippet = "The quick brown fox";
    let spans = compute_highlight_spans(snippet, &snippet.to_lowercase(), &["quick".into()]);
    assert_eq!(spans, vec![(4, 9)], "must find the term in lowercase text");
    assert_eq!(&snippet[4..9], "quick");
}

#[test]
fn highlight_spans_merge_overlapping_terms() {
    let snippet = "tax return 2023";
    let lower = snippet.to_lowercase();
    let spans = compute_highlight_spans(snippet, &lower, &["tax".into(), "tax return".into()]);
    // (0,3) and (0,10) overlap -> merged to (0,10)
    assert_eq!(spans, vec![(0, 10)]);
}

#[test]
fn highlight_spans_skip_non_char_boundaries() {
    // The lowercased offset misaligns with the original for İ (2-byte
    // uppercase, 3-byte lowercase) — the span must be dropped, not panic.
    let snippet = "İstanbul";
    let lower = snippet.to_lowercase();
    let spans = compute_highlight_spans(snippet, &lower, &["istanbul".into()]);
    assert!(
        spans.is_empty(),
        "misaligned spans must be dropped: {:?}",
        spans
    );
}

#[test]
fn highlight_spans_no_terms_returns_empty() {
    let snippet = "plain text";
    let spans = compute_highlight_spans(snippet, &snippet.to_lowercase(), &[]);
    assert!(spans.is_empty());
}

#[test]
fn schema_has_all_required_fields() {
    let schema = build_schema();
    // Verify all fields exist by name — get_field returns Ok if field exists
    assert!(schema.get_field("doc_id").is_ok());
    assert!(schema.get_field("file_path").is_ok());
    assert!(schema.get_field("file_name").is_ok());
    assert!(schema.get_field("body").is_ok());
    assert!(schema.get_field("file_type").is_ok());
    assert!(schema.get_field("modified_ts").is_ok());
    assert!(schema.get_field("content_hash").is_ok());
    assert!(schema.get_field("tags").is_ok());
}

#[test]
fn body_field_is_text_with_positions() {
    let schema = build_schema();
    let field = schema.get_field("body").unwrap();
    let entry = schema.get_field_entry(field);

    assert!(entry.is_indexed(), "body must be indexed");
    assert!(entry.is_stored(), "body must be stored for snippets");
}

#[test]
fn content_hash_field_is_indexed_str() {
    let schema = build_schema();
    let field = schema.get_field("content_hash").unwrap();
    let entry = schema.get_field_entry(field);

    assert!(
        entry.is_indexed(),
        "content_hash must be indexed for delete_term"
    );
    assert!(entry.is_stored(), "content_hash must be stored");
}

#[test]
fn parse_single_term_builds_term_query() {
    let engine = engine_with(vec![document("doc.pdf", "hello world invoice march", "hash1")]);

    let results = engine.search(&SearchRequest::new("invoice".into()));
    assert_eq!(
        results.total_hits, 1,
        "Single term 'invoice' should find 1 doc"
    );
    assert!(results.items[0].file_name.contains("doc.pdf"));
}

#[test]
fn empty_query_returns_empty_results() {
    let engine = engine_with(vec![document("doc.pdf", "hello world", "hash1")]);

    // Empty string should return empty results without error
    let results = engine.search(&SearchRequest::new("".into()));
    assert!(results.items.is_empty());
    assert_eq!(results.total_hits, 0);

    // Whitespace-only should also return empty
    let results = engine.search(&SearchRequest::new("   ".into()));
    assert!(results.items.is_empty());
    assert_eq!(results.total_hits, 0);
}

#[test]
fn open_or_create_creates_new_index() {
    let engine = TestEngine::new();
    assert_eq!(engine.reader.searcher().num_docs(), 0);
    let results = engine.search(&SearchRequest::new("anything".into()));
    assert_eq!(results.total_hits, 0);
    assert!(results.items.is_empty());
}

#[test]
fn index_and_search_single_document() {
    let engine = engine_with(vec![document("doc.pdf", "hello world invoice march", "abc123")]);

    let results = engine.search(&SearchRequest::new("invoice".into()));
    assert_eq!(results.total_hits, 1);
    assert!(results.items[0].file_name.contains("doc.pdf"));
}

#[test]
fn search_absent_term_returns_empty() {
    let engine = engine_with(vec![document("doc.pdf", "invoice report", "abc123")]);

    let results = engine.search(&SearchRequest::new("nonexistent".into()));
    assert_eq!(results.total_hits, 0);
}

#[test]
fn search_respects_limit() {
    let engine = engine_with(
        (0..10)
            .map(|i| {
                document(
                    &format!("doc{}.pdf", i),
                    "common term in all documents",
                    &format!("hash{}", i),
                )
            })
            .collect(),
    );

    let results = engine.search(&SearchRequest::new("common".into()).with_limit(3));
    assert_eq!(results.items.len(), 3);
    assert!(results.total_hits >= 3);
}

#[test]
fn delete_document_removes_from_search() {
    let mut engine = engine_with(vec![document("del.pdf", "delete me please", "hash_del")]);

    let results = engine.search(&SearchRequest::new("delete".into()));
    assert_eq!(results.total_hits, 1);

    engine.run(IndexOp::Delete("hash_del".to_string()));
    engine.commit();

    let results = engine.search(&SearchRequest::new("delete".into()));
    assert_eq!(results.total_hits, 0);
}

#[test]
fn search_reports_overflow_count() {
    let engine = engine_with(
        (0..5)
            .map(|i| {
                document(&format!("doc{}.pdf", i), "common term in all", &format!("hash{}", i))
            })
            .collect(),
    );

    // With limit 2, items are capped at 2 but total_hits reflects actual count
    let results = engine.search(&SearchRequest::new("common".into()).with_limit(2));
    assert_eq!(results.items.len(), 2);
    // total_hits is the true count, not capped by limit
    assert_eq!(results.total_hits, 5);
}

#[test]
fn any_limit_is_answered() {
    let engine = engine_with(vec![
        document("a.pdf", "common one", "h1"),
        document("b.pdf", "common two", "h2"),
    ]);
    for limit in [2, 3, 1 << 40, usize::MAX] {
        let results = engine.search(&SearchRequest::new("common".into()).with_limit(limit));
        assert_eq!(results.items.len(), 2, "{}", limit);
        assert_eq!(results.total_hits, 2);
        assert_ne!(results.items[0].content_hash, results.items[1].content_hash);
    }
    let blank = engine.search(&SearchRequest::new(" ".into()).with_limit(0));
    assert_eq!(blank.total_hits, 0);
}

#[test]
fn every_word_and_tag_must_be_held() {
    let mut tagged = document("a.pdf", "alpha beta", "h1");
    tagged.tags = vec!["tax".to_string()];
    let engine = engine_with(vec![tagged, document("b.pdf", "alpha beta gamma", "h2")]);
    let found = |query: &str, tags: &[&str]| {
        let tags = tags.iter().map(|t| t.to_string()).collect();
        engine.search(&SearchRequest::new(query.into()).with_tags(tags)).total_hits
    };
    assert_eq!(found("alpha BETA", &[]), 2);
    assert_eq!(found("alpha gamma", &[]), 1);
    assert_eq!(found("alpha delta", &[]), 0);
    assert_eq!(found("alpha", &["tax"]), 1);
    assert_eq!(found("gamma", &["tax"]), 0);
}

#[test]
fn fields_of_another_schema_are_refused() {
    let dir = TempDir::new().unwrap();
    let fields = SchemaFields::from_schema(&build_schema());
    let schema = tantivy::schema::Schema::builder().build();
    let index = Index::create_in_dir(dir.path(), schema).unwrap();
    let reader: IndexReader =
        index.reader_builder().reload_policy(ReloadPolicy::Manual).try_into().unwrap();
    match search_with_reader(&fields, &reader, &SearchRequest::new("word".into())) {
        Err(PapervaultError::Tantivy(detail)) => assert_eq!(detail, "the index lacks a field"),
        other => panic!("{:?}", other.map(|r| r.total_hits)),
    }
}

#[test]
fn garbage_collect_does_not_crash() {
    let engine = engine_with(vec![document("doc.pdf", "kept content", "hash1")]);
    engine.writer.garbage_collect_files().wait().unwrap();
    let results = engine.search(&SearchRequest::new("kept".into()));
    assert_eq!(results.items[0].content_hash, "hash1");
}

#[test]
fn open_or_create_opens_existing_index() {
    let dir = TempDir::new().unwrap();
    let schema = build_schema();
    let fields = SchemaFields::from_schema(&schema);
    let index = Index::create_in_dir(dir.path(), schema).unwrap();
    {
        let mut writer: IndexWriter = index.writer(50_000_000).unwrap();
        let kept = document("doc.pdf", "persistent document content", "hash1");
        writer.add_document(build_document(&fields, &kept)).unwrap();
        writer.commit().unwrap();
    }
    drop(index);

    // The index is opened again: the document is there, and so are the fields.
    let opened = Index::open_in_dir(dir.path()).unwrap();
    let fields = SchemaFields::find_in(&opened.schema()).unwrap();
    let reader: IndexReader =
        opened.reader_builder().reload_policy(ReloadPolicy::Manual).try_into().unwrap();
    reader.reload().unwrap();
    assert_eq!(
        reader.searcher().num_docs(),
        1,
        "Opening existing index should preserve documents"
    );
    let request = SearchRequest::new("persistent".into());
    let results = search_with_reader(&fields, &reader, &request).unwrap();
    assert_eq!(results.items[0].content_hash, "hash1");
}

#[test]
fn a_schema_that_lacks_a_field_is_not_taken() {
    let schema = tantivy::schema::Schema::builder().build();
    assert!(SchemaFields::find_in(&schema).is_none());
}

#[test]
fn paths_are_kept_but_not_searched() {
    let schema = build_schema();
    let path = schema.get_field("file_path").unwrap();
    assert!(!schema.get_field_entry(path).is_indexed());
    assert!(schema.get_field_entry(path).is_stored());
    let stamp = schema.get_field("modified_ts").unwrap();
    assert!(schema.get_field_entry(stamp).is_stored());
}

#[test]
fn what_was_indexed_is_what_is_found() {
    let mut kept = document("Tax Return.pdf", "The quick İstanbul fox", "h");
    kept.tags = vec!["tax".to_string(), "2023".to_string()];
    let engine = engine_with(vec![kept, document("b.pdf", "other", "o")]);
    let results = engine.search(&SearchRequest::new("QUICK fox".into()));
    assert_eq!(results.total_hits, 1);
    let item = &results.items[0];
    assert_eq!(item.file_name, "Tax Return.pdf");
    assert_eq!(item.file_path, "/test/Tax Return.pdf");
    assert_eq!(item.file_type, "pdf");
    assert_eq!(item.content_hash, "h");
    assert_eq!(item.tags, vec!["tax", "2023"]);
    assert_eq!(item.snippet, "The quick İstanbul fox");
    assert_eq!(item.lower_snippet, "The quick İstanbul fox".to_lowercase());
    assert_eq!(item.match_terms, vec!["quick", "fox"]);
    assert_eq!(item.highlight_spans[0], (4, 9));
}

#[test]
fn what_was_indexed_is_what_is_reconciled() {
    let schema = build_schema();
    let fields = SchemaFields::from_schema(&schema);
    let mut kept = document("Tax Return.pdf", "text", "h");
    kept.modified_ts = 1700000000;
    let built = build_document(&fields, &kept);
    assert_eq!(path_in_index(&built, &fields), "/test/Tax Return.pdf");
    let found = indexed_document(&built, &fields, Some(42));
    assert_eq!(found.content_hash, "h");
    assert_eq!(found.file_path, "/test/Tax Return.pdf");
    assert_eq!(found.file_type, "pdf");
    assert_eq!(found.modified_ts, 1700000000);
    assert!(found.file_exists);
    assert_eq!(found.file_size, 42);

    let blank = indexed_document(&tantivy::TantivyDocument::new(), &fields, None);
    assert_eq!(blank.content_hash, "");
    assert_eq!(blank.modified_ts, 0);
    assert!(!blank.file_exists);
    assert_eq!(blank.file_size, 0);
}

#[test]
fn all_words_must_be_in_a_document() {
    let engine = engine_with(vec![
        document("a.pdf", "alpha beta", "a"),
        document("b.pdf", "alpha gamma", "b"),
    ]);
    assert_eq!(engine.search(&SearchRequest::new("alpha".into())).total_hits, 2);
    let both = engine.search(&SearchRequest::new("alpha gamma".into()));
    assert_eq!(both.total_hits, 1);
    assert_eq!(both.items[0].content_hash, "b");
}

#[test]
fn indexing_a_changed_file_leaves_one_document() {
    let mut engine = engine_with(vec![document("a.txt", "old words", "old")]);
    let plan = PlannedDocument {
        delete_hash: Some("old".to_string()),
        document: document("a.txt", "new words", "new"),
        file_size: 9,
        content_hash_before_tag: "x".to_string(),
        already_tagged: false,
    };
    for op in index_ops(plan) {
        engine.run(op);
    }
    engine.commit();
    let results = engine.search(&SearchRequest::new("words".into()));
    assert_eq!(results.total_hits, 1);
    assert_eq!(results.items[0].content_hash, "new");
}

#[test]
fn snippets_are_cut_by_characters() {
    assert_eq!(make_snippet("short"), "short");
    let long = "é".repeat(250);
    let snippet = make_snippet(&long);
    assert!(snippet.starts_with(&"é".repeat(200)));
    assert!(!snippet.starts_with(&"é".repeat(201)));
}

#[test]
fn queries_are_split_into_lower_case_words() {
    assert_eq!(words_to_find("  Tax\u{3000}RETURN İ "), vec!["tax", "return", "i\u{307}"]);
    assert!(words_to_find(" \t\n").is_empty());
}

#[test]
fn segments_cover_the_snippet_once() {
    let segments = snippet_segments(10, &vec![(2, 4), (6, 10)]);
    let parts: Vec<(usize, usize, bool)> =
        segments.iter().map(|s| (s.start, s.end, s.highlighted)).collect();
    assert_eq!(parts, vec![(0, 2, false), (2, 4, true), (4, 6, false), (6, 10, true)]);
    assert!(snippet_segments(0, &Vec::new()).is_empty());
}

#[test]
fn each_error_says_where_it_came_from() {
    let detail = || "d".to_string();
    assert_eq!(PapervaultError::Io(detail()).message(), "I/O error: d");
    assert_eq!(PapervaultError::Tantivy(detail()).message(), "Tantivy error: d");
    assert_eq!(PapervaultError::Sqlite(detail()).message(), "SQLite error: d");
    assert_eq!(PapervaultError::PdfExtraction(detail()).message(), "PDF extraction error: d");
    assert_eq!(PapervaultError::Config(detail()).message(), "Config error: d");
    assert_eq!(PapervaultError::Watcher(detail()).message(), "Watcher error: d");
    assert_eq!(PapervaultError::Channel(detail()).message(), "Channel error: d");
}

#[test]
fn an_index_that_cannot_be_searched_is_an_error() {
    // The same fields, but none of them is indexed.
    let mut builder = tantivy::schema::Schema::builder();
    for name in [
        "doc_id", "file_path", "file_name", "body", "file_type", "modified_ts", "content_hash",
        "tags",
    ] {
        builder.add_text_field(name, tantivy::schema::STORED);
    }
    let schema = builder.build();
    let fields = SchemaFields::find_in(&schema).unwrap();
    let index = Index::create_in_ram(schema);
    let mut writer: IndexWriter = index.writer(50_000_000).unwrap();
    writer.add_document(build_document(&fields, &document("a.pdf", "alpha", "a"))).unwrap();
    writer.commit().unwrap();
    let reader = index.reader().unwrap();
    let request = SearchRequest::new("alpha".into());
    match search_with_reader(&fields, &reader, &request) {
        Err(PapervaultError::Tantivy(detail)) => assert!(!detail.is_empty()),
        other => panic!("{:?}", other),
    }
}

#[test]
fn no_more_results_are_asked_for_than_there_are_documents() {
    assert_eq!(results_to_ask(3, 7, 8, 50, 1000).unwrap(), 50);
    assert_eq!(results_to_ask(3, 7, 8, 50, 20).unwrap(), 20);
    assert_eq!(results_to_ask(3, 7, 8, 50, 0).unwrap(), 1);
    assert_eq!(results_to_ask(3, 7, 8, usize::MAX, 20).unwrap(), 20);
}

#[test]
fn a_search_that_cannot_be_made_is_refused() {
    let refused = |body, tags, fields, limit, documents| {
        match results_to_ask(body, tags, fields, limit, documents) {
            Err(PapervaultError::Tantivy(detail)) => detail,
            other => panic!("{:?}", other),
        }
    };
    assert_eq!(refused(8, 7, 8, 50, 20), "the index lacks a field");
    assert_eq!(refused(3, 8, 8, 50, 20), "the index lacks a field");
    assert_eq!(refused(3, 7, 8, usize::MAX, u64::MAX), "the index is too large");
    // As many results as can be set aside are asked for, one more are not.
    let most = isize::MAX as usize / 24;
    assert_eq!(results_to_ask(3, 7, 8, most, u64::MAX).unwrap(), most);
    assert_eq!(refused(3, 7, 8, most + 1, u64::MAX), "the index is too large");
}

fn stored_document(name: &str, body: &str) -> StoredDocument {
    let field = |text: &str| vec![Some(text.to_string())];
    StoredDocument {
        file_name: field(name),
        file_path: field(name),
        file_type: field("pdf"),
        content_hash: field("hash"),
        tags: field("tax"),
        body: field(body),
    }
}

#[test]
fn an_answer_is_made_of_what_the_index_gave() {
    let words = vec!["alpha".to_string()];
    let documents = vec![
        Ok(stored_document("a.pdf", "alpha one")),
        Ok(stored_document("b.pdf", "alpha two")),
    ];
    let found = answer_of(Ok(9), &documents, &words).unwrap();
    assert_eq!(found.total_hits, 9);
    let names: Vec<&str> = found.items.iter().map(|i| i.file_name.as_str()).collect();
    assert_eq!(names, vec!["a.pdf", "b.pdf"]);
    assert_eq!(found.items[0].content_hash, "hash");
}

#[test]
fn an_answer_fails_with_the_first_failure_of_the_index() {
    let words = vec!["alpha".to_string()];
    let detail = |answer: Result<SearchResults, PapervaultError>| match answer {
        Err(PapervaultError::Tantivy(detail)) => detail,
        other => panic!("{:?}", other),
    };
    let documents = vec![
        Ok(stored_document("a.pdf", "alpha one")),
        Err("first".to_string()),
        Err("second".to_string()),
    ];
    assert_eq!(detail(answer_of(Ok(3), &documents, &words)), "first");
    assert_eq!(detail(answer_of(Err("listing".to_string()), &documents, &words)), "listing");
}
