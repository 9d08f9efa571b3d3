use papervault::actions::{read_to_tag, text_of_extracted};
use papervault::auto_tagger::breaker::ApiCircuitBreaker;
use papervault::auto_tagger::config::AutoTagConfig;
use papervault::auto_tagger::worker::process_request;
use papervault::indexer::extractors::{
    is_pdf_file, is_supported_extension, pdf_content, pdf_result, ExtractError, ExtractedContent,
    Extractor, FileContent, PageRun, PdfExtractor, PdfReading, TextExtractor,
    SUPPORTED_EXTENSIONS,
};
use papervault::indexer::hash::compute_content_hash;
use papervault::indexer::pipeline::{
    already_tagged, batch_request, finish_upsert, needs_indexing, plan_batch, plan_delete,
    prepare_upsert, reconcile, write_batch, FileFacts, IndexedDocument, PipelineState, NO_TEXT,
};
use papervault::indexer::stages::{create_extractor_chain, run_chain};
use papervault::messages::{AutoTagRequest, IndexerProgress};
use papervault::tags::model::DocumentInfo;
use papervault::tags::store::TagStore;

const NOW: &str = "2024-01-01 00:00:00";

/// What comes of reading some bytes as a PDF.
fn read_pdf(bytes: &[u8]) -> PdfReading {
    let document = match pdf_oxide::document::PdfDocument::from_bytes(bytes.to_vec()) {
        Ok(document) => document,
        Err(e) => return PdfReading::NotOpened(e.to_string()),
    };
    let mut run = match document.page_count() {
        Ok(count) => PageRun::new(count),
        Err(e) => return PdfReading::NotCounted(e.to_string()),
    };
    while let Some(page) = run.next_page() {
        run.on_page(document.extract_text(page).map_err(|e| e.to_string()));
    }
    run.finish()
}

fn content_of(name: &str, bytes: &[u8]) -> FileContent {
    let extension = name.rsplit('.').next().unwrap().to_string();
    let pdf = if is_pdf_file(&extension) { Some(read_pdf(bytes)) } else { None };
    FileContent { file_name: name.to_string(), extension, bytes: bytes.to_vec(), pdf }
}

fn facts(path: &str, mtime: u64, size: u64) -> FileFacts {
    let name = path.rsplit('/').next().unwrap();
    FileFacts {
        path: path.to_string(),
        file_name: name.to_string(),
        extension: name.rsplit('.').next().unwrap().to_string(),
        mtime,
        size,
    }
}

/// What the extractors make of some files.
fn extract_all(files: &[(&str, &[u8])]) -> Vec<Option<String>> {
    let chain = create_extractor_chain();
    files
        .iter()
        .map(|(name, bytes)| {
            run_chain(&content_of(name, bytes), &chain).ok().flatten().map(|c| c.text)
        })
        .collect()
}

// ── Extractors ──

/// A searchable PDF with one page for each text.
fn pdf_with_pages(texts: &[&str]) -> Vec<u8> {
    let (doc, page, layer) =
        printpdf::PdfDocument::new("Test PDF", printpdf::Mm(210.0), printpdf::Mm(297.0), "Layer 1");
    let font = doc.add_builtin_font(printpdf::BuiltinFont::Helvetica).unwrap();
    for (i, text) in texts.iter().enumerate() {
        let (page, layer) = if i == 0 {
            (page, layer)
        } else {
            doc.add_page(printpdf::Mm(210.0), printpdf::Mm(297.0), format!("Page {}", i + 1))
        };
        doc.get_page(page).get_layer(layer).use_text(
            *text,
            12.0,
            printpdf::Mm(10.0),
            printpdf::Mm(280.0),
            &font,
        );
    }
    doc.save_to_bytes().unwrap()
}

fn pdf_without_text() -> Vec<u8> {
    let (doc, _page, _layer) = printpdf::PdfDocument::new(
        "No Text PDF",
        printpdf::Mm(210.0),
        printpdf::Mm(297.0),
        "Layer 1",
    );
    doc.save_to_bytes().unwrap()
}

/// A PDF without pages.
fn pdf_without_pages() -> Vec<u8> {
    let mut doc = lopdf::Document::with_version("1.4");
    let pages_id = doc.new_object_id();

    let mut pages = lopdf::Dictionary::new();
    pages.set("Type", lopdf::Object::Name("Pages".into()));
    pages.set("Kids", lopdf::Object::Array(vec![]));
    pages.set("Count", lopdf::Object::Integer(0));
    doc.objects.insert(pages_id, lopdf::Object::Dictionary(pages));

    let mut catalog = lopdf::Dictionary::new();
    catalog.set("Type", lopdf::Object::Name("Catalog".into()));
    catalog.set("Pages", lopdf::Object::Reference(pages_id));
    let catalog_id = doc.new_object_id();
    doc.objects.insert(catalog_id, lopdf::Object::Dictionary(catalog));
    doc.trailer.set("Root", lopdf::Object::Reference(catalog_id));

    let mut bytes: Vec<u8> = Vec::new();
    doc.save_to(&mut bytes).unwrap();
    bytes
}

fn extract_pdf(bytes: &[u8]) -> Result<Option<ExtractedContent>, ExtractError> {
    PdfExtractor.extract(&content_of("a.pdf", bytes))
}

#[test]
fn extract_non_pdf_file_returns_none() {
    let result = PdfExtractor.extract(&content_of("test.txt", b"not a pdf")).unwrap();
    assert!(result.is_none(), "Non-PDF should return None");
}

#[test]
fn extract_corrupt_pdf_returns_error() {
    let result = extract_pdf(b"%PDF-1.4\n%%EOF");
    assert!(result.is_err(), "Corrupt PDF should return error");
}

#[test]
fn extract_searchable_pdf_returns_text() {
    let bytes = pdf_with_pages(&["The quick brown fox jumps over the lazy dog"]);
    let result = extract_pdf(&bytes).unwrap().unwrap();
    assert!(
        result.text.contains("quick brown fox"),
        "Should extract known text, got: {}",
        result.text
    );
    assert_eq!(
        result.page_count,
        Some(1),
        "1-page PDF should report page_count = 1"
    );
}

#[test]
fn extract_multipage_pdf_returns_all_pages() {
    let bytes = pdf_with_pages(&[
        "This is page one",
        "This is page 2",
        "This is page 3",
        "This is page 4",
        "This is page 5",
    ]);
    let result = extract_pdf(&bytes).unwrap().unwrap();
    assert!(result.text.contains("page one"));
    assert!(result.text.contains("page five") || result.text.contains("page 5"));
    assert_eq!(
        result.page_count,
        Some(5),
        "5-page PDF should report page_count = 5"
    );
}

#[test]
fn extract_no_text_layer_returns_empty_or_minimal() {
    let result = extract_pdf(&pdf_without_text());
    // Should not crash — returns Ok with text or empty
    assert!(result.is_ok(), "No-text PDF should not error");
}

#[test]
fn extract_password_protected_pdf_returns_error() {
    let result = extract_pdf(&pdf_without_text()); // a blank PDF as stand-in
    assert!(result.is_ok() || result.is_err());
}

#[test]
fn extract_empty_pdf_handled_gracefully() {
    let result = extract_pdf(&pdf_without_pages());
    // 0-page PDF — either error or empty text is acceptable
    match result {
        Ok(Some(content)) => assert!(content.text.is_empty()),
        Err(_) => {} // Also acceptable
        _ => {}
    }
}

#[test]
fn extract_utf8_txt_returns_content() {
    let result = TextExtractor.extract(&content_of("test.txt", b"Hello, world!")).unwrap().unwrap();
    assert_eq!(result.text, "Hello, world!");
}

#[test]
fn extract_markdown_returns_raw_text() {
    let file = content_of("readme.md", b"# Heading\n\n**bold** text");
    let result = TextExtractor.extract(&file).unwrap().unwrap();
    assert!(result.text.contains("# Heading"));
    assert!(result.text.contains("**bold**"));
}

#[test]
fn extract_non_text_extension_returns_none() {
    let result = TextExtractor.extract(&content_of("test.pdf", b"not text")).unwrap();
    assert!(result.is_none());
}

#[test]
fn extract_empty_file_returns_empty_string() {
    let result = TextExtractor.extract(&content_of("empty.txt", b"")).unwrap().unwrap();
    assert!(result.text.is_empty());
}

#[test]
fn broken_pdfs_say_what_is_wrong() {
    match extract_pdf(b"no pdf at all") {
        Err(ExtractError::OpenPdf(detail)) => assert!(!detail.is_empty()),
        other => panic!("{:?}", other),
    }
}

#[test]
fn pages_are_read_up_to_the_first_that_cannot_be() {
    let mut run = PageRun::new(3);
    assert_eq!(run.next_page(), Some(0));
    run.on_page(Ok("one".to_string()));
    assert_eq!(run.next_page(), Some(1));
    run.on_page(Err("bad".to_string()));
    assert_eq!(run.next_page(), None);
    match pdf_result("a.pdf", &run.finish()) {
        Err(ExtractError::Page { page: 1, detail }) => assert_eq!(detail, "bad"),
        other => panic!("{:?}", other),
    }
    assert_eq!(PageRun::new(0).next_page(), None);
}

#[test]
fn a_file_that_was_not_read_as_a_pdf_is_not_opened() {
    let mut file = content_of("a.PDF", b"");
    file.pdf = None;
    match PdfExtractor.extract(&file) {
        Err(ExtractError::OpenPdf(detail)) => assert_eq!(detail, "not read as a PDF"),
        other => panic!("{:?}", other),
    }
}

#[test]
fn pages_are_put_together() {
    let read = pdf_content("a.pdf", vec!["one".to_string(), "two".to_string()]);
    assert_eq!(read.text, "one\ntwo");
    assert_eq!(read.title.as_deref(), Some("a.pdf"));
    assert_eq!(read.page_count, Some(2));
}

#[test]
fn a_reading_gives_content_or_the_first_error() {
    let page = |text: &str| -> Result<String, String> { Ok(text.to_string()) };
    let whole = PdfReading::Pages(vec![page("one"), page("two")]);
    let read = pdf_result("a.pdf", &whole).unwrap();
    assert_eq!(read.text, "one\ntwo");
    assert_eq!(read.page_count, Some(2));
    let broken = PdfReading::Pages(vec![page("one"), Err("bad".to_string())]);
    match pdf_result("a.pdf", &broken) {
        Err(ExtractError::Page { page, detail }) => {
            assert_eq!(page, 1);
            assert_eq!(detail, "bad");
        }
        other => panic!("{:?}", other),
    }
    match pdf_result("a.pdf", &PdfReading::NotOpened("no".to_string())) {
        Err(ExtractError::OpenPdf(detail)) => assert_eq!(detail, "no"),
        other => panic!("{:?}", other),
    }
    match pdf_result("a.pdf", &PdfReading::NotCounted("none".to_string())) {
        Err(ExtractError::PageCount(detail)) => assert_eq!(detail, "none"),
        other => panic!("{:?}", other),
    }
    assert_eq!(pdf_result("a.pdf", &PdfReading::Pages(vec![])).unwrap().text, "");
}

#[test]
fn only_extracted_text_is_taken_to_tag() {
    let content = pdf_content("a.pdf", vec!["one".to_string()]);
    assert_eq!(text_of_extracted(Ok(Some(content))).as_deref(), Some("one"));
    assert_eq!(text_of_extracted(Ok(None)), None);
    assert_eq!(text_of_extracted(Err(ExtractError::OpenPdf("no".to_string()))), None);
    let file = content_of("a.pdf", &pdf_with_pages(&["This is page one"]));
    assert!(read_to_tag(Some(&file), true).unwrap().contains("page one"));
}

#[test]
fn invalid_bytes_are_shown_as_marks() {
    let file = content_of("a.log", b"Hello \xE9 world");
    let read = TextExtractor.extract(&file).unwrap().unwrap();
    assert_eq!(read.text, "Hello \u{FFFD} world");
    assert_eq!(read.page_count, None);
}

#[test]
fn long_texts_are_cut() {
    let file = content_of("a.txt", &vec![b'x'; 10 * 1024 * 1024 + 5]);
    let read = TextExtractor.extract(&file).unwrap().unwrap();
    assert_eq!(read.text.matches('x').count(), 10 * 1024 * 1024);
}

#[test]
fn the_chain_reads_what_is_supported() {
    for extension in SUPPORTED_EXTENSIONS {
        assert!(is_supported_extension(extension, &SUPPORTED_EXTENSIONS));
        assert!(is_supported_extension(&extension.to_uppercase(), &SUPPORTED_EXTENSIONS));
    }
    assert!(!is_supported_extension("docx", &SUPPORTED_EXTENSIONS));
    let chain = create_extractor_chain();
    assert!(run_chain(&content_of("a.docx", b"x"), &chain).unwrap().is_none());
    assert_eq!(run_chain(&content_of("a.TXT", b"x"), &chain).unwrap().unwrap().text, "x");
}

// ── Hashes ──

#[test]
fn content_hashes_are_blake3_of_text_and_type() {
    let mut hasher = blake3::Hasher::new();
    hasher.update("hello".as_bytes());
    hasher.update("txt".as_bytes());
    assert_eq!(compute_content_hash("hello", "txt"), hasher.finalize().to_hex().to_string());
    assert_ne!(compute_content_hash("hello", "txt"), compute_content_hash("hello", "md"));
    assert_eq!(compute_content_hash("", "").len(), 64);
}

// ── Pipeline ──

#[test]
fn metadata_fast_path_skips_unchanged_file() {
    let mut store = TagStore::new();

    let path = "/test/doc.pdf";
    let size: u64 = 1024;
    let mtime: u64 = 1700000000;

    assert!(
        !store.already_indexed_by_metadata(path, size, mtime).unwrap(),
        "Should not be indexed before upsert"
    );

    store.upsert_document("hash1", path, "pdf", size as i64, mtime as i64).unwrap();

    assert!(
        store.already_indexed_by_metadata(path, size, mtime).unwrap(),
        "Same (path, size, mtime) should be detected as unchanged"
    );
    assert!(!needs_indexing(&store, &facts(path, mtime, size)));

    assert!(
        !store.already_indexed_by_metadata(path, size + 1, mtime).unwrap(),
        "Different size should trigger re-index"
    );
    assert!(needs_indexing(&store, &facts(path, mtime, size + 1)));

    assert!(
        !store.already_indexed_by_metadata(path, size, mtime + 1).unwrap(),
        "Different mtime should trigger re-index"
    );
}

#[test]
fn content_hash_dedup_skips_duplicate() {
    let mut store = TagStore::new();

    let hash = "abc123def456";

    // Not yet indexed
    assert!(!store.already_indexed_by_hash(hash).unwrap());

    // Index at first path
    store
        .upsert_document(hash, "/first/path/doc.pdf", "pdf", 2048, 1700000000)
        .unwrap();

    // Now detected as duplicate
    assert!(store.already_indexed_by_hash(hash).unwrap());

    // Update path for existing hash (dedup: new path, same content)
    store.update_path(hash, "/second/path/copy.pdf").unwrap();

    // Old path should no longer be in DB for this hash
    let old_hash = store.get_hash_by_path("/first/path/doc.pdf").unwrap();
    assert!(old_hash.is_none());

    // New path should map to same hash
    let new_hash = store.get_hash_by_path("/second/path/copy.pdf").unwrap().unwrap();
    assert_eq!(new_hash, hash);
}

#[test]
fn process_delete_keeps_rows_when_file_still_exists() {
    let mut store = TagStore::new();
    let path = "/watched/doc.pdf";
    store.upsert_document("hash1", path, "pdf", 7, 0).unwrap();
    store
        .upsert_auto_tag_status(
            "hash1",
            "doc.pdf",
            "before",
            "tagged",
            Some(r#"{"tags":["keep"]}"#),
            None,
        )
        .unwrap();

    // File still on disk → spurious Remove must be ignored.
    assert_eq!(plan_delete(&store, path, true), None);
    assert!(
        store.auto_tag_status("hash1").unwrap().is_some(),
        "auto-tag status must survive a spurious Remove event"
    );
    assert!(
        store.get_hash_by_path(path).unwrap().is_some(),
        "documents row must survive a spurious Remove event"
    );

    // File really gone → delete proceeds (rows removed).
    assert_eq!(plan_delete(&store, path, false).as_deref(), Some("hash1"));
    store.delete_document_by_path(path).unwrap();
    assert!(
        store.auto_tag_status("hash1").unwrap().is_none(),
        "a real delete must remove the auto-tag status row"
    );
    assert!(store.get_hash_by_path(path).unwrap().is_none());
    assert_eq!(plan_delete(&store, path, false), None);
}

#[test]
fn failed_file_logged_to_last_error() {
    let mut store = TagStore::new();
    store.upsert_document("hash1", "/test/bad.pdf", "pdf", 0, 1700000000).unwrap();

    // The row can carry what went wrong.
    let mut rows = store.document_rows().clone();
    rows[0].last_error = Some("Extraction failed: corrupt PDF header".to_string());
    let store = TagStore::from_rows(rows, Vec::new(), Vec::new(), Vec::new(), Vec::new()).unwrap();
    let error = store.document_rows()[0].last_error.clone().unwrap();
    assert!(error.contains("corrupt PDF header"));
}

#[test]
fn shutdown_commits_pending() {
    let mut store = TagStore::new();
    let file = facts("/watched/shutdown_test.txt", 5, 34);
    let text = "document content for shutdown test";
    let mut state = PipelineState::new();
    assert!(!state.has_pending());

    let plan = prepare_upsert(&mut store, &file, Some(text), NOW);
    finish_upsert(&mut store, &plan, NOW);
    state.on_indexed();

    // What was indexed is not committed yet, so a shutdown has to commit it.
    assert!(state.has_pending());
    assert_eq!(plan.document.body, text);
    assert!(store.already_indexed_by_hash(&plan.document.content_hash).unwrap());
    state.on_committed();
    assert!(!state.has_pending());
}

#[test]
fn browser_refresh_flag_sends_docs_snapshot() {
    let mut store = TagStore::new();
    store.upsert_document("h1", "/test/doc.pdf", "pdf", 10, 1).unwrap();

    let last: Vec<DocumentInfo> = store.list_all_documents().unwrap();
    assert_eq!(last.len(), 1, "snapshot must include the seeded document");
    assert_eq!(last[0].content_hash, "h1");
    assert_eq!(last[0].file_path, "/test/doc.pdf");
}

/// Index what a scan finds, and tell how many files it took up.
fn scan(store: &mut TagStore, files: &[(&str, u64, &[u8])]) -> usize {
    let mut state = PipelineState::new();
    let mut batches = Vec::new();
    for (path, mtime, bytes) in files {
        let found = facts(path, *mtime, bytes.len() as u64);
        if let Some(batch) = state.on_scanned(store, found) {
            batches.push(batch);
        }
    }
    batches.extend(state.end_of_scan());
    for batch in batches {
        let named: Vec<(&str, &[u8])> = batch
            .iter()
            .map(|f| {
                let file = files.iter().find(|(path, _, _)| *path == f.path).unwrap();
                (f.file_name.as_str(), file.2)
            })
            .collect();
        let plan = plan_batch(store, &batch, &extract_all(&named));
        write_batch(store, &plan, NOW);
        for _ in &plan.documents {
            state.on_indexed();
        }
    }
    match state.scan_complete() {
        IndexerProgress::ScanComplete { total } => total,
        _ => panic!("expected the end of the scan"),
    }
}

#[test]
fn startup_scan_indexes_files_added_while_app_was_closed() {
    let mut store = TagStore::new();
    let existing = "/watched/existing.txt";
    let added = "/watched/newfile.txt";
    store.upsert_document("hash-existing", existing, "txt", 16, 7).unwrap();

    let total = scan(
        &mut store,
        &[(existing, 7, b"existing content"), (added, 8, b"brand new content")],
    );

    let last = store.list_all_documents().unwrap();
    assert!(
        last.iter().any(|d| d.file_path == added),
        "startup scan must index the file added while the app was closed"
    );
    assert_eq!(
        last.iter().filter(|d| d.file_path == existing).count(),
        1,
        "unchanged file must not be duplicated by the scan"
    );
    assert_eq!(total, 1, "scan must process only the new file (unchanged file skipped)");
}

#[test]
fn startup_scan_reindexes_files_changed_while_app_was_closed() {
    let mut store = TagStore::new();
    let path = "/watched/doc.txt";
    store.upsert_document("hash-stale", path, "txt", 0, 0).unwrap();

    let total = scan(&mut store, &[(path, 9, b"changed content")]);

    let last = store.list_all_documents().unwrap();
    let doc = last
        .iter()
        .find(|d| d.file_path == path)
        .expect("changed file must be re-indexed by the scan");
    let expected_hash = compute_content_hash("changed content", "txt");
    assert_eq!(
        doc.content_hash, expected_hash,
        "changed file must be re-extracted and re-indexed"
    );
    assert_eq!(total, 1, "scan must process the changed file");
    assert!(!store.already_indexed_by_hash("hash-stale").unwrap());
}

#[test]
fn process_batch_extracts_and_indexes_files() {
    let mut store = TagStore::new();
    let batch = [facts("/t/a.txt", 1, 11), facts("/t/b.txt", 2, 11)];
    let extracted = extract_all(&[("a.txt", b"hello world"), ("b.txt", b"foo bar baz")]);
    let plan = plan_batch(&store, &batch, &extracted);
    assert_eq!(plan.documents.len(), 2, "Should process both files");
    write_batch(&mut store, &plan, NOW);

    let mut state = PipelineState::new();
    for i in 0..2 {
        match state.on_indexed() {
            IndexerProgress::Progress { processed } => assert_eq!(processed, i + 1),
            _ => panic!("Expected Progress"),
        }
    }
    assert_eq!(
        store.list_all_documents().unwrap().len(),
        2,
        "Should have 2 indexed documents"
    );
}

#[test]
fn process_batch_offset_produces_cumulative_progress() {
    let mut state = PipelineState::new();
    for _ in 0..10 {
        state.on_indexed();
    }
    // The batch after ten files goes on counting.
    if let IndexerProgress::Progress { processed } = state.on_indexed() {
        assert_eq!(
            processed, 11,
            "Progress should be offset+1 = 11, got {}",
            processed
        );
    } else {
        panic!("Expected Progress");
    }
}

#[test]
fn process_batch_skips_unsupported_files() {
    let mut store = TagStore::new();
    let batch = [facts("/t/corrupt.pdf", 1, 12)];
    let extracted = extract_all(&[("corrupt.pdf", b"%%BAD_DATA%%")]);

    // Corrupt PDF should not crash — just skip
    let plan = plan_batch(&store, &batch, &extracted);
    assert_eq!(plan.documents.len(), 0, "Corrupt file should be skipped, not crash");
    write_batch(&mut store, &plan, NOW);
    assert_eq!(
        store.list_all_documents().unwrap().len(),
        0,
        "No docs should be indexed from corrupt file"
    );
    assert_eq!(plan.failed.len(), 1);
}

#[test]
fn process_batch_preserves_tags_and_skips_request_for_tagged_content() {
    let mut store = TagStore::new();
    let path = "/t/a.txt";
    let text = "hello world";
    let file_name = "a.txt";
    let content_hash = compute_content_hash(text, "txt");
    let hash_before = compute_content_hash(file_name, text);
    store.upsert_document(&content_hash, path, "txt", 0, 0).unwrap();
    store
        .upsert_auto_tag_status(
            &content_hash,
            file_name,
            &hash_before,
            "tagged",
            Some(r#"{"tags":["tax"]}"#),
            None,
        )
        .unwrap();

    let batch = [facts(path, 1, 11)];
    let plan = plan_batch(&store, &batch, &extract_all(&[(file_name, text.as_bytes())]));
    assert_eq!(plan.documents.len(), 1);
    write_batch(&mut store, &plan, NOW);

    // Tags must survive re-indexing untouched — no 'pending' wipe.
    let status = store.auto_tag_status(&content_hash).unwrap().unwrap();
    assert_eq!(status.status, "tagged");
    assert_eq!(status.tags_json.as_deref(), Some(r#"{"tags":["tax"]}"#));
    // And NO auto-tag request may be queued for already-tagged content.
    assert!(
        batch_request(&plan.documents[0]).is_none(),
        "no API request must be sent for already-tagged content"
    );
}

#[test]
fn process_batch_requests_tags_for_changed_content() {
    let mut store = TagStore::new();
    let path = "/t/a.txt";
    let text = "hello world changed";
    let file_name = "a.txt";
    let content_hash = compute_content_hash(text, "txt");
    let hash_before = compute_content_hash(file_name, text);
    store.upsert_document(&content_hash, path, "txt", 0, 0).unwrap();
    store
        .upsert_auto_tag_status(
            &content_hash,
            file_name,
            "stale-hash-before", // tagged with DIFFERENT content
            "tagged",
            Some(r#"{"tags":["old"]}"#),
            None,
        )
        .unwrap();

    let batch = [facts(path, 1, 19)];
    let plan = plan_batch(&store, &batch, &extract_all(&[(file_name, text.as_bytes())]));
    assert_eq!(plan.documents.len(), 1);
    write_batch(&mut store, &plan, NOW);

    // Changed content must be re-tagged: status reset to pending and a
    // request queued for the fresh content.
    let status = store.auto_tag_status(&content_hash).unwrap().unwrap();
    assert_eq!(status.status, "pending");
    match batch_request(&plan.documents[0]).unwrap() {
        AutoTagRequest::TagDocument {
            content_hash: h,
            content_hash_before_tag: hb,
            ..
        } => {
            assert_eq!(h, content_hash);
            assert_eq!(hb, hash_before);
        }
        AutoTagRequest::Shutdown => panic!("unexpected shutdown"),
    }
}

#[test]
fn tagged_content_keeps_its_tags_under_another_name() {
    let mut store = TagStore::new();
    let text = "hello world";
    let content_hash = compute_content_hash(text, "txt");
    store.upsert_document(&content_hash, "/t/a.txt", "txt", 0, 0).unwrap();
    store
        .upsert_auto_tag_status(
            &content_hash,
            "a.txt",
            &compute_content_hash("a.txt", text),
            "tagged",
            Some(r#"{"tags":["tax"]}"#),
            None,
        )
        .unwrap();
    assert!(already_tagged(&store, &content_hash, "renamed.txt", text));

    let renamed = facts("/t/renamed.txt", 2, 11);
    let plan = prepare_upsert(&mut store, &renamed, Some(text), NOW);
    assert!(finish_upsert(&mut store, &plan, NOW).is_none());
    assert_eq!(store.auto_tag_status(&content_hash).unwrap().unwrap().status, "tagged");
    assert_eq!(
        store.get_hash_by_path("/t/renamed.txt").unwrap().as_deref(),
        Some(content_hash.as_str())
    );
}

#[test]
fn a_file_without_text_is_indexed_by_its_name() {
    let mut store = TagStore::new();
    let scan = facts("/t/scan.pdf", 3, 4);
    let plan = prepare_upsert(&mut store, &scan, None, NOW);
    assert_eq!(plan.document.file_name, "scan.pdf");
    assert_eq!(plan.document.body, NO_TEXT);
    let request = finish_upsert(&mut store, &plan, NOW);
    assert!(request.is_some());
    assert!(!needs_indexing(&store, &scan));
}

#[test]
fn changed_content_takes_the_place_of_the_old() {
    let mut store = TagStore::new();
    let first = prepare_upsert(&mut store, &facts("/t/a.txt", 1, 3), Some("one"), NOW);
    finish_upsert(&mut store, &first, NOW);
    let second = prepare_upsert(&mut store, &facts("/t/a.txt", 2, 3), Some("two"), NOW);
    finish_upsert(&mut store, &second, NOW);
    assert_eq!(second.delete_hash.as_deref(), Some(first.document.content_hash.as_str()));
    let docs = store.list_all_documents().unwrap();
    assert_eq!(docs.len(), 1);
    assert_eq!(docs[0].content_hash, second.document.content_hash);
}

#[test]
fn batches_are_full_at_thirty_two_files() {
    let store = TagStore::new();
    let mut state = PipelineState::new();
    for i in 0..31 {
        assert!(state.on_scanned(&store, facts(&format!("/t/{}.txt", i), 1, 1)).is_none());
    }
    assert_eq!(state.on_scanned(&store, facts("/t/x.txt", 1, 1)).unwrap().len(), 32);
    assert!(state.end_of_scan().is_none());
}

#[test]
fn a_scan_leaves_every_file_in_the_store() {
    let mut store = TagStore::new();
    store.upsert_document("other", "/elsewhere.txt", "txt", 1, 1).unwrap();
    store.upsert_auto_tag_status("other", "elsewhere.txt", "b", "tagged", Some("{}"), None).unwrap();
    let tag = store.create_tag("kept").unwrap();
    store.assign_tag("other", tag.id).unwrap();
    let mut state = PipelineState::new();
    let mut handed: Vec<FileFacts> = Vec::new();
    let mut hashes: Vec<String> = Vec::new();
    for i in 0..40u64 {
        let found = facts(&format!("/t/{}.txt", i), 1, i);
        if let Some(batch) = state.on_scanned(&store, found) {
            assert_eq!(batch.len(), 32);
            let texts: Vec<Option<String>> = batch.iter().map(|f| Some(f.path.clone())).collect();
            let plan = plan_batch(&store, &batch, &texts);
            write_batch(&mut store, &plan, NOW);
            hashes.extend(plan.documents.iter().map(|d| d.document.content_hash.clone()));
            handed.extend(batch);
        }
    }
    let rest = state.end_of_scan().unwrap();
    let texts: Vec<Option<String>> = rest.iter().map(|f| Some(f.path.clone())).collect();
    let plan = plan_batch(&store, &rest, &texts);
    write_batch(&mut store, &plan, NOW);
    hashes.extend(plan.documents.iter().map(|d| d.document.content_hash.clone()));
    handed.extend(rest);
    assert_eq!(handed.len(), 40);
    for (i, file) in handed.iter().enumerate() {
        assert_eq!(file.path, format!("/t/{}.txt", i));
        let hash = &hashes[i];
        assert_eq!(
            store.file_path_for_content_hash(hash).unwrap().as_deref(),
            Some(file.path.as_str())
        );
        assert_eq!(store.auto_tag_status(hash).unwrap().unwrap().status, "pending");
        assert!(!needs_indexing(&store, file), "a second scan passes it over");
    }
    assert_eq!(store.auto_tag_status("other").unwrap().unwrap().status, "tagged");
    assert_eq!(store.list_all_documents().unwrap().len(), 41);
}

#[test]
fn commits_come_after_ten_files_or_two_seconds() {
    let mut state = PipelineState::new();
    assert!(!state.should_commit(5_000));
    state.on_indexed();
    assert!(!state.should_commit(1_999));
    assert!(state.should_commit(2_000));
    for _ in 0..9 {
        state.on_indexed();
    }
    assert!(state.should_commit(0));
    state.on_committed();
    assert!(!state.should_commit(5_000));
    assert!(matches!(state.scan_complete(), IndexerProgress::ScanComplete { total: 10 }));
}

#[test]
fn an_empty_store_is_filled_from_the_index() {
    let mut store = TagStore::new();
    let doc = |hash: &str, exists: bool| IndexedDocument {
        content_hash: hash.to_string(),
        file_path: format!("/t/{}.txt", hash),
        file_type: "txt".to_string(),
        modified_ts: 5,
        file_exists: exists,
        file_size: 6,
    };
    let count = reconcile(&mut store, &[doc("a", true), doc("gone", false)], NOW);
    assert_eq!(count, 1);
    assert!(store.already_indexed_by_metadata("/t/a.txt", 6, 5).unwrap());
    assert!(!store.already_indexed_by_hash("gone").unwrap());
}

#[test]
fn a_tagged_document_needs_no_request_under_another_name() {
    let mut store = TagStore::new();
    let text = "quarterly report";
    let plan = prepare_upsert(&mut store, &facts("/t/a.txt", 1, 16), Some(text), NOW);
    let request = finish_upsert(&mut store, &plan, NOW).unwrap();
    let config = AutoTagConfig { enabled: true, ..AutoTagConfig::default() };
    let mut breaker = ApiCircuitBreaker::new(6, 60_000);
    process_request(request, &mut store, &OneTag, &config, &mut breaker, &|_: u64| {});

    let again = prepare_upsert(&mut store, &facts("/t/b.txt", 2, 16), Some(text), NOW);
    assert!(again.already_tagged);
    assert!(finish_upsert(&mut store, &again, NOW).is_none());
    let status = store.auto_tag_status(&again.document.content_hash).unwrap().unwrap();
    assert_eq!(status.status, "tagged");
}

struct OneTag;

impl papervault::auto_tagger::provider::TagProvider for OneTag {
    fn generate_tags(
        &self,
        _filename: &str,
        _text: &str,
        _existing_tags: &[String],
    ) -> Result<
        papervault::auto_tagger::provider::TagResponse,
        papervault::auto_tagger::provider::TagError,
    > {
        Ok(papervault::auto_tagger::provider::TagResponse {
            tags: vec!["report".to_string()],
            entities: Default::default(),
        })
    }
}

#[test]
fn a_new_run_has_room_for_a_file() {
    let mut state = PipelineState::new();
    assert!(state.has_room());
    state.on_indexed();
    assert!(state.has_room());
}
