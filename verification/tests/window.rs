use papervault::actions::{
    assign_tag_to_selected, closes_to_tray, new_tag_name, progress_step, queue_all_documents,
    queue_document, retag_file, search_timer, tag_file, ProgressStep, SearchTimer, TagBatch,
};
use papervault::browser::{SortColumn, SortDirection};
use papervault::indexer::extractors::{FileContent, PdfReading};
use papervault::indexer::hash::compute_content_hash;
use papervault::indexer::pipeline::NO_TEXT;
use papervault::messages::{AutoTagRequest, IndexerProgress, TagUpdate};
use papervault::paths::name_to_show;
use papervault::preview::{
    after_preview, coalesce, compute_dimensions, failed_result, page_index, takes_up, text_preview,
    DocumentPlan, PageCache, RenderRequest, RenderResult, RendererState,
};
use papervault::search::query::{SearchResult, SearchResults};
use papervault::session::{toggle, SearchState};
use papervault::tag_view::AutoTagCache;
use papervault::tags::model::DocumentInfo;
use papervault::tags::store::TagStore;
use papervault::window::{
    entity_icon, hits_label, indexing_label, page_label, sort_mark, tagger_status, tags_line,
    BrowserState, OpenAction, Pane, PreviewState, ResultUse, Session,
};

fn session() -> Session {
    Session::new("Ready".to_string())
}

fn make_doc(path: &str, file_type: &str, size: u64, ts: u64) -> DocumentInfo {
    DocumentInfo {
        file_path: path.to_string(),
        file_type: file_type.to_string(),
        content_hash: String::new(),
        file_size: size,
        modified_ts: ts,
        has_tags: false,
    }
}

fn make_search_result(path: &str, hash: &str, file_type: &str) -> SearchResult {
    SearchResult {
        file_name: name_to_show(path),
        file_path: path.to_string(),
        file_type: file_type.to_string(),
        snippet: String::new(),
        match_count: 1,
        match_terms: vec![],
        highlight_spans: Vec::new(),
        content_hash: hash.to_string(),
        tags: vec![],
        lower_snippet: String::new(),
    }
}

// ── Files and results ──

#[test]
fn apply_docs_snapshot_sorts_and_builds_rows() {
    let mut app = session();
    let docs = vec![
        make_doc("/b.txt", "txt", 100, 2),
        make_doc("/a.pdf", "pdf", 200, 1),
    ];
    app.on_indexer_progress(IndexerProgress::DocsSnapshot { docs });

    assert_eq!(app.browser.docs.len(), 2);
    assert_eq!(app.browser.rows.len(), 2);
    assert!(!app.browser.dirty, "snapshot satisfies the refresh");
    // Default sort is Name ascending — a.pdf first, rows aligned with docs.
    assert_eq!(app.browser.docs[0].file_path, "/a.pdf");
    assert!(app.browser.rows[0].label.contains("a.pdf"));
    assert!(app.browser.rows[1].label.contains("b.txt"));
}

#[test]
fn select_result_pdf_goes_to_render_not_text_preview() {
    let mut app = session();
    app.search.results = vec![make_search_result("/docs/report.pdf", "hash1", "pdf")];
    app.search.total_hits = 1;

    let action = app.select_result(0);

    assert!(matches!(action, OpenAction::Render(_)));
    assert!(
        app.preview.text.is_none(),
        "PDF search result must NOT set preview_text (would show garbled text)"
    );
    assert_eq!(app.search.selected_result, Some(0));
    assert!(app.browser.browsed_file.is_none());
    assert_eq!(
        app.preview.file_type.as_deref(),
        Some("pdf"),
        "preview_file_type must be 'pdf' for PDF search results"
    );
}

#[test]
fn select_result_clears_browsed_file() {
    let mut app = session();
    app.browser.browsed_file = Some("/docs/report.pdf".to_string());
    app.search.results = vec![make_search_result("/docs/notes.txt", "hash1", "txt")];
    app.search.total_hits = 1;

    app.select_result(0);

    assert!(
        app.browser.browsed_file.is_none(),
        "select_result must clear stale browsed_file"
    );
    assert_eq!(app.search.selected_result, Some(0));
}

#[test]
fn select_result_pdf_uses_extension_fallback() {
    let mut app = session();
    // The index has a wrong file type ("") but the path ends with .pdf
    app.search.results = vec![make_search_result("/docs/report.pdf", "hash1", "")];
    app.search.total_hits = 1;

    let action = app.select_result(0);

    assert!(matches!(action, OpenAction::Render(_)));
    assert!(
        app.preview.text.is_none(),
        "Even with empty file_type, .pdf extension must route to render"
    );
}

#[test]
fn select_result_clears_browsed_file_with_pdf_path() {
    let mut app = session();
    app.browse_file("/docs/report.pdf");
    app.search.results = vec![make_search_result("/docs/notes.txt", "hash1", "txt")];
    app.search.total_hits = 1;

    app.select_result(0);

    assert!(
        app.browser.browsed_file.is_none(),
        "browsed_file must be cleared even when it ends with .pdf"
    );
}

#[test]
fn select_result_out_of_bounds_does_not_panic() {
    let mut app = session();
    app.browser.browsed_file = Some("/docs/doc.pdf".to_string());
    app.search.results = vec![make_search_result("/a.txt", "h1", "txt")];
    app.search.total_hits = 1;

    // Should return early without clearing browsed_file
    let action = app.select_result(5);
    assert!(matches!(action, OpenAction::Nothing));
    assert!(
        app.browser.browsed_file.is_some(),
        "out-of-bounds select_result must not touch browsed_file"
    );
}

#[test]
fn browse_file_sets_browsed_and_clears_selected_result() {
    let mut app = session();
    app.search.selected_result = Some(0);
    app.browser.browsed_file = None;

    let action = app.browse_file("/nonexistent/doc.txt");

    match action {
        OpenAction::LoadText(path) => assert_eq!(path, "/nonexistent/doc.txt"),
        _ => panic!("a text file is read"),
    }
    assert_eq!(
        app.browser.browsed_file.as_deref(),
        Some("/nonexistent/doc.txt"),
        "browse_file must set browsed_file"
    );
    assert!(
        app.search.selected_result.is_none(),
        "browse_file must clear selected_result"
    );
}

#[test]
fn transition_from_search_to_browse() {
    let mut app = session();
    app.search.results = vec![make_search_result("/docs/notes.txt", "hash1", "txt")];
    app.search.total_hits = 1;
    app.select_result(0);
    assert!(app.browser.browsed_file.is_none());
    assert_eq!(app.search.selected_result, Some(0));

    app.browse_file("/docs/report.pdf");

    assert_eq!(
        app.browser.browsed_file.as_deref(),
        Some("/docs/report.pdf"),
        "After browse, browsed_file must be set"
    );
    assert!(
        app.search.selected_result.is_none(),
        "After browse, selected_result must be cleared"
    );
}

#[test]
fn transition_from_browse_to_search() {
    let mut app = session();
    app.browser.browsed_file = Some("/docs/report.pdf".to_string());

    app.search.results = vec![make_search_result("/docs/notes.txt", "hash1", "txt")];
    app.search.total_hits = 1;
    app.select_result(0);

    assert!(
        app.browser.browsed_file.is_none(),
        "After select_result, stale browsed_file must be cleared"
    );
    assert_eq!(
        app.search.selected_result,
        Some(0),
        "After select_result, selected_result must be set"
    );
}

#[test]
fn load_text_preview_non_utf8_shows_content_not_error() {
    // Latin-1 bytes that are NOT valid UTF-8 (0xE9 = é in Latin-1)
    let bytes: Vec<u8> = vec![
        0x48, 0x65, 0x6C, 0x6C, 0x6F, 0x20, // "Hello "
        0xE9, // lone byte, invalid UTF-8
        0x20, 0x77, 0x6F, 0x72, 0x6C, 0x64, // " world"
    ];
    let mut app = session();
    app.browse_file("/docs/latin1.txt");
    app.preview.on_text(text_preview(&bytes));

    let preview = app.preview.text.as_deref().unwrap_or_default();
    assert!(
        !preview.contains("Error reading file"),
        "non-UTF-8 file should not produce an error: {preview}"
    );
    assert!(
        preview.contains("Hello"),
        "non-UTF-8 file should contain readable content"
    );
    assert_eq!(preview, "Hello \u{FFFD} world");
}

#[test]
fn long_previews_are_cut() {
    let shown = text_preview(&vec![b'x'; 2 * 1024 * 1024 + 1]);
    assert_eq!(shown.matches('x').count(), 2 * 1024 * 1024);
    assert_eq!(text_preview(&vec![b'x'; 3]), "xxx");
}

#[test]
fn the_pane_follows_the_session() {
    let mut app = session();
    assert_eq!(app.pane(true, false), Pane::EngineFailed);
    assert_eq!(app.pane(false, false), Pane::NoFolder);
    assert_eq!(app.pane(true, true), Pane::AskForQuery);
    app.search.query = "tax".to_string();
    assert_eq!(app.pane(true, true), Pane::NoResults);
    app.search.results = vec![make_search_result("/a.txt", "h", "txt")];
    app.select_result(0);
    assert_eq!(app.pane(true, true), Pane::Blank);
    app.preview.on_text("text".to_string());
    assert_eq!(app.pane(true, true), Pane::Text);
    assert_eq!(app.shown_path().as_deref(), Some("/a.txt"));
    app.browse_file("/b.pdf");
    assert_eq!(app.pane(true, true), Pane::NoRendering);
    app.preview.has_texture = true;
    assert_eq!(app.pane(true, true), Pane::Page);
}

#[test]
fn indexing_is_shown_as_it_goes() {
    let mut app = session();
    app.browser.dirty = false;
    app.on_indexer_progress(IndexerProgress::Progress { processed: 3 });
    assert_eq!(app.indexing_done, 3);
    assert!(app.browser.dirty);
    app.on_indexer_progress(IndexerProgress::ScanComplete { total: 7 });
    assert_eq!((app.indexing_done, app.indexing_total), (7, 7));
    app.on_indexer_progress(IndexerProgress::Error {
        path: "/a.pdf".to_string(),
        error: "bad".to_string(),
    });
    assert_eq!(app.status_message, "Error indexing /a.pdf: bad");
}

#[test]
fn the_browser_is_refreshed_now_and_then() {
    let mut browser = BrowserState::new();
    browser.apply_docs_snapshot(Vec::new());
    browser.on_file_indexed();
    assert!(browser.dirty);
    browser.apply_docs_snapshot(Vec::new());
    browser.on_file_indexed();
    assert!(!browser.dirty, "indexed files refresh the browser at most twice a second");
    for _ in 0..30 {
        browser.tick();
    }
    browser.on_file_indexed();
    assert!(browser.dirty);
    browser.apply_docs_snapshot(Vec::new());
    for _ in 0..270 {
        browser.tick();
    }
    assert!(browser.dirty);
}

#[test]
fn headers_sort_and_files_are_ticked() {
    let mut browser = BrowserState::new();
    browser.apply_docs_snapshot(vec![make_doc("/a.txt", "txt", 5, 1), make_doc("/b.txt", "txt", 1, 2)]);
    browser.click_header(SortColumn::Size);
    assert!(browser.dirty, "the next snapshot comes in the new order");
    let docs = browser.docs.clone();
    browser.apply_docs_snapshot(docs);
    assert_eq!(browser.docs[0].file_path, "/b.txt");
    browser.click_header(SortColumn::Size);
    let docs = browser.docs.clone();
    browser.apply_docs_snapshot(docs);
    assert_eq!(browser.docs[0].file_path, "/a.txt");
    assert_eq!(browser.rows[0].file_path, "/a.txt");
    browser.toggle_selected("/a.txt");
    browser.toggle_selected("/b.txt");
    browser.toggle_selected("/a.txt");
    assert_eq!(browser.selected_files, vec!["/b.txt"]);
    assert_eq!(sort_mark(SortColumn::Size, SortColumn::Size, SortDirection::Descending), " ▼");
    assert_eq!(sort_mark(SortColumn::Name, SortColumn::Size, SortDirection::Ascending), "");
    assert_eq!(entity_icon("years"), "📅");
    assert_eq!(entity_icon("other"), "🏷");
    assert_eq!(tagger_status(true, false, true), "☁ Auto-tag: running...");
    assert_eq!(tagger_status(false, true, true), "☁ Auto-tag: disabled");
}

#[test]
fn toggling_twice_restores_the_list() {
    let mut tags = vec!["a".to_string()];
    toggle(&mut tags, "b");
    assert_eq!(tags, vec!["a", "b"]);
    toggle(&mut tags, "b");
    assert_eq!(tags, vec!["a"]);
}

#[test]
fn results_are_filtered_by_tags() {
    let mut store = TagStore::new();
    for hash in ["h1", "h2"] {
        store.upsert_document(hash, "/x.txt", "txt", 0, 0).unwrap();
    }
    let tag = store.create_tag("tax").unwrap();
    store.assign_tag("h1", tag.id).unwrap();
    let found = SearchResults {
        items: vec![make_search_result("/a.txt", "h1", "txt"), make_search_result("/b.txt", "h2", "txt")],
        total_hits: 2,
    };
    let mut search = SearchState::new();
    assert!(search.search_request().is_none());
    search.query = "  tax ".to_string();
    assert_eq!(search.search_request().unwrap().query, "tax");
    assert_eq!(search.search_request().unwrap().limit, 50);
    search.apply_results(&found, Some(&store));
    assert_eq!(search.results.len(), 2);
    search.toggle_tag_filter("tax");
    assert_eq!(search.search_request().unwrap().limit, 200);
    search.apply_results(&found, Some(&store));
    assert_eq!(search.results.len(), 1);
    assert_eq!(search.results[0].content_hash, "h1");
    assert_eq!(search.results[0].tags, vec!["tax"]);
    search.clear();
    assert!(search.results.is_empty());
}

#[test]
fn the_store_has_the_truth_about_tags() {
    let mut store = TagStore::new();
    store.upsert_document("h1", "/x.txt", "txt", 0, 0).unwrap();
    let mut stale = make_search_result("/a.txt", "h1", "txt");
    stale.tags = vec!["tax".to_string()];
    let found = SearchResults { items: vec![stale], total_hits: 1 };
    let mut search = SearchState::new();
    search.apply_results(&found, None);
    assert_eq!(search.results[0].tags, vec!["tax"]);
    search.apply_results(&found, Some(&store));
    assert!(search.results[0].tags.is_empty(), "the index may be stale");
    search.toggle_tag_filter("tax");
    search.apply_results(&found, Some(&store));
    assert!(search.results.is_empty());
}

// ── Pages ──

fn render_request(path: &str, page: usize) -> RenderRequest {
    RenderRequest {
        request_id: 1,
        path: path.to_string(),
        page,
        zoom_percent: 100,
        target_width: 400,
        target_height: 600,
        priority: 1,
    }
}

fn rendered(request: &RenderRequest, page_count: usize) -> RenderResult {
    RenderResult {
        request_id: request.request_id,
        path: request.path.clone(),
        page: request.page,
        page_count,
        rgba_bytes: vec![0, 1, 2, 3],
        width: 1,
        height: 1,
        is_preview: false,
    }
}

/// Render a page as the renderer does: load the document where it is not kept.
fn render_page(state: &mut RendererState, path: &str, page: usize, size: u64) -> DocumentPlan {
    let request = render_request(path, page);
    let plan = state.plan_document(path, size);
    state.on_document(path, size);
    let result = rendered(&request, 3);
    state.on_rendered(&request, &result, false);
    plan
}

#[test]
fn cached_document_reused_across_page_renders() {
    let mut renderer = RendererState::new();

    assert_eq!(render_page(&mut renderer, "/doc.pdf", 1, 1000), DocumentPlan::Load);
    assert_eq!(
        renderer.kept_document().as_deref(),
        Some("/doc.pdf"),
        "parsed document must be cached after the first render"
    );

    assert_eq!(render_page(&mut renderer, "/doc.pdf", 2, 1000), DocumentPlan::Reuse);
    assert_eq!(renderer.kept_document().as_deref(), Some("/doc.pdf"));
}

#[test]
fn document_swap_reloads_doc_and_clears_page_cache() {
    let mut renderer = RendererState::new();
    render_page(&mut renderer, "/a.pdf", 1, 1000);
    assert_eq!(renderer.kept_document().as_deref(), Some("/a.pdf"));

    // Rendering a different file must swap the cached document.
    assert_eq!(render_page(&mut renderer, "/b.pdf", 1, 1000), DocumentPlan::Load);
    assert_eq!(renderer.kept_document().as_deref(), Some("/b.pdf"));
    assert_eq!(
        renderer.kept_pages(),
        1,
        "old pages must be evicted when the document changes"
    );
    assert!(
        renderer.cached_result(&render_request("/a.pdf", 1), false).is_none(),
        "remaining page must belong to the new document"
    );
    assert!(renderer.cached_result(&render_request("/b.pdf", 1), false).is_some());
}

#[test]
fn oversized_files_use_per_render_load_without_caching() {
    // Limit of 1 byte forces every file onto the oversized path.
    let mut renderer = RendererState::new_with_cache_limit(1);

    assert_eq!(render_page(&mut renderer, "/big.pdf", 1, 1000), DocumentPlan::LoadOnce);
    assert!(
        renderer.kept_document().is_none(),
        "oversized files must not be cached"
    );
    assert_eq!(
        renderer.kept_pages(),
        1,
        "rendered pages still populate the LRU page cache"
    );

    assert_eq!(render_page(&mut renderer, "/big.pdf", 2, 1000), DocumentPlan::LoadOnce);
}

#[test]
fn the_page_cache_drops_the_oldest_page() {
    let mut cache = PageCache::new();
    for page in 1..=9 {
        cache.cache_insert(&render_request("/a.pdf", page), vec![page as u8], 1, 1);
    }
    assert_eq!(cache.len(), 8);
    assert!(cache.cache_lookup(&render_request("/a.pdf", 1)).is_none());
    assert_eq!(cache.cache_lookup(&render_request("/a.pdf", 2)).unwrap().0, vec![2]);
    // Page 2 was looked at last, so page 3 goes.
    cache.cache_insert(&render_request("/a.pdf", 10), vec![10], 1, 1);
    assert!(cache.cache_lookup(&render_request("/a.pdf", 2)).is_some());
    assert!(cache.cache_lookup(&render_request("/a.pdf", 3)).is_none());
    cache.clear();
    assert_eq!(cache.len(), 0);
}

#[test]
fn the_last_request_is_the_one_to_render() {
    let first = render_request("/a.pdf", 1);
    let last = coalesce(first.clone(), vec![render_request("/a.pdf", 2), render_request("/a.pdf", 3)]);
    assert_eq!(last.page, 3);
    let steps = after_preview(&first, Vec::new());
    assert_eq!(steps.len(), 1);
    assert!(!steps[0].is_preview);
    let steps = after_preview(&first, vec![render_request("/a.pdf", 4)]);
    assert_eq!(steps.len(), 2);
    assert!(steps[0].is_preview && steps[0].request.page == 4);
    let mut ahead = render_request("/a.pdf", 5);
    ahead.priority = 0;
    assert!(!takes_up(&ahead, false));
    assert!(takes_up(&ahead, true));
    let failed = failed_result(&first);
    assert_eq!((failed.width, failed.height, failed.request_id), (0, 0, 1));
}

#[test]
fn sizes_follow_zoom_and_panel() {
    let mut request = render_request("/a.pdf", 1);
    assert_eq!(compute_dimensions(&request, false), (400, 600));
    assert_eq!(compute_dimensions(&request, true), (100, 150));
    request.zoom_percent = 1000;
    assert_eq!(compute_dimensions(&request, false), (1600, 2400));
    request.zoom_percent = 0;
    assert_eq!(compute_dimensions(&request, false), (100, 150));
    request.target_width = 0;
    request.zoom_percent = 100;
    assert_eq!(compute_dimensions(&request, false), (2000, 2000));
    assert_eq!(page_index(0, 3), 0);
    assert_eq!(page_index(1, 3), 0);
    assert_eq!(page_index(9, 3), 2);
    assert_eq!(page_index(1, 0), 0);
}

#[test]
fn late_answers_are_ignored() {
    let mut preview = PreviewState::new();
    let first = preview.request_page_render("/a.pdf");
    let second = preview.request_page_render("/b.pdf");
    assert!(matches!(preview.on_render_result(&rendered(&first, 3)), ResultUse::Stale));
    assert!(!preview.has_texture);
    match preview.on_render_result(&rendered(&second, 3)) {
        ResultUse::Show(Some(ahead)) => {
            assert_eq!(ahead.page, 2);
            assert_eq!((ahead.request_id, ahead.priority), (0, 0));
        }
        _ => panic!("the page is shown and the next one asked for"),
    }
    assert_eq!(preview.page_count, 3);
    let third = preview.request_page_render("/b.pdf");
    assert!(matches!(preview.on_render_result(&failed_result(&third)), ResultUse::Failed));
}

#[test]
fn pages_and_zoom_stay_within_bounds() {
    let mut preview = PreviewState::new();
    assert!(!preview.previous_page());
    preview.page_count = 2;
    assert!(preview.next_page());
    assert!(!preview.next_page());
    assert_eq!(preview.current_page, 2);
    assert!(preview.previous_page());
    for _ in 0..20 {
        preview.zoom_in();
    }
    assert_eq!(preview.zoom_percent, 400);
    for _ in 0..20 {
        preview.zoom_out();
    }
    assert_eq!(preview.zoom_percent, 25);
}

// ── Tags ──

fn tagged_store(rows: &[(&str, Option<&str>)]) -> TagStore {
    let mut store = TagStore::new();
    for (hash, json) in rows {
        store.upsert_document(hash, "/a.pdf", "pdf", 0, 0).unwrap();
        store.upsert_auto_tag_status(hash, "a.pdf", "x", "tagged", *json, None).unwrap();
    }
    store
}

#[test]
fn cached_auto_tags_batch_fill_returns_parsed_tags() {
    let store = tagged_store(&[("h1", Some(r#"{"tags":["tax","irs"]}"#)), ("h2", None)]);
    let mut cache = AutoTagCache::new();

    // Batch fill: 3 hashes at once (h1 tagged, h2 no json, missing absent)
    cache.ensure_auto_tag_cache(&["h1", "h2", "missing"], Some(&store));
    assert_eq!(cache.cached_auto_tags("h1", Some(&store)), vec!["tax", "irs"]);
    assert!(
        cache.cached_auto_tags("h2", Some(&store)).is_empty(),
        "fetched-but-empty must not re-query"
    );
    assert!(
        cache.cached_auto_tags("missing", Some(&store)).is_empty(),
        "absent row must be marked fetched, not re-queried"
    );

    // The tag panel path: full display data (filename + parsed JSON)
    assert_eq!(cache.cached_filename("h1").expect("h1 cached"), "a.pdf");
    assert_eq!(cache.cached_tags("h1").unwrap()[0], "tax");
}

#[test]
fn invalidate_and_clear_auto_tag_cache_methods() {
    let store = tagged_store(&[
        ("h1", Some(r#"{"tags":["tax"]}"#)),
        ("h2", Some(r#"{"tags":["tax"]}"#)),
    ]);
    let mut cache = AutoTagCache::new();
    cache.ensure_auto_tag_cache(&["h1", "h2"], Some(&store));
    assert_eq!(cache.len(), 2);

    // Single-hash invalidation (what dismiss/retag/progress do).
    cache.invalidate_auto_tag("h1");
    assert!(!cache.contains("h1"));
    assert!(cache.contains("h2"));

    // Bulk invalidation (what reindex does).
    cache.clear_auto_tag_cache();
    assert_eq!(cache.len(), 0);
    // A read after invalidation re-fetches (miss path) instead of
    // serving the stale snapshot.
    assert_eq!(cache.cached_auto_tags("h1", Some(&store)), vec!["tax"]);
}

#[test]
fn cached_auto_tags_serves_snapshot_until_invalidated() {
    let mut store = tagged_store(&[("h1", Some(r#"{"tags":["tax"]}"#))]);
    let mut cache = AutoTagCache::new();

    cache.ensure_auto_tag_cache(&["h1"], Some(&store));
    assert_eq!(cache.cached_auto_tags("h1", Some(&store)), vec!["tax"]);

    // Change the store behind the cache — a filled entry must NOT re-query.
    store
        .upsert_auto_tag_status(
            "h1",
            "a.pdf",
            "x",
            "tagged",
            Some(r#"{"tags":["changed"]}"#),
            None,
        )
        .unwrap();
    assert_eq!(
        cache.cached_auto_tags("h1", Some(&store)),
        vec!["tax"],
        "cache must serve the snapshot until invalidated"
    );

    // Invalidation (what dismiss/retag/progress do) forces a re-fetch.
    cache.invalidate_auto_tag("h1");
    assert_eq!(cache.cached_auto_tags("h1", Some(&store)), vec!["changed"]);
}

#[test]
fn cached_auto_tags_miss_queries_once_and_fills() {
    let store = tagged_store(&[("h1", Some(r#"{"tags":["tax"]}"#))]);
    let mut cache = AutoTagCache::new();

    // Direct read without prefetch — the miss path queries once and fills.
    assert_eq!(cache.cached_auto_tags("h1", Some(&store)), vec!["tax"]);
    assert!(cache.contains("h1"));
}

#[test]
fn cached_auto_tags_without_store_returns_empty_without_retry() {
    let mut cache = AutoTagCache::new();
    cache.ensure_auto_tag_cache(&["h1"], None);
    assert!(cache.cached_auto_tags("h1", None).is_empty());
    // A second read must not attempt a query (would be per-frame churn).
    assert!(cache.cached_auto_tags("h1", None).is_empty());
}

#[test]
fn entities_are_read_from_the_cache() {
    let json = r#"{"tags":[],"entities":{"persons":["Mia","Yang"],"years":["2023"],"amounts":3}}"#;
    let store = tagged_store(&[("h1", Some(json)), ("h2", Some("no json"))]);
    let mut cache = AutoTagCache::new();
    cache.ensure_auto_tag_cache(&["h1", "h2"], Some(&store));
    assert_eq!(cache.cached_entities("h1", "persons"), vec!["Mia", "Yang"]);
    assert_eq!(cache.cached_entities("h1", "years"), vec!["2023"]);
    assert!(cache.cached_entities("h1", "amounts").is_empty());
    assert!(cache.cached_entities("h1", "organizations").is_empty());
    assert!(cache.cached_auto_tags("h2", Some(&store)).is_empty());
}

#[test]
fn try_queue_auto_tag_respects_bounded_channel() {
    let (tx, rx) = crossbeam::channel::bounded::<AutoTagRequest>(1);
    let mut store = tagged_store(&[("h1", None), ("h2", None), ("h3", None)]);
    let mut batch = TagBatch::new(3);
    let request = queue_document(&mut store, "h1", "a.pdf", Some("text"), true, "now");
    batch.on_sent(tx.try_send(request).is_ok());
    assert_eq!(batch.progress(), Some((1, 3)));

    let request = queue_document(&mut store, "h2", "a.pdf", Some("text"), true, "now");
    batch.on_sent(tx.try_send(request).is_ok());
    assert!(
        batch.queue_full,
        "full bounded queue must report backpressure, not block"
    );
    assert_eq!(batch.progress(), None);
    assert_eq!(
        batch.status(),
        "Queue full — tagged 1/3 files (retry when current batch completes)"
    );
    drop(rx);
    let mut alone = TagBatch::new(1);
    let request = queue_document(&mut store, "h3", "a.pdf", Some("text"), true, "now");
    alone.on_sent(tx.try_send(request).is_ok());
    assert!(alone.queue_full, "disconnected queue must report failure");
}

#[test]
fn a_batch_without_trouble_counts_every_file() {
    let mut batch = TagBatch::new(2);
    batch.on_skipped();
    batch.on_sent(true);
    assert_eq!(batch.progress(), Some((2, 2)));
    assert_eq!(batch.status(), "Queued 2 files for tagging");
    assert!(!batch.goes_on());

    let mut missing_last = TagBatch::new(2);
    missing_last.on_sent(true);
    assert!(missing_last.goes_on());
    missing_last.on_skipped();
    assert_eq!(missing_last.progress(), Some((1, 2)));
}

fn file(name: &str, bytes: &[u8]) -> FileContent {
    FileContent {
        file_name: name.to_string(),
        extension: name.rsplit('.').next().unwrap().to_string(),
        bytes: bytes.to_vec(),
        pdf: None,
    }
}

fn parts(request: AutoTagRequest) -> (String, String, String, String) {
    match request {
        AutoTagRequest::TagDocument { content_hash, filename, text, content_hash_before_tag } => {
            (content_hash, filename, text, content_hash_before_tag)
        }
        AutoTagRequest::Shutdown => panic!("unexpected shutdown"),
    }
}

#[test]
fn ticked_files_are_read_and_queued() {
    let mut store = tagged_store(&[("h1", Some("{}"))]);
    let text = file("a.txt", "naïve".as_bytes());
    let (hash, name, body, before) =
        parts(tag_file(&mut store, "h1", "/x/a.txt", Some(&text), false, "now"));
    assert_eq!((hash.as_str(), name.as_str(), body.as_str()), ("h1", "a.txt", "naïve"));
    assert_eq!(before, compute_content_hash("a.txt", "naïve"));
    let row = store.auto_tag_status("h1").unwrap().unwrap();
    assert_eq!(row.status, "pending");
    assert_eq!(row.tags_json, None);

    let binary = file("b.txt", &[0xff, 0xfe]);
    let (_, _, body, _) = parts(tag_file(&mut store, "h1", "/x/b.txt", Some(&binary), false, "now"));
    assert_eq!(body, "[Could not read file: b.txt]");
    let (_, _, body, _) = parts(tag_file(&mut store, "h1", "/x/c.txt", None, false, "now"));
    assert_eq!(body, "[Could not read file: c.txt]");
    let broken = file("d.pdf", b"no pdf");
    let (_, _, body, _) = parts(tag_file(&mut store, "h1", "/x/d.pdf", Some(&broken), true, "now"));
    assert_eq!(body, NO_TEXT);
    let mut paged = file("d.pdf", b"");
    paged.pdf = Some(PdfReading::Pages(vec![Ok("one".to_string()), Ok("two".to_string())]));
    let (_, _, body, _) = parts(tag_file(&mut store, "h1", "/x/d.pdf", Some(&paged), true, "now"));
    assert_eq!(body, "one\ntwo");
}

#[test]
fn a_document_on_display_is_queued_where_it_is_text() {
    let mut store = tagged_store(&[("h1", Some("{}"))]);
    let text = file("a.txt", b"plain");
    let request = retag_file(&mut store, "h1", "/x/a.txt", Some(&text), "now").unwrap();
    let (_, name, body, before) = parts(request);
    assert_eq!((name.as_str(), body.as_str()), ("a.txt", "plain"));
    assert_eq!(before, compute_content_hash("a.txt", "plain"));
    assert_eq!(store.auto_tag_status("h1").unwrap().unwrap().status, "pending");

    let mut other = tagged_store(&[("h1", Some("{}"))]);
    let before = other.auto_tag_status("h1").unwrap().unwrap().status;
    let binary = file("a.pdf", &[0x25, 0xff]);
    assert!(retag_file(&mut other, "h1", "/x/a.pdf", Some(&binary), "now").is_none());
    assert!(retag_file(&mut other, "h1", "/x/a.pdf", None, "now").is_none());
    assert_eq!(other.auto_tag_status("h1").unwrap().unwrap().status, before);
}

#[test]
fn a_click_on_a_row_opens_it_or_ticks_it() {
    let mut app = session();
    let mut doc = make_doc("/a.txt", "txt", 1, 1);
    doc.content_hash = "h1".to_string();
    app.on_indexer_progress(IndexerProgress::DocsSnapshot { docs: vec![doc] });
    assert!(matches!(app.click_row("/a.txt", "h1", true), OpenAction::Nothing));
    assert_eq!(app.browser.selected_files, vec!["/a.txt"]);
    assert_eq!(app.search.selected_hash, None);
    assert!(matches!(app.click_row("/a.txt", "h1", false), OpenAction::LoadText(_)));
    assert!(app.browser.selected_files.is_empty());
    assert_eq!(app.search.selected_hash.as_deref(), Some("h1"));
    assert_eq!(app.browser.browsed_file.as_deref(), Some("/a.txt"));
    assert_eq!(app.browser.document_at("/a.txt").unwrap().content_hash, "h1");
    assert!(app.browser.document_at("/b.txt").is_none());
    app.on_folder_switch();
    assert_eq!(app.browser.browsed_file, None);
    assert_eq!(app.status_message, "Switching folder...");
}

#[test]
fn a_batch_is_followed_to_its_end() {
    let mut app = session();
    app.browser.dirty = false;
    assert_eq!(app.on_tag_progress(3), ProgressStep::Same);
    assert!(!app.browser.dirty);
    toggle(&mut app.browser.selected_files, "/a.txt");
    let mut batch = TagBatch::new(3);
    batch.on_sent(true);
    app.on_batch(&batch);
    assert_eq!(app.auto_tag_progress, Some((1, 3)));
    assert_eq!(app.status_message, "Queued 3 files for tagging");
    assert!(app.browser.dirty && app.browser.selected_files.is_empty());
    assert_eq!(app.on_tag_progress(2), ProgressStep::Moved(2));
    assert_eq!(app.auto_tag_progress, Some((2, 3)));
    assert_eq!(app.on_tag_progress(3), ProgressStep::Finished);
    assert_eq!(app.auto_tag_progress, None);
    assert_eq!(app.status_message, "Tagging complete — 3 files processed");
}

#[test]
fn the_selected_document_is_found_among_the_results() {
    let mut search = SearchState::new();
    search.results = vec![
        make_search_result("/a.pdf", "h1", "pdf"),
        make_search_result("/b.pdf", "h2", "pdf"),
        make_search_result("/c.pdf", "h2", "pdf"),
    ];
    assert_eq!(search.selected_path(), None);
    search.selected_hash = Some("h2".to_string());
    assert_eq!(search.selected_path().as_deref(), Some("/b.pdf"));
    search.selected_hash = Some("h3".to_string());
    assert_eq!(search.selected_path(), None);
}

#[test]
fn labels_say_how_far_things_are() {
    assert_eq!(indexing_label(0, 9), None);
    assert_eq!(indexing_label(4, 9).as_deref(), Some("Indexed 4/9"));
    assert_eq!(indexing_label(4, 0).as_deref(), Some("Indexed 4 files…"));
    assert_eq!(hits_label(50, 50), None);
    assert_eq!(hits_label(50, 120).as_deref(), Some("50 shown of 120 matches"));
    assert_eq!(page_label(2, 7), "Page 2 / 7");
    assert_eq!(page_label(2, 0), "Page 2");
    let tags: Vec<String> = ["a", "b", "c", "d", "e", "f"].iter().map(|t| t.to_string()).collect();
    assert_eq!(tags_line(&tags).as_deref(), Some("🏷 a, b, c, d, e"));
    assert_eq!(tags_line(&tags[..2].to_vec()).as_deref(), Some("🏷 a, b"));
    assert_eq!(tags_line(&Vec::new()), None);
}

#[test]
fn queued_documents_wait_in_the_store() {
    let mut store = tagged_store(&[("h1", Some("{}")), ("h2", None)]);
    match queue_document(&mut store, "h1", "a.pdf", None, true, "now") {
        AutoTagRequest::TagDocument { content_hash, text, .. } => {
            assert_eq!(content_hash, "h1");
            assert!(!text.is_empty());
        }
        AutoTagRequest::Shutdown => panic!("unexpected shutdown"),
    }
    assert_eq!(store.auto_tag_status("h1").unwrap().unwrap().status, "pending");
    assert_eq!(queue_all_documents(&mut store, "now"), 2);
    assert_eq!(store.pending_auto_tags(10).unwrap().len(), 2);
}

#[test]
fn tags_are_assigned_to_the_selected_document() {
    let mut store = tagged_store(&[("h1", None)]);
    let tag = store.create_tag("tax").unwrap();
    assert!(assign_tag_to_selected(&mut store, None, tag.id).is_none());
    match assign_tag_to_selected(&mut store, Some("h1"), tag.id) {
        Some(TagUpdate::UpdateDocumentTags { content_hash, tags }) => {
            assert_eq!(content_hash, "h1");
            assert_eq!(tags, vec!["tax"]);
        }
        None => panic!("expected an update"),
    }
    assert_eq!(new_tag_name("  tax "), Some("tax".to_string()));
    assert_eq!(new_tag_name("   "), None);
}

#[test]
fn timers_and_progress_decide_what_happens() {
    assert_eq!(progress_step(1, 5, 1), ProgressStep::Same);
    assert_eq!(progress_step(1, 5, 2), ProgressStep::Moved(2));
    assert_eq!(progress_step(4, 5, 5), ProgressStep::Finished);
    assert_eq!(search_timer("a", "a", 150), SearchTimer::Search);
    assert_eq!(search_timer("a", "a", 100), SearchTimer::Wait(50));
    assert_eq!(search_timer("a", "ab", 150), SearchTimer::Outdated);
    assert!(closes_to_tray(false, true, true));
    assert!(!closes_to_tray(true, true, true));
    assert!(!closes_to_tray(false, false, true));
    assert!(!closes_to_tray(false, true, false));
}
