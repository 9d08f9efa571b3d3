use papervault::tags::model::{AutoTagStatus, CacheEntry, DocumentRow, DocumentTag, Tag};
use papervault::tags::store::{BatchDocumentUpsert, StoreError, TagStore};
use papervault::tags::tag_json::read_tags;

fn names_for<'a>(listing: &'a [(String, Vec<Tag>)], hash: &str) -> Vec<&'a str> {
    listing
        .iter()
        .find(|(h, _)| h == hash)
        .map(|(_, tags)| tags.iter().map(|t| t.name.as_str()).collect())
        .unwrap_or_default()
}

#[test]
fn create_and_list_tags() {
    let mut store = TagStore::new();
    store.create_tag("tax").unwrap();
    store.create_tag("receipt").unwrap();

    let tags = store.list_tags().unwrap();
    assert_eq!(tags.len(), 2);
    let names: Vec<&str> = tags.iter().map(|t| t.name.as_str()).collect();
    assert!(names.contains(&"tax"));
    assert!(names.contains(&"receipt"));
}

#[test]
fn assign_multiple_tags_to_document() {
    let mut store = TagStore::new();

    // Insert a document first (required for FK constraint)
    store
        .upsert_document("hash1", "/test/doc.pdf", "pdf", 0, 0)
        .unwrap();

    let tag1 = store.create_tag("tax").unwrap();
    let tag2 = store.create_tag("receipt").unwrap();
    let tag3 = store.create_tag("2025").unwrap();

    store.assign_tag("hash1", tag1.id).unwrap();
    store.assign_tag("hash1", tag2.id).unwrap();
    store.assign_tag("hash1", tag3.id).unwrap();

    let tags = store.get_tags_for_document("hash1").unwrap();
    assert_eq!(tags.len(), 3);
    let names: Vec<&str> = tags.iter().map(|t| t.name.as_str()).collect();
    assert!(names.contains(&"tax"));
    assert!(names.contains(&"receipt"));
    assert!(names.contains(&"2025"));
}

#[test]
fn get_documents_with_tag_returns_correct_docs() {
    let mut store = TagStore::new();

    store
        .upsert_document("hash_a", "/test/a.pdf", "pdf", 0, 0)
        .unwrap();
    store
        .upsert_document("hash_b", "/test/b.pdf", "pdf", 0, 0)
        .unwrap();
    store
        .upsert_document("hash_c", "/test/c.pdf", "pdf", 0, 0)
        .unwrap();

    let tag = store.create_tag("shared").unwrap();

    store.assign_tag("hash_a", tag.id).unwrap();
    store.assign_tag("hash_b", tag.id).unwrap();

    let docs = store.get_documents_with_tag(tag.id).unwrap();
    assert_eq!(docs.len(), 2);
    assert!(docs.contains(&"hash_a".to_string()));
    assert!(docs.contains(&"hash_b".to_string()));
    assert!(!docs.contains(&"hash_c".to_string()));
}

#[test]
fn already_indexed_by_hash() {
    let mut store = TagStore::new();

    assert!(!store.already_indexed_by_hash("hash_x").unwrap());

    store
        .upsert_document("hash_x", "/test/x.pdf", "pdf", 1024, 1700000000)
        .unwrap();

    assert!(store.already_indexed_by_hash("hash_x").unwrap());
}

#[test]
fn update_path() {
    let mut store = TagStore::new();

    store
        .upsert_document("hash1", "/old/path/doc.pdf", "pdf", 1024, 1700000000)
        .unwrap();

    store.update_path("hash1", "/new/path/doc.pdf").unwrap();

    let hash = store
        .get_hash_by_path("/new/path/doc.pdf")
        .unwrap()
        .unwrap();
    assert_eq!(hash, "hash1");

    let old = store.get_hash_by_path("/old/path/doc.pdf").unwrap();
    assert!(old.is_none());
}

#[test]
fn get_tags_for_hashes_batch_query() {
    let mut store = TagStore::new();

    store
        .upsert_document("hash_a", "/a.pdf", "pdf", 100, 1700000000)
        .unwrap();
    store
        .upsert_document("hash_b", "/b.txt", "txt", 200, 1700000000)
        .unwrap();
    store
        .upsert_document("hash_c", "/c.md", "md", 300, 1700000000)
        .unwrap();

    let tag_tax = store.create_tag("tax").unwrap();
    let tag_2025 = store.create_tag("2025").unwrap();
    let tag_receipt = store.create_tag("receipt").unwrap();

    store.assign_tag("hash_a", tag_tax.id).unwrap();
    store.assign_tag("hash_a", tag_2025.id).unwrap();
    store.assign_tag("hash_b", tag_receipt.id).unwrap();

    // Batch query with &str references (zero allocation)
    let map = store
        .get_tags_for_hashes(&["hash_a", "hash_b", "hash_c"])
        .unwrap();

    assert_eq!(map.len(), 2);
    let a_tags: Vec<&str> = names_for(&map, "hash_a");
    assert!(a_tags.contains(&"tax"));
    assert!(a_tags.contains(&"2025"));
    assert_eq!(a_tags.len(), 2);

    let b_tags: Vec<&str> = names_for(&map, "hash_b");
    assert_eq!(b_tags, vec!["receipt"]);

    let empty = store.get_tags_for_hashes(&[]).unwrap();
    assert!(empty.is_empty());

    let missing = store.get_tags_for_hashes(&["no_such_hash"]).unwrap();
    assert!(missing.is_empty());
}

#[test]
fn auto_tag_status_round_trips() {
    let mut store = TagStore::new();
    store
        .upsert_document("hash1", "/test/doc.pdf", "pdf", 0, 0)
        .unwrap();

    store
        .upsert_auto_tag_status(
            "hash1",
            "doc.pdf",
            "abc123def",
            "tagged",
            Some(r#"{"tags":["tax","irs"]}"#),
            None,
        )
        .unwrap();

    let status = store.auto_tag_status("hash1").unwrap().unwrap();
    assert_eq!(status.content_hash, "hash1");
    assert_eq!(status.filename, "doc.pdf");
    assert_eq!(status.content_hash_before_tag, "abc123def");
    assert_eq!(status.status, "tagged");
    assert_eq!(status.tags_json.unwrap(), r#"{"tags":["tax","irs"]}"#);
}

#[test]
fn auto_tag_status_nonexistent_returns_none() {
    let store = TagStore::new();
    let result = store.auto_tag_status("no-such-hash").unwrap();
    assert!(result.is_none());
}

#[test]
fn pending_auto_tags_returns_only_pending() {
    let mut store = TagStore::new();
    store.upsert_document("h1", "/a.pdf", "pdf", 0, 0).unwrap();
    store.upsert_document("h2", "/b.pdf", "pdf", 0, 0).unwrap();
    store.upsert_document("h3", "/c.pdf", "pdf", 0, 0).unwrap();

    store
        .upsert_auto_tag_status("h1", "a.pdf", "x", "pending", None, None)
        .unwrap();
    store
        .upsert_auto_tag_status("h2", "b.pdf", "y", "tagged", None, None)
        .unwrap();
    store
        .upsert_auto_tag_status("h3", "c.pdf", "z", "failed", None, None)
        .unwrap();

    let pending = store.pending_auto_tags(10).unwrap();
    assert_eq!(pending.len(), 1);
    assert_eq!(pending[0].status, "pending");
}

#[test]
fn upsert_auto_tag_status_overwrites() {
    let mut store = TagStore::new();
    store
        .upsert_document("hash1", "/doc.pdf", "pdf", 0, 0)
        .unwrap();

    store
        .upsert_auto_tag_status("hash1", "doc.pdf", "x", "pending", None, None)
        .unwrap();
    store
        .upsert_auto_tag_status(
            "hash1",
            "doc.pdf",
            "y",
            "tagged",
            Some(r#"{"tags":["ok"]}"#),
            None,
        )
        .unwrap();

    let status = store.auto_tag_status("hash1").unwrap().unwrap();
    assert_eq!(status.status, "tagged");
    assert_eq!(status.content_hash_before_tag, "y");
}

#[test]
fn dismiss_auto_tag_removes_tag() {
    let mut store = TagStore::new();
    store
        .upsert_document("hash1", "/doc.pdf", "pdf", 0, 0)
        .unwrap();
    store
        .upsert_auto_tag_status(
            "hash1",
            "doc.pdf",
            "x",
            "tagged",
            Some(r#"{"tags":["tax","irs","2023"]}"#),
            None,
        )
        .unwrap();

    store.dismiss_auto_tag("hash1", "irs").unwrap();

    let status = store.auto_tag_status("hash1").unwrap().unwrap();
    let json: serde_json::Value = serde_json::from_str(&status.tags_json.unwrap()).unwrap();
    let tags: Vec<&str> = json["tags"]
        .as_array()
        .unwrap()
        .iter()
        .map(|v| v.as_str().unwrap())
        .collect();
    assert_eq!(tags, vec!["tax", "2023"]);
}

#[test]
fn cache_lookup_full_overlap_returns_tags() {
    let mut store = TagStore::new();
    store
        .upsert_cache_entry("tax return yang guorui", r#"{"tags":["tax"]}"#, "h1")
        .unwrap();

    let tokens: Vec<String> = ["tax", "return", "yang", "guorui"]
        .iter()
        .map(|s| s.to_string())
        .collect();
    let result = store.lookup_cache_by_tokens(&tokens, 1, 2).unwrap();
    assert!(result.is_some());
}

#[test]
fn cache_lookup_zero_overlap_returns_none() {
    let mut store = TagStore::new();
    store
        .upsert_cache_entry("tax return yang guorui", r#"{"tags":["tax"]}"#, "h1")
        .unwrap();

    let tokens: Vec<String> = ["recipe", "cookbook"]
        .iter()
        .map(|s| s.to_string())
        .collect();
    let result = store.lookup_cache_by_tokens(&tokens, 1, 2).unwrap();
    assert!(result.is_none());
}

#[test]
fn cache_lookup_partial_below_threshold_returns_none() {
    let mut store = TagStore::new();
    store
        .upsert_cache_entry("tax return yang guorui", r#"{"tags":["tax"]}"#, "h1")
        .unwrap();

    // Only "tax" overlaps (1 of 5 = 20% < 50%)
    let tokens: Vec<String> = ["tax", "2023", "form", "1040", "irs"]
        .iter()
        .map(|s| s.to_string())
        .collect();
    let result = store.lookup_cache_by_tokens(&tokens, 1, 2).unwrap();
    assert!(result.is_none());
}

#[test]
fn cache_upsert_increments_hit_count() {
    let mut store = TagStore::new();
    store
        .upsert_cache_entry("tax return", r#"{"tags":["tax"]}"#, "h1")
        .unwrap();
    store
        .upsert_cache_entry("tax return", r#"{"tags":["tax"]}"#, "h2")
        .unwrap();

    let result = store
        .lookup_cache_by_tokens(&["tax".into(), "return".into()], 1, 2)
        .unwrap();
    assert!(result.is_some());
}

#[test]
fn cache_lookup_empty_tokens_returns_none() {
    let mut store = TagStore::new();
    store
        .upsert_cache_entry("tax return", r#"{"tags":["tax"]}"#, "h1")
        .unwrap();

    let result = store.lookup_cache_by_tokens(&[], 1, 2).unwrap();
    assert!(result.is_none());
}

#[test]
fn cache_lookup_returns_best_match_by_hit_count() {
    let mut store = TagStore::new();
    // Insert two cache entries for similar tokens, one with higher hit_count
    store
        .upsert_cache_entry("tax return finance", r#"{"tags":["finance"]}"#, "h1")
        .unwrap();
    // Make the second entry more popular
    for _ in 0..5 {
        store
            .upsert_cache_entry("tax return yang guorui", r#"{"tags":["tax"]}"#, "h2")
            .unwrap();
    }

    let tokens: Vec<String> = ["tax", "return"].iter().map(|s| s.to_string()).collect();
    let result = store.lookup_cache_by_tokens(&tokens, 1, 2).unwrap();
    // Should return the entry with higher hit_count (sorted DESC)
    assert!(result.is_some());
}

#[test]
fn cache_lookup_limited_to_200_rows() {
    let mut store = TagStore::new();
    // Insert 250 cache entries — lookup should still complete quickly
    for i in 0..250 {
        store
            .upsert_cache_entry(
                &format!("doc type{} kind{} year{}", i, i % 10, 2020 + i % 5),
                r#"{"tags":["test"]}"#,
                &format!("h{}", i),
            )
            .unwrap();
    }

    let tokens: Vec<String> = ["doc", "type0", "kind0"]
        .iter()
        .map(|s| s.to_string())
        .collect();
    let result = store.lookup_cache_by_tokens(&tokens, 1, 2).unwrap();
    // Should hit the matching entry even with 250 rows (LIMIT 200 won't miss it since it matches)
    assert!(result.is_some());
}


fn stored(hash: &str, path: &str) -> TagStore {
    let mut store = TagStore::new();
    store.upsert_document(hash, path, "pdf", 10, 20).unwrap();
    store
}

#[test]
fn concurrent_reader_during_writer_no_busy() {
    let mut store = stored("hash1", "/test/doc.pdf");
    let tag = store.create_tag("test").unwrap();
    store.assign_tag("hash1", tag.id).unwrap();

    let store = std::sync::Mutex::new(store);
    rayon::join(
        || {
            let tags = store.lock().unwrap().list_tags().unwrap();
            assert!(!tags.is_empty());
        },
        || {
            let tag2 = store.lock().unwrap().create_tag("concurrent").unwrap();
            assert!(tag2.id > 0);
        },
    );

    let all_tags = store.lock().unwrap().list_tags().unwrap();
    let names: Vec<&str> = all_tags.iter().map(|t| t.name.as_str()).collect();
    assert!(names.contains(&"test"));
    assert!(names.contains(&"concurrent"));
}

#[test]
fn a_tag_name_is_taken_once() {
    let mut store = TagStore::new();
    store.create_tag("tax").unwrap();
    assert_eq!(store.create_tag("tax").unwrap_err(), StoreError::UniqueViolation);
    assert_eq!(store.list_tags().unwrap().len(), 1);
}

#[test]
fn rows_of_missing_documents_are_refused() {
    let mut store = TagStore::new();
    let tag = store.create_tag("tax").unwrap();
    assert_eq!(store.assign_tag("none", tag.id).unwrap_err(), StoreError::ForeignKeyViolation);
    assert_eq!(
        store.upsert_auto_tag_status("none", "a", "b", "pending", None, None).unwrap_err(),
        StoreError::ForeignKeyViolation
    );
}

#[test]
fn identifiers_can_run_out() {
    let tags = vec![Tag { id: i64::MAX, name: "last".to_string() }];
    let mut store =
        TagStore::from_rows(Vec::new(), tags, Vec::new(), Vec::new(), Vec::new()).unwrap();
    assert_eq!(store.create_tag("more").unwrap_err(), StoreError::Full);
}

#[test]
fn deleting_a_tag_takes_it_from_its_documents() {
    let mut store = stored("h", "/a.pdf");
    let a = store.create_tag("a").unwrap();
    let b = store.create_tag("b").unwrap();
    store.assign_tag("h", a.id).unwrap();
    store.assign_tag("h", b.id).unwrap();
    store.delete_tag(a.id).unwrap();
    let left = store.get_tags_for_document("h").unwrap();
    assert_eq!(left.len(), 1);
    assert_eq!(left[0].name, "b");
    store.remove_tag("h", b.id).unwrap();
    assert!(store.get_tags_for_document("h").unwrap().is_empty());
}

#[test]
fn reindexing_a_document_keeps_its_tags() {
    let mut store = stored("h", "/a.pdf");
    let tag = store.create_tag("tax").unwrap();
    store.assign_tag("h", tag.id).unwrap();
    store.upsert_auto_tag_status("h", "a.pdf", "x", "tagged", Some("{}"), None).unwrap();
    store.upsert_document("h", "/b.pdf", "pdf", 11, 21).unwrap();
    assert_eq!(store.get_tags_for_document("h").unwrap().len(), 1);
    assert_eq!(store.auto_tag_status("h").unwrap().unwrap().status, "tagged");
    assert_eq!(store.file_path_for_content_hash("h").unwrap().as_deref(), Some("/b.pdf"));
    assert!(store.already_indexed_by_metadata("/b.pdf", 11, 21).unwrap());
    assert!(!store.already_indexed_by_metadata("/b.pdf", 11, 22).unwrap());
}

#[test]
fn deleting_a_document_takes_its_rows() {
    for by_path in [true, false] {
        let mut store = stored("h", "/a.pdf");
        store.upsert_document("other", "/o.pdf", "pdf", 0, 0).unwrap();
        let tag = store.create_tag("tax").unwrap();
        store.assign_tag("h", tag.id).unwrap();
        store.assign_tag("other", tag.id).unwrap();
        store.upsert_auto_tag_status("h", "a.pdf", "x", "tagged", None, None).unwrap();
        if by_path {
            store.delete_document_by_path("/a.pdf").unwrap();
        } else {
            store.delete_document_by_hash("h").unwrap();
        }
        assert!(!store.already_indexed_by_hash("h").unwrap());
        assert!(store.auto_tag_status("h").unwrap().is_none());
        assert_eq!(store.get_documents_with_tag(tag.id).unwrap(), vec!["other"]);
        store.clear_all_documents().unwrap();
        assert!(store.list_all_documents().unwrap().is_empty());
        assert!(store.list_tags().unwrap().is_empty());
    }
}

#[test]
fn has_tags_counts_both_kinds_of_tags() {
    let mut store = stored("by_hand", "/a.pdf");
    store.upsert_document("by_machine", "/b.pdf", "pdf", 0, 0).unwrap();
    store.upsert_document("untagged", "/c.pdf", "pdf", 0, 0).unwrap();
    let tag = store.create_tag("tax").unwrap();
    store.assign_tag("by_hand", tag.id).unwrap();
    store.upsert_auto_tag_status("by_machine", "b.pdf", "x", "tagged", None, None).unwrap();
    store.upsert_auto_tag_status("untagged", "c.pdf", "x", "failed", None, None).unwrap();
    let docs = store.list_all_documents().unwrap();
    let tagged: Vec<(&str, bool)> =
        docs.iter().map(|d| (d.content_hash.as_str(), d.has_tags)).collect();
    assert_eq!(tagged, vec![("by_hand", true), ("by_machine", true), ("untagged", false)]);
}

#[test]
fn claims_share_no_row_and_come_oldest_first() {
    let mut store = TagStore::new();
    for (hash, now) in [("late", "2024-01-03"), ("early", "2024-01-01"), ("middle", "2024-01-02")] {
        store.upsert_document(hash, "/x.pdf", "pdf", 0, 0).unwrap();
        store
            .upsert_auto_tag_status_at(hash, "x.pdf", "b", "pending", None, None, now)
            .unwrap();
    }
    let first: Vec<String> =
        store.claim_pending_auto_tags(2).unwrap().into_iter().map(|s| s.content_hash).collect();
    let second: Vec<String> =
        store.claim_pending_auto_tags(2).unwrap().into_iter().map(|s| s.content_hash).collect();
    assert_eq!(first, vec!["early", "middle"]);
    assert_eq!(second, vec!["late"]);
    assert!(store.claim_pending_auto_tags(2).unwrap().is_empty());
    assert_eq!(store.reset_stale_processing().unwrap(), 3);
    assert_eq!(store.pending_auto_tags(10).unwrap().len(), 3);
}

#[test]
fn failed_rows_are_queued_again() {
    let mut store = stored("h", "/a.pdf");
    store.upsert_auto_tag_status("h", "a.pdf", "x", "failed", None, Some("down")).unwrap();
    assert_eq!(store.reset_failed_auto_tags().unwrap(), 1);
    let row = store.auto_tag_status("h").unwrap().unwrap();
    assert_eq!(row.status, "pending");
    assert_eq!(row.last_error, None);
}

#[test]
fn only_old_claims_are_taken_back() {
    let mut store = stored("h", "/a.pdf");
    store
        .upsert_auto_tag_status_at("h", "a.pdf", "x", "processing", None, None, "2024-01-01 10:00:00")
        .unwrap();
    assert_eq!(store.reset_stale_processing_before("2024-01-01 09:00:00", "2024-01-01 12:00:00"), 0);
    assert_eq!(store.reset_stale_processing_before("2024-01-01 11:00:00", "2024-01-01 12:00:00"), 1);
    assert_eq!(store.auto_tag_status("h").unwrap().unwrap().updated_at, "2024-01-01 12:00:00");
    store.upsert_auto_tag_status("h", "a.pdf", "x", "processing", None, None).unwrap();
    assert_eq!(store.reset_stale_processing_older_than(10).unwrap(), 0);
}

#[test]
fn a_claim_is_taken_back_after_more_than_its_minutes() {
    // 2024-01-01 10:00:00, in seconds since the start of 1970.
    let claimed_at: i64 = 1704103200;
    let mut store = stored("h", "/a.pdf");
    store
        .upsert_auto_tag_status_at("h", "a.pdf", "x", "processing", None, None, "2024-01-01 10:00:00")
        .unwrap();
    assert_eq!(store.reset_stale_processing_at_seconds(10, claimed_at), 0);
    assert_eq!(store.reset_stale_processing_at_seconds(10, claimed_at + 600), 0);
    assert_eq!(store.auto_tag_status("h").unwrap().unwrap().status, "processing");
    assert_eq!(store.reset_stale_processing_at_seconds(10, claimed_at + 601), 1);
    let row = store.auto_tag_status("h").unwrap().unwrap();
    assert_eq!(row.status, "pending");
    assert_eq!(row.updated_at, "2024-01-01 10:10:01");
}

#[test]
fn no_claim_is_older_than_the_calendar() {
    let mut store = stored("h", "/a.pdf");
    store
        .upsert_auto_tag_status_at("h", "a.pdf", "x", "processing", None, None, "2024-01-01 10:00:00")
        .unwrap();
    assert_eq!(store.reset_stale_processing_at_seconds(1, i64::MIN), 0);
    assert_eq!(store.reset_stale_processing_at_seconds(1, i64::MIN + 60), 0);
    assert_eq!(store.reset_stale_processing_at_seconds(1, i64::MAX), 0);
    assert_eq!(store.auto_tag_status("h").unwrap().unwrap().status, "processing");
}

#[test]
fn an_old_claim_is_taken_back_by_the_clock() {
    let mut store = stored("h", "/a.pdf");
    store
        .upsert_auto_tag_status_at("h", "a.pdf", "x", "processing", None, None, "2024-01-01 10:00:00")
        .unwrap();
    assert_eq!(store.reset_stale_processing_older_than(10).unwrap(), 1);
    let row = store.auto_tag_status("h").unwrap().unwrap();
    assert_eq!(row.status, "pending");
    assert!(row.updated_at.as_str() > "2024-01-01 10:00:00");
}

#[test]
fn times_are_written_as_the_database_writes_them() {
    let mut store = stored("h", "/a.pdf");
    store.upsert_auto_tag_status("h", "a.pdf", "x", "pending", None, None).unwrap();
    let row = store.auto_tag_status("h").unwrap().unwrap();
    assert_eq!(row.created_at, row.updated_at);
    assert_eq!(row.created_at.len(), 19);
    assert_eq!(&row.created_at[4..5], "-");
    assert_eq!(&row.created_at[10..11], " ");
}

#[test]
fn queue_lists_rows_that_are_not_done() {
    let mut store = TagStore::new();
    for (hash, status) in [("a", "pending"), ("b", "processing"), ("c", "tagged"), ("d", "failed")] {
        store.upsert_document(hash, "/x.pdf", "pdf", 0, 0).unwrap();
        store.upsert_auto_tag_status(hash, "x.pdf", "b", status, None, None).unwrap();
    }
    let mut queue: Vec<String> =
        store.list_auto_tag_queue().unwrap().into_iter().map(|q| q.status).collect();
    queue.sort();
    assert_eq!(queue, vec!["failed", "pending", "processing"]);
}

#[test]
fn dismissing_leaves_what_is_not_json_alone() {
    let mut store = stored("h", "/a.pdf");
    store.upsert_auto_tag_status("h", "a.pdf", "x", "tagged", Some("not json"), None).unwrap();
    store.dismiss_auto_tag("h", "tax").unwrap();
    let row = store.auto_tag_status("h").unwrap().unwrap();
    assert_eq!(row.tags_json.as_deref(), Some("not json"));
    assert!(read_tags("not json").is_empty());
    assert_eq!(read_tags(r#"{"tags":["a",1,"b"]}"#), vec!["a", "b"]);
}

#[test]
fn batch_items_are_written_in_order() {
    let mut store = stored("stale", "/a.pdf");
    store.upsert_document("kept", "/k.pdf", "pdf", 0, 0).unwrap();
    store.upsert_auto_tag_status("kept", "k.pdf", "x", "tagged", Some("{}"), None).unwrap();
    let item = |hash: &str, path: &str, stale: Option<&str>, skip: bool| BatchDocumentUpsert {
        content_hash: hash.to_string(),
        file_path: path.to_string(),
        file_type: "pdf".to_string(),
        file_size: 1,
        modified_ts: 2,
        old_hash_to_delete: stale.map(|s| s.to_string()),
        filename: "n.pdf".to_string(),
        content_hash_before_tag: "before".to_string(),
        skip_auto_tag_status: skip,
    };
    store
        .upsert_documents_batch(&[
            item("new", "/a.pdf", Some("stale"), false),
            item("kept", "/k2.pdf", None, true),
        ])
        .unwrap();
    assert!(!store.already_indexed_by_hash("stale").unwrap());
    assert_eq!(store.auto_tag_status("new").unwrap().unwrap().status, "pending");
    assert_eq!(store.auto_tag_status("kept").unwrap().unwrap().status, "tagged");
    assert_eq!(store.get_hash_by_path("/k2.pdf").unwrap().as_deref(), Some("kept"));
    let rows = store.get_auto_tag_statuses_for_hashes(&["new", "none"]).unwrap();
    assert_eq!(rows.len(), 1);
}

#[test]
fn rows_come_back_as_they_were_handed_out() {
    let mut store = stored("h", "/a.pdf");
    let tag = store.create_tag("tax").unwrap();
    store.assign_tag("h", tag.id).unwrap();
    store.upsert_auto_tag_status("h", "a.pdf", "x", "tagged", None, None).unwrap();
    store.upsert_cache_entry("tax return", "{}", "h").unwrap();
    let documents: Vec<DocumentRow> = store.document_rows().clone();
    let links: Vec<DocumentTag> = store.document_tag_rows().clone();
    let statuses: Vec<AutoTagStatus> = store.status_rows().clone();
    let cache: Vec<CacheEntry> = store.cache_rows().clone();
    let again = TagStore::from_rows(
        documents.clone(),
        store.tag_rows().clone(),
        links.clone(),
        statuses,
        cache,
    )
    .unwrap();
    assert_eq!(again.get_tags_for_document("h").unwrap().len(), 1);
    assert_eq!(again.auto_tag_status("h").unwrap().unwrap().status, "tagged");
    // A link to a document that is not there is refused.
    assert!(TagStore::from_rows(Vec::new(), store.tag_rows().clone(), links, Vec::new(), Vec::new())
        .is_none());
    // So is a content hash that occurs twice.
    let twice: Vec<DocumentRow> = documents.iter().chain(documents.iter()).cloned().collect();
    assert!(TagStore::from_rows(twice, Vec::new(), Vec::new(), Vec::new(), Vec::new()).is_none());
}

#[test]
fn assigned_and_removed_tags_are_read_back() {
    let mut store = stored("h", "/a.pdf");
    store.upsert_document("other", "/o.pdf", "pdf", 0, 0).unwrap();
    let tax = store.create_tag("tax").unwrap();
    let law = store.create_tag("law").unwrap();
    store.assign_tag("h", tax.id).unwrap();
    store.assign_tag("h", tax.id).unwrap();
    store.assign_tag("h", law.id).unwrap();
    let names = |s: &TagStore, h: &str| -> Vec<String> {
        s.get_tags_for_document(h).unwrap().into_iter().map(|t| t.name).collect()
    };
    assert_eq!(names(&store, "h"), vec!["law", "tax"]);
    assert!(names(&store, "other").is_empty());
    store.remove_tag("h", tax.id).unwrap();
    assert_eq!(names(&store, "h"), vec!["law"]);
    store.delete_tag(law.id).unwrap();
    assert!(names(&store, "h").is_empty());
    assert_eq!(store.list_tags().unwrap().len(), 1);
}

#[test]
fn a_moved_document_keeps_its_tags() {
    let mut store = stored("h", "/a.pdf");
    let tag = store.create_tag("tax").unwrap();
    store.assign_tag("h", tag.id).unwrap();
    store.update_path("h", "/b.pdf").unwrap();
    assert_eq!(store.get_hash_by_path("/b.pdf").unwrap().as_deref(), Some("h"));
    assert_eq!(store.get_hash_by_path("/a.pdf").unwrap(), None);
    assert_eq!(store.get_tags_for_document("h").unwrap().len(), 1);
}
