use papervault::browser::{
    build_file_browser_rows, file_browser_row, format_file_size, handle_sort_column_click,
    sort_docs, SortColumn, SortDirection,
};
use papervault::paths::{find_file_name, name_to_show};
use papervault::tags::model::DocumentInfo;

fn make_doc(path: &str, file_type: &str, size: u64, ts: u64) -> DocumentInfo {
    DocumentInfo {
        file_path: path.to_string(),
        file_type: file_type.to_string(),
        content_hash: String::new(),
        file_size: size,
        modified_ts: ts,
        has_tags: false,
    }
}

#[test]
fn sort_by_name_ascending() {
    let mut docs = vec![
        make_doc("/z.pdf", "pdf", 100, 300),
        make_doc("/a.txt", "txt", 200, 100),
        make_doc("/m.md", "md", 300, 200),
    ];
    sort_docs(&mut docs, SortColumn::Name, SortDirection::Ascending);
    let names: Vec<&str> = docs.iter().map(|d| d.file_path.as_str()).collect();
    assert_eq!(names, vec!["/a.txt", "/m.md", "/z.pdf"]);
}

#[test]
fn sort_by_name_descending() {
    let mut docs = vec![
        make_doc("/a.txt", "txt", 200, 100),
        make_doc("/z.pdf", "pdf", 100, 300),
        make_doc("/m.md", "md", 300, 200),
    ];
    sort_docs(&mut docs, SortColumn::Name, SortDirection::Descending);
    let names: Vec<&str> = docs.iter().map(|d| d.file_path.as_str()).collect();
    assert_eq!(names, vec!["/z.pdf", "/m.md", "/a.txt"]);
}

#[test]
fn sort_by_name_case_insensitive() {
    let mut docs = vec![
        make_doc("/Z.pdf", "pdf", 100, 300),
        make_doc("/a.txt", "txt", 200, 100),
    ];
    sort_docs(&mut docs, SortColumn::Name, SortDirection::Ascending);
    let names: Vec<&str> = docs.iter().map(|d| d.file_path.as_str()).collect();
    assert_eq!(names, vec!["/a.txt", "/Z.pdf"]);
}

#[test]
fn sort_by_date_ascending() {
    let mut docs = vec![
        make_doc("/z.pdf", "pdf", 100, 300),
        make_doc("/a.txt", "txt", 200, 100),
        make_doc("/m.md", "md", 300, 200),
    ];
    sort_docs(&mut docs, SortColumn::Date, SortDirection::Ascending);
    let ts: Vec<u64> = docs.iter().map(|d| d.modified_ts).collect();
    assert_eq!(ts, vec![100, 200, 300]);
}

#[test]
fn sort_by_date_descending() {
    let mut docs = vec![
        make_doc("/a.txt", "txt", 200, 100),
        make_doc("/z.pdf", "pdf", 100, 300),
        make_doc("/m.md", "md", 300, 200),
    ];
    sort_docs(&mut docs, SortColumn::Date, SortDirection::Descending);
    let ts: Vec<u64> = docs.iter().map(|d| d.modified_ts).collect();
    assert_eq!(ts, vec![300, 200, 100]);
}

#[test]
fn sort_by_date_equal_timestamps() {
    // Equal timestamps: original relative order preserved (stable sort)
    let mut docs = vec![
        make_doc("/a.txt", "txt", 200, 100),
        make_doc("/b.pdf", "pdf", 100, 100),
    ];
    sort_docs(&mut docs, SortColumn::Date, SortDirection::Ascending);
    let names: Vec<&str> = docs.iter().map(|d| d.file_path.as_str()).collect();
    assert_eq!(names, vec!["/a.txt", "/b.pdf"]);
}

#[test]
fn sort_by_size_ascending() {
    let mut docs = vec![
        make_doc("/z.pdf", "pdf", 300, 100),
        make_doc("/a.txt", "txt", 100, 200),
        make_doc("/m.md", "md", 200, 300),
    ];
    sort_docs(&mut docs, SortColumn::Size, SortDirection::Ascending);
    let sizes: Vec<u64> = docs.iter().map(|d| d.file_size).collect();
    assert_eq!(sizes, vec![100, 200, 300]);
}

#[test]
fn sort_by_size_descending() {
    let mut docs = vec![
        make_doc("/a.txt", "txt", 100, 200),
        make_doc("/z.pdf", "pdf", 300, 100),
        make_doc("/m.md", "md", 200, 300),
    ];
    sort_docs(&mut docs, SortColumn::Size, SortDirection::Descending);
    let sizes: Vec<u64> = docs.iter().map(|d| d.file_size).collect();
    assert_eq!(sizes, vec![300, 200, 100]);
}

#[test]
fn sort_toggle_same_column_toggles_direction() {
    // Name asc → click Name → Name desc
    let (col, dir) =
        handle_sort_column_click(SortColumn::Name, SortDirection::Ascending, SortColumn::Name);
    assert_eq!(col, SortColumn::Name);
    assert_eq!(dir, SortDirection::Descending);

    // Name desc → click Name → Name asc
    let (col, dir) = handle_sort_column_click(
        SortColumn::Name,
        SortDirection::Descending,
        SortColumn::Name,
    );
    assert_eq!(col, SortColumn::Name);
    assert_eq!(dir, SortDirection::Ascending);
}

#[test]
fn sort_toggle_switches_to_new_column_ascending() {
    // Name asc → click Date → Date asc
    let (col, dir) =
        handle_sort_column_click(SortColumn::Name, SortDirection::Ascending, SortColumn::Date);
    assert_eq!(col, SortColumn::Date);
    assert_eq!(dir, SortDirection::Ascending);

    // Name desc → click Size → Size asc
    let (col, dir) = handle_sort_column_click(
        SortColumn::Name,
        SortDirection::Descending,
        SortColumn::Size,
    );
    assert_eq!(col, SortColumn::Size);
    assert_eq!(dir, SortDirection::Ascending);
}

#[test]
fn sort_state_persists_across_refresh() {
    // Simulate a refresh cycle: sort, re-create docs, sort again with same state.
    // The sort state (column, direction) must survive.
    let column = SortColumn::Date;
    let direction = SortDirection::Descending;

    let mut docs = vec![
        make_doc("/a.txt", "txt", 200, 100),
        make_doc("/z.pdf", "pdf", 100, 300),
        make_doc("/m.md", "md", 300, 200),
    ];
    sort_docs(&mut docs, column, direction);
    let ts: Vec<u64> = docs.iter().map(|d| d.modified_ts).collect();
    assert_eq!(ts, vec![300, 200, 100]);

    // Simulate a re-fetch from DB (same data, new Vec)
    let mut docs2 = vec![
        make_doc("/a.txt", "txt", 200, 100),
        make_doc("/z.pdf", "pdf", 100, 300),
        make_doc("/m.md", "md", 300, 200),
    ];
    // Sort again with the SAME state (state persisted across refresh)
    sort_docs(&mut docs2, column, direction);
    let ts2: Vec<u64> = docs2.iter().map(|d| d.modified_ts).collect();
    assert_eq!(ts2, vec![300, 200, 100]);
}

#[test]
fn sort_by_size_equal_sizes() {
    let mut docs = vec![
        make_doc("/b.pdf", "pdf", 100, 200),
        make_doc("/a.txt", "txt", 100, 100),
    ];
    sort_docs(&mut docs, SortColumn::Size, SortDirection::Ascending);
    let names: Vec<&str> = docs.iter().map(|d| d.file_path.as_str()).collect();
    assert_eq!(names, vec!["/b.pdf", "/a.txt"]);
}

#[test]
fn format_file_size_zero() {
    assert_eq!(format_file_size(0), "0 B");
}

#[test]
fn format_file_size_bytes() {
    assert_eq!(format_file_size(1), "1 B");
    assert_eq!(format_file_size(512), "512 B");
    assert_eq!(format_file_size(1023), "1023 B");
}

#[test]
fn format_file_size_kb_boundary() {
    // Exactly 1 KB
    assert_eq!(format_file_size(1024), "1.0 KB");
    // Just over 1 KB
    assert_eq!(format_file_size(1025), "1.0 KB");
    // Typical KB value
    assert_eq!(format_file_size(23_040), "22.5 KB"); // 22.5 KB
}

#[test]
fn format_file_size_mb() {
    assert_eq!(format_file_size(1_048_576), "1.0 MB"); // 1 MB
    assert_eq!(format_file_size(1_572_864), "1.5 MB");
}

#[test]
fn format_file_size_gb() {
    assert_eq!(format_file_size(1_073_741_824), "1.0 GB");
    assert_eq!(format_file_size(1_610_612_736), "1.5 GB");
}

#[test]
fn format_file_size_large() {
    // 1 TB in bytes — should show GB at max unit
    assert_eq!(format_file_size(1_099_511_627_776), "1024.0 GB");
}

#[test]
fn build_file_browser_rows_precomputes_display_strings() {
    let mut docs = vec![
        make_doc("/docs/Tax Return.pdf", "pdf", 1_048_576, 1700044200),
        make_doc("/docs/notes.txt", "txt", 512, 0),
        make_doc("/docs/archive.tar.gz", "gz", 1024, 0),
    ];
    docs[0].has_tags = true;
    docs[0].content_hash = "abc".into();

    let rows = build_file_browser_rows(&docs);
    assert_eq!(rows.len(), 3);
    // PDF row: icon + sparkle + name; size + separator formatted once.
    assert_eq!(rows[0].label, "📄 ✨Tax Return.pdf");
    assert!(
        rows[0].date_size.contains("1.0 MB"),
        "{}",
        rows[0].date_size
    );
    assert!(rows[0].date_size.contains(" · "), "{}", rows[0].date_size);
    // Plain txt row: no sparkle.
    assert_eq!(rows[1].label, "📝 notes.txt");
    assert!(rows[1].date_size.contains("512 B"), "{}", rows[1].date_size);
    // Unknown type: generic icon.
    assert_eq!(rows[2].label, "📎 archive.tar.gz");
    // Identity fields survive for click handling.
    assert_eq!(rows[0].file_path, "/docs/Tax Return.pdf");
    assert_eq!(rows[0].content_hash, "abc");
    assert!(rows[0].has_tags);
    assert!(!rows[1].has_tags);
}

fn shown_date(seconds: u64) -> String {
    let rows = build_file_browser_rows(&[make_doc("/a.txt", "txt", 0, seconds)]);
    rows[0].date_size.clone()
}

#[test]
fn date_format_epoch_zero() {
    assert_eq!(shown_date(0), "1970-01-01 00:00 · 0 B");
}

#[test]
fn date_format_known_timestamp() {
    assert_eq!(shown_date(1700044200), "2023-11-15 10:30 · 0 B");
}

#[test]
fn date_format_far_future() {
    assert_eq!(shown_date(4102444799), "2099-12-31 23:59 · 0 B");
}

#[test]
fn date_out_of_the_calendar_is_blank() {
    assert_eq!(shown_date(u64::MAX >> 1), " · 0 B");
}

#[test]
fn row_shows_the_date_that_it_is_given() {
    let row = file_browser_row(&make_doc("/x/readme.md", "md", 1536, 0), "today");
    assert_eq!(row.label, "📋 readme.md");
    assert_eq!(row.date_size, "today · 1.5 KB");
}

#[test]
fn long_names_are_cut_after_forty_characters() {
    let name: String = "ä".repeat(41);
    let row = file_browser_row(&make_doc(&format!("/d/{}", name), "log", 0, 0), "");
    assert_eq!(row.label, format!("📎 {}…", "ä".repeat(40)));
    let name: String = "b".repeat(40);
    let row = file_browser_row(&make_doc(&format!("/d/{}", name), "log", 0, 0), "");
    assert_eq!(row.label, format!("📎 {}", name));
}

#[test]
fn sizes_are_shown_as_floating_point_division_shows_them() {
    let reference = |size: u64| -> String {
        let units = ["B", "KB", "MB", "GB"];
        let mut value = size as f64;
        let mut unit = 0;
        while value >= 1024.0 && unit < 3 {
            value /= 1024.0;
            unit += 1;
        }
        if unit == 0 {
            format!("{} B", size)
        } else {
            format!("{:.1} {}", value, units[unit])
        }
    };
    for size in 0..70_000u64 {
        assert_eq!(format_file_size(size), reference(size));
    }
    let mut size: u64 = 1;
    while size < u64::MAX / 3 {
        for near in [size - 1, size, size + 1, size + size / 7, size + size / 2] {
            assert_eq!(format_file_size(near), reference(near));
        }
        size = size * 3 / 2 + 1;
    }
    for size in [u64::MAX, u64::MAX - 1024, (1 << 53) + 1, (1 << 53) + 3, (1 << 54) + 2, (1 << 54) + 6] {
        assert_eq!(format_file_size(size), reference(size));
    }
}

#[test]
fn descending_order_keeps_equal_documents_in_place() {
    let mut docs = vec![
        make_doc("/1.txt", "txt", 5, 1),
        make_doc("/2.txt", "txt", 9, 1),
        make_doc("/3.txt", "txt", 5, 1),
    ];
    sort_docs(&mut docs, SortColumn::Size, SortDirection::Descending);
    let names: Vec<&str> = docs.iter().map(|d| d.file_path.as_str()).collect();
    assert_eq!(names, vec!["/2.txt", "/1.txt", "/3.txt"]);
}

#[test]
fn names_sort_by_file_and_not_by_folder() {
    let mut docs = vec![
        make_doc("/a/zebra.txt", "txt", 5, 1),
        make_doc("C:\\z\\Apple.txt", "txt", 9, 1),
        make_doc("/m/..", "txt", 5, 1),
    ];
    sort_docs(&mut docs, SortColumn::Name, SortDirection::Ascending);
    let names: Vec<&str> = docs.iter().map(|d| d.file_path.as_str()).collect();
    assert_eq!(names, vec!["/m/..", "C:\\z\\Apple.txt", "/a/zebra.txt"]);
}

#[test]
fn file_names_are_the_last_component() {
    for path in ["/a/b.txt", "b.txt", "/a/b.txt/", "/a/b.txt/.", "a/..", "..", "/", "", ".", "./b"] {
        let expected = std::path::Path::new(path)
            .file_name()
            .and_then(|n| n.to_str())
            .map(|n| n.to_string());
        assert_eq!(find_file_name(path), expected, "{}", path);
    }
    assert_eq!(find_file_name("C:\\docs\\b.txt").as_deref(), Some("b.txt"));
    assert_eq!(find_file_name("C:b.txt").as_deref(), Some("b.txt"));
    assert_eq!(find_file_name("C:"), None);
    assert_eq!(find_file_name("\\\\server\\share"), None);
    assert_eq!(name_to_show("\\\\server\\share"), "\\\\server\\share");
    assert_eq!(find_file_name("\\\\server\\share\\a.txt").as_deref(), Some("a.txt"));
    assert_eq!(find_file_name("\\\\server").as_deref(), Some("server"));
    assert_eq!(find_file_name("c:\\"), None);
    assert_eq!(name_to_show("/a/.."), "/a/..");
}

#[test]
fn clicking_a_header_twice_turns_the_order_back() {
    let (column, direction) =
        handle_sort_column_click(SortColumn::Name, SortDirection::Ascending, SortColumn::Size);
    let (column, direction) = handle_sort_column_click(column, direction, SortColumn::Size);
    assert_eq!(direction, SortDirection::Descending);
    let (column, direction) = handle_sort_column_click(column, direction, SortColumn::Size);
    assert_eq!((column, direction), (SortColumn::Size, SortDirection::Ascending));
}
