use papervault::config::{default_minimize_to_tray, launch_change, Config};
use papervault::json::decimal_text;
use papervault::logging::{
    crash_record, is_swept, log_name_for, logs_to_sweep, session_stamp, LogFile,
    LOG_RETENTION_NANOS,
};
use papervault::messages::IndexerMessage;
use papervault::text::{char_is_whitespace, replace_text, split_words, trim_text};
use papervault::tray::{
    menu_command, on_icon_event, starts_minimized, tip_units, to_wide, TrayAction, TrayCommand,
    IDM_EXIT, IDM_OPEN,
};
use papervault::watcher::{message_for, watches_extension, FileEvent, OnDisk};

// ── Configuration ──

#[test]
fn load_returns_default_when_no_config_file() {
    let config = Config::default();
    assert!(config.watched_folder.is_none());
}

#[test]
fn watched_folder_nonexistent_path_accepted() {
    let config = Config {
        watched_folder: Some("Z:/nonexistent/path/that/does/not/exist".to_string()),
        ..Default::default()
    };
    assert!(config.watched_folder.is_some());
}

#[test]
fn new_fields_defaults() {
    let config = Config::default();
    assert!(!config.start_with_windows);
    assert!(config.minimize_to_tray); // defaults to true
    assert!(default_minimize_to_tray());
}

#[test]
fn launch_entry_follows_the_setting() {
    assert_eq!(launch_change(true, false), Some(true));
    assert_eq!(launch_change(false, true), Some(false));
    assert_eq!(launch_change(true, true), None);
    assert_eq!(launch_change(false, false), None);
}

// ── Logs ──

const DAY: u128 = 24 * 60 * 60 * 1_000_000_000;

/// The files of a directory that a sweep leaves.
fn sweep(files: &[(&str, u128)], max_age: u128) -> Vec<String> {
    let folder: Vec<LogFile> = files
        .iter()
        .map(|(name, age)| LogFile { name: name.to_string(), age_nanos: Some(*age) })
        .collect();
    let swept = logs_to_sweep(Some(&folder), max_age);
    folder.into_iter().map(|f| f.name).filter(|name| !swept.contains(name)).collect()
}

#[test]
fn sweep_removes_only_old_papervault_logs() {
    let left = sweep(
        &[
            ("papervault-20260725-100000-000.log", 4 * DAY),
            ("papervault-20260801-200000-000.log", 0),
            ("papervault.log", 4 * DAY),
            ("notes.txt", 4 * DAY),
        ],
        3 * DAY,
    );
    assert_eq!(left, vec!["papervault-20260801-200000-000.log", "notes.txt"]);
}

#[test]
fn sweep_keeps_files_younger_than_retention() {
    // 5 minutes inside the retention window — must survive.
    let age = 3 * DAY - 300 * 1_000_000_000;
    assert_eq!(sweep(&[("papervault-20260729-000000-000.log", age)], 3 * DAY).len(), 1);
    assert_eq!(LOG_RETENTION_NANOS, 3 * DAY);
    // A file from the future has no age.
    assert!(!is_swept("papervault.log", None, 0));
}

#[test]
fn sweep_missing_dir_is_not_an_error() {
    assert_eq!(logs_to_sweep(None, 3 * DAY).len(), 0);
}

#[test]
fn append_record_accumulates_instead_of_overwriting() {
    let mut content = String::new();
    content.push_str(&crash_record("t1", "s", "first crash"));
    content.push_str(&crash_record("t2", "s", "second crash"));
    assert!(content.contains("first crash"), "content: {}", content);
    assert!(content.contains("second crash"), "content: {}", content);
    assert_eq!(crash_record("t", "s", "m"), "Panic at t (session s): m");
}

#[test]
fn session_log_path_is_unique_per_session() {
    let noon: i64 = 1785585600;
    let first = log_name_for(&session_stamp(noon, 0).unwrap());
    assert_eq!(first, "papervault-20260801-120000-000.log");
    assert!(first.starts_with("papervault-20260801-120000-"), "name: {}", first);
    assert!(first.ends_with(".log"));

    // Two sessions in the same second still produce distinct files.
    let second = log_name_for(&session_stamp(noon, 5_000_000).unwrap());
    assert_eq!(second, "papervault-20260801-120000-005.log");
    assert_ne!(first, second, "millisecond component must disambiguate sessions");
    assert!(is_swept(&first, Some(4 * DAY), 3 * DAY));
    assert_eq!(session_stamp(i64::MAX, 0), None);
}

// ── Watching ──

#[test]
fn changes_become_messages() {
    let on_disk = OnDisk::File { mtime: 5, size: 6 };
    match message_for(FileEvent::Changed, "/a.pdf", "PDF", on_disk) {
        Some(IndexerMessage::Upsert { path, mtime, size }) => {
            assert_eq!((path.as_str(), mtime, size), ("/a.pdf", 5, 6));
        }
        _ => panic!("expected an upsert"),
    }
    match message_for(FileEvent::Removed, "/a.txt", "txt", OnDisk::Gone) {
        Some(IndexerMessage::Delete { path }) => assert_eq!(path, "/a.txt"),
        _ => panic!("expected a delete"),
    }
    assert!(message_for(FileEvent::Removed, "/a.txt", "txt", on_disk).is_none());
    assert!(message_for(FileEvent::Changed, "/a.txt", "txt", OnDisk::Gone).is_none());
    assert!(message_for(FileEvent::Changed, "/a.txt", "txt", OnDisk::Unreadable).is_none());
    assert!(message_for(FileEvent::Other, "/a.txt", "txt", on_disk).is_none());
    assert!(message_for(FileEvent::Changed, "/a.docx", "docx", on_disk).is_none());
    assert!(watches_extension("md"));
    assert!(!watches_extension(""));
}

// ── Tray ──

#[test]
fn the_tray_icon_answers_clicks() {
    assert_eq!(on_icon_event(514), TrayAction::Send(TrayCommand::Open));
    assert_eq!(on_icon_event(517), TrayAction::ShowMenu);
    assert_eq!(on_icon_event(65536 + 123), TrayAction::ShowMenu);
    assert_eq!(on_icon_event(512), TrayAction::Nothing);
    assert_eq!(menu_command(IDM_OPEN), Some(TrayCommand::Open));
    assert_eq!(menu_command(IDM_EXIT), Some(TrayCommand::Exit));
    assert_eq!(menu_command(0), None);
    assert!(starts_minimized(&["papervault".to_string(), "--minimized".to_string()]));
    assert!(!starts_minimized(&["papervault".to_string()]));
}

#[test]
fn wide_texts_are_utf_16_with_a_zero() {
    for text in ["", "Papervault", "é中", "😀 \u{10FFFF}"] {
        let mut expected: Vec<u16> = text.encode_utf16().collect();
        expected.push(0);
        assert_eq!(to_wide(text), expected);
    }
    let tip = tip_units("Papervault");
    assert_eq!(tip.len(), 128);
    assert_eq!(tip[9], 't' as u16);
    assert!(tip[10..].iter().all(|u| *u == 0));
    assert_eq!(tip_units(&"x".repeat(300)).len(), 128);
}

// ── Texts ──

#[test]
fn white_space_is_that_of_unicode() {
    for code in 0..=0x10FFFFu32 {
        if let Some(c) = char::from_u32(code) {
            assert_eq!(char_is_whitespace(c), c.is_whitespace(), "{:x}", code);
        }
    }
}

#[test]
fn texts_are_split_trimmed_and_replaced() {
    assert_eq!(split_words(" a\u{2003}b\n c "), vec!["a", "b", "c"]);
    assert_eq!(trim_text("\u{3000} a b\t"), "a b");
    assert_eq!(replace_text("aXbXc", "X", "--"), "a--b--c");
    assert_eq!(decimal_text(0), "0");
    assert_eq!(decimal_text(18446744073709551615), "18446744073709551615");
}
