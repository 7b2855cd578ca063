use yoink::clipboard::{
    capture_item, check_clipboard, compute_hash, compute_hash_bytes, content_type_check_panics,
    create_text_preview, detect_content_type, image_preview_text, looks_like_code, paste_text,
    set_expiration, ClipboardImage, ClipboardMonitor,
};
use yoink::database::{ClipboardItem, Database, Timestamp};

#[test]
fn hashes_are_lower_hex_sha256() {
    assert_eq!(
        compute_hash("hello"),
        "2cf24dba5fb0a30e26e83b2ac5b9e29e1b161e5c1fa7425e73043362938b9824"
    );
    assert_eq!(
        compute_hash_bytes(b""),
        "e3b0c44298fc1c149afbf4c8996fb92427ae41e4649b934ca495991b7852b855"
    );
    assert_eq!(compute_hash("hello"), compute_hash_bytes(b"hello"));
}

#[test]
fn preview_drops_control_characters_but_keeps_newline_and_tab() {
    assert_eq!(create_text_preview("a\u{7}b\nc\td\u{1b}"), "ab\nc\td");
}

#[test]
fn preview_of_long_text_is_cut_with_ellipsis() {
    let long = "x".repeat(501);
    let p = create_text_preview(&long);
    assert_eq!(p, format!("{}...", "x".repeat(500)));
    let exact = "y".repeat(500);
    assert_eq!(create_text_preview(&exact), exact);
}

#[test]
fn preview_ellipsis_follows_byte_length() {
    // 300 two-byte characters: 600 bytes, so "..." follows all 300 characters
    let text = "é".repeat(300);
    assert_eq!(create_text_preview(&text), format!("{}...", text));
}

#[test]
fn content_types() {
    assert_eq!(detect_content_type("/usr/bin/env"), "file");
    assert_eq!(detect_content_type("  /a/b\n/c/d  "), "files");
    assert_eq!(detect_content_type("C:\\Users\\me"), "file");
    assert_eq!(detect_content_type("https://example.com"), "url");
    assert_eq!(detect_content_type("  ftp://host/x "), "url");
    assert_eq!(detect_content_type("const f = (a) => a;"), "code");
    assert_eq!(detect_content_type("hello there"), "text");
    assert_eq!(detect_content_type(""), "text");
}

#[test]
fn code_detection_needs_two_indicators_ignoring_case() {
    assert!(looks_like_code("FUNCTION f() { RETURN 1 }"));
    assert!(looks_like_code("fn main() -> i32"));
    assert!(!looks_like_code("return to sender"));
}

#[test]
fn classification_that_would_slice_inside_a_character() {
    assert!(content_type_check_panics("éa:b"));
    assert!(content_type_check_panics("a:€b"));
    assert!(!content_type_check_panics("/é"));
    assert!(!content_type_check_panics("ab"));
    assert!(!content_type_check_panics("abc"));
}

#[test]
fn image_preview_names_dimensions() {
    assert_eq!(image_preview_text(1920, 1080), "Image (1920x1080)");
}

#[test]
fn text_capture_and_duplicate_skip() {
    let mut db = Database::new();
    let mut monitor = ClipboardMonitor::new();
    let r = check_clipboard(&mut monitor, &mut db, Some("https://a.b".to_string()), None);
    let item = r.unwrap().unwrap();
    assert_eq!(item.content, "https://a.b");
    assert_eq!(item.content_type, "url");
    assert_eq!(item.preview, "https://a.b");
    assert_eq!(item.hash, compute_hash("https://a.b"));
    assert!(!item.is_pinned);
    assert_eq!(db.get_item(&item.id).unwrap().unwrap().content, "https://a.b");
    let again = check_clipboard(&mut monitor, &mut db, Some("https://a.b".to_string()), None);
    assert!(again.unwrap().is_none());
    assert_eq!(db.get_items(10, 0, None, None).unwrap().len(), 1);
}

#[test]
fn image_capture_when_text_is_empty() {
    let mut db = Database::new();
    let mut monitor = ClipboardMonitor::new();
    let img = ClipboardImage { rgba: vec![1, 2, 3], width: 2, height: 3 };
    let r = check_clipboard(&mut monitor, &mut db, Some(String::new()), Some(img));
    let item = r.unwrap().unwrap();
    assert_eq!(item.content_type, "image");
    assert_eq!(item.content, "AQID");
    assert_eq!(item.preview, "Image (2x3)");
    assert_eq!(item.hash, compute_hash_bytes(&[1, 2, 3]));
    assert_eq!(paste_text(&item), Some("Image (2x3)".to_string()));
}

#[test]
fn nothing_to_capture() {
    let mut db = Database::new();
    let mut monitor = ClipboardMonitor::new();
    assert!(check_clipboard(&mut monitor, &mut db, None, None).unwrap().is_none());
    let empty = ClipboardImage { rgba: vec![], width: 0, height: 0 };
    assert!(check_clipboard(&mut monitor, &mut db, Some(String::new()), Some(empty))
        .unwrap()
        .is_none());
    assert_eq!(db.get_items(10, 0, None, None).unwrap().len(), 0);
}

#[test]
fn history_keeps_the_newest_hundred() {
    let mut db = Database::new();
    let mut monitor = ClipboardMonitor::new();
    for i in 0..105 {
        check_clipboard(&mut monitor, &mut db, Some(format!("entry {}", i)), None).unwrap();
    }
    let items = db.get_items(1000, 0, None, None).unwrap();
    assert_eq!(items.len(), 100);
}

#[test]
fn monitor_starts_from_newest_stored_hash() {
    let mut db = Database::new();
    let mut first = ClipboardMonitor::new();
    check_clipboard(&mut first, &mut db, Some("same".to_string()), None).unwrap();
    let mut second = ClipboardMonitor::new();
    second.init_last_hash(&db);
    assert!(check_clipboard(&mut second, &mut db, Some("same".to_string()), None)
        .unwrap()
        .is_none());
}

fn plain(id: &str, kind: &str, content: &str) -> ClipboardItem {
    ClipboardItem {
        id: id.to_string(),
        content_type: kind.to_string(),
        content: content.to_string(),
        preview: "pv".to_string(),
        hash: "h".to_string(),
        is_pinned: false,
        collection_id: None,
        created_at: Timestamp { secs: 1, nanos: 0 },
        expires_at: None,
    }
}

#[test]
fn paste_writes_content_or_image_preview() {
    assert_eq!(paste_text(&plain("a", "text", "hi")), Some("hi".to_string()));
    assert_eq!(paste_text(&plain("a", "image", "AQID")), Some("pv".to_string()));
    assert_eq!(paste_text(&plain("a", "image", "not base64!")), None);
}

#[test]
fn expiration_from_rfc3339_text() {
    let mut db = Database::new();
    db.insert_item(&plain("a", "text", "hi")).unwrap();
    set_expiration(&mut db, "a", Some("2024-01-01T00:00:00Z".to_string())).unwrap();
    assert_eq!(
        db.get_item("a").unwrap().unwrap().expires_at,
        Some(Timestamp { secs: 1704067200, nanos: 0 })
    );
    set_expiration(&mut db, "a", Some("tomorrow".to_string())).unwrap();
    assert_eq!(db.get_item("a").unwrap().unwrap().expires_at, None);
}

#[test]
fn rfc3339_offsets_are_honoured() {
    let mut db = Database::new();
    db.insert_item(&plain("a", "text", "hi")).unwrap();
    set_expiration(&mut db, "a", Some("2024-01-01T01:00:00.5+01:00".to_string())).unwrap();
    assert_eq!(
        db.get_item("a").unwrap().unwrap().expires_at,
        Some(Timestamp { secs: 1704067200, nanos: 500_000_000 })
    );
    set_expiration(&mut db, "a", Some("2024-01-01".to_string())).unwrap();
    assert_eq!(db.get_item("a").unwrap().unwrap().expires_at, None);
    set_expiration(&mut db, "a", None).unwrap();
    assert_eq!(db.get_item("a").unwrap().unwrap().expires_at, None);
}

#[test]
fn capture_under_given_id_and_time() {
    let mut db = Database::new();
    let mut monitor = ClipboardMonitor::new();
    let at = Timestamp { secs: 1_700_000_000, nanos: 5 };
    let item = capture_item(
        &mut monitor,
        &mut db,
        "id-1".to_string(),
        at,
        "hello".to_string(),
        "text".to_string(),
        "hello".to_string(),
        compute_hash("hello"),
    )
    .unwrap()
    .unwrap();
    assert_eq!(item.id, "id-1");
    assert_eq!(item.created_at, at);
    assert_eq!(item.content, "hello");
    assert!(monitor.has_seen_text("hello"));
    assert_eq!(db.get_item("id-1").unwrap().unwrap().content, "hello");
}

#[test]
fn capture_under_taken_id_changes_nothing() {
    let mut db = Database::new();
    let mut monitor = ClipboardMonitor::new();
    let at = Timestamp { secs: 1, nanos: 0 };
    capture_item(
        &mut monitor,
        &mut db,
        "id-1".to_string(),
        at,
        "first".to_string(),
        "text".to_string(),
        "first".to_string(),
        compute_hash("first"),
    )
    .unwrap();
    let e = capture_item(
        &mut monitor,
        &mut db,
        "id-1".to_string(),
        at,
        "second".to_string(),
        "text".to_string(),
        "second".to_string(),
        compute_hash("second"),
    )
    .unwrap_err();
    assert_eq!(e, "UNIQUE constraint failed: clipboard_items.id");
    assert!(monitor.has_seen_text("first"));
    assert!(!monitor.has_seen_text("second"));
    let items = db.get_items(10, 0, None, None).unwrap();
    assert_eq!(items.len(), 1);
    assert_eq!(items[0].content, "first");
}

#[test]
fn first_capture_into_empty_store_succeeds() {
    let mut db = Database::new();
    let mut monitor = ClipboardMonitor::new();
    let img = ClipboardImage { rgba: vec![9, 9], width: 1, height: 1 };
    assert!(check_clipboard(&mut monitor, &mut db, None, Some(img)).unwrap().is_some());
    let mut db2 = Database::new();
    let mut monitor2 = ClipboardMonitor::new();
    assert!(check_clipboard(&mut monitor2, &mut db2, Some("x".to_string()), None)
        .unwrap()
        .is_some());
}

#[test]
fn white_space_around_text_does_not_change_its_type() {
    for text in ["x", "/usr/bin", "https://a.b", "fn f() -> u8 { return 1 }", "C:\\x"] {
        let padded = format!(" \t\n{}\r\n ", text);
        assert_eq!(detect_content_type(&padded), detect_content_type(text));
    }
}

#[test]
fn a_cloned_monitor_remembers_the_same_hash() {
    let mut db = Database::new();
    let mut monitor = ClipboardMonitor::new();
    check_clipboard(&mut monitor, &mut db, Some("abc".to_string()), None).unwrap();
    let copy = monitor.clone();
    assert!(copy.has_seen_text("abc"));
    assert!(!copy.has_seen_text("abd"));
}
