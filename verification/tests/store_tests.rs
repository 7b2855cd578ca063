use yoink::collections::{create_collection, create_tag};
use yoink::database::{ClipboardItem, Collection, Database, DbError, Tag, Timestamp};

fn item(id: &str, secs: i64, content: &str) -> ClipboardItem {
    ClipboardItem {
        id: id.to_string(),
        content_type: "text".to_string(),
        content: content.to_string(),
        preview: content.to_string(),
        hash: format!("h-{}", id),
        is_pinned: false,
        collection_id: None,
        created_at: Timestamp { secs, nanos: 0 },
        expires_at: None,
    }
}

fn ids(v: &[ClipboardItem]) -> Vec<String> {
    v.iter().map(|i| i.id.clone()).collect()
}

#[test]
fn insert_then_get() {
    let mut db = Database::new();
    db.insert_item(&item("a", 10, "alpha")).unwrap();
    let got = db.get_item("a").unwrap().unwrap();
    assert_eq!(got.content, "alpha");
    assert!(db.get_item("b").unwrap().is_none());
}

#[test]
fn duplicate_id_is_refused() {
    let mut db = Database::new();
    db.insert_item(&item("a", 10, "alpha")).unwrap();
    let e = db.insert_item(&item("a", 20, "again")).unwrap_err();
    assert_eq!(e, DbError::ItemIdTaken);
    assert_eq!(e.message(), "UNIQUE constraint failed: clipboard_items.id");
    assert_eq!(db.get_item("a").unwrap().unwrap().content, "alpha");
}

#[test]
fn items_list_newest_first_with_pinned_on_top() {
    let mut db = Database::new();
    db.insert_item(&item("old", 1, "one")).unwrap();
    db.insert_item(&item("new", 3, "three")).unwrap();
    db.insert_item(&item("mid", 2, "two")).unwrap();
    assert_eq!(ids(&db.get_items(10, 0, None, None).unwrap()), vec!["new", "mid", "old"]);
    db.pin_item("old").unwrap();
    assert_eq!(ids(&db.get_items(10, 0, None, None).unwrap()), vec!["old", "new", "mid"]);
    assert_eq!(ids(&db.get_pinned_items().unwrap()), vec!["old"]);
    db.unpin_item("old").unwrap();
    assert!(db.get_pinned_items().unwrap().is_empty());
}

#[test]
fn paging_skips_and_limits() {
    let mut db = Database::new();
    for i in 0..5 {
        db.insert_item(&item(&format!("i{}", i), i, "x")).unwrap();
    }
    assert_eq!(ids(&db.get_items(2, 1, None, None).unwrap()), vec!["i3", "i2"]);
    assert_eq!(ids(&db.get_items(10, 4, None, None).unwrap()), vec!["i0"]);
    assert!(db.get_items(10, 5, None, None).unwrap().is_empty());
    assert!(db.get_items(0, 0, None, None).unwrap().is_empty());
}

#[test]
fn search_is_like_on_content_or_preview() {
    let mut db = Database::new();
    db.insert_item(&item("a", 1, "Hello World")).unwrap();
    let mut b = item("b", 2, "nothing");
    b.preview = "WORLDLY preview".to_string();
    db.insert_item(&b).unwrap();
    db.insert_item(&item("c", 3, "other")).unwrap();
    assert_eq!(ids(&db.get_items(10, 0, Some("world"), None).unwrap()), vec!["b", "a"]);
    assert_eq!(ids(&db.get_items(10, 0, Some("t_e"), None).unwrap()), vec!["c"]);
}

#[test]
fn listing_by_collection() {
    let mut db = Database::new();
    db.insert_item(&item("a", 1, "x")).unwrap();
    db.insert_item(&item("b", 2, "y")).unwrap();
    db.move_item_to_collection("a", Some("work")).unwrap();
    assert_eq!(ids(&db.get_items(10, 0, None, Some("work")).unwrap()), vec!["a"]);
    db.move_item_to_collection("a", None).unwrap();
    assert!(db.get_items(10, 0, None, Some("work")).unwrap().is_empty());
}

#[test]
fn delete_and_clear_history() {
    let mut db = Database::new();
    db.insert_item(&item("a", 1, "x")).unwrap();
    db.insert_item(&item("b", 2, "y")).unwrap();
    db.insert_item(&item("c", 3, "z")).unwrap();
    db.delete_item("b").unwrap();
    assert!(db.get_item("b").unwrap().is_none());
    db.pin_item("a").unwrap();
    db.clear_history().unwrap();
    assert_eq!(ids(&db.get_items(10, 0, None, None).unwrap()), vec!["a"]);
}

#[test]
fn limit_keeps_pinned_and_newest_unpinned() {
    let mut db = Database::new();
    for i in 0..6 {
        db.insert_item(&item(&format!("i{}", i), i, "x")).unwrap();
    }
    db.pin_item("i0").unwrap();
    db.enforce_limit(2).unwrap();
    assert_eq!(ids(&db.get_items(10, 0, None, None).unwrap()), vec!["i0", "i5", "i4"]);
}

#[test]
fn last_hash_is_the_newest_items() {
    let mut db = Database::new();
    assert_eq!(db.get_last_hash().unwrap(), None);
    db.insert_item(&item("b", 2, "y")).unwrap();
    db.insert_item(&item("a", 1, "x")).unwrap();
    assert_eq!(db.get_last_hash().unwrap(), Some("h-b".to_string()));
}

#[test]
fn expired_items_are_removed_even_when_pinned() {
    let mut db = Database::new();
    db.insert_item(&item("a", 1, "x")).unwrap();
    db.insert_item(&item("b", 2, "y")).unwrap();
    db.insert_item(&item("c", 3, "z")).unwrap();
    db.pin_item("a").unwrap();
    db.set_item_expiration("a", Some(Timestamp { secs: 100, nanos: 0 })).unwrap();
    db.set_item_expiration("b", Some(Timestamp { secs: 300, nanos: 0 })).unwrap();
    let removed = db.remove_expired(Timestamp { secs: 200, nanos: 0 });
    assert_eq!(removed, 1);
    assert_eq!(ids(&db.get_items(10, 0, None, None).unwrap()), vec!["c", "b"]);
    assert_eq!(db.cleanup_expired().unwrap(), 1);
}

fn collection(id: &str, name: &str) -> Collection {
    Collection {
        id: id.to_string(),
        name: name.to_string(),
        color: "red".to_string(),
        created_at: Timestamp { secs: 0, nanos: 0 },
    }
}

#[test]
fn collections_are_ordered_by_name() {
    let mut db = Database::new();
    db.create_collection(&collection("1", "Work")).unwrap();
    db.create_collection(&collection("2", "Personal")).unwrap();
    db.create_collection(&collection("3", "Archive")).unwrap();
    let names: Vec<String> = db.get_collections().unwrap().into_iter().map(|c| c.name).collect();
    assert_eq!(names, vec!["Archive", "Personal", "Work"]);
    assert_eq!(
        db.create_collection(&collection("1", "Dup")).unwrap_err(),
        DbError::CollectionIdTaken
    );
    db.update_collection("3", "Zed", "blue").unwrap();
    let cs = db.get_collections().unwrap();
    let names: Vec<String> = cs.iter().map(|c| c.name.clone()).collect();
    assert_eq!(names, vec!["Personal", "Work", "Zed"]);
    assert_eq!(cs[2].color, "blue");
}

#[test]
fn deleting_a_collection_releases_its_items() {
    let mut db = Database::new();
    db.create_collection(&collection("c1", "Work")).unwrap();
    db.insert_item(&item("a", 1, "x")).unwrap();
    db.move_item_to_collection("a", Some("c1")).unwrap();
    db.delete_collection("c1").unwrap();
    assert!(db.get_collections().unwrap().is_empty());
    assert_eq!(db.get_item("a").unwrap().unwrap().collection_id, None);
}

#[test]
fn tags_ignore_repeated_names_and_list_by_name() {
    let mut db = Database::new();
    db.create_tag(&Tag { id: "t1".to_string(), name: "urgent".to_string() }).unwrap();
    db.create_tag(&Tag { id: "t2".to_string(), name: "later".to_string() }).unwrap();
    db.create_tag(&Tag { id: "t3".to_string(), name: "urgent".to_string() }).unwrap();
    let names: Vec<String> = db.get_tags().unwrap().into_iter().map(|t| t.name).collect();
    assert_eq!(names, vec!["later", "urgent"]);
}

#[test]
fn item_tags_link_and_unlink() {
    let mut db = Database::new();
    db.create_tag(&Tag { id: "t1".to_string(), name: "b-tag".to_string() }).unwrap();
    db.create_tag(&Tag { id: "t2".to_string(), name: "a-tag".to_string() }).unwrap();
    db.insert_item(&item("i", 1, "first")).unwrap();
    db.insert_item(&item("j", 2, "second")).unwrap();
    db.add_tag_to_item("i", "t1").unwrap();
    db.add_tag_to_item("i", "t2").unwrap();
    db.add_tag_to_item("i", "t2").unwrap();
    db.add_tag_to_item("j", "t1").unwrap();
    let names: Vec<String> = db.get_item_tags("i").unwrap().into_iter().map(|t| t.name).collect();
    assert_eq!(names, vec!["a-tag", "b-tag"]);
    db.remove_tag_from_item("i", "t2").unwrap();
    let names: Vec<String> = db.get_item_tags("i").unwrap().into_iter().map(|t| t.name).collect();
    assert_eq!(names, vec!["b-tag"]);
}

#[test]
fn commands_create_with_fresh_ids() {
    let mut db = Database::new();
    let c = create_collection(&mut db, "Work".to_string(), "green".to_string()).unwrap();
    assert_eq!(c.name, "Work");
    assert_eq!(c.id.len(), 36);
    assert_eq!(db.get_collections().unwrap()[0].id, c.id);
    let t = create_tag(&mut db, "x".to_string()).unwrap();
    let t2 = create_tag(&mut db, "x".to_string()).unwrap();
    assert_ne!(t.id, t2.id);
    assert_eq!(db.get_tags().unwrap().len(), 1);
    assert_eq!(db.get_tags().unwrap()[0].id, t.id);
}

#[test]
fn overlong_search_pattern_fails_when_rows_are_tested() {
    let mut db = Database::new();
    let long = "a".repeat(49_999);
    assert!(db.get_items(10, 0, Some(&long), None).unwrap().is_empty());
    db.insert_item(&item("a", 1, "x")).unwrap();
    let e = db.get_items(10, 0, Some(&long), None).unwrap_err();
    assert_eq!(e, DbError::PatternTooComplex);
    assert_eq!(e.message(), "LIKE or GLOB pattern too complex");
    assert!(db.get_items(10, 0, Some(&long), Some("none")).unwrap().is_empty());
    let fits = "a".repeat(49_998);
    assert!(db.get_items(10, 0, Some(&fits), None).unwrap().is_empty());
}

#[test]
fn linking_a_missing_item_or_tag_fails() {
    let mut db = Database::new();
    db.create_tag(&Tag { id: "t1".to_string(), name: "x".to_string() }).unwrap();
    db.insert_item(&item("i", 1, "one")).unwrap();
    let e = db.add_tag_to_item("nope", "t1").unwrap_err();
    assert_eq!(e, DbError::ForeignKeyFailed);
    assert_eq!(e.message(), "FOREIGN KEY constraint failed");
    assert_eq!(db.add_tag_to_item("i", "nope").unwrap_err(), DbError::ForeignKeyFailed);
    assert!(db.get_links().is_empty());
    db.add_tag_to_item("i", "t1").unwrap();
    assert_eq!(db.get_links(), vec![("i".to_string(), "t1".to_string())]);
}

fn tagged(db: &mut Database, id: &str, secs: i64) {
    db.insert_item(&item(id, secs, id)).unwrap();
    db.add_tag_to_item(id, "t").unwrap();
}

#[test]
fn deleting_an_item_drops_its_tag_links() {
    let mut db = Database::new();
    db.create_tag(&Tag { id: "t".to_string(), name: "tag".to_string() }).unwrap();
    tagged(&mut db, "a", 1);
    tagged(&mut db, "b", 2);
    assert_eq!(db.get_item_tags("a").unwrap().len(), 1);
    db.delete_item("a").unwrap();
    assert!(db.get_item_tags("a").unwrap().is_empty());
    assert_eq!(db.get_links(), vec![("b".to_string(), "t".to_string())]);
}

#[test]
fn clearing_and_cutting_the_history_drop_tag_links() {
    let mut db = Database::new();
    db.create_tag(&Tag { id: "t".to_string(), name: "tag".to_string() }).unwrap();
    tagged(&mut db, "old", 1);
    tagged(&mut db, "mid", 2);
    tagged(&mut db, "new", 3);
    db.pin_item("old").unwrap();
    db.enforce_limit(1).unwrap();
    let mut links = db.get_links();
    links.sort();
    assert_eq!(
        links,
        vec![("new".to_string(), "t".to_string()), ("old".to_string(), "t".to_string())]
    );
    db.clear_history().unwrap();
    assert_eq!(db.get_links(), vec![("old".to_string(), "t".to_string())]);
}

#[test]
fn expired_items_lose_their_tag_links() {
    let mut db = Database::new();
    db.create_tag(&Tag { id: "t".to_string(), name: "tag".to_string() }).unwrap();
    tagged(&mut db, "a", 1);
    tagged(&mut db, "b", 2);
    db.set_item_expiration("a", Some(Timestamp { secs: 100, nanos: 0 })).unwrap();
    assert_eq!(db.remove_expired(Timestamp { secs: 200, nanos: 0 }), 1);
    assert_eq!(db.get_links(), vec![("b".to_string(), "t".to_string())]);
}
