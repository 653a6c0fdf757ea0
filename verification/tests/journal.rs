use sticker_search::journal::Changes;
use sticker_search::store::DataStore;

fn store() -> DataStore {
    let mut store = DataStore::new("s3cret".to_string());
    store.register(1001, "alice").unwrap();
    store.register(1002, "bob").unwrap();
    store.approve("s3cret", "alice").unwrap();
    store.tag_at(1001, "a", "file-a", Some("set".to_string()), "cute blue round", 1).unwrap();
    store.tag_at(1001, "b", "file-b", Some("set".to_string()), "cute", 2).unwrap();
    store
}

fn nothing() -> Changes {
    Changes {
        new_users: vec![],
        changed_users: vec![],
        new_stickers: vec![],
        changed_stickers: vec![],
        new_tags: vec![],
        removed_tags: vec![],
    }
}

#[test]
fn nothing_served_nothing_changed() {
    let mut store = store();
    let marks = store.marks();
    assert_eq!(store.changes_since(&marks), nothing());
    store.search("cute");
    let _ = store.register(1001, "alice");
    let _ = store.approve("guess", "bob");
    let _ = store.approve("s3cret", "alice");
    let _ = store.tag_at(1002, "a", "file-a", Some("set".to_string()), "x", 3);
    let _ = store.untag(1001, "a", "nothing");
    store.record_selection(77);
    assert_eq!(store.changes_since(&marks), nothing());
}

#[test]
fn a_new_store_has_only_new_records() {
    let empty = DataStore::new("s3cret".to_string());
    let marks = empty.marks();
    let store = store();
    let changes = store.changes_since(&marks);
    assert_eq!(changes.new_users, *store.users());
    assert_eq!(changes.new_stickers, *store.stickers());
    assert_eq!(changes.new_tags, *store.tags());
    assert!(changes.changed_users.is_empty());
    assert!(changes.changed_stickers.is_empty());
    assert!(changes.removed_tags.is_empty());
}

#[test]
fn register_shows_as_a_new_account() {
    let mut store = store();
    let marks = store.marks();
    let account = store.register(1003, "carol").unwrap();
    let changes = store.changes_since(&marks);
    assert_eq!(changes, Changes { new_users: vec![account], ..nothing() });
}

#[test]
fn approve_shows_as_a_changed_account() {
    let mut store = store();
    let marks = store.marks();
    let account = store.approve("s3cret", "bob").unwrap();
    let changes = store.changes_since(&marks);
    assert_eq!(changes, Changes { changed_users: vec![account], ..nothing() });
}

#[test]
fn tag_shows_as_new_tags_and_maybe_a_new_sticker() {
    let mut store = store();
    let marks = store.marks();
    store.tag_at(1001, "a", "file-a", Some("set".to_string()), "soft", 3).unwrap();
    let changes = store.changes_since(&marks);
    assert_eq!(changes, Changes { new_tags: vec![store.tags()[4].clone()], ..nothing() });
    let marks = store.marks();
    store.tag_at(1001, "c", "file-c", Some("set".to_string()), "x y", 4).unwrap();
    let changes = store.changes_since(&marks);
    assert_eq!(changes, Changes {
        new_stickers: vec![store.stickers()[2].clone()],
        new_tags: vec![store.tags()[5].clone(), store.tags()[6].clone()],
        ..nothing()
    });
}

#[test]
fn untag_shows_as_removed_tags() {
    let mut store = store();
    let marks = store.marks();
    assert_eq!(store.untag(1001, "a", "cute round"), Ok(2));
    let changes = store.changes_since(&marks);
    assert_eq!(changes, Changes { removed_tags: vec![1, 3], ..nothing() });
}

#[test]
fn a_pick_shows_as_a_changed_sticker() {
    let mut store = store();
    let marks = store.marks();
    store.record_selection(2);
    store.record_selection(2);
    let changes = store.changes_since(&marks);
    assert_eq!(changes.changed_stickers.len(), 1);
    assert_eq!(changes.changed_stickers[0].id, 2);
    assert_eq!(changes.changed_stickers[0].popularity, 2);
    assert_eq!(changes, Changes { changed_stickers: vec![store.stickers()[1].clone()], ..nothing() });
}

#[test]
fn several_requests_show_together() {
    let mut store = store();
    let marks = store.marks();
    store.register(1003, "carol").unwrap();
    store.approve("s3cret", "bob").unwrap();
    store.approve("s3cret", "carol").unwrap();
    store.tag_at(1002, "a", "file-a", Some("set".to_string()), "cute", 5).unwrap();
    store.tag_at(1001, "z", "file-z", Some("set".to_string()), "gone", 6).unwrap();
    store.untag(1001, "z", "gone").unwrap();
    store.untag(1001, "b", "cute").unwrap();
    store.record_selection(1);
    let changes = store.changes_since(&marks);
    assert_eq!(changes.new_users, vec![store.users()[2].clone()]);
    assert!(changes.new_users[0].allowed);
    assert_eq!(changes.changed_users, vec![store.users()[1].clone()]);
    assert_eq!(changes.new_stickers, vec![store.stickers()[2].clone()]);
    assert_eq!(changes.changed_stickers, vec![store.stickers()[0].clone()]);
    assert_eq!(changes.new_tags.len(), 1);
    assert_eq!(changes.new_tags[0].id, 5);
    assert_eq!(changes.new_tags[0].tagger_id, 2);
    assert_eq!(changes.removed_tags, vec![4]);
}

#[test]
fn the_last_tag_identifier_counts_removed_tags() {
    let mut store = store();
    assert_eq!(store.last_tag_id(), 4);
    store.untag(1001, "b", "cute").unwrap();
    assert_eq!(store.last_tag_id(), 4);
    assert_eq!(DataStore::new("x".to_string()).last_tag_id(), 0);
}
