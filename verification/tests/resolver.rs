use sticker_search::error::EngineError;
use sticker_search::resolver::after_conflict;
use sticker_search::store::DataStore;

fn store() -> DataStore {
    DataStore::new("s3cret".to_string())
}

#[test]
fn a_new_sticker_is_stored() {
    let mut store = store();
    let id = store.resolve_or_create("uniq-1", "file-1", Some("animals".to_string())).unwrap();
    assert_eq!(id, 1);
    assert_eq!(store.stickers().len(), 1);
    let stored = &store.stickers()[0];
    assert_eq!(stored.id, 1);
    assert_eq!(stored.file_unique_id, "uniq-1");
    assert_eq!(stored.file_id, "file-1");
    assert_eq!(stored.set_name, Some("animals".to_string()));
    assert_eq!(stored.popularity, 0);
}

#[test]
fn a_known_sticker_is_found_and_not_stored_again() {
    let mut store = store();
    let first = store.resolve_or_create("uniq-1", "file-1", Some("animals".to_string())).unwrap();
    let second = store.resolve_or_create("uniq-1", "file-1", Some("animals".to_string())).unwrap();
    assert_eq!(first, second);
    assert_eq!(store.stickers().len(), 1);
}

#[test]
fn every_caller_gets_the_same_identifier() {
    let mut store = store();
    let mut ids = Vec::new();
    for round in 0..20 {
        ids.push(store.resolve_or_create("uniq-7", &format!("file-{}", round), None).unwrap());
        store.resolve_or_create(&format!("other-{}", round), "f", None).unwrap();
    }
    assert!(ids.iter().all(|id| *id == ids[0]));
    let with_key = store.stickers().iter().filter(|s| s.file_unique_id == "uniq-7").count();
    assert_eq!(with_key, 1);
    assert_eq!(store.stickers().len(), 21);
}

#[test]
fn a_known_sticker_keeps_its_record() {
    let mut store = store();
    store.resolve_or_create("uniq-1", "file-1", Some("animals".to_string())).unwrap();
    store.record_selection(1);
    store.resolve_or_create("uniq-1", "file-2", None).unwrap();
    let stored = &store.stickers()[0];
    assert_eq!(stored.file_id, "file-1");
    assert_eq!(stored.set_name, Some("animals".to_string()));
    assert_eq!(stored.popularity, 1);
}

#[test]
fn stickers_are_numbered_in_the_order_they_come() {
    let mut store = store();
    assert_eq!(store.resolve_or_create("c", "f3", None), Ok(1));
    assert_eq!(store.resolve_or_create("a", "f1", None), Ok(2));
    assert_eq!(store.resolve_or_create("b", "f2", None), Ok(3));
    assert_eq!(store.resolve_or_create("a", "f1", None), Ok(2));
    assert_eq!(store.find_sticker("b").unwrap().id, 3);
    assert_eq!(store.find_sticker_by_id(1).unwrap().file_unique_id, "c");
    assert_eq!(store.find_sticker("d"), None);
    assert_eq!(store.find_sticker_by_id(4), None);
    assert_eq!(store.find_sticker_by_id(0), None);
}

#[test]
fn keys_are_compared_exactly() {
    let mut store = store();
    assert_eq!(store.resolve_or_create("Key", "f", None), Ok(1));
    assert_eq!(store.resolve_or_create("key", "f", None), Ok(2));
    assert_eq!(store.resolve_or_create("Key ", "f", None), Ok(3));
    assert_eq!(store.resolve_or_create("", "f", None), Ok(4));
    assert_eq!(store.resolve_or_create("", "g", None), Ok(4));
}

#[test]
fn after_a_conflict_the_record_found_decides() {
    assert_eq!(after_conflict(Some(12)), Ok(12));
    assert_eq!(after_conflict(Some(-3)), Ok(-3));
    assert_eq!(after_conflict(None), Err(EngineError::ResolutionFailed));
}
