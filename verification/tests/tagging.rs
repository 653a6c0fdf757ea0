use sticker_search::error::EngineError;
use sticker_search::store::DataStore;
use sticker_search::tagging::taggable;
use std::time::{SystemTime, UNIX_EPOCH};

fn store_with_taggers() -> DataStore {
    let mut store = DataStore::new("s3cret".to_string());
    store.register(1001, "alice").unwrap();
    store.register(1002, "bob").unwrap();
    store.register(1003, "carol").unwrap();
    store.approve("s3cret", "alice").unwrap();
    store.approve("s3cret", "bob").unwrap();
    store
}

fn set() -> Option<String> {
    Some("animals".to_string())
}

fn words(list: &[&str]) -> Vec<String> {
    list.iter().map(|w| w.to_string()).collect()
}

fn tags_by(store: &DataStore, tagger_id: i32) -> Vec<String> {
    store.tags().iter().filter(|t| t.tagger_id == tagger_id).map(|t| t.tag.clone()).collect()
}

#[test]
fn tag_stores_one_tag_for_each_word() {
    let mut store = store_with_taggers();
    let applied = store.tag_at(1001, "uniq-1", "file-1", set(), "cute blue", 5000).unwrap();
    assert_eq!(applied, words(&["cute", "blue"]));
    assert_eq!(store.stickers().len(), 1);
    assert_eq!(store.tags().len(), 2);
    let first = &store.tags()[0];
    assert_eq!(first.id, 1);
    assert_eq!(first.tag, "cute");
    assert_eq!(first.sticker_id, 1);
    assert_eq!(first.tagger_id, 1);
    assert_eq!(first.ts, 5000);
    let second = &store.tags()[1];
    assert_eq!(second.id, 2);
    assert_eq!(second.tag, "blue");
    assert_eq!(second.sticker_id, 1);
    assert_eq!(second.tagger_id, 1);
    assert_eq!(second.ts, 5000);
}

#[test]
fn tag_stores_the_sticker_the_first_time_only() {
    let mut store = store_with_taggers();
    store.tag_at(1001, "uniq-1", "file-1", set(), "cute", 1).unwrap();
    store.tag_at(1002, "uniq-1", "file-1", set(), "blue", 2).unwrap();
    store.tag_at(1001, "uniq-2", "file-2", set(), "red", 3).unwrap();
    assert_eq!(store.stickers().len(), 2);
    assert_eq!(store.tags()[0].sticker_id, 1);
    assert_eq!(store.tags()[1].sticker_id, 1);
    assert_eq!(store.tags()[1].tagger_id, 2);
    assert_eq!(store.tags()[2].sticker_id, 2);
}

#[test]
fn tag_by_a_stranger_is_not_authorized() {
    let mut store = store_with_taggers();
    let res = store.tag_at(4242, "uniq-1", "file-1", set(), "cute", 1);
    assert_eq!(res, Err(EngineError::NotAuthorized));
    assert!(store.stickers().is_empty());
    assert!(store.tags().is_empty());
}

#[test]
fn tag_by_a_registered_but_unapproved_user_is_not_authorized() {
    let mut store = store_with_taggers();
    let res = store.tag_at(1003, "uniq-1", "file-1", set(), "cute", 1);
    assert_eq!(res, Err(EngineError::NotAuthorized));
    assert!(store.stickers().is_empty());
    assert!(store.tags().is_empty());
    store.approve("s3cret", "carol").unwrap();
    assert!(store.tag_at(1003, "uniq-1", "file-1", set(), "cute", 1).is_ok());
}

#[test]
fn tag_without_a_sticker_set_is_untaggable() {
    let mut store = store_with_taggers();
    let res = store.tag_at(1001, "uniq-1", "file-1", None, "cute", 1);
    assert_eq!(res, Err(EngineError::Untaggable));
    assert!(store.stickers().is_empty());
    assert!(store.tags().is_empty());
}

#[test]
fn tag_with_an_empty_set_name_is_untaggable() {
    let mut store = store_with_taggers();
    let res = store.tag_at(1001, "uniq-1", "file-1", Some(String::new()), "cute", 1);
    assert_eq!(res, Err(EngineError::Untaggable));
    assert!(store.stickers().is_empty());
    assert!(store.tags().is_empty());
}

#[test]
fn untaggable_leaves_a_known_sticker_as_it_is() {
    let mut store = store_with_taggers();
    store.tag_at(1001, "uniq-1", "file-1", set(), "cute", 1).unwrap();
    let res = store.tag_at(1001, "uniq-1", "file-1", None, "blue", 2);
    assert_eq!(res, Err(EngineError::Untaggable));
    assert_eq!(store.tags().len(), 1);
    assert_eq!(store.stickers().len(), 1);
}

#[test]
fn tag_without_words_is_refused() {
    let mut store = store_with_taggers();
    assert_eq!(store.tag_at(1001, "uniq-1", "file-1", set(), "", 1), Err(EngineError::NoTags));
    assert_eq!(store.tag_at(1001, "uniq-1", "file-1", set(), " \t ", 1), Err(EngineError::NoTags));
    assert!(store.stickers().is_empty());
    assert!(store.tags().is_empty());
}

#[test]
fn the_checks_come_in_order() {
    let mut store = store_with_taggers();
    assert_eq!(store.tag_at(4242, "u", "f", None, "", 1), Err(EngineError::NotAuthorized));
    assert_eq!(store.tag_at(1003, "u", "f", None, "", 1), Err(EngineError::NotAuthorized));
    assert_eq!(store.tag_at(1001, "u", "f", None, "", 1), Err(EngineError::Untaggable));
    assert_eq!(store.tag_at(1001, "u", "f", set(), "", 1), Err(EngineError::NoTags));
}

#[test]
fn tagging_twice_with_the_same_word_is_allowed() {
    let mut store = store_with_taggers();
    store.tag_at(1001, "uniq-1", "file-1", set(), "cute cute", 1).unwrap();
    store.tag_at(1001, "uniq-1", "file-1", set(), "cute", 2).unwrap();
    assert_eq!(store.tags().len(), 3);
    assert!(store.tags().iter().all(|t| t.tag == "cute"));
    let ids: Vec<i32> = store.tags().iter().map(|t| t.id).collect();
    assert_eq!(ids, vec![1, 2, 3]);
}

#[test]
fn tag_now_stamps_the_tags_with_the_time() {
    let mut store = store_with_taggers();
    let before = SystemTime::now().duration_since(UNIX_EPOCH).unwrap().as_millis() as i64;
    let applied = store.tag(1001, "uniq-1", "file-1", set(), "cute blue").unwrap();
    let after = SystemTime::now().duration_since(UNIX_EPOCH).unwrap().as_millis() as i64;
    assert_eq!(applied, words(&["cute", "blue"]));
    assert_eq!(store.tags().len(), 2);
    assert_eq!(store.tags()[0].ts, store.tags()[1].ts);
    assert!(before <= store.tags()[0].ts);
    assert!(store.tags()[0].ts <= after);
}

#[test]
fn tag_now_refuses_what_tag_at_refuses() {
    let mut store = store_with_taggers();
    assert_eq!(store.tag(4242, "u", "f", set(), "cute"), Err(EngineError::NotAuthorized));
    assert_eq!(store.tag(1001, "u", "f", None, "cute"), Err(EngineError::Untaggable));
    assert_eq!(store.tag(1001, "u", "f", set(), "  "), Err(EngineError::NoTags));
    assert!(store.tags().is_empty());
}

#[test]
fn untag_removes_the_callers_tags_with_the_words() {
    let mut store = store_with_taggers();
    store.tag_at(1001, "uniq-1", "file-1", set(), "cute blue round", 1).unwrap();
    assert_eq!(store.untag(1001, "uniq-1", "cute round"), Ok(2));
    assert_eq!(tags_by(&store, 1), words(&["blue"]));
}

#[test]
fn untag_leaves_the_tags_of_other_taggers() {
    let mut store = store_with_taggers();
    store.tag_at(1001, "uniq-1", "file-1", set(), "cute blue", 1).unwrap();
    store.tag_at(1002, "uniq-1", "file-1", set(), "cute small", 2).unwrap();
    assert_eq!(store.untag(1001, "uniq-1", "cute small"), Ok(1));
    assert_eq!(tags_by(&store, 1), words(&["blue"]));
    assert_eq!(tags_by(&store, 2), words(&["cute", "small"]));
    let bobs = store.tags().iter().find(|t| t.tagger_id == 2 && t.tag == "cute").unwrap();
    assert_eq!(bobs.id, 3);
    assert_eq!(bobs.sticker_id, 1);
    assert_eq!(bobs.ts, 2);
}

#[test]
fn untag_leaves_the_tags_on_other_stickers() {
    let mut store = store_with_taggers();
    store.tag_at(1001, "uniq-1", "file-1", set(), "cute", 1).unwrap();
    store.tag_at(1001, "uniq-2", "file-2", set(), "cute", 2).unwrap();
    assert_eq!(store.untag(1001, "uniq-1", "cute"), Ok(1));
    assert_eq!(store.tags().len(), 1);
    assert_eq!(store.tags()[0].sticker_id, 2);
}

#[test]
fn untag_removes_every_copy_of_a_tag() {
    let mut store = store_with_taggers();
    store.tag_at(1001, "uniq-1", "file-1", set(), "cute cute blue cute", 1).unwrap();
    assert_eq!(store.untag(1001, "uniq-1", "cute"), Ok(3));
    assert_eq!(tags_by(&store, 1), words(&["blue"]));
}

#[test]
fn untag_compares_whole_words() {
    let mut store = store_with_taggers();
    store.tag_at(1001, "uniq-1", "file-1", set(), "cute cuteness Cute", 1).unwrap();
    assert_eq!(store.untag(1001, "uniq-1", "cut"), Ok(0));
    assert_eq!(store.untag(1001, "uniq-1", "cute"), Ok(1));
    assert_eq!(tags_by(&store, 1), words(&["cuteness", "Cute"]));
}

#[test]
fn untag_without_words_removes_nothing() {
    let mut store = store_with_taggers();
    store.tag_at(1001, "uniq-1", "file-1", set(), "cute", 1).unwrap();
    assert_eq!(store.untag(1001, "uniq-1", ""), Ok(0));
    assert_eq!(store.untag(1001, "uniq-1", "   "), Ok(0));
    assert_eq!(store.tags().len(), 1);
}

#[test]
fn untag_of_an_unknown_sticker_removes_nothing() {
    let mut store = store_with_taggers();
    store.tag_at(1001, "uniq-1", "file-1", set(), "cute", 1).unwrap();
    assert_eq!(store.untag(1001, "uniq-9", "cute"), Ok(0));
    assert_eq!(store.tags().len(), 1);
    assert_eq!(store.stickers().len(), 1);
}

#[test]
fn untag_by_somebody_who_may_not_tag_is_not_authorized() {
    let mut store = store_with_taggers();
    store.tag_at(1001, "uniq-1", "file-1", set(), "cute", 1).unwrap();
    assert_eq!(store.untag(1003, "uniq-1", "cute"), Err(EngineError::NotAuthorized));
    assert_eq!(store.untag(4242, "uniq-1", "cute"), Err(EngineError::NotAuthorized));
    assert_eq!(store.tags().len(), 1);
}

#[test]
fn removed_tags_do_not_free_their_identifiers() {
    let mut store = store_with_taggers();
    store.tag_at(1001, "uniq-1", "file-1", set(), "a b", 1).unwrap();
    assert_eq!(store.untag(1001, "uniq-1", "b"), Ok(1));
    store.tag_at(1001, "uniq-1", "file-1", set(), "c", 2).unwrap();
    let ids: Vec<i32> = store.tags().iter().map(|t| t.id).collect();
    assert_eq!(ids, vec![1, 3]);
}

#[test]
fn tags_of_lists_the_words_oldest_first() {
    let mut store = store_with_taggers();
    store.tag_at(1001, "uniq-1", "file-1", set(), "cute blue", 1).unwrap();
    store.tag_at(1001, "uniq-2", "file-2", set(), "red", 2).unwrap();
    store.tag_at(1002, "uniq-1", "file-1", set(), "small cute", 3).unwrap();
    assert_eq!(store.tags_of("uniq-1"), words(&["cute", "blue", "small", "cute"]));
    assert_eq!(store.tags_of("uniq-2"), words(&["red"]));
    assert_eq!(store.tags_of("uniq-3"), Vec::<String>::new());
}

#[test]
fn taggable_wants_a_set_name_that_is_not_empty() {
    assert!(taggable(&Some("animals".to_string())));
    assert!(taggable(&Some(" ".to_string())));
    assert!(!taggable(&Some(String::new())));
    assert!(!taggable(&None));
}
