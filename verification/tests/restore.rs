use sticker_search::error::EngineError;
use sticker_search::feedback::Selection;
use sticker_search::model::{sticker, tagged_sticker, user};
use sticker_search::store::DataStore;

fn account(id: i32, user_id: i64, username: &str, allowed: bool) -> user::Model {
    user::Model { id, user_id, username: username.to_string(), allowed }
}

fn sticker_row(id: i32, key: &str, popularity: i64) -> sticker::Model {
    sticker::Model {
        id,
        file_unique_id: key.to_string(),
        file_id: format!("file-{}", key),
        set_name: Some("set".to_string()),
        popularity,
    }
}

fn tag_row(id: i32, tag: &str, sticker_id: i32, tagger_id: i32) -> tagged_sticker::Model {
    tagged_sticker::Model { id, tag: tag.to_string(), sticker_id, tagger_id, ts: 7 }
}

fn restore(
    users: Vec<user::Model>,
    stickers: Vec<sticker::Model>,
    tags: Vec<tagged_sticker::Model>,
) -> Option<DataStore> {
    DataStore::restore("s3cret".to_string(), users, stickers, tags)
}

fn sound_users() -> Vec<user::Model> {
    vec![account(1, 1001, "alice", true), account(4, 1002, "bob", false)]
}

fn sound_stickers() -> Vec<sticker::Model> {
    vec![sticker_row(2, "a", 0), sticker_row(3, "b", 12)]
}

fn sound_tags() -> Vec<tagged_sticker::Model> {
    vec![tag_row(5, "cute", 2, 1), tag_row(9, "blue", 3, 1), tag_row(10, "cute", 3, 4)]
}

#[test]
fn restore_takes_sound_tables() {
    let store = restore(sound_users(), sound_stickers(), sound_tags()).unwrap();
    assert_eq!(*store.users(), sound_users());
    assert_eq!(*store.stickers(), sound_stickers());
    assert_eq!(*store.tags(), sound_tags());
    assert!(store.secret_is("s3cret"));
    assert!(store.is_allowed(1001));
    assert!(!store.is_allowed(1002));
}

#[test]
fn restore_of_nothing_is_a_new_store() {
    let store = restore(Vec::new(), Vec::new(), Vec::new()).unwrap();
    assert!(store.users().is_empty());
    assert!(store.stickers().is_empty());
    assert!(store.tags().is_empty());
}

#[test]
fn a_restored_store_goes_on_numbering_after_the_newest_record() {
    let mut store = restore(sound_users(), sound_stickers(), sound_tags()).unwrap();
    assert_eq!(store.register(1003, "carol").unwrap().id, 5);
    assert_eq!(store.resolve_or_create("c", "file-c", None), Ok(4));
    store.tag_at(1001, "a", "file-a", Some("set".to_string()), "new", 1).unwrap();
    assert_eq!(store.tags().last().unwrap().id, 11);
    assert_eq!(store.search("cute"), vec![(3, "file-b".to_string()), (2, "file-a".to_string())]);
}

#[test]
fn restore_refuses_identifiers_out_of_order() {
    assert!(restore(vec![account(2, 1, "a", false), account(1, 2, "b", false)], vec![], vec![]).is_none());
    assert!(restore(vec![account(1, 1, "a", false), account(1, 2, "b", false)], vec![], vec![]).is_none());
    assert!(restore(vec![], vec![sticker_row(3, "a", 0), sticker_row(2, "b", 0)], vec![]).is_none());
    let mut tags = sound_tags();
    tags.swap(0, 1);
    assert!(restore(sound_users(), sound_stickers(), tags).is_none());
}

#[test]
fn restore_refuses_identifiers_below_one() {
    assert!(restore(vec![account(0, 1, "a", false)], vec![], vec![]).is_none());
    assert!(restore(vec![], vec![sticker_row(-1, "a", 0)], vec![]).is_none());
    assert!(restore(sound_users(), sound_stickers(), vec![tag_row(0, "cute", 2, 1)]).is_none());
}

#[test]
fn restore_refuses_two_accounts_of_one_user() {
    let users = vec![account(1, 1001, "alice", true), account(2, 1001, "alice2", false)];
    assert!(restore(users, vec![], vec![]).is_none());
}

#[test]
fn restore_takes_two_accounts_with_one_handle() {
    let users = vec![account(1, 1001, "twin", true), account(2, 1002, "twin", false)];
    assert!(restore(users, vec![], vec![]).is_some());
}

#[test]
fn restore_refuses_a_sticker_stored_twice() {
    let stickers = vec![sticker_row(1, "a", 0), sticker_row(2, "b", 0), sticker_row(3, "a", 0)];
    assert!(restore(vec![], stickers, vec![]).is_none());
}

#[test]
fn restore_refuses_a_negative_popularity() {
    assert!(restore(vec![], vec![sticker_row(1, "a", -1)], vec![]).is_none());
    assert!(restore(vec![], vec![sticker_row(1, "a", 0)], vec![]).is_some());
}

#[test]
fn restore_refuses_a_tag_that_is_no_word() {
    assert!(restore(sound_users(), sound_stickers(), vec![tag_row(1, "", 2, 1)]).is_none());
    assert!(restore(sound_users(), sound_stickers(), vec![tag_row(1, "two words", 2, 1)]).is_none());
    assert!(restore(sound_users(), sound_stickers(), vec![tag_row(1, "tail ", 2, 1)]).is_none());
    assert!(restore(sound_users(), sound_stickers(), vec![tag_row(1, "word", 2, 1)]).is_some());
}

#[test]
fn restore_refuses_a_tag_without_its_sticker_or_its_tagger() {
    assert!(restore(sound_users(), sound_stickers(), vec![tag_row(1, "cute", 7, 1)]).is_none());
    assert!(restore(sound_users(), sound_stickers(), vec![tag_row(1, "cute", 2, 2)]).is_none());
    assert!(restore(sound_users(), vec![], vec![tag_row(1, "cute", 2, 1)]).is_none());
}

#[test]
fn registering_fails_when_the_identifiers_have_run_out() {
    let mut store = restore(vec![account(i32::MAX, 1001, "last", false)], vec![], vec![]).unwrap();
    assert_eq!(store.register(1002, "late"), Err(EngineError::StoreUnavailable));
    assert_eq!(store.register(1001, "last"), Err(EngineError::AlreadyRegistered));
    assert_eq!(store.users().len(), 1);
}

#[test]
fn resolving_fails_when_the_identifiers_have_run_out() {
    let mut store = restore(vec![], vec![sticker_row(i32::MAX, "last", 0)], vec![]).unwrap();
    assert_eq!(store.resolve_or_create("late", "f", None), Err(EngineError::StoreUnavailable));
    assert_eq!(store.resolve_or_create("last", "f", None), Ok(i32::MAX));
    assert_eq!(store.stickers().len(), 1);
}

#[test]
fn tagging_fails_as_a_whole_when_the_identifiers_do_not_last() {
    let users = vec![account(1, 1001, "alice", true)];
    let stickers = vec![sticker_row(1, "a", 0)];
    let tags = vec![tag_row(i32::MAX - 2, "old", 1, 1)];
    let mut store = restore(users, stickers, tags).unwrap();
    let res = store.tag_at(1001, "b", "file-b", Some("set".to_string()), "x y z", 1);
    assert_eq!(res, Err(EngineError::StoreUnavailable));
    assert_eq!(store.tags().len(), 1);
    assert_eq!(store.stickers().len(), 2);
    let res = store.tag_at(1001, "b", "file-b", Some("set".to_string()), "x y", 1);
    assert_eq!(res, Ok(vec!["x".to_string(), "y".to_string()]));
    assert_eq!(store.tags().last().unwrap().id, i32::MAX);
    assert_eq!(store.tags().len(), 3);
}

#[test]
fn a_popularity_that_cannot_rise_stays() {
    let mut store = restore(vec![], vec![sticker_row(1, "a", i64::MAX - 1)], vec![]).unwrap();
    assert_eq!(store.record_selection(1), Selection::Counted);
    assert_eq!(store.stickers()[0].popularity, i64::MAX);
    assert_eq!(store.record_selection(1), Selection::Saturated);
    assert_eq!(store.stickers()[0].popularity, i64::MAX);
}
