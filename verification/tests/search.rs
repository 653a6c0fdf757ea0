use sticker_search::model::{sticker, tagged_sticker};
use sticker_search::search::{search_in, DEFAULT_LIMIT};
use sticker_search::store::DataStore;

fn store_with_tagger() -> DataStore {
    let mut store = DataStore::new("s3cret".to_string());
    store.register(1001, "alice").unwrap();
    store.register(1002, "bob").unwrap();
    store.approve("s3cret", "alice").unwrap();
    store.approve("s3cret", "bob").unwrap();
    store
}

fn tag(store: &mut DataStore, key: &str, text: &str) {
    store.tag_at(1001, key, &format!("file-{}", key), Some("set".to_string()), text, 1).unwrap();
}

fn pick(store: &mut DataStore, key: &str, times: usize) {
    let id = store.find_sticker(key).unwrap().id;
    for _ in 0..times {
        store.record_selection(id);
    }
}

fn files(found: &[(i32, String)]) -> Vec<&str> {
    found.iter().map(|e| e.1.as_str()).collect()
}

#[test]
fn an_empty_query_finds_nothing() {
    let mut store = store_with_tagger();
    tag(&mut store, "a", "cute blue");
    assert_eq!(store.search(""), Vec::<(i32, String)>::new());
}

#[test]
fn a_blank_query_finds_nothing() {
    let mut store = store_with_tagger();
    tag(&mut store, "a", "cute blue");
    assert_eq!(store.search("   "), Vec::<(i32, String)>::new());
    assert_eq!(store.search("\t\n"), Vec::<(i32, String)>::new());
}

#[test]
fn a_search_in_an_empty_store_finds_nothing() {
    let store = store_with_tagger();
    assert_eq!(store.search("cute"), Vec::<(i32, String)>::new());
}

#[test]
fn more_matches_come_first_then_more_popular() {
    let mut store = store_with_tagger();
    tag(&mut store, "A", "cute blue");
    tag(&mut store, "B", "cute blue");
    tag(&mut store, "C", "cute");
    pick(&mut store, "A", 5);
    pick(&mut store, "B", 10);
    pick(&mut store, "C", 100);
    let found = store.search("cute blue");
    assert_eq!(found, vec![
        (2, "file-B".to_string()),
        (1, "file-A".to_string()),
        (3, "file-C".to_string()),
    ]);
}

#[test]
fn equal_stickers_keep_their_order() {
    let mut store = store_with_tagger();
    tag(&mut store, "x", "cute");
    tag(&mut store, "y", "cute");
    tag(&mut store, "z", "cute");
    assert_eq!(files(&store.search("cute")), vec!["file-x", "file-y", "file-z"]);
    pick(&mut store, "y", 1);
    assert_eq!(files(&store.search("cute")), vec!["file-y", "file-x", "file-z"]);
    pick(&mut store, "x", 1);
    pick(&mut store, "z", 1);
    assert_eq!(files(&store.search("cute")), vec!["file-x", "file-y", "file-z"]);
}

#[test]
fn a_tag_matches_where_it_contains_the_word() {
    let mut store = store_with_tagger();
    tag(&mut store, "a", "supercute");
    tag(&mut store, "b", "cut");
    tag(&mut store, "c", "acute");
    tag(&mut store, "d", "Cute");
    assert_eq!(files(&store.search("cute")), vec!["file-a", "file-c"]);
    assert_eq!(files(&store.search("cut")), vec!["file-a", "file-b", "file-c"]);
    assert_eq!(files(&store.search("Cute")), vec!["file-d"]);
    assert_eq!(files(&store.search("dog")), Vec::<&str>::new());
}

#[test]
fn a_repeated_word_counts_once() {
    let mut store = store_with_tagger();
    tag(&mut store, "a", "cute");
    tag(&mut store, "b", "cute blue");
    pick(&mut store, "a", 3);
    assert_eq!(files(&store.search("cute cute cute blue")), vec!["file-b", "file-a"]);
    assert_eq!(files(&store.search("cute cute cute")), vec!["file-a", "file-b"]);
}

#[test]
fn a_word_in_several_tags_counts_once() {
    let mut store = store_with_tagger();
    tag(&mut store, "a", "cute cuter cutest");
    store.tag_at(1002, "a", "file-a", Some("set".to_string()), "cute", 2).unwrap();
    tag(&mut store, "b", "cute blue");
    assert_eq!(files(&store.search("cute blue")), vec!["file-b", "file-a"]);
}

#[test]
fn two_words_in_one_tag_count_twice() {
    let mut store = store_with_tagger();
    tag(&mut store, "a", "cute");
    tag(&mut store, "b", "bluecute");
    pick(&mut store, "a", 9);
    assert_eq!(files(&store.search("cute blue")), vec!["file-b", "file-a"]);
}

#[test]
fn a_search_is_cut_at_the_limit() {
    let mut store = store_with_tagger();
    for k in 0..7 {
        tag(&mut store, &format!("k{}", k), "cute");
    }
    pick(&mut store, "k5", 2);
    pick(&mut store, "k3", 1);
    assert_eq!(files(&store.search_with_limit("cute", 3)), vec!["file-k5", "file-k3", "file-k0"]);
    assert_eq!(store.search_with_limit("cute", 7).len(), 7);
    assert_eq!(store.search_with_limit("cute", 100).len(), 7);
    assert_eq!(store.search_with_limit("cute", 1), vec![(6, "file-k5".to_string())]);
    assert_eq!(store.search_with_limit("cute", 0), Vec::<(i32, String)>::new());
}

#[test]
fn a_search_returns_fifty_stickers_at_most() {
    let mut store = store_with_tagger();
    for k in 0..60 {
        tag(&mut store, &format!("k{}", k), "cute");
    }
    assert_eq!(DEFAULT_LIMIT, 50);
    let found = store.search("cute");
    assert_eq!(found.len(), 50);
    assert_eq!(found[0], (1, "file-k0".to_string()));
    assert_eq!(found[49], (50, "file-k49".to_string()));
}

#[test]
fn a_search_changes_nothing() {
    let mut store = store_with_tagger();
    tag(&mut store, "a", "cute");
    let stickers = store.stickers().clone();
    let tags = store.tags().clone();
    store.search("cute");
    store.search("");
    assert_eq!(*store.stickers(), stickers);
    assert_eq!(*store.tags(), tags);
}

#[test]
fn tagged_then_found_then_untagged_then_not_found() {
    let mut store = store_with_tagger();
    tag(&mut store, "a", "cute blue");
    assert_eq!(store.search("cute"), vec![(1, "file-a".to_string())]);
    assert_eq!(store.untag(1001, "a", "cute"), Ok(1));
    assert_eq!(store.search("cute"), Vec::<(i32, String)>::new());
    assert_eq!(store.search("blue"), vec![(1, "file-a".to_string())]);
}

#[test]
fn untagged_but_still_found_through_another_taggers_tag() {
    let mut store = store_with_tagger();
    tag(&mut store, "a", "cute");
    store.tag_at(1002, "a", "file-a", Some("set".to_string()), "cute", 2).unwrap();
    assert_eq!(store.untag(1001, "a", "cute"), Ok(1));
    assert_eq!(store.search("cute"), vec![(1, "file-a".to_string())]);
}

fn sticker_row(id: i32, popularity: i64) -> sticker::Model {
    sticker::Model {
        id,
        file_unique_id: format!("u{}", id),
        file_id: format!("f{}", id),
        set_name: None,
        popularity,
    }
}

fn tag_row(id: i32, sticker_id: i32, tag: &str) -> tagged_sticker::Model {
    tagged_sticker::Model { id, tag: tag.to_string(), sticker_id, tagger_id: 1, ts: 0 }
}

#[test]
fn search_in_ranks_rows_from_anywhere() {
    let stickers = vec![sticker_row(10, 5), sticker_row(20, 10), sticker_row(30, 100), sticker_row(40, 7)];
    let tags = vec![
        tag_row(1, 10, "cute"),
        tag_row(2, 10, "blue"),
        tag_row(3, 20, "blue"),
        tag_row(4, 20, "cute"),
        tag_row(5, 30, "cute"),
        tag_row(6, 40, "red"),
    ];
    let words = vec!["cute".to_string(), "blue".to_string()];
    let found = search_in(&words, &tags, &stickers, 50);
    assert_eq!(found, vec![(20, "f20".to_string()), (10, "f10".to_string()), (30, "f30".to_string())]);
    assert_eq!(search_in(&words, &tags, &stickers, 2), vec![(20, "f20".to_string()), (10, "f10".to_string())]);
    assert_eq!(search_in(&Vec::new(), &tags, &stickers, 50), Vec::<(i32, String)>::new());
    assert_eq!(search_in(&words, &Vec::new(), &stickers, 50), Vec::<(i32, String)>::new());
    assert_eq!(search_in(&words, &tags, &Vec::new(), 50), Vec::<(i32, String)>::new());
}

#[test]
fn search_in_ignores_tags_of_stickers_it_was_not_given() {
    let stickers = vec![sticker_row(1, 0)];
    let tags = vec![tag_row(1, 2, "cute"), tag_row(2, 1, "blue")];
    assert_eq!(search_in(&vec!["cute".to_string()], &tags, &stickers, 50), Vec::<(i32, String)>::new());
    assert_eq!(search_in(&vec!["blue".to_string()], &tags, &stickers, 50), vec![(1, "f1".to_string())]);
}

#[test]
fn a_search_among_many_stickers() {
    let mut store = store_with_tagger();
    for k in 0..1500 {
        let text = if k % 3 == 0 { "cute round" } else if k % 3 == 1 { "cute" } else { "plain" };
        tag(&mut store, &format!("k{}", k), text);
    }
    pick(&mut store, "k1", 4);
    pick(&mut store, "k3", 2);
    let found = store.search_with_limit("round cute", 2000);
    assert_eq!(found.len(), 1000);
    assert_eq!(found[0], (4, "file-k3".to_string()));
    assert_eq!(found[1], (1, "file-k0".to_string()));
    assert_eq!(found[499], (1498, "file-k1497".to_string()));
    assert_eq!(found[500], (2, "file-k1".to_string()));
    assert_eq!(found[999], (1499, "file-k1498".to_string()));
    assert_eq!(store.search("round cute").len(), 50);
}
