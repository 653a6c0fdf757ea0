use sticker_search::command::{Command, Incoming, Reply, Sender, StickerRef, Target};
use sticker_search::error::EngineError;
use sticker_search::model::{sticker, tagged_sticker, user};
use sticker_search::store::DataStore;
use sticker_search::strings;

fn store() -> DataStore {
    let mut store = DataStore::new("s3cret".to_string());
    store.register(1001, "alice").unwrap();
    store.register(1002, "bob").unwrap();
    store.approve("s3cret", "alice").unwrap();
    store
}

fn sticker(key: &str, set_name: Option<&str>) -> Target {
    Target::Sticker(StickerRef {
        file_unique_id: key.to_string(),
        file_id: format!("file-{}", key),
        set_name: set_name.map(|s| s.to_string()),
    })
}

fn from(id: i64, username: Option<&str>, target: Target) -> Incoming {
    Incoming { sender: Some(Sender { id, username: username.map(|s| s.to_string()) }), target }
}

fn tag(text: &str) -> Command {
    Command::Tag { text: text.to_string() }
}

fn untag(text: &str) -> Command {
    Command::Untag { text: text.to_string() }
}

fn allow(text: &str) -> Command {
    Command::Allow { text: text.to_string() }
}

fn text(t: &str) -> Result<Reply, EngineError> {
    Ok(Reply::Text(t.to_string()))
}

#[test]
fn tag_answers_with_the_tags_each_on_its_line() {
    let mut store = store();
    let incoming = from(1001, Some("alice"), sticker("a", Some("set")));
    let reply = store.handle_at(&tag(" cute  blue "), &incoming, 9);
    assert_eq!(reply, text("Tagged the sticker with the following tags:\n- cute\n- blue"));
    assert_eq!(store.tags().len(), 2);
    assert_eq!(store.tags()[0].ts, 9);
    let reply = store.handle_at(&tag("one"), &incoming, 10);
    assert_eq!(reply, text("Tagged the sticker with the following tags:\n- one"));
}

#[test]
fn tag_wants_a_reply_first() {
    let mut store = store();
    let incoming = Incoming { sender: None, target: Target::NoReply };
    assert_eq!(store.handle_at(&tag("cute"), &incoming, 1), text(strings::NO_REPLY_STICKER));
    let incoming = from(4242, None, Target::NoReply);
    assert_eq!(store.handle_at(&tag("cute"), &incoming, 1), text(strings::NO_REPLY_STICKER));
}

#[test]
fn tag_wants_a_sender_next() {
    let mut store = store();
    let incoming = Incoming { sender: None, target: sticker("a", Some("set")) };
    assert_eq!(store.handle_at(&tag("cute"), &incoming, 1), text(strings::SENDER_UNKNOWN));
    let incoming = Incoming { sender: None, target: Target::NotASticker };
    assert_eq!(store.handle_at(&tag("cute"), &incoming, 1), text(strings::SENDER_UNKNOWN));
}

#[test]
fn tag_wants_a_tagger_before_it_looks_at_the_sticker() {
    let mut store = store();
    let stranger = from(4242, Some("eve"), Target::NotASticker);
    assert_eq!(store.handle_at(&tag("cute"), &stranger, 1), text(strings::TAG_NOT_AUTHORIZED));
    let pending = from(1002, Some("bob"), sticker("a", None));
    assert_eq!(store.handle_at(&tag(""), &pending, 1), text(strings::TAG_NOT_AUTHORIZED));
    assert!(store.tags().is_empty());
    assert!(store.stickers().is_empty());
}

#[test]
fn tag_wants_a_sticker_of_a_set_and_a_word() {
    let mut store = store();
    let no_sticker = from(1001, Some("alice"), Target::NotASticker);
    assert_eq!(store.handle_at(&tag("cute"), &no_sticker, 1), text(strings::NO_REPLY_STICKER));
    let no_set = from(1001, Some("alice"), sticker("a", None));
    assert_eq!(store.handle_at(&tag("cute"), &no_set, 1), text(strings::NO_STICKER_SET));
    let fine = from(1001, Some("alice"), sticker("a", Some("set")));
    assert_eq!(store.handle_at(&tag("  "), &fine, 1), text(strings::NO_TAGS));
    assert!(store.tags().is_empty());
    assert!(store.stickers().is_empty());
}

#[test]
fn tag_fails_where_the_store_cannot_take_the_tags() {
    let users = vec![user::Model { id: 1, user_id: 1001, username: "alice".to_string(), allowed: true }];
    let stickers = vec![sticker::Model {
        id: 1,
        file_unique_id: "a".to_string(),
        file_id: "file-a".to_string(),
        set_name: Some("set".to_string()),
        popularity: 0,
    }];
    let tags = vec![tagged_sticker::Model {
        id: i32::MAX,
        tag: "old".to_string(),
        sticker_id: 1,
        tagger_id: 1,
        ts: 0,
    }];
    let mut store = DataStore::restore("s3cret".to_string(), users, stickers, tags).unwrap();
    let incoming = from(1001, Some("alice"), sticker("a", Some("set")));
    assert_eq!(store.handle_at(&tag("cute"), &incoming, 1), Err(EngineError::StoreUnavailable));
    assert_eq!(store.tags().len(), 1);
}

#[test]
fn untag_answers_with_success() {
    let mut store = store();
    let incoming = from(1001, Some("alice"), sticker("a", Some("set")));
    store.handle_at(&tag("cute blue"), &incoming, 1).unwrap();
    assert_eq!(store.handle_at(&untag("cute"), &incoming, 2), text(strings::UNTAG_SUCCESS));
    assert_eq!(store.tags().len(), 1);
    assert_eq!(store.tags()[0].tag, "blue");
    assert_eq!(store.handle_at(&untag("nothing"), &incoming, 3), text(strings::UNTAG_SUCCESS));
    assert_eq!(store.handle_at(&untag(""), &incoming, 3), text(strings::UNTAG_SUCCESS));
    assert_eq!(store.tags().len(), 1);
}

#[test]
fn untag_makes_the_checks_that_tag_makes() {
    let mut store = store();
    let tagger = from(1001, Some("alice"), sticker("a", Some("set")));
    store.handle_at(&tag("cute"), &tagger, 1).unwrap();
    let no_reply = from(1001, Some("alice"), Target::NoReply);
    assert_eq!(store.handle_at(&untag("cute"), &no_reply, 2), text(strings::NO_REPLY_STICKER));
    let nobody = Incoming { sender: None, target: sticker("a", Some("set")) };
    assert_eq!(store.handle_at(&untag("cute"), &nobody, 2), text(strings::SENDER_UNKNOWN));
    let pending = from(1002, Some("bob"), sticker("a", Some("set")));
    assert_eq!(store.handle_at(&untag("cute"), &pending, 2), text(strings::TAG_NOT_AUTHORIZED));
    let no_sticker = from(1001, Some("alice"), Target::NotASticker);
    assert_eq!(store.handle_at(&untag("cute"), &no_sticker, 2), text(strings::NO_REPLY_STICKER));
    let unknown = from(1001, Some("alice"), sticker("z", Some("set")));
    assert_eq!(store.handle_at(&untag("cute"), &unknown, 2), text(strings::STICKER_UNTAGGED));
    assert_eq!(store.tags().len(), 1);
}

#[test]
fn untag_does_not_ask_for_a_sticker_set() {
    let mut store = store();
    let tagger = from(1001, Some("alice"), sticker("a", Some("set")));
    store.handle_at(&tag("cute"), &tagger, 1).unwrap();
    let no_set = from(1001, Some("alice"), sticker("a", None));
    assert_eq!(store.handle_at(&untag("cute"), &no_set, 2), text(strings::UNTAG_SUCCESS));
    assert!(store.tags().is_empty());
}

#[test]
fn list_tags_answers_with_the_tags_in_one_line() {
    let mut store = store();
    let tagger = from(1001, Some("alice"), sticker("a", Some("set")));
    store.handle_at(&tag("cute blue"), &tagger, 1).unwrap();
    store.handle_at(&tag("round"), &tagger, 2).unwrap();
    let anybody = Incoming { sender: None, target: sticker("a", None) };
    assert_eq!(store.handle_at(&Command::ListTags, &anybody, 3), text("Tags on this sticker: cute blue round"));
}

#[test]
fn list_tags_of_an_untagged_sticker() {
    let mut store = store();
    let tagger = from(1001, Some("alice"), sticker("a", Some("set")));
    let unknown = from(4242, None, sticker("z", None));
    assert_eq!(store.handle_at(&Command::ListTags, &unknown, 1), text(strings::STICKER_UNTAGGED));
    store.handle_at(&tag("cute"), &tagger, 1).unwrap();
    store.handle_at(&untag("cute"), &tagger, 2).unwrap();
    assert_eq!(store.handle_at(&Command::ListTags, &tagger, 3), text(strings::STICKER_UNTAGGED));
}

#[test]
fn list_tags_wants_a_sticker() {
    let mut store = store();
    let no_reply = from(1001, Some("alice"), Target::NoReply);
    assert_eq!(store.handle_at(&Command::ListTags, &no_reply, 1), text(strings::NO_REPLY_STICKER));
    let no_sticker = from(1001, Some("alice"), Target::NotASticker);
    assert_eq!(store.handle_at(&Command::ListTags, &no_sticker, 1), text(strings::NO_REPLY_STICKER));
}

#[test]
fn register_opens_an_account_and_asks_for_approval() {
    let mut store = store();
    let incoming = from(1003, Some("carol"), Target::NoReply);
    assert_eq!(store.handle_at(&Command::Register, &incoming, 1), text(strings::NEED_APPROVAL));
    assert_eq!(store.users().len(), 3);
    assert_eq!(store.users()[2].user_id, 1003);
    assert_eq!(store.users()[2].username, "carol");
    assert!(!store.users()[2].allowed);
}

#[test]
fn register_wants_a_sender_with_a_handle() {
    let mut store = store();
    let nobody = Incoming { sender: None, target: Target::NoReply };
    assert_eq!(store.handle_at(&Command::Register, &nobody, 1), text(strings::SENDER_UNKNOWN));
    let nameless = from(1003, None, Target::NoReply);
    assert_eq!(store.handle_at(&Command::Register, &nameless, 1), text(strings::USERNAME_MISSING));
    assert_eq!(store.users().len(), 2);
}

#[test]
fn register_twice_is_answered_softly() {
    let mut store = store();
    let incoming = from(1001, Some("alice"), Target::NoReply);
    assert_eq!(store.handle_at(&Command::Register, &incoming, 1), text(strings::ALREADY_REGISTERED));
    assert_eq!(store.users().len(), 2);
    assert!(store.is_allowed(1001));
}

#[test]
fn register_fails_where_the_store_cannot_take_the_account() {
    let users = vec![user::Model { id: i32::MAX, user_id: 1, username: "a".to_string(), allowed: false }];
    let mut store = DataStore::restore("s3cret".to_string(), users, vec![], vec![]).unwrap();
    let incoming = from(2, Some("b"), Target::NoReply);
    assert_eq!(store.handle_at(&Command::Register, &incoming, 1), Err(EngineError::StoreUnavailable));
}

#[test]
fn allow_approves_and_shows_the_account() {
    let mut store = store();
    let incoming = from(1, None, Target::NoReply);
    let reply = store.handle_at(&allow("s3cret bob"), &incoming, 1).unwrap();
    let expected = user::Model { id: 2, user_id: 1002, username: "bob".to_string(), allowed: true };
    assert_eq!(reply, Reply::Approved(expected));
    assert!(store.is_allowed(1002));
    let nobody = Incoming { sender: None, target: Target::NoReply };
    assert!(store.handle_at(&allow("  s3cret \t bob  "), &nobody, 1).is_ok());
}

#[test]
fn allow_wants_two_words() {
    let mut store = store();
    let incoming = from(1, None, Target::NoReply);
    assert_eq!(store.handle_at(&allow(""), &incoming, 1), text(strings::WRONG_ARGNUM));
    assert_eq!(store.handle_at(&allow("s3cret"), &incoming, 1), text(strings::WRONG_ARGNUM));
    assert_eq!(store.handle_at(&allow("s3cret bob now"), &incoming, 1), text(strings::WRONG_ARGNUM));
    assert!(!store.is_allowed(1002));
}

#[test]
fn allow_tests_the_secret_before_the_handle() {
    let mut store = store();
    let incoming = from(1, None, Target::NoReply);
    assert_eq!(store.handle_at(&allow("guess bob"), &incoming, 1), text(strings::NO_PERM));
    assert_eq!(store.handle_at(&allow("guess nobody"), &incoming, 1), text(strings::NO_PERM));
    assert_eq!(store.handle_at(&allow("s3cret nobody"), &incoming, 1), text(strings::NOT_REGISTERED));
    assert!(!store.is_allowed(1002));
}

#[test]
fn username_or_falls_back() {
    assert_eq!(from(1, Some("alice"), Target::NoReply).username_or("<unknown>"), "alice");
    assert_eq!(from(1, None, Target::NoReply).username_or("<unknown>"), "<unknown>");
    let nobody = Incoming { sender: None, target: Target::NoReply };
    assert_eq!(nobody.username_or("<unknown>"), "<unknown>");
}

#[test]
fn help_is_help() {
    let mut store = store();
    let nobody = Incoming { sender: None, target: Target::NoReply };
    assert_eq!(store.handle_at(&Command::Help, &nobody, 1), text(&Command::descriptions()));
    assert_eq!(store.users().len(), 2);
}

#[test]
fn handle_serves_commands_now() {
    let mut store = store();
    let incoming = from(1001, Some("alice"), sticker("a", Some("set")));
    let reply = store.handle(&tag("cute"), &incoming);
    assert_eq!(reply, text("Tagged the sticker with the following tags:\n- cute"));
    assert!(store.tags()[0].ts > 1_600_000_000_000);
    assert_eq!(store.handle(&Command::ListTags, &incoming), text("Tags on this sticker: cute"));
    assert_eq!(store.handle(&Command::Help, &incoming), text(&Command::descriptions()));
}

#[test]
fn the_texts_are_the_ones_people_know() {
    assert_eq!(strings::SENDER_UNKNOWN, "Failed to find the sender of this message");
    assert_eq!(strings::TAG_NOT_AUTHORIZED, "You're not authorized to tag stickers");
    assert_eq!(strings::TAGGED_STICKER, "Tagged the sticker with the following tags:");
    assert_eq!(strings::USERNAME_MISSING, "You must set a username (check your Telegram settings)");
    assert_eq!(strings::NEED_APPROVAL, "Great! Now tell the admin to approve your request");
    assert_eq!(strings::NOT_REGISTERED, "The specified user has not registered");
    assert_eq!(strings::WRONG_ARGNUM, "Wrong number of arguments");
    assert_eq!(strings::NO_PERM, "*You're not supposed to do that*");
    assert_eq!(
        strings::NO_STICKER_SET,
        "Tagging is only supported for stickers that are contained in sticker sets"
    );
    assert_eq!(strings::STICKER_UNTAGGED, "This sticker is not tagged");
    assert_eq!(strings::UNTAG_SUCCESS, "Successfully removed the specified tags");
}
