//! The mathematical model of the engine's data: three tables of records,
//! the administrator's secret, and the last identifier given out in each
//! table.
//!
//! Every contract of the engine is stated over a [`State`]; what holds of
//! every state that the engine can reach is [`State::wf`].

use crate::model::{sticker, tagged_sticker, user};
use crate::text::is_word;
use vstd::prelude::*;

verus! {

/// Whether removing the tags `words` that the tagger `tagger_id` put on the
/// sticker `sticker_id` removes `row`.
pub open spec fn is_removed(
    row: tagged_sticker::Row,
    sticker_id: i32,
    words: Seq<Seq<char>>,
    tagger_id: i32,
) -> bool {
    &&& row.sticker_id == sticker_id
    &&& row.tagger_id == tagger_id
    &&& words.contains(row.tag)
}

/// The tags that stay when the tags `words` of the tagger `tagger_id` are
/// taken off the sticker `sticker_id`.
pub open spec fn stays(sticker_id: i32, words: Seq<Seq<char>>, tagger_id: i32) -> spec_fn(
    tagged_sticker::Row,
) -> bool {
    |row: tagged_sticker::Row| !is_removed(row, sticker_id, words, tagger_id)
}

/// All that the engine knows at one moment.
pub struct State {
    /// The known accounts, oldest first.
    pub users: Seq<user::Row>,
    /// The known stickers, oldest first.
    pub stickers: Seq<sticker::Row>,
    /// The tags that are currently on stickers, oldest first.
    pub tags: Seq<tagged_sticker::Row>,
    /// What an administrator has to present.
    pub secret: Seq<char>,
    /// The identifier of the newest account ever stored, 0 before the
    /// first.
    pub last_user_id: i32,
    /// The identifier of the newest sticker ever stored, 0 before the
    /// first.
    pub last_sticker_id: i32,
    /// The identifier of the newest tag ever stored, 0 before the first.
    /// Removing a tag does not free its identifier.
    pub last_tag_id: i32,
}

impl State {
    /// The state of an engine that has not been used yet.
    pub open spec fn empty(secret: Seq<char>) -> State {
        State {
            users: Seq::empty(),
            stickers: Seq::empty(),
            tags: Seq::empty(),
            secret,
            last_user_id: 0,
            last_sticker_id: 0,
            last_tag_id: 0,
        }
    }

    /// Whether position `i` holds the account of the platform user
    /// `user_id`.
    pub open spec fn user_at(self, i: int, user_id: i64) -> bool {
        0 <= i < self.users.len() && self.users[i].user_id == user_id
    }

    /// Whether position `i` holds the first account whose handle is
    /// `username`.
    pub open spec fn first_named_at(self, i: int, username: Seq<char>) -> bool {
        &&& 0 <= i < self.users.len()
        &&& self.users[i].username == username
        &&& forall|j: int| 0 <= j < i ==> (#[trigger] self.users[j]).username != username
    }

    /// Whether position `i` holds the account with the internal
    /// identifier `id`.
    pub open spec fn user_id_at(self, i: int, id: i32) -> bool {
        0 <= i < self.users.len() && self.users[i].id == id
    }

    /// Whether position `i` holds the sticker that the platform calls
    /// `file_unique_id`.
    pub open spec fn sticker_at(self, i: int, file_unique_id: Seq<char>) -> bool {
        0 <= i < self.stickers.len() && self.stickers[i].file_unique_id == file_unique_id
    }

    /// Whether position `i` holds the sticker with the internal
    /// identifier `id`.
    pub open spec fn sticker_id_at(self, i: int, id: i32) -> bool {
        0 <= i < self.stickers.len() && self.stickers[i].id == id
    }

    /// Whether some account has the internal identifier `id`.
    pub open spec fn has_user_id(self, id: i32) -> bool {
        exists|k: int| self.user_id_at(k, id)
    }

    /// Whether some sticker has the internal identifier `id`.
    pub open spec fn has_sticker_id(self, id: i32) -> bool {
        exists|k: int| self.sticker_id_at(k, id)
    }

    /// The account of the platform user `user_id`, if there is one.
    pub open spec fn user(self, user_id: i64) -> Option<user::Row> {
        if exists|i: int| self.user_at(i, user_id) {
            Some(self.users[choose|i: int| self.user_at(i, user_id)])
        } else {
            None
        }
    }

    /// The oldest account whose handle is `username`, if there is one.
    pub open spec fn user_named(self, username: Seq<char>) -> Option<user::Row> {
        if exists|i: int| self.first_named_at(i, username) {
            Some(self.users[choose|i: int| self.first_named_at(i, username)])
        } else {
            None
        }
    }

    /// The sticker that the platform calls `file_unique_id`, if it is
    /// known.
    pub open spec fn sticker(self, file_unique_id: Seq<char>) -> Option<sticker::Row> {
        if exists|i: int| self.sticker_at(i, file_unique_id) {
            Some(self.stickers[choose|i: int| self.sticker_at(i, file_unique_id)])
        } else {
            None
        }
    }

    /// The sticker with the internal identifier `id`, if there is one.
    pub open spec fn sticker_by_id(self, id: i32) -> Option<sticker::Row> {
        if exists|i: int| self.sticker_id_at(i, id) {
            Some(self.stickers[choose|i: int| self.sticker_id_at(i, id)])
        } else {
            None
        }
    }

    /// The state with one more account, the newest.
    pub open spec fn with_user(self, row: user::Row) -> State {
        State { users: self.users.push(row), last_user_id: row.id, ..self }
    }

    /// The state with one more sticker, the newest.
    pub open spec fn with_sticker(self, row: sticker::Row) -> State {
        State { stickers: self.stickers.push(row), last_sticker_id: row.id, ..self }
    }

    /// The state in which the account at position `i` may tag.
    pub open spec fn allowing(self, i: int) -> State
        recommends
            0 <= i < self.users.len(),
    {
        State {
            users: self.users.update(i, user::Row { allowed: true, ..self.users[i] }),
            ..self
        }
    }

    /// The state in which the sticker at position `i` has been picked
    /// once more.
    pub open spec fn picked(self, i: int) -> State
        recommends
            0 <= i < self.stickers.len(),
    {
        State {
            stickers: self.stickers.update(
                i,
                sticker::Row {
                    popularity: (self.stickers[i].popularity + 1) as i64,
                    ..self.stickers[i]
                },
            ),
            ..self
        }
    }

    /// The records of the tags `words`, put on the sticker `sticker_id`
    /// by the tagger `tagger_id` at the time `ts`: one for each word, in
    /// their order, numbered on from the last tag.
    pub open spec fn new_tags(
        self,
        words: Seq<Seq<char>>,
        sticker_id: i32,
        tagger_id: i32,
        ts: i64,
    ) -> Seq<tagged_sticker::Row> {
        Seq::new(
            words.len(),
            |k: int|
                tagged_sticker::Row {
                    id: (self.last_tag_id + 1 + k) as i32,
                    tag: words[k],
                    sticker_id,
                    tagger_id,
                    ts,
                },
        )
    }

    /// The state with the tags `rows` added, as the newest.
    pub open spec fn with_tags(self, rows: Seq<tagged_sticker::Row>) -> State {
        State {
            tags: self.tags + rows,
            last_tag_id: (self.last_tag_id + rows.len()) as i32,
            ..self
        }
    }

    /// The state without the tags `words` that the tagger `tagger_id` put
    /// on the sticker `sticker_id`. Tags of other taggers, of other
    /// stickers and with other words stay.
    pub open spec fn without_tags(
        self,
        sticker_id: i32,
        words: Seq<Seq<char>>,
        tagger_id: i32,
    ) -> State {
        State { tags: self.tags.filter(stays(sticker_id, words, tagger_id)), ..self }
    }

    /// Accounts are numbered upwards from 1 in the order in which they
    /// came, and no platform user has two.
    pub open spec fn users_wf(self) -> bool {
        &&& 0 <= self.last_user_id
        &&& forall|i: int|
            0 <= i < self.users.len() ==> 1 <= (#[trigger] self.users[i]).id <= self.last_user_id
        &&& forall|i: int, j: int|
            0 <= i < j < self.users.len() ==> (#[trigger] self.users[i]).id < (
            #[trigger] self.users[j]).id
        &&& forall|i: int, j: int|
            0 <= i < j < self.users.len() ==> (#[trigger] self.users[i]).user_id != (
            #[trigger] self.users[j]).user_id
    }

    /// Stickers are numbered upwards from 1 in the order in which they
    /// came, no sticker of the platform is stored twice, and no
    /// popularity is negative.
    pub open spec fn stickers_wf(self) -> bool {
        &&& 0 <= self.last_sticker_id
        &&& forall|i: int|
            0 <= i < self.stickers.len() ==> 1 <= (#[trigger] self.stickers[i]).id
                <= self.last_sticker_id
        &&& forall|i: int, j: int|
            0 <= i < j < self.stickers.len() ==> (#[trigger] self.stickers[i]).id < (
            #[trigger] self.stickers[j]).id
        &&& forall|i: int, j: int|
            0 <= i < j < self.stickers.len() ==> (#[trigger] self.stickers[i]).file_unique_id != (
            #[trigger] self.stickers[j]).file_unique_id
        &&& forall|i: int| 0 <= i < self.stickers.len() ==> 0 <= (#[trigger] self.stickers[i]).popularity
    }

    /// Tags are numbered upwards from 1 in the order in which they came,
    /// each is a single word, and each names a sticker and a tagger that
    /// exist.
    pub open spec fn tags_wf(self) -> bool {
        &&& 0 <= self.last_tag_id
        &&& forall|i: int|
            0 <= i < self.tags.len() ==> 1 <= (#[trigger] self.tags[i]).id <= self.last_tag_id
        &&& forall|i: int, j: int|
            0 <= i < j < self.tags.len() ==> (#[trigger] self.tags[i]).id < (
            #[trigger] self.tags[j]).id
        &&& forall|i: int| 0 <= i < self.tags.len() ==> is_word((#[trigger] self.tags[i]).tag)
        &&& forall|i: int|
            0 <= i < self.tags.len() ==> self.has_sticker_id((#[trigger] self.tags[i]).sticker_id)
        &&& forall|i: int|
            0 <= i < self.tags.len() ==> self.has_user_id((#[trigger] self.tags[i]).tagger_id)
    }

    /// What holds of every state that the engine can reach.
    pub open spec fn wf(self) -> bool {
        &&& self.users_wf()
        &&& self.stickers_wf()
        &&& self.tags_wf()
    }
}

/// A new account keeps a state well formed if it gets the next
/// identifier and its platform user had none before.
pub proof fn lemma_with_user_wf(s: State, row: user::Row)
    requires
        s.wf(),
        row.id == s.last_user_id + 1,
        s.user(row.user_id) is None,
    ensures
        s.with_user(row).wf(),
{
    let t = s.with_user(row);
    assert forall|i: int, j: int| 0 <= i < j < t.users.len() implies (#[trigger] t.users[i]).user_id
        != (#[trigger] t.users[j]).user_id by {
        if j == s.users.len() {
            assert(!s.user_at(i, row.user_id));
        }
    }
    assert forall|i: int| 0 <= i < t.tags.len() implies t.has_user_id(
        (#[trigger] t.tags[i]).tagger_id,
    ) by {
        let k = choose|k: int| s.user_id_at(k, s.tags[i].tagger_id);
        assert(t.user_id_at(k, t.tags[i].tagger_id));
    }
    assert forall|i: int| 0 <= i < t.tags.len() implies t.has_sticker_id(
        (#[trigger] t.tags[i]).sticker_id,
    ) by {
        let k = choose|k: int| s.sticker_id_at(k, s.tags[i].sticker_id);
        assert(t.sticker_id_at(k, t.tags[i].sticker_id));
    }
}

/// A new sticker keeps a state well formed if it gets the next
/// identifier, was not stored before, and has no negative popularity.
pub proof fn lemma_with_sticker_wf(s: State, row: sticker::Row)
    requires
        s.wf(),
        row.id == s.last_sticker_id + 1,
        s.sticker(row.file_unique_id) is None,
        0 <= row.popularity,
    ensures
        s.with_sticker(row).wf(),
{
    let t = s.with_sticker(row);
    assert forall|i: int, j: int| 0 <= i < j < t.stickers.len() implies (
    #[trigger] t.stickers[i]).file_unique_id != (#[trigger] t.stickers[j]).file_unique_id by {
        if j == s.stickers.len() {
            assert(!s.sticker_at(i, row.file_unique_id));
        }
    }
    assert forall|i: int| 0 <= i < t.tags.len() implies t.has_user_id(
        (#[trigger] t.tags[i]).tagger_id,
    ) by {
        let k = choose|k: int| s.user_id_at(k, s.tags[i].tagger_id);
        assert(t.user_id_at(k, t.tags[i].tagger_id));
    }
    assert forall|i: int| 0 <= i < t.tags.len() implies t.has_sticker_id(
        (#[trigger] t.tags[i]).sticker_id,
    ) by {
        let k = choose|k: int| s.sticker_id_at(k, s.tags[i].sticker_id);
        assert(t.sticker_id_at(k, t.tags[i].sticker_id));
    }
}

/// Approving an account keeps a state well formed.
pub proof fn lemma_allowing_wf(s: State, i: int)
    requires
        s.wf(),
        0 <= i < s.users.len(),
    ensures
        s.allowing(i).wf(),
{
    let t = s.allowing(i);
    assert forall|a: int| 0 <= a < t.users.len() implies (#[trigger] t.users[a]).id
        == s.users[a].id && t.users[a].user_id == s.users[a].user_id by {}
    assert forall|a: int| 0 <= a < t.tags.len() implies t.has_user_id(
        (#[trigger] t.tags[a]).tagger_id,
    ) by {
        let k = choose|k: int| s.user_id_at(k, s.tags[a].tagger_id);
        assert(t.user_id_at(k, t.tags[a].tagger_id));
    }
    assert forall|a: int| 0 <= a < t.tags.len() implies t.has_sticker_id(
        (#[trigger] t.tags[a]).sticker_id,
    ) by {
        let k = choose|k: int| s.sticker_id_at(k, s.tags[a].sticker_id);
        assert(t.sticker_id_at(k, t.tags[a].sticker_id));
    }
}

/// Counting a pick keeps a state well formed.
pub proof fn lemma_picked_wf(s: State, i: int)
    requires
        s.wf(),
        0 <= i < s.stickers.len(),
        s.stickers[i].popularity < i64::MAX,
    ensures
        s.picked(i).wf(),
{
    let t = s.picked(i);
    assert forall|a: int| 0 <= a < t.stickers.len() implies (#[trigger] t.stickers[a]).id
        == s.stickers[a].id && t.stickers[a].file_unique_id == s.stickers[a].file_unique_id
        && t.stickers[a].popularity >= s.stickers[a].popularity by {}
    assert forall|a: int| 0 <= a < t.tags.len() implies t.has_user_id(
        (#[trigger] t.tags[a]).tagger_id,
    ) by {
        let k = choose|k: int| s.user_id_at(k, s.tags[a].tagger_id);
        assert(t.user_id_at(k, t.tags[a].tagger_id));
    }
    assert forall|a: int| 0 <= a < t.tags.len() implies t.has_sticker_id(
        (#[trigger] t.tags[a]).sticker_id,
    ) by {
        let k = choose|k: int| s.sticker_id_at(k, s.tags[a].sticker_id);
        assert(t.sticker_id_at(k, t.tags[a].sticker_id));
    }
}

/// New tags keep a state well formed if each is a word, their sticker
/// and their tagger exist, and the identifiers last.
pub proof fn lemma_with_tags_wf(
    s: State,
    words: Seq<Seq<char>>,
    sticker_id: i32,
    tagger_id: i32,
    ts: i64,
)
    requires
        s.wf(),
        forall|k: int| 0 <= k < words.len() ==> is_word(#[trigger] words[k]),
        s.has_sticker_id(sticker_id),
        s.has_user_id(tagger_id),
        s.last_tag_id + words.len() <= i32::MAX,
    ensures
        s.with_tags(s.new_tags(words, sticker_id, tagger_id, ts)).wf(),
{
    let rows = s.new_tags(words, sticker_id, tagger_id, ts);
    let t = s.with_tags(rows);
    assert forall|a: int| 0 <= a < t.tags.len() implies t.has_user_id(
        (#[trigger] t.tags[a]).tagger_id,
    ) by {
        let k = choose|k: int| s.user_id_at(k, t.tags[a].tagger_id);
        assert(t.user_id_at(k, t.tags[a].tagger_id));
    }
    assert forall|a: int| 0 <= a < t.tags.len() implies t.has_sticker_id(
        (#[trigger] t.tags[a]).sticker_id,
    ) by {
        let k = choose|k: int| s.sticker_id_at(k, t.tags[a].sticker_id);
        assert(t.sticker_id_at(k, t.tags[a].sticker_id));
    }
}

/// What stays of a table of tags after some were removed: tags of the
/// table, in the order they had.
pub proof fn lemma_filter_tags(
    tags: Seq<tagged_sticker::Row>,
    keep: spec_fn(tagged_sticker::Row) -> bool,
)
    ensures
        forall|k: int|
            0 <= k < tags.filter(keep).len() ==> tags.contains(#[trigger] tags.filter(keep)[k]),
        (forall|i: int, j: int|
            0 <= i < j < tags.len() ==> (#[trigger] tags[i]).id < (#[trigger] tags[j]).id)
            ==> (forall|i: int, j: int|
            0 <= i < j < tags.filter(keep).len() ==> (#[trigger] tags.filter(keep)[i]).id < (
            #[trigger] tags.filter(keep)[j]).id),
    decreases tags.len(),
{
    if tags.len() == 0 {
        reveal(Seq::filter);
    } else {
        let init = tags.drop_last();
        let last = tags.last();
        assert(tags =~= init.push(last));
        init.lemma_filter_push(last, keep);
        lemma_filter_tags(init, keep);
        let kept = tags.filter(keep);
        let before = init.filter(keep);
        assert forall|k: int| 0 <= k < kept.len() implies tags.contains(#[trigger] kept[k]) by {
            if k < before.len() {
                assert(init.contains(before[k]));
                let a = choose|a: int| 0 <= a < init.len() && init[a] == before[k];
                assert(tags[a] == kept[k]);
            } else {
                assert(tags[tags.len() - 1] == kept[k]);
            }
        }
        if forall|i: int, j: int|
            0 <= i < j < tags.len() ==> (#[trigger] tags[i]).id < (#[trigger] tags[j]).id {
            assert forall|i: int, j: int| 0 <= i < j < init.len() implies (#[trigger] init[i]).id
                < (#[trigger] init[j]).id by {
                assert(init[i] == tags[i] && init[j] == tags[j]);
            }
            assert forall|i: int, j: int| 0 <= i < j < kept.len() implies (#[trigger] kept[i]).id
                < (#[trigger] kept[j]).id by {
                if j < before.len() {
                    assert(kept[i] == before[i] && kept[j] == before[j]);
                } else {
                    assert(init.contains(before[i]));
                    let a = choose|a: int| 0 <= a < init.len() && init[a] == before[i];
                    assert(tags[a].id < tags[tags.len() - 1].id);
                }
            }
        }
    }
}

/// Removing tags keeps a state well formed.
pub proof fn lemma_without_tags_wf(
    s: State,
    sticker_id: i32,
    words: Seq<Seq<char>>,
    tagger_id: i32,
)
    requires
        s.wf(),
    ensures
        s.without_tags(sticker_id, words, tagger_id).wf(),
{
    let t = s.without_tags(sticker_id, words, tagger_id);
    lemma_filter_tags(s.tags, stays(sticker_id, words, tagger_id));
    assert forall|a: int| 0 <= a < t.tags.len() implies {
        &&& 1 <= (#[trigger] t.tags[a]).id <= t.last_tag_id
        &&& is_word(t.tags[a].tag)
        &&& t.has_sticker_id(t.tags[a].sticker_id)
        &&& t.has_user_id(t.tags[a].tagger_id)
    } by {
        assert(s.tags.contains(t.tags[a]));
        let b = choose|b: int| 0 <= b < s.tags.len() && s.tags[b] == t.tags[a];
        let k = choose|k: int| s.user_id_at(k, s.tags[b].tagger_id);
        assert(t.user_id_at(k, t.tags[a].tagger_id));
        let k = choose|k: int| s.sticker_id_at(k, s.tags[b].sticker_id);
        assert(t.sticker_id_at(k, t.tags[a].sticker_id));
    }
}

} // verus!
