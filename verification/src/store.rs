//! The engine's data, and the handful of elementary reads and writes that
//! everything else is built from.

use crate::model::{sticker, tagged_sticker, user};
use crate::state::{
    is_removed, lemma_allowing_wf, lemma_picked_wf, lemma_with_sticker_wf, lemma_with_tags_wf,
    lemma_with_user_wf, lemma_without_tags_wf, stays, State,
};
use crate::text::{is_word, is_word_str};
use vstd::prelude::*;

verus! {

/// The views of a table of accounts.
pub open spec fn user_rows(table: Seq<user::Model>) -> Seq<user::Row> {
    table.map_values(|m: user::Model| m@)
}

/// The views of a table of stickers.
pub open spec fn sticker_rows(table: Seq<sticker::Model>) -> Seq<sticker::Row> {
    table.map_values(|m: sticker::Model| m@)
}

/// The views of a table of tags.
pub open spec fn tag_rows(table: Seq<tagged_sticker::Model>) -> Seq<tagged_sticker::Row> {
    table.map_values(|m: tagged_sticker::Model| m@)
}

/// The view of an account that was looked up.
pub open spec fn user_row(found: Option<user::Model>) -> Option<user::Row> {
    match found {
        Some(u) => Some(u@),
        None => None,
    }
}

/// The view of a sticker that was looked up.
pub open spec fn sticker_row(found: Option<sticker::Model>) -> Option<sticker::Row> {
    match found {
        Some(s) => Some(s@),
        None => None,
    }
}

/// Why a record was not stored.
pub(crate) enum InsertError {
    /// A record with the same unique key is already there.
    Conflict,
    /// The table has given out its last identifier.
    Exhausted,
}

/// The state that tables of records stand for. The last identifier given
/// out in a table is taken to be that of its newest record.
pub open spec fn state_of(
    secret: Seq<char>,
    users: Seq<user::Row>,
    stickers: Seq<sticker::Row>,
    tags: Seq<tagged_sticker::Row>,
) -> State {
    State {
        users,
        stickers,
        tags,
        secret,
        last_user_id: if users.len() == 0 {
            0
        } else {
            users.last().id
        },
        last_sticker_id: if stickers.len() == 0 {
            0
        } else {
            stickers.last().id
        },
        last_tag_id: if tags.len() == 0 {
            0
        } else {
            tags.last().id
        },
    }
}

/// Whether a table of accounts is sound: the accounts are numbered from 1
/// or above, upwards, and no platform user has two.
pub open spec fn sound_users(users: Seq<user::Row>) -> bool {
    &&& forall|i: int| 0 <= i < users.len() ==> 1 <= (#[trigger] users[i]).id
    &&& forall|i: int, j: int|
        0 <= i < j < users.len() ==> (#[trigger] users[i]).id < (#[trigger] users[j]).id
    &&& forall|i: int, j: int|
        0 <= i < j < users.len() ==> (#[trigger] users[i]).user_id != (#[trigger] users[j]).user_id
}

/// Whether a table of stickers is sound: the stickers are numbered from 1
/// or above, upwards, no sticker of the platform is there twice, and no
/// popularity is negative.
pub open spec fn sound_stickers(stickers: Seq<sticker::Row>) -> bool {
    &&& forall|i: int| 0 <= i < stickers.len() ==> 1 <= (#[trigger] stickers[i]).id
    &&& forall|i: int, j: int|
        0 <= i < j < stickers.len() ==> (#[trigger] stickers[i]).id < (#[trigger] stickers[j]).id
    &&& forall|i: int, j: int|
        0 <= i < j < stickers.len() ==> (#[trigger] stickers[i]).file_unique_id != (
        #[trigger] stickers[j]).file_unique_id
    &&& forall|i: int| 0 <= i < stickers.len() ==> 0 <= (#[trigger] stickers[i]).popularity
}

/// Whether `id` is the identifier of one of `users`.
pub open spec fn is_user_id(users: Seq<user::Row>, id: i32) -> bool {
    exists|k: int| 0 <= k < users.len() && (#[trigger] users[k]).id == id
}

/// Whether `id` is the identifier of one of `stickers`.
pub open spec fn is_sticker_id(stickers: Seq<sticker::Row>, id: i32) -> bool {
    exists|k: int| 0 <= k < stickers.len() && (#[trigger] stickers[k]).id == id
}

/// Whether a tag is sound: it is a single word, on one of `stickers`, by
/// one of `users`.
pub open spec fn sound_tag(
    tag: tagged_sticker::Row,
    stickers: Seq<sticker::Row>,
    users: Seq<user::Row>,
) -> bool {
    &&& is_word(tag.tag)
    &&& is_sticker_id(stickers, tag.sticker_id)
    &&& is_user_id(users, tag.tagger_id)
}

/// Whether a table of tags is sound: the tags are numbered from 1 or
/// above, upwards, and each is sound.
pub open spec fn sound_tags(
    tags: Seq<tagged_sticker::Row>,
    stickers: Seq<sticker::Row>,
    users: Seq<user::Row>,
) -> bool {
    &&& forall|i: int| 0 <= i < tags.len() ==> 1 <= (#[trigger] tags[i]).id
    &&& forall|i: int, j: int|
        0 <= i < j < tags.len() ==> (#[trigger] tags[i]).id < (#[trigger] tags[j]).id
    &&& forall|i: int| 0 <= i < tags.len() ==> sound_tag(#[trigger] tags[i], stickers, users)
}

/// Tables make up a well formed state exactly if each of them is sound.
pub proof fn lemma_state_of_wf(
    secret: Seq<char>,
    users: Seq<user::Row>,
    stickers: Seq<sticker::Row>,
    tags: Seq<tagged_sticker::Row>,
)
    ensures
        state_of(secret, users, stickers, tags).wf() <==> sound_users(users) && sound_stickers(
            stickers,
        ) && sound_tags(tags, stickers, users),
{
    let s = state_of(secret, users, stickers, tags);
    assert forall|id: i32| s.has_user_id(id) <==> is_user_id(users, id) by {
        if s.has_user_id(id) {
            let k = choose|k: int| s.user_id_at(k, id);
            assert(users[k].id == id);
        }
        if is_user_id(users, id) {
            let k = choose|k: int| 0 <= k < users.len() && (#[trigger] users[k]).id == id;
            assert(s.user_id_at(k, id));
        }
    }
    assert forall|id: i32| s.has_sticker_id(id) <==> is_sticker_id(stickers, id) by {
        if s.has_sticker_id(id) {
            let k = choose|k: int| s.sticker_id_at(k, id);
            assert(stickers[k].id == id);
        }
        if is_sticker_id(stickers, id) {
            let k = choose|k: int| 0 <= k < stickers.len() && (#[trigger] stickers[k]).id == id;
            assert(s.sticker_id_at(k, id));
        }
    }
    if sound_users(users) && sound_stickers(stickers) && sound_tags(tags, stickers, users) {
        assert(s.users_wf()) by {
            assert forall|i: int| 0 <= i < users.len() implies (#[trigger] s.users[i]).id
                <= s.last_user_id by {
                if i < users.len() - 1 {
                    assert(users[i].id < users[users.len() - 1].id);
                }
            }
            if users.len() > 0 {
                assert(1 <= users[users.len() - 1].id);
            }
        }
        assert(s.stickers_wf()) by {
            assert forall|i: int| 0 <= i < stickers.len() implies (#[trigger] s.stickers[i]).id
                <= s.last_sticker_id by {
                if i < stickers.len() - 1 {
                    assert(stickers[i].id < stickers[stickers.len() - 1].id);
                }
            }
            if stickers.len() > 0 {
                assert(1 <= stickers[stickers.len() - 1].id);
            }
        }
        assert(s.tags_wf()) by {
            assert forall|i: int| 0 <= i < tags.len() implies (#[trigger] s.tags[i]).id
                <= s.last_tag_id by {
                if i < tags.len() - 1 {
                    assert(tags[i].id < tags[tags.len() - 1].id);
                }
            }
            if tags.len() > 0 {
                assert(1 <= tags[tags.len() - 1].id);
            }
            assert forall|i: int| 0 <= i < tags.len() implies is_word((#[trigger] s.tags[i]).tag)
                && s.has_sticker_id(s.tags[i].sticker_id) && s.has_user_id(s.tags[i].tagger_id) by {
                assert(sound_tag(tags[i], stickers, users));
            }
        }
        assert(s.wf());
    }
    if s.wf() {
        assert(sound_users(users)) by {
            assert forall|i: int| 0 <= i < users.len() implies 1 <= (#[trigger] users[i]).id by {
                assert(1 <= s.users[i].id);
            }
            assert forall|i: int, j: int| 0 <= i < j < users.len() implies (#[trigger] users[i]).id
                < (#[trigger] users[j]).id && users[i].user_id != users[j].user_id by {
                assert(s.users[i].id < s.users[j].id);
            }
        }
        assert(sound_stickers(stickers)) by {
            assert forall|i: int| 0 <= i < stickers.len() implies 1 <= (#[trigger] stickers[i]).id
                && 0 <= stickers[i].popularity by {
                assert(1 <= s.stickers[i].id);
            }
            assert forall|i: int, j: int| 0 <= i < j < stickers.len() implies (
            #[trigger] stickers[i]).id < (#[trigger] stickers[j]).id && stickers[i].file_unique_id
                != stickers[j].file_unique_id by {
                assert(s.stickers[i].id < s.stickers[j].id);
            }
        }
        assert(sound_tags(tags, stickers, users)) by {
            assert forall|i: int| 0 <= i < tags.len() implies 1 <= (#[trigger] tags[i]).id
                && sound_tag(tags[i], stickers, users) by {
                assert(1 <= s.tags[i].id);
                assert(is_word(s.tags[i].tag));
                assert(s.has_sticker_id(s.tags[i].sticker_id));
                assert(s.has_user_id(s.tags[i].tagger_id));
            }
            assert forall|i: int, j: int| 0 <= i < j < tags.len() implies (#[trigger] tags[i]).id
                < (#[trigger] tags[j]).id by {
                assert(s.tags[i].id < s.tags[j].id);
            }
        }
    }
}

/// Tests whether a table of accounts is sound.
fn users_are_sound(users: &Vec<user::Model>) -> (ok: bool)
    ensures
        ok == sound_users(user_rows(users@)),
{
    let ghost rows = user_rows(users@);
    let mut j: usize = 0;
    while j < users.len()
        invariant
            j <= users.len(),
            rows == user_rows(users@),
            sound_users(rows.take(j as int)),
        decreases users.len() - j,
    {
        if users[j].id < 1 {
            assert(!(1 <= rows[j as int].id));
            return false;
        }
        if j > 0 && users[j - 1].id >= users[j].id {
            assert(!(rows[j - 1].id < rows[j as int].id));
            return false;
        }
        let mut i: usize = 0;
        while i < j
            invariant
                i <= j,
                j < users.len(),
                rows == user_rows(users@),
                forall|a: int| 0 <= a < i ==> (#[trigger] rows[a]).user_id != rows[j as int].user_id,
            decreases j - i,
        {
            if users[i].user_id == users[j].user_id {
                assert(rows[i as int].user_id == rows[j as int].user_id);
                return false;
            }
            i += 1;
        }
        proof {
            let before = rows.take(j as int);
            let now = rows.take(j + 1);
            assert forall|a: int, b: int| 0 <= a < b < now.len() implies (#[trigger] now[a]).id < (
            #[trigger] now[b]).id && now[a].user_id != now[b].user_id by {
                if b < j {
                    assert(before[a].id < before[b].id);
                } else if a < j - 1 {
                    assert(before[a].id < before[j - 1].id);
                }
            }
            assert forall|a: int| 0 <= a < now.len() implies 1 <= (#[trigger] now[a]).id by {
                if a < j {
                    assert(1 <= before[a].id);
                }
            }
        }
        j += 1;
    }
    assert(rows.take(users.len() as int) =~= rows);
    true
}

/// Tests whether a table of stickers is sound.
fn stickers_are_sound(stickers: &Vec<sticker::Model>) -> (ok: bool)
    ensures
        ok == sound_stickers(sticker_rows(stickers@)),
{
    let ghost rows = sticker_rows(stickers@);
    let mut j: usize = 0;
    while j < stickers.len()
        invariant
            j <= stickers.len(),
            rows == sticker_rows(stickers@),
            sound_stickers(rows.take(j as int)),
        decreases stickers.len() - j,
    {
        if stickers[j].id < 1 {
            assert(!(1 <= rows[j as int].id));
            return false;
        }
        if stickers[j].popularity < 0 {
            assert(!(0 <= rows[j as int].popularity));
            return false;
        }
        if j > 0 && stickers[j - 1].id >= stickers[j].id {
            assert(!(rows[j - 1].id < rows[j as int].id));
            return false;
        }
        let mut i: usize = 0;
        while i < j
            invariant
                i <= j,
                j < stickers.len(),
                rows == sticker_rows(stickers@),
                forall|a: int|
                    0 <= a < i ==> (#[trigger] rows[a]).file_unique_id
                        != rows[j as int].file_unique_id,
            decreases j - i,
        {
            if stickers[i].file_unique_id == stickers[j].file_unique_id {
                assert(rows[i as int].file_unique_id == rows[j as int].file_unique_id);
                return false;
            }
            i += 1;
        }
        proof {
            let before = rows.take(j as int);
            let now = rows.take(j + 1);
            assert forall|a: int, b: int| 0 <= a < b < now.len() implies (#[trigger] now[a]).id < (
            #[trigger] now[b]).id && now[a].file_unique_id != now[b].file_unique_id by {
                if b < j {
                    assert(before[a].id < before[b].id);
                } else if a < j - 1 {
                    assert(before[a].id < before[j - 1].id);
                }
            }
            assert forall|a: int| 0 <= a < now.len() implies 1 <= (#[trigger] now[a]).id && 0
                <= now[a].popularity by {
                if a < j {
                    assert(1 <= before[a].id);
                }
            }
        }
        j += 1;
    }
    assert(rows.take(stickers.len() as int) =~= rows);
    true
}

/// Tests whether `id` is the identifier of one of `users`.
fn user_id_exists(users: &Vec<user::Model>, id: i32) -> (b: bool)
    ensures
        b == is_user_id(user_rows(users@), id),
{
    let ghost rows = user_rows(users@);
    let mut i: usize = 0;
    while i < users.len()
        invariant
            i <= users.len(),
            rows == user_rows(users@),
            forall|k: int| 0 <= k < i ==> (#[trigger] rows[k]).id != id,
        decreases users.len() - i,
    {
        if users[i].id == id {
            assert(rows[i as int].id == id);
            return true;
        }
        i += 1;
    }
    false
}

/// Tests whether `id` is the identifier of one of `stickers`.
fn sticker_id_exists(stickers: &Vec<sticker::Model>, id: i32) -> (b: bool)
    ensures
        b == is_sticker_id(sticker_rows(stickers@), id),
{
    let ghost rows = sticker_rows(stickers@);
    let mut i: usize = 0;
    while i < stickers.len()
        invariant
            i <= stickers.len(),
            rows == sticker_rows(stickers@),
            forall|k: int| 0 <= k < i ==> (#[trigger] rows[k]).id != id,
        decreases stickers.len() - i,
    {
        if stickers[i].id == id {
            assert(rows[i as int].id == id);
            return true;
        }
        i += 1;
    }
    false
}

/// Tests whether a table of tags is sound.
fn tags_are_sound(
    tags: &Vec<tagged_sticker::Model>,
    stickers: &Vec<sticker::Model>,
    users: &Vec<user::Model>,
) -> (ok: bool)
    ensures
        ok == sound_tags(tag_rows(tags@), sticker_rows(stickers@), user_rows(users@)),
{
    let ghost rows = tag_rows(tags@);
    let ghost srows = sticker_rows(stickers@);
    let ghost urows = user_rows(users@);
    let mut j: usize = 0;
    while j < tags.len()
        invariant
            j <= tags.len(),
            rows == tag_rows(tags@),
            srows == sticker_rows(stickers@),
            urows == user_rows(users@),
            sound_tags(rows.take(j as int), srows, urows),
        decreases tags.len() - j,
    {
        if tags[j].id < 1 {
            assert(!(1 <= rows[j as int].id));
            return false;
        }
        if j > 0 && tags[j - 1].id >= tags[j].id {
            assert(!(rows[j - 1].id < rows[j as int].id));
            return false;
        }
        if !is_word_str(tags[j].tag.as_str()) || !sticker_id_exists(stickers, tags[j].sticker_id)
            || !user_id_exists(users, tags[j].tagger_id) {
            assert(!sound_tag(rows[j as int], srows, urows));
            return false;
        }
        proof {
            let before = rows.take(j as int);
            let now = rows.take(j + 1);
            assert forall|a: int, b: int| 0 <= a < b < now.len() implies (#[trigger] now[a]).id < (
            #[trigger] now[b]).id by {
                if b < j {
                    assert(before[a].id < before[b].id);
                } else if a < j - 1 {
                    assert(before[a].id < before[j - 1].id);
                }
            }
            assert forall|a: int| 0 <= a < now.len() implies 1 <= (#[trigger] now[a]).id
                && sound_tag(now[a], srows, urows) by {
                if a < j {
                    assert(sound_tag(before[a], srows, urows));
                }
            }
        }
        j += 1;
    }
    assert(rows.take(tags.len() as int) =~= rows);
    true
}

/// Everything the engine works on: the accounts, the stickers, the tags,
/// and the secret that an administrator has to present.
///
/// The fields are private, so a value of this type is always one that
/// the engine's own operations have produced. Each of them takes a well
/// formed engine and leaves a well formed one.
pub struct DataStore {
    users: Vec<user::Model>,
    stickers: Vec<sticker::Model>,
    tags: Vec<tagged_sticker::Model>,
    secret: String,
    last_user_id: i32,
    last_sticker_id: i32,
    last_tag_id: i32,
}

impl View for DataStore {
    type V = State;

    closed spec fn view(&self) -> State {
        State {
            users: user_rows(self.users@),
            stickers: sticker_rows(self.stickers@),
            tags: tag_rows(self.tags@),
            secret: self.secret@,
            last_user_id: self.last_user_id,
            last_sticker_id: self.last_sticker_id,
            last_tag_id: self.last_tag_id,
        }
    }
}

impl DataStore {
    /// An engine without accounts, stickers or tags.
    pub fn new(secret: String) -> (store: DataStore)
        ensures
            store@ == State::empty(secret@),
            store@.wf(),
    {
        let store = DataStore {
            users: Vec::new(),
            stickers: Vec::new(),
            tags: Vec::new(),
            secret,
            last_user_id: 0,
            last_sticker_id: 0,
            last_tag_id: 0,
        };
        assert(store@ =~= State::empty(secret@)) by {
            assert(store@.users =~= Seq::empty());
            assert(store@.stickers =~= Seq::empty());
            assert(store@.tags =~= Seq::empty());
        }
        store
    }

    /// An engine that holds the records given, as they were read from
    /// where they are kept, if they make up a well formed state: see
    /// [`State::wf`]. The tables are taken oldest record first.
    pub fn restore(
        secret: String,
        users: Vec<user::Model>,
        stickers: Vec<sticker::Model>,
        tags: Vec<tagged_sticker::Model>,
    ) -> (res: Option<DataStore>)
        ensures
            match res {
                Some(store) => {
                    &&& store@ == state_of(
                        secret@,
                        user_rows(users@),
                        sticker_rows(stickers@),
                        tag_rows(tags@),
                    )
                    &&& store@.wf()
                },
                None => !state_of(
                    secret@,
                    user_rows(users@),
                    sticker_rows(stickers@),
                    tag_rows(tags@),
                ).wf(),
            },
    {
        proof {
            lemma_state_of_wf(
                secret@,
                user_rows(users@),
                sticker_rows(stickers@),
                tag_rows(tags@),
            );
        }
        if !users_are_sound(&users) || !stickers_are_sound(&stickers) || !tags_are_sound(
            &tags,
            &stickers,
            &users,
        ) {
            return None;
        }
        let last_user_id = if users.len() == 0 {
            0
        } else {
            users[users.len() - 1].id
        };
        let last_sticker_id = if stickers.len() == 0 {
            0
        } else {
            stickers[stickers.len() - 1].id
        };
        let last_tag_id = if tags.len() == 0 {
            0
        } else {
            tags[tags.len() - 1].id
        };
        Some(DataStore { users, stickers, tags, secret, last_user_id, last_sticker_id, last_tag_id })
    }

    /// Compares a secret that somebody presents with the administrator's:
    /// they match if they are the same text, character for character.
    pub fn secret_is(&self, given: &str) -> (b: bool)
        ensures
            b == (given@ == self@.secret),
    {
        given.to_owned() == self.secret
    }

    /// The identifier of the newest tag ever stored, 0 before the first.
    pub fn last_tag_id(&self) -> (id: i32)
        ensures
            id == self@.last_tag_id,
    {
        self.last_tag_id
    }

    /// The accounts, oldest first.
    pub fn users(&self) -> (table: &Vec<user::Model>)
        ensures
            user_rows(table@) == self@.users,
    {
        &self.users
    }

    /// The stickers, oldest first.
    pub fn stickers(&self) -> (table: &Vec<sticker::Model>)
        ensures
            sticker_rows(table@) == self@.stickers,
    {
        &self.stickers
    }

    /// The tags, oldest first.
    pub fn tags(&self) -> (table: &Vec<tagged_sticker::Model>)
        ensures
            tag_rows(table@) == self@.tags,
    {
        &self.tags
    }

    /// Looks an account up by the platform's user identifier.
    pub fn find_user(&self, user_id: i64) -> (found: Option<user::Model>)
        requires
            self@.wf(),
        ensures
            user_row(found) == self@.user(user_id),
    {
        let mut i: usize = 0;
        while i < self.users.len()
            invariant
                i <= self.users.len(),
                self@.wf(),
                forall|j: int| 0 <= j < i ==> !self@.user_at(j, user_id),
            decreases self.users.len() - i,
        {
            if self.users[i].user_id == user_id {
                assert(self@.user_at(i as int, user_id));
                return Some(self.users[i].clone());
            }
            i += 1;
        }
        None
    }

    /// Stores a new account, which may not tag yet, unless the platform
    /// user has one already or the identifiers have run out.
    pub(crate) fn insert_user(&mut self, user_id: i64, username: String) -> (res: Result<
        user::Model,
        InsertError,
    >)
        requires
            old(self)@.wf(),
        ensures
            final(self)@.wf(),
            match res {
                Ok(u) => {
                    &&& old(self)@.user(user_id) is None
                    &&& old(self)@.last_user_id < i32::MAX
                    &&& u@ == (user::Row {
                        id: (old(self)@.last_user_id + 1) as i32,
                        user_id,
                        username: username@,
                        allowed: false,
                    })
                    &&& final(self)@ == old(self)@.with_user(u@)
                },
                Err(InsertError::Conflict) => {
                    &&& old(self)@.user(user_id) is Some
                    &&& final(self)@ == old(self)@
                },
                Err(InsertError::Exhausted) => {
                    &&& old(self)@.user(user_id) is None
                    &&& old(self)@.last_user_id == i32::MAX
                    &&& final(self)@ == old(self)@
                },
            },
    {
        if self.find_user(user_id).is_some() {
            return Err(InsertError::Conflict);
        }
        if self.last_user_id == i32::MAX {
            return Err(InsertError::Exhausted);
        }
        let id = self.last_user_id + 1;
        let row = user::Model { id, user_id, username, allowed: false };
        let copy = row.clone();
        let ghost before = self@;
        self.last_user_id = id;
        self.users.push(row);
        proof {
            assert(self@.users =~= before.users.push(copy@));
            assert(self@ == before.with_user(copy@));
            lemma_with_user_wf(before, copy@);
        }
        Ok(copy)
    }

    /// Looks up the oldest account with the handle `username`.
    pub fn find_user_named(&self, username: &str) -> (found: Option<user::Model>)
        requires
            self@.wf(),
        ensures
            user_row(found) == self@.user_named(username@),
    {
        match self.named_position(username) {
            Some(i) => Some(self.users[i].clone()),
            None => None,
        }
    }

    /// Looks a sticker up by the platform's unique identifier.
    pub fn find_sticker(&self, file_unique_id: &str) -> (found: Option<sticker::Model>)
        requires
            self@.wf(),
        ensures
            sticker_row(found) == self@.sticker(file_unique_id@),
    {
        let wanted = file_unique_id.to_owned();
        let mut i: usize = 0;
        while i < self.stickers.len()
            invariant
                i <= self.stickers.len(),
                wanted@ == file_unique_id@,
                self@.wf(),
                forall|j: int| 0 <= j < i ==> !self@.sticker_at(j, file_unique_id@),
            decreases self.stickers.len() - i,
        {
            if self.stickers[i].file_unique_id == wanted {
                assert(self@.sticker_at(i as int, file_unique_id@));
                return Some(self.stickers[i].clone());
            }
            i += 1;
        }
        None
    }

    /// Looks a sticker up by its internal identifier.
    pub fn find_sticker_by_id(&self, id: i32) -> (found: Option<sticker::Model>)
        requires
            self@.wf(),
        ensures
            sticker_row(found) == self@.sticker_by_id(id),
    {
        match self.sticker_id_position(id) {
            Some(i) => Some(self.stickers[i].clone()),
            None => None,
        }
    }

    /// Where the oldest account with the handle `username` stands.
    pub(crate) fn named_position(&self, username: &str) -> (found: Option<usize>)
        ensures
            match found {
                Some(i) => self@.first_named_at(i as int, username@),
                None => forall|j: int| !self@.first_named_at(j, username@),
            },
    {
        let wanted = username.to_owned();
        let mut i: usize = 0;
        while i < self.users.len()
            invariant
                i <= self.users.len(),
                wanted@ == username@,
                forall|j: int| 0 <= j < i ==> (#[trigger] self@.users[j]).username != username@,
            decreases self.users.len() - i,
        {
            if self.users[i].username == wanted {
                return Some(i);
            }
            i += 1;
        }
        None
    }

    /// Where the sticker with the internal identifier `id` stands.
    pub(crate) fn sticker_id_position(&self, id: i32) -> (found: Option<usize>)
        ensures
            match found {
                Some(i) => self@.sticker_id_at(i as int, id),
                None => !self@.has_sticker_id(id),
            },
    {
        let mut i: usize = 0;
        while i < self.stickers.len()
            invariant
                i <= self.stickers.len(),
                forall|j: int| 0 <= j < i ==> !self@.sticker_id_at(j, id),
            decreases self.stickers.len() - i,
        {
            if self.stickers[i].id == id {
                return Some(i);
            }
            i += 1;
        }
        None
    }

    /// Stores a new sticker, never picked so far, unless it is stored
    /// already or the identifiers have run out.
    pub(crate) fn insert_sticker(
        &mut self,
        file_unique_id: String,
        file_id: String,
        set_name: Option<String>,
    ) -> (res: Result<sticker::Model, InsertError>)
        requires
            old(self)@.wf(),
        ensures
            final(self)@.wf(),
            match res {
                Ok(m) => {
                    &&& old(self)@.sticker(file_unique_id@) is None
                    &&& old(self)@.last_sticker_id < i32::MAX
                    &&& Some(m@) == sticker_row(
                        Some(
                            sticker::Model {
                                id: (old(self)@.last_sticker_id + 1) as i32,
                                file_unique_id,
                                file_id,
                                set_name,
                                popularity: 0,
                            },
                        ),
                    )
                    &&& final(self)@ == old(self)@.with_sticker(m@)
                },
                Err(InsertError::Conflict) => {
                    &&& old(self)@.sticker(file_unique_id@) is Some
                    &&& final(self)@ == old(self)@
                },
                Err(InsertError::Exhausted) => {
                    &&& old(self)@.sticker(file_unique_id@) is None
                    &&& old(self)@.last_sticker_id == i32::MAX
                    &&& final(self)@ == old(self)@
                },
            },
    {
        if self.find_sticker(file_unique_id.as_str()).is_some() {
            return Err(InsertError::Conflict);
        }
        if self.last_sticker_id == i32::MAX {
            return Err(InsertError::Exhausted);
        }
        let id = self.last_sticker_id + 1;
        let row = sticker::Model { id, file_unique_id, file_id, set_name, popularity: 0 };
        let copy = row.clone();
        let ghost before = self@;
        self.last_sticker_id = id;
        self.stickers.push(row);
        proof {
            assert(self@.stickers =~= before.stickers.push(copy@));
            assert(self@ == before.with_sticker(copy@));
            lemma_with_sticker_wf(before, copy@);
        }
        Ok(copy)
    }

    /// Lets the account at position `i` tag.
    pub(crate) fn set_allowed(&mut self, i: usize) -> (updated: user::Model)
        requires
            old(self)@.wf(),
            i < old(self)@.users.len(),
        ensures
            final(self)@.wf(),
            final(self)@ == old(self)@.allowing(i as int),
            updated@ == final(self)@.users[i as int],
    {
        let ghost before = self@;
        let mut row = self.users[i].clone();
        row.allowed = true;
        let copy = row.clone();
        self.users.set(i, row);
        proof {
            assert(self@.users =~= before.users.update(
                i as int,
                user::Row { allowed: true, ..before.users[i as int] },
            ));
            lemma_allowing_wf(before, i as int);
        }
        copy
    }

    /// Counts one more pick of the sticker at position `i`.
    pub(crate) fn count_pick(&mut self, i: usize)
        requires
            old(self)@.wf(),
            i < old(self)@.stickers.len(),
            old(self)@.stickers[i as int].popularity < i64::MAX,
        ensures
            final(self)@.wf(),
            final(self)@ == old(self)@.picked(i as int),
    {
        let ghost before = self@;
        let mut row = self.stickers[i].clone();
        row.popularity = row.popularity + 1;
        self.stickers.set(i, row);
        proof {
            assert(self@.stickers =~= before.picked(i as int).stickers);
            lemma_picked_wf(before, i as int);
        }
    }

    /// Stores one tag for each of `words`, all of them or, where the
    /// identifiers do not last, none.
    pub(crate) fn insert_tags(
        &mut self,
        words: &Vec<String>,
        sticker_id: i32,
        tagger_id: i32,
        ts: i64,
    ) -> (res: Result<(), InsertError>)
        requires
            old(self)@.wf(),
            forall|k: int| 0 <= k < words.len() ==> is_word(#[trigger] words[k]@),
            old(self)@.has_sticker_id(sticker_id),
            old(self)@.has_user_id(tagger_id),
        ensures
            final(self)@.wf(),
            match res {
                Ok(()) => {
                    &&& old(self)@.last_tag_id + words.len() <= i32::MAX
                    &&& final(self)@ == old(self)@.with_tags(
                        old(self)@.new_tags(words.deep_view(), sticker_id, tagger_id, ts),
                    )
                },
                Err(InsertError::Exhausted) => {
                    &&& old(self)@.last_tag_id + words.len() > i32::MAX
                    &&& final(self)@ == old(self)@
                },
                Err(InsertError::Conflict) => false,
            },
    {
        let room = (i32::MAX - self.last_tag_id) as usize;
        if words.len() > room {
            return Err(InsertError::Exhausted);
        }
        let ghost before = self@;
        let ghost rows = before.new_tags(words.deep_view(), sticker_id, tagger_id, ts);
        let n = words.len();
        let mut k: usize = 0;
        while k < n
            invariant
                n == words.len(),
                k <= n,
                before.last_tag_id + n <= i32::MAX,
                rows == before.new_tags(words.deep_view(), sticker_id, tagger_id, ts),
                self@ == before.with_tags(rows.take(k as int)),
            decreases n - k,
        {
            let id = self.last_tag_id + 1;
            let row = tagged_sticker::Model {
                id,
                tag: words[k].clone(),
                sticker_id,
                tagger_id,
                ts,
            };
            proof {
                assert(row@ == rows[k as int]);
                assert(rows.take(k + 1) =~= rows.take(k as int).push(rows[k as int]));
                assert(tag_rows(self.tags@.push(row)) =~= tag_rows(self.tags@).push(row@));
                assert(before.tags + rows.take(k + 1) =~= (before.tags + rows.take(k as int)).push(
                    rows[k as int],
                ));
            }
            self.last_tag_id = id;
            self.tags.push(row);
            k += 1;
        }
        proof {
            assert(rows.take(n as int) =~= rows);
            assert forall|k: int| 0 <= k < words.deep_view().len() implies is_word(
                #[trigger] words.deep_view()[k],
            ) by {
                assert(words.deep_view()[k] == words[k]@);
            }
            lemma_with_tags_wf(before, words.deep_view(), sticker_id, tagger_id, ts);
        }
        Ok(())
    }

    /// Tests whether `tag` is one of `words`.
    fn is_one_of(tag: &String, words: &Vec<String>) -> (b: bool)
        ensures
            b == words.deep_view().contains(tag@),
    {
        let mut k: usize = 0;
        while k < words.len()
            invariant
                k <= words.len(),
                forall|j: int| 0 <= j < k ==> words.deep_view()[j] != tag@,
            decreases words.len() - k,
        {
            if words[k] == *tag {
                assert(words.deep_view()[k as int] == tag@);
                return true;
            }
            k += 1;
        }
        false
    }

    /// Removes the tags `words` that the tagger `tagger_id` put on the
    /// sticker `sticker_id`, and says how many records went.
    pub(crate) fn delete_tags(&mut self, sticker_id: i32, words: &Vec<String>, tagger_id: i32) -> (removed:
        usize)
        requires
            old(self)@.wf(),
        ensures
            final(self)@.wf(),
            final(self)@ == old(self)@.without_tags(sticker_id, words.deep_view(), tagger_id),
            removed == old(self)@.tags.len() - final(self)@.tags.len(),
    {
        let ghost before = self@;
        let ghost keep = stays(sticker_id, words.deep_view(), tagger_id);
        let mut kept: Vec<tagged_sticker::Model> = Vec::new();
        let mut removed: usize = 0;
        let n = self.tags.len();
        let mut i: usize = 0;
        proof {
            reveal(Seq::filter);
            assert(before.tags.take(0) =~= Seq::empty());
            assert(tag_rows(kept@) =~= Seq::empty());
        }
        while i < n
            invariant
                n == self.tags.len(),
                i <= n,
                self@ == before,
                keep == stays(sticker_id, words.deep_view(), tagger_id),
                tag_rows(kept@) == before.tags.take(i as int).filter(keep),
                removed + kept.len() == i,
            decreases n - i,
        {
            let row = &self.tags[i];
            let goes = row.sticker_id == sticker_id && row.tagger_id == tagger_id
                && Self::is_one_of(&row.tag, words);
            proof {
                assert(goes == is_removed(
                    before.tags[i as int],
                    sticker_id,
                    words.deep_view(),
                    tagger_id,
                ));
                assert(before.tags.take(i + 1) =~= before.tags.take(i as int).push(
                    before.tags[i as int],
                ));
                before.tags.take(i as int).lemma_filter_push(before.tags[i as int], keep);
            }
            if goes {
                removed += 1;
            } else {
                let copy = row.clone();
                proof {
                    assert(tag_rows(kept@.push(copy)) =~= tag_rows(kept@).push(copy@));
                }
                kept.push(copy);
            }
            i += 1;
        }
        proof {
            assert(before.tags.take(n as int) =~= before.tags);
            lemma_without_tags_wf(before, sticker_id, words.deep_view(), tagger_id);
        }
        self.tags = kept;
        removed
    }
}

} // verus!
