//! What a request changed, for whoever keeps the records elsewhere.
//!
//! Before a request is served, [`DataStore::marks`] notes where the tables
//! stand; afterwards [`DataStore::changes_since`] tells which records
//! have come, which have changed, and which tags are gone.

use crate::model::{sticker, tagged_sticker, user};
use crate::state::State;
use crate::store::{sticker_rows, tag_rows, user_rows, DataStore};
use vstd::prelude::*;

verus! {

/// Where the tables stood at one moment.
pub struct Marks {
    allowed: Vec<bool>,
    popularity: Vec<i64>,
    last_tag_id: i32,
    tag_ids: Vec<i32>,
}

/// The view of [`Marks`].
pub struct MarksView {
    /// For each account, whether it could tag.
    pub allowed: Seq<bool>,
    /// For each sticker, its popularity.
    pub popularity: Seq<i64>,
    /// The identifier of the newest tag ever stored.
    pub last_tag_id: i32,
    /// The identifiers of the tags, oldest first.
    pub tag_ids: Seq<i32>,
}

impl View for Marks {
    type V = MarksView;

    closed spec fn view(&self) -> MarksView {
        MarksView {
            allowed: self.allowed@,
            popularity: self.popularity@,
            last_tag_id: self.last_tag_id,
            tag_ids: self.tag_ids@,
        }
    }
}

/// What has happened to the tables since marks were taken.
#[derive(Debug, PartialEq, Eq)]
pub struct Changes {
    /// The accounts that have come, oldest first.
    pub new_users: Vec<user::Model>,
    /// The accounts that were there and can tag now, as they stand now.
    pub changed_users: Vec<user::Model>,
    /// The stickers that have come, oldest first.
    pub new_stickers: Vec<sticker::Model>,
    /// The stickers that were there and whose popularity is another now,
    /// as they stand now.
    pub changed_stickers: Vec<sticker::Model>,
    /// The tags that have come, oldest first.
    pub new_tags: Vec<tagged_sticker::Model>,
    /// The identifiers of the tags that are gone.
    pub removed_tags: Vec<i32>,
}

/// The view of [`Changes`].
pub struct ChangesView {
    pub new_users: Seq<user::Row>,
    pub changed_users: Seq<user::Row>,
    pub new_stickers: Seq<sticker::Row>,
    pub changed_stickers: Seq<sticker::Row>,
    pub new_tags: Seq<tagged_sticker::Row>,
    pub removed_tags: Seq<i32>,
}

impl View for Changes {
    type V = ChangesView;

    open spec fn view(&self) -> ChangesView {
        ChangesView {
            new_users: user_rows(self.new_users@),
            changed_users: user_rows(self.changed_users@),
            new_stickers: sticker_rows(self.new_stickers@),
            changed_stickers: sticker_rows(self.changed_stickers@),
            new_tags: tag_rows(self.new_tags@),
            removed_tags: self.removed_tags@,
        }
    }
}

/// The first `n` accounts whose permission is not what `allowed` says.
pub open spec fn changed_users(users: Seq<user::Row>, allowed: Seq<bool>, n: int) -> Seq<user::Row>
    decreases n,
{
    if n <= 0 {
        Seq::empty()
    } else {
        let before = changed_users(users, allowed, n - 1);
        if users[n - 1].allowed != allowed[n - 1] {
            before.push(users[n - 1])
        } else {
            before
        }
    }
}

/// The first `n` stickers whose popularity is not what `popularity` says.
pub open spec fn changed_stickers(
    stickers: Seq<sticker::Row>,
    popularity: Seq<i64>,
    n: int,
) -> Seq<sticker::Row>
    decreases n,
{
    if n <= 0 {
        Seq::empty()
    } else {
        let before = changed_stickers(stickers, popularity, n - 1);
        if stickers[n - 1].popularity != popularity[n - 1] {
            before.push(stickers[n - 1])
        } else {
            before
        }
    }
}

/// The tags that came after the tag `last_tag_id`.
pub open spec fn is_newer(last_tag_id: i32) -> spec_fn(tagged_sticker::Row) -> bool {
    |row: tagged_sticker::Row| row.id > last_tag_id
}

/// The identifiers that no tag of `tags` has.
pub open spec fn is_gone(tags: Seq<tagged_sticker::Row>) -> spec_fn(i32) -> bool {
    |id: i32| !has_tag_id(tags, id)
}

/// Whether a tag of `tags` has the identifier `id`.
pub open spec fn has_tag_id(tags: Seq<tagged_sticker::Row>, id: i32) -> bool {
    exists|k: int| 0 <= k < tags.len() && (#[trigger] tags[k]).id == id
}

/// How many records of a table were marked: as many as the marks hold,
/// and no more than there are.
pub open spec fn marked(marks: nat, records: nat) -> int {
    if marks <= records {
        marks as int
    } else {
        records as int
    }
}

impl MarksView {
    /// The identifiers of the tags rise from each to the next.
    pub open spec fn wf(self) -> bool {
        forall|i: int, j: int|
            0 <= i < j < self.tag_ids.len() ==> #[trigger] self.tag_ids[i]
                < #[trigger] self.tag_ids[j]
    }
}

impl State {
    /// The marks of this state.
    pub open spec fn marks(self) -> MarksView {
        MarksView {
            allowed: Seq::new(self.users.len(), |i: int| self.users[i].allowed),
            popularity: Seq::new(self.stickers.len(), |i: int| self.stickers[i].popularity),
            last_tag_id: self.last_tag_id,
            tag_ids: Seq::new(self.tags.len(), |i: int| self.tags[i].id),
        }
    }

    /// What has happened to the tables since the marks `before` were
    /// taken, in a state that can have come out of the one they were
    /// taken in: the accounts and stickers beyond those marked are new,
    /// those marked are listed where their permission or popularity is
    /// another, the tags numbered after the last one marked are new, and
    /// the marked tags that are not there are gone.
    pub open spec fn changes_since(self, before: MarksView) -> ChangesView {
        let users = marked(before.allowed.len(), self.users.len());
        let stickers = marked(before.popularity.len(), self.stickers.len());
        ChangesView {
            new_users: self.users.skip(users),
            changed_users: changed_users(self.users, before.allowed, users),
            new_stickers: self.stickers.skip(stickers),
            changed_stickers: changed_stickers(self.stickers, before.popularity, stickers),
            new_tags: self.tags.filter(is_newer(before.last_tag_id)),
            removed_tags: before.tag_ids.filter(is_gone(self.tags)),
        }
    }
}

impl DataStore {
    /// Notes where the tables stand.
    pub fn marks(&self) -> (marks: Marks)
        requires
            self@.wf(),
        ensures
            marks@ == self@.marks(),
            marks@.wf(),
    {
        let users = self.users();
        let mut allowed: Vec<bool> = Vec::new();
        let mut i: usize = 0;
        while i < users.len()
            invariant
                i <= users.len(),
                allowed.len() == i,
                forall|k: int| 0 <= k < i ==> #[trigger] allowed[k] == users[k].allowed,
            decreases users.len() - i,
        {
            allowed.push(users[i].allowed);
            i += 1;
        }
        let stickers = self.stickers();
        let mut popularity: Vec<i64> = Vec::new();
        let mut i: usize = 0;
        while i < stickers.len()
            invariant
                i <= stickers.len(),
                popularity.len() == i,
                forall|k: int| 0 <= k < i ==> #[trigger] popularity[k] == stickers[k].popularity,
            decreases stickers.len() - i,
        {
            popularity.push(stickers[i].popularity);
            i += 1;
        }
        let tags = self.tags();
        let mut tag_ids: Vec<i32> = Vec::new();
        let mut i: usize = 0;
        while i < tags.len()
            invariant
                i <= tags.len(),
                tag_ids.len() == i,
                forall|k: int| 0 <= k < i ==> #[trigger] tag_ids[k] == tags[k].id,
            decreases tags.len() - i,
        {
            tag_ids.push(tags[i].id);
            i += 1;
        }
        let last_tag_id = self.last_tag_id();
        let marks = Marks { allowed, popularity, last_tag_id, tag_ids };
        proof {
            assert(marks@.allowed =~= self@.marks().allowed);
            assert(marks@.popularity =~= self@.marks().popularity);
            assert(marks@.tag_ids =~= self@.marks().tag_ids);
            assert forall|a: int, b: int| 0 <= a < b < marks@.tag_ids.len() implies #[trigger] marks@.tag_ids[a]
                < #[trigger] marks@.tag_ids[b] by {
                assert(self@.tags[a].id < self@.tags[b].id);
            }
        }
        marks
    }

    /// Tells what has happened to the tables since `marks` were taken.
    pub fn changes_since(&self, marks: &Marks) -> (changes: Changes)
        requires
            self@.wf(),
            marks@.wf(),
        ensures
            changes@ == self@.changes_since(marks@),
    {
        let users = self.users();
        let ghost user_views = self@.users;
        let mut new_users: Vec<user::Model> = Vec::new();
        let mut changed: Vec<user::Model> = Vec::new();
        let marked = if marks.allowed.len() <= users.len() {
            marks.allowed.len()
        } else {
            users.len()
        };
        let mut i: usize = 0;
        while i < marked
            invariant
                i <= marked,
                marked <= marks.allowed.len(),
                marked <= users.len(),
                user_rows(users@) == user_views,
                user_rows(changed@) == changed_users(user_views, marks.allowed@, i as int),
            decreases marked - i,
        {
            if users[i].allowed != marks.allowed[i] {
                let copy = users[i].clone();
                proof {
                    assert(user_rows(changed@.push(copy)) =~= user_rows(changed@).push(copy@));
                }
                changed.push(copy);
            }
            i += 1;
        }
        while i < users.len()
            invariant
                marked <= i <= users.len(),
                user_rows(users@) == user_views,
                user_rows(new_users@) == user_views.subrange(marked as int, i as int),
            decreases users.len() - i,
        {
            let copy = users[i].clone();
            proof {
                assert(user_rows(new_users@.push(copy)) =~= user_rows(new_users@).push(copy@));
                assert(copy@ == user_views[i as int]);
                assert(user_views.subrange(marked as int, i as int).push(user_views[i as int])
                    =~= user_views.subrange(marked as int, i + 1));
            }
            new_users.push(copy);
            i += 1;
        }
        assert(user_views.subrange(marked as int, users.len() as int) =~= user_views.skip(
            marked as int,
        ));
        let stickers = self.stickers();
        let ghost sticker_views = self@.stickers;
        let mut new_stickers: Vec<sticker::Model> = Vec::new();
        let mut changed_ones: Vec<sticker::Model> = Vec::new();
        let marked = if marks.popularity.len() <= stickers.len() {
            marks.popularity.len()
        } else {
            stickers.len()
        };
        let mut i: usize = 0;
        while i < marked
            invariant
                i <= marked,
                marked <= marks.popularity.len(),
                marked <= stickers.len(),
                sticker_rows(stickers@) == sticker_views,
                sticker_rows(changed_ones@) == changed_stickers(
                    sticker_views,
                    marks.popularity@,
                    i as int,
                ),
            decreases marked - i,
        {
            if stickers[i].popularity != marks.popularity[i] {
                let copy = stickers[i].clone();
                proof {
                    assert(sticker_rows(changed_ones@.push(copy)) =~= sticker_rows(
                        changed_ones@,
                    ).push(copy@));
                }
                changed_ones.push(copy);
            }
            i += 1;
        }
        while i < stickers.len()
            invariant
                marked <= i <= stickers.len(),
                sticker_rows(stickers@) == sticker_views,
                sticker_rows(new_stickers@) == sticker_views.subrange(marked as int, i as int),
            decreases stickers.len() - i,
        {
            let copy = stickers[i].clone();
            proof {
                assert(sticker_rows(new_stickers@.push(copy)) =~= sticker_rows(
                    new_stickers@,
                ).push(copy@));
                assert(copy@ == sticker_views[i as int]);
                assert(sticker_views.subrange(marked as int, i as int).push(
                    sticker_views[i as int],
                ) =~= sticker_views.subrange(marked as int, i + 1));
            }
            new_stickers.push(copy);
            i += 1;
        }
        assert(sticker_views.subrange(marked as int, stickers.len() as int)
            =~= sticker_views.skip(marked as int));
        let tags = self.tags();
        let ghost tag_views = self@.tags;
        let ghost newer = is_newer(marks.last_tag_id);
        let mut new_tags: Vec<tagged_sticker::Model> = Vec::new();
        let mut i: usize = 0;
        proof {
            reveal(Seq::filter);
            assert(tag_views.take(0) =~= Seq::empty());
            assert(tag_rows(new_tags@) =~= Seq::empty());
        }
        while i < tags.len()
            invariant
                i <= tags.len(),
                tag_rows(tags@) == tag_views,
                newer == is_newer(marks.last_tag_id),
                tag_rows(new_tags@) == tag_views.take(i as int).filter(newer),
            decreases tags.len() - i,
        {
            proof {
                assert(tag_views.take(i + 1) =~= tag_views.take(i as int).push(tag_views[i as int]));
                tag_views.take(i as int).lemma_filter_push(tag_views[i as int], newer);
            }
            if tags[i].id > marks.last_tag_id {
                let copy = tags[i].clone();
                proof {
                    assert(tag_rows(new_tags@.push(copy)) =~= tag_rows(new_tags@).push(copy@));
                }
                new_tags.push(copy);
            }
            i += 1;
        }
        assert(tag_views.take(tags.len() as int) =~= tag_views);
        let ghost gone = is_gone(tag_views);
        let ghost old_ids = marks.tag_ids@;
        let mut removed_tags: Vec<i32> = Vec::new();
        let mut i: usize = 0;
        let mut j: usize = 0;
        proof {
            assert(old_ids.take(0) =~= Seq::empty());
        }
        while i < marks.tag_ids.len()
            invariant
                i <= marks.tag_ids.len(),
                j <= tags.len(),
                tag_rows(tags@) == tag_views,
                self@.tags == tag_views,
                self@.wf(),
                marks@.wf(),
                old_ids == marks.tag_ids@,
                old_ids == marks@.tag_ids,
                gone == is_gone(tag_views),
                removed_tags@ == old_ids.take(i as int).filter(gone),
                i < old_ids.len() ==> forall|k: int|
                    0 <= k < j ==> (#[trigger] tag_views[k]).id < old_ids[i as int],
            decreases marks.tag_ids.len() - i,
        {
            let id = marks.tag_ids[i];
            while j < tags.len() && tags[j].id < id
                invariant
                    j <= tags.len(),
                    tag_rows(tags@) == tag_views,
                    forall|k: int| 0 <= k < j ==> (#[trigger] tag_views[k]).id < id,
                decreases tags.len() - j,
            {
                j += 1;
            }
            let stays = j < tags.len() && tags[j].id == id;
            proof {
                assert(stays == has_tag_id(tag_views, id)) by {
                    if stays {
                        assert(tag_views[j as int].id == id);
                    } else if has_tag_id(tag_views, id) {
                        let k = choose|k: int|
                            0 <= k < tag_views.len() && (#[trigger] tag_views[k]).id == id;
                        if k < j {
                            assert(tag_views[k].id < id);
                        } else if k > j {
                            assert(self@.tags[j as int].id < self@.tags[k].id);
                        }
                    }
                }
                assert(old_ids.take(i + 1) =~= old_ids.take(i as int).push(id));
                old_ids.take(i as int).lemma_filter_push(id, gone);
                if i + 1 < old_ids.len() {
                    assert(old_ids[i as int] < old_ids[i + 1]);
                }
            }
            if !stays {
                removed_tags.push(id);
            }
            i += 1;
        }
        assert(old_ids.take(marks.tag_ids.len() as int) =~= old_ids);
        Changes {
            new_users,
            changed_users: changed,
            new_stickers,
            changed_stickers: changed_ones,
            new_tags,
            removed_tags,
        }
    }
}

} // verus!
