//! The changes that the engine reports leave nothing out.

use crate::journal::{changed_stickers, changed_users, has_tag_id, is_gone, is_newer};
use crate::model::{sticker, user};
use crate::state::State;
use vstd::prelude::*;

verus! {

/// An account among the first `n` whose permission is not what was
/// marked is among the changed accounts.
proof fn lemma_changed_users(users: Seq<user::Row>, allowed: Seq<bool>, n: int, i: int)
    requires
        0 <= i < n,
        users[i].allowed != allowed[i],
    ensures
        changed_users(users, allowed, n).contains(users[i]),
    decreases n,
{
    if i < n - 1 {
        lemma_changed_users(users, allowed, n - 1, i);
        let before = changed_users(users, allowed, n - 1);
        let k = choose|k: int| 0 <= k < before.len() && before[k] == users[i];
        assert(changed_users(users, allowed, n)[k] == users[i]);
    } else {
        let all = changed_users(users, allowed, n);
        assert(all[all.len() - 1] == users[i]);
    }
}

/// A sticker among the first `n` whose popularity is not what was marked
/// is among the changed stickers.
proof fn lemma_changed_stickers(stickers: Seq<sticker::Row>, popularity: Seq<i64>, n: int, i: int)
    requires
        0 <= i < n,
        stickers[i].popularity != popularity[i],
    ensures
        changed_stickers(stickers, popularity, n).contains(stickers[i]),
    decreases n,
{
    if i < n - 1 {
        lemma_changed_stickers(stickers, popularity, n - 1, i);
        let before = changed_stickers(stickers, popularity, n - 1);
        let k = choose|k: int| 0 <= k < before.len() && before[k] == stickers[i];
        assert(changed_stickers(stickers, popularity, n)[k] == stickers[i]);
    } else {
        let all = changed_stickers(stickers, popularity, n);
        assert(all[all.len() - 1] == stickers[i]);
    }
}

/// Whatever has been served between two states, the changes that the
/// later state reports against the marks of the earlier tell all that
/// has happened to the tables: every account and every sticker of the
/// later state is as it was, or is among the changed, or is among the
/// new; every tag of the later state was there or is among the new; and
/// every tag that was there is still there or is among the removed.
pub proof fn law_changes_tell_all(s: State, t: State)
    requires
        s.wf(),
        t.wf(),
        s.precedes(t),
    ensures
        ({
            let c = t.changes_since(s.marks());
            &&& forall|i: int|
                0 <= i < t.users.len() ==> {
                    ||| i < s.users.len() && (#[trigger] t.users[i]) == s.users[i]
                    ||| i < s.users.len() && c.changed_users.contains(t.users[i])
                    ||| i >= s.users.len() && c.new_users.contains(t.users[i])
                }
            &&& forall|i: int|
                0 <= i < t.stickers.len() ==> {
                    ||| i < s.stickers.len() && (#[trigger] t.stickers[i]) == s.stickers[i]
                    ||| i < s.stickers.len() && c.changed_stickers.contains(t.stickers[i])
                    ||| i >= s.stickers.len() && c.new_stickers.contains(t.stickers[i])
                }
            &&& forall|j: int|
                0 <= j < t.tags.len() ==> s.tags.contains(#[trigger] t.tags[j])
                    || c.new_tags.contains(t.tags[j])
            &&& forall|j: int|
                0 <= j < s.tags.len() ==> t.tags.contains(#[trigger] s.tags[j])
                    || c.removed_tags.contains(s.tags[j].id)
        }),
{
    let m = s.marks();
    let c = t.changes_since(m);
    assert forall|i: int| 0 <= i < t.users.len() implies {
        ||| i < s.users.len() && (#[trigger] t.users[i]) == s.users[i]
        ||| i < s.users.len() && c.changed_users.contains(t.users[i])
        ||| i >= s.users.len() && c.new_users.contains(t.users[i])
    } by {
        if i < s.users.len() {
            if t.users[i].allowed != s.users[i].allowed {
                lemma_changed_users(t.users, m.allowed, s.users.len() as int, i);
            }
        } else {
            assert(c.new_users[i - s.users.len()] == t.users[i]);
        }
    }
    assert forall|i: int| 0 <= i < t.stickers.len() implies {
        ||| i < s.stickers.len() && (#[trigger] t.stickers[i]) == s.stickers[i]
        ||| i < s.stickers.len() && c.changed_stickers.contains(t.stickers[i])
        ||| i >= s.stickers.len() && c.new_stickers.contains(t.stickers[i])
    } by {
        if i < s.stickers.len() {
            if t.stickers[i].popularity != s.stickers[i].popularity {
                lemma_changed_stickers(t.stickers, m.popularity, s.stickers.len() as int, i);
            }
        } else {
            assert(c.new_stickers[i - s.stickers.len()] == t.stickers[i]);
        }
    }
    assert forall|j: int| 0 <= j < t.tags.len() implies s.tags.contains(#[trigger] t.tags[j])
        || c.new_tags.contains(t.tags[j]) by {
        if t.tags[j].id > s.last_tag_id {
            t.tags.lemma_filter_contains(is_newer(s.last_tag_id), j);
        }
    }
    assert forall|j: int| 0 <= j < s.tags.len() implies t.tags.contains(#[trigger] s.tags[j])
        || c.removed_tags.contains(s.tags[j].id) by {
        let id = s.tags[j].id;
        assert(m.tag_ids[j] == id);
        if has_tag_id(t.tags, id) {
            let k = choose|k: int| 0 <= k < t.tags.len() && (#[trigger] t.tags[k]).id == id;
            assert(s.tags.contains(t.tags[k]));
            let a = choose|a: int| 0 <= a < s.tags.len() && s.tags[a] == t.tags[k];
            assert(a == j) by {
                if a < j {
                    assert(s.tags[a].id < s.tags[j].id);
                } else if j < a {
                    assert(s.tags[j].id < s.tags[a].id);
                }
            }
        } else {
            m.tag_ids.lemma_filter_contains(is_gone(t.tags), j);
        }
    }
}

} // verus!
