//! Every pick counts, and counts once.

use crate::feedback::Selection;
use crate::model::sticker;
use crate::state::{lemma_picked_wf, State};
use vstd::prelude::*;

verus! {

/// The state after `n` picks of the sticker `sticker_id` have been
/// recorded.
pub open spec fn select_times(s: State, sticker_id: i32, n: nat) -> State
    decreases n,
{
    if n == 0 {
        s
    } else {
        select_times(s, sticker_id, (n - 1) as nat).record_selection(sticker_id).0
    }
}

/// A pick of a known sticker whose popularity can still rise is counted:
/// the popularity rises by exactly one, and nothing else changes. Any
/// other pick changes nothing at all.
pub proof fn law_selection_counts_once(s: State, sticker_id: i32)
    requires
        s.wf(),
    ensures
        ({
            let (t, outcome) = s.record_selection(sticker_id);
            &&& t.wf()
            &&& t.users == s.users
            &&& t.tags == s.tags
            &&& t.stickers.len() == s.stickers.len()
            &&& forall|i: int|
                0 <= i < s.stickers.len() && s.stickers[i].id != sticker_id ==> t.stickers[i]
                    == s.stickers[i]
            &&& match s.sticker_by_id(sticker_id) {
                None => outcome == Selection::Unknown && t == s,
                Some(known) => if known.popularity < i64::MAX {
                    &&& outcome == Selection::Counted
                    &&& t.sticker_by_id(sticker_id) == Some(
                        sticker::Row { popularity: (known.popularity + 1) as i64, ..known },
                    )
                } else {
                    outcome == Selection::Saturated && t == s
                },
            }
        }),
{
    if s.has_sticker_id(sticker_id) {
        let i = choose|i: int| s.sticker_id_at(i, sticker_id);
        if s.stickers[i].popularity < i64::MAX {
            lemma_picked_wf(s, i);
            let t = s.picked(i);
            assert(t.sticker_id_at(i, sticker_id));
            let j = choose|j: int| t.sticker_id_at(j, sticker_id);
            assert(j == i) by {
                if j < i {
                    assert(t.stickers[j].id < t.stickers[i].id);
                } else if i < j {
                    assert(t.stickers[i].id < t.stickers[j].id);
                }
            }
            assert forall|k: int|
                0 <= k < s.stickers.len() && s.stickers[k].id != sticker_id implies t.stickers[k]
                == s.stickers[k] by {}
        }
    }
}

/// `n` picks of a sticker raise its popularity by exactly `n`, in
/// whatever way the picks arrive, as long as the number fits: none is
/// lost. Nothing else changes.
pub proof fn law_selections_add_up(s: State, sticker_id: i32, n: nat)
    requires
        s.wf(),
        s.sticker_by_id(sticker_id) is Some,
        s.sticker_by_id(sticker_id)->0.popularity + n <= i64::MAX,
    ensures
        ({
            let t = select_times(s, sticker_id, n);
            let known = s.sticker_by_id(sticker_id)->0;
            &&& t.wf()
            &&& t.users == s.users
            &&& t.tags == s.tags
            &&& t.stickers.len() == s.stickers.len()
            &&& forall|i: int|
                0 <= i < s.stickers.len() && s.stickers[i].id != sticker_id ==> t.stickers[i]
                    == s.stickers[i]
            &&& t.sticker_by_id(sticker_id) == Some(
                sticker::Row { popularity: (known.popularity + n) as i64, ..known },
            )
        }),
    decreases n,
{
    if n > 0 {
        let before = select_times(s, sticker_id, (n - 1) as nat);
        law_selections_add_up(s, sticker_id, (n - 1) as nat);
        law_selection_counts_once(before, sticker_id);
    }
}

} // verus!
