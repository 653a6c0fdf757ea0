//! One record for each sticker, however often and in whatever order it is
//! resolved.

use crate::error::EngineError;
use crate::laws::history::law_precedes_is_transitive;
use crate::resolver::lemma_resolve_or_create;
use crate::state::State;
use vstd::prelude::*;

verus! {

/// The state after the sticker `file_unique_id` has been resolved once
/// for each of `payloads`, and what each of the calls returned. A payload
/// is what a caller says of the sticker: how to send it, and its set.
pub open spec fn resolve_each(
    s: State,
    file_unique_id: Seq<char>,
    payloads: Seq<(Seq<char>, Option<Seq<char>>)>,
) -> (State, Seq<Result<i32, EngineError>>)
    decreases payloads.len(),
{
    if payloads.len() == 0 {
        (s, Seq::empty())
    } else {
        let (before, results) = resolve_each(s, file_unique_id, payloads.drop_last());
        let (after, result) = before.resolve_or_create(
            file_unique_id,
            payloads.last().0,
            payloads.last().1,
        );
        (after, results.push(result))
    }
}

/// However often a sticker is resolved, every call returns what the
/// first returned, and at most one record is stored: exactly one where
/// the sticker was new and the store could take it. After a call that
/// succeeded the sticker has the record whose identifier came back.
pub proof fn law_one_sticker_per_key(
    s: State,
    file_unique_id: Seq<char>,
    payloads: Seq<(Seq<char>, Option<Seq<char>>)>,
)
    requires
        s.wf(),
    ensures
        ({
            let (t, results) = resolve_each(s, file_unique_id, payloads);
            &&& t.wf()
            &&& s.precedes(t)
            &&& results.len() == payloads.len()
            &&& forall|i: int, j: int|
                0 <= i < results.len() && 0 <= j < results.len() ==> results[i] == results[j]
            &&& t.stickers.len() == s.stickers.len() + if payloads.len() > 0 && s.sticker(
                file_unique_id,
            ) is None && s.last_sticker_id < i32::MAX {
                1int
            } else {
                0int
            }
            &&& payloads.len() > 0 && results[0] is Ok ==> {
                &&& t.sticker(file_unique_id) is Some
                &&& t.sticker(file_unique_id)->0.id == results[0]->Ok_0
            }
            &&& payloads.len() > 0 && results[0] is Err ==> {
                &&& t == s
                &&& results[0] == Err::<i32, EngineError>(EngineError::StoreUnavailable)
                &&& s.sticker(file_unique_id) is None
                &&& s.last_sticker_id == i32::MAX
            }
        }),
    decreases payloads.len(),
{
    if payloads.len() > 0 {
        let init = payloads.drop_last();
        law_one_sticker_per_key(s, file_unique_id, init);
        let (before, earlier) = resolve_each(s, file_unique_id, init);
        lemma_resolve_or_create(before, file_unique_id, payloads.last().0, payloads.last().1);
        lemma_resolve_or_create(s, file_unique_id, payloads.last().0, payloads.last().1);
        let (after, result) = before.resolve_or_create(
            file_unique_id,
            payloads.last().0,
            payloads.last().1,
        );
        law_precedes_is_transitive(s, before, after);
        let results = earlier.push(result);
        if init.len() > 0 {
            assert(result == earlier[0]);
            assert forall|i: int, j: int|
                0 <= i < results.len() && 0 <= j < results.len() implies results[i]
                == results[j] by {
                assert(results[i] == earlier[0]);
                assert(results[j] == earlier[0]);
            }
        }
    }
}

/// Once a sticker has been resolved, resolving it again returns the same
/// identifier and stores nothing, whatever has been served in between and
/// whatever the later caller says of the sticker.
pub proof fn law_resolve_is_stable(
    s: State,
    later: State,
    file_unique_id: Seq<char>,
    first: (Seq<char>, Option<Seq<char>>),
    second: (Seq<char>, Option<Seq<char>>),
)
    requires
        s.wf(),
        later.wf(),
        s.resolve_or_create(file_unique_id, first.0, first.1).1 is Ok,
        s.resolve_or_create(file_unique_id, first.0, first.1).0.precedes(later),
    ensures
        later.resolve_or_create(file_unique_id, second.0, second.1) == (
            later,
            s.resolve_or_create(file_unique_id, first.0, first.1).1,
        ),
{
    lemma_resolve_or_create(s, file_unique_id, first.0, first.1);
    let (t, res) = s.resolve_or_create(file_unique_id, first.0, first.1);
    let i = choose|i: int| t.sticker_at(i, file_unique_id);
    assert(later.sticker_at(i, file_unique_id));
    let j = choose|j: int| later.sticker_at(j, file_unique_id);
    assert(j == i) by {
        if j != i {
            assert(later.stickers[i].file_unique_id != later.stickers[j].file_unique_id);
        }
    }
}

} // verus!
