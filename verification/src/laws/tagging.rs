//! Who can tag what, and whose tags an untag removes.

use crate::error::EngineError;
use crate::laws::history::lemma_tag_at;
use crate::resolver::lemma_resolve_or_create;
use crate::state::{is_removed, lemma_filter_tags, stays, State};
use crate::tagging::is_taggable;
use crate::text::words_of;
use vstd::prelude::*;

verus! {

/// A caller who may not tag, be it for want of an account or of an
/// approval, is turned down with `NotAuthorized`, for tagging and for
/// untagging alike, and nothing changes.
pub proof fn law_unapproved_cannot_tag(
    s: State,
    caller: i64,
    file_unique_id: Seq<char>,
    file_id: Seq<char>,
    set_name: Option<Seq<char>>,
    raw_text: Seq<char>,
    now: i64,
)
    requires
        !s.is_allowed(caller),
    ensures
        s.tag_at(caller, file_unique_id, file_id, set_name, raw_text, now) == (
            s,
            Err::<Seq<Seq<char>>, EngineError>(EngineError::NotAuthorized),
        ),
        s.untag(caller, file_unique_id, raw_text) == (
            s,
            Err::<nat, EngineError>(EngineError::NotAuthorized),
        ),
{
}

/// A sticker that belongs to no sticker set is not tagged: the request
/// of a caller who may tag fails with `Untaggable`, no tag is stored, and
/// neither is the sticker.
pub proof fn law_untaggable_changes_nothing(
    s: State,
    caller: i64,
    file_unique_id: Seq<char>,
    file_id: Seq<char>,
    set_name: Option<Seq<char>>,
    raw_text: Seq<char>,
    now: i64,
)
    requires
        s.is_allowed(caller),
        !is_taggable(set_name),
    ensures
        s.tag_at(caller, file_unique_id, file_id, set_name, raw_text, now) == (
            s,
            Err::<Seq<Seq<char>>, EngineError>(EngineError::Untaggable),
        ),
{
}

/// Tagging succeeds exactly where the caller may tag, the sticker
/// belongs to a set, the text holds a word, and the store can take the
/// sticker and the tags. It then stores one tag for each word of the
/// text, by the caller, on the sticker, at the time given, after all the
/// tags that were there.
pub proof fn law_tagging_stores_each_word(
    s: State,
    caller: i64,
    file_unique_id: Seq<char>,
    file_id: Seq<char>,
    set_name: Option<Seq<char>>,
    raw_text: Seq<char>,
    now: i64,
)
    requires
        s.wf(),
    ensures
        ({
            let (t, res) = s.tag_at(caller, file_unique_id, file_id, set_name, raw_text, now);
            let words = words_of(raw_text);
            &&& res is Ok <==> {
                &&& s.is_allowed(caller)
                &&& is_taggable(set_name)
                &&& words.len() > 0
                &&& s.sticker(file_unique_id) is Some || s.last_sticker_id < i32::MAX
                &&& s.last_tag_id + words.len() <= i32::MAX
            }
            &&& res is Ok ==> {
                &&& res->Ok_0 == words
                &&& t.sticker(file_unique_id) is Some
                &&& t.tags.len() == s.tags.len() + words.len()
                &&& forall|k: int|
                    0 <= k < words.len() ==> {
                        &&& (#[trigger] t.tags[s.tags.len() + k]).tag == words[k]
                        &&& t.tags[s.tags.len() + k].sticker_id == t.sticker(file_unique_id)->0.id
                        &&& Some(t.tags[s.tags.len() + k].tagger_id) == s.tagger(caller)
                        &&& t.tags[s.tags.len() + k].ts == now
                    }
            }
        }),
{
    lemma_tag_at(s, caller, file_unique_id, file_id, set_name, raw_text, now);
    lemma_resolve_or_create(s, file_unique_id, file_id, set_name);
    let (t, res) = s.tag_at(caller, file_unique_id, file_id, set_name, raw_text, now);
    if res is Ok {
        let (resolved, sticker) = s.resolve_or_create(file_unique_id, file_id, set_name);
        assert(t.stickers == resolved.stickers);
        assert(t.sticker(file_unique_id) == resolved.sticker(file_unique_id)) by {
            assert forall|i: int|
                t.sticker_at(i, file_unique_id) == resolved.sticker_at(i, file_unique_id) by {}
        }
    }
}

/// Untagging removes the caller's own tags and no others. A tag stays
/// exactly if another tagger put it on, or it is on another sticker, or
/// its word is not among the words given; every tag that is there
/// afterwards was there before; and the accounts and the stickers are as
/// they were.
pub proof fn law_untag_spares_others(
    s: State,
    caller: i64,
    file_unique_id: Seq<char>,
    raw_text: Seq<char>,
)
    requires
        s.wf(),
        s.is_allowed(caller),
        s.sticker(file_unique_id) is Some,
    ensures
        ({
            let (t, res) = s.untag(caller, file_unique_id, raw_text);
            let tagger_id = s.tagger(caller)->0;
            let sticker_id = s.sticker(file_unique_id)->0.id;
            let words = words_of(raw_text);
            &&& res == Ok::<nat, EngineError>((s.tags.len() - t.tags.len()) as nat)
            &&& t.tags.len() <= s.tags.len()
            &&& t.users == s.users
            &&& t.stickers == s.stickers
            &&& forall|i: int|
                0 <= i < s.tags.len() ==> (t.tags.contains(#[trigger] s.tags[i]) <==> !is_removed(
                    s.tags[i],
                    sticker_id,
                    words,
                    tagger_id,
                ))
            &&& forall|j: int| 0 <= j < t.tags.len() ==> s.tags.contains(#[trigger] t.tags[j])
        }),
{
    let tagger_id = s.tagger(caller)->0;
    let sticker_id = s.sticker(file_unique_id)->0.id;
    let words = words_of(raw_text);
    let keep = stays(sticker_id, words, tagger_id);
    let t = s.untag(caller, file_unique_id, raw_text).0;
    lemma_filter_tags(s.tags, keep);
    s.tags.lemma_filter_len(keep);
    assert forall|i: int| 0 <= i < s.tags.len() implies (t.tags.contains(#[trigger] s.tags[i])
        <==> !is_removed(s.tags[i], sticker_id, words, tagger_id)) by {
        if keep(s.tags[i]) {
            s.tags.lemma_filter_contains(keep, i);
        }
        if t.tags.contains(s.tags[i]) {
            let j = choose|j: int| 0 <= j < t.tags.len() && t.tags[j] == s.tags[i];
            s.tags.lemma_filter_pred(keep, j);
        }
    }
}

/// Untagging with a text that holds no word removes nothing, and neither
/// does untagging a sticker that is not known.
pub proof fn law_untag_nothing(s: State, caller: i64, file_unique_id: Seq<char>, raw_text: Seq<char>)
    requires
        s.wf(),
        s.is_allowed(caller),
        words_of(raw_text).len() == 0 || s.sticker(file_unique_id) is None,
    ensures
        s.untag(caller, file_unique_id, raw_text) == (s, Ok::<nat, EngineError>(0)),
{
    if s.sticker(file_unique_id) is Some {
        let tagger_id = s.tagger(caller)->0;
        let sticker_id = s.sticker(file_unique_id)->0.id;
        let keep = stays(sticker_id, words_of(raw_text), tagger_id);
        lemma_filter_all(s.tags, keep);
    }
}

/// A filter that every item passes changes nothing.
proof fn lemma_filter_all<A>(items: Seq<A>, keep: spec_fn(A) -> bool)
    requires
        forall|i: int| 0 <= i < items.len() ==> keep(#[trigger] items[i]),
    ensures
        items.filter(keep) == items,
    decreases items.len(),
{
    reveal(Seq::filter);
    if items.len() > 0 {
        lemma_filter_all(items.drop_last(), keep);
        assert(items.drop_last().push(items.last()) =~= items);
    }
}

} // verus!
