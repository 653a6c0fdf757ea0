//! Putting tags on stickers and taking them off again.

use crate::clock::now_millis;
use crate::error::EngineError;
use crate::model::tagged_sticker;
use crate::resolver::lemma_resolve_or_create;
use crate::state::State;
use crate::store::{tag_rows, DataStore};
use crate::text::{split_words, words_of};
use vstd::prelude::*;

verus! {

/// Whether a sticker with this set name can be tagged: it has one, and it
/// is not empty.
pub open spec fn is_taggable(set_name: Option<Seq<char>>) -> bool {
    match set_name {
        Some(name) => name.len() > 0,
        None => false,
    }
}

/// The tags on the sticker `sticker_id`.
pub open spec fn is_on(sticker_id: i32) -> spec_fn(tagged_sticker::Row) -> bool {
    |row: tagged_sticker::Row| row.sticker_id == sticker_id
}

/// The word of a tag.
pub open spec fn word_of() -> spec_fn(tagged_sticker::Row) -> Seq<char> {
    |row: tagged_sticker::Row| row.tag
}

/// The view of an optional text.
pub open spec fn text_view(text: Option<String>) -> Option<Seq<char>> {
    match text {
        Some(t) => Some(t@),
        None => None,
    }
}

impl State {
    /// What tagging leads to, at the time `now`.
    ///
    /// The request is turned down, in this order, where the caller may
    /// not tag, where the sticker belongs to no set, and where
    /// `raw_text` holds no word. Otherwise the sticker is resolved, which
    /// stores it if it is new, and gets one tag for each word of
    /// `raw_text`, in their order and as often as they occur, all by the
    /// caller and all at `now`. The tags are stored together or, where the
    /// identifiers do not last, not at all: the sticker then stays stored.
    pub open spec fn tag_at(
        self,
        caller: i64,
        file_unique_id: Seq<char>,
        file_id: Seq<char>,
        set_name: Option<Seq<char>>,
        raw_text: Seq<char>,
        now: i64,
    ) -> (State, Result<Seq<Seq<char>>, EngineError>) {
        let words = words_of(raw_text);
        match self.tagger(caller) {
            None => (self, Err(EngineError::NotAuthorized)),
            Some(tagger_id) => if !is_taggable(set_name) {
                (self, Err(EngineError::Untaggable))
            } else if words.len() == 0 {
                (self, Err(EngineError::NoTags))
            } else {
                let (resolved, sticker) = self.resolve_or_create(file_unique_id, file_id, set_name);
                match sticker {
                    Err(e) => (resolved, Err(e)),
                    Ok(sticker_id) => if resolved.last_tag_id + words.len() > i32::MAX {
                        (resolved, Err(EngineError::StoreUnavailable))
                    } else {
                        (
                            resolved.with_tags(
                                resolved.new_tags(words, sticker_id, tagger_id, now),
                            ),
                            Ok(words),
                        )
                    },
                }
            },
        }
    }

    /// What untagging leads to.
    ///
    /// The request is turned down where the caller may not tag. Otherwise
    /// every tag goes that the caller put on the sticker and whose word is
    /// one of the words of `raw_text`, and the result is their number.
    /// Tags of other taggers stay, whatever their word. A sticker that is
    /// not known has no tags to lose.
    pub open spec fn untag(self, caller: i64, file_unique_id: Seq<char>, raw_text: Seq<char>) -> (
        State,
        Result<nat, EngineError>,
    ) {
        match self.tagger(caller) {
            None => (self, Err(EngineError::NotAuthorized)),
            Some(tagger_id) => match self.sticker(file_unique_id) {
                None => (self, Ok(0)),
                Some(known) => {
                    let left = self.without_tags(known.id, words_of(raw_text), tagger_id);
                    (left, Ok((self.tags.len() - left.tags.len()) as nat))
                },
            },
        }
    }

    /// The words of the tags on a sticker, oldest first, whoever put
    /// them on. A sticker that is not known has none.
    pub open spec fn tags_of(self, file_unique_id: Seq<char>) -> Seq<Seq<char>> {
        match self.sticker(file_unique_id) {
            None => Seq::empty(),
            Some(known) => self.tags.filter(is_on(known.id)).map_values(word_of()),
        }
    }
}

/// Whether `after` and `res` are what tagging in `before` at the time
/// `now` leads to.
pub open spec fn tagged_at(
    before: State,
    after: State,
    res: Result<Seq<Seq<char>>, EngineError>,
    caller: i64,
    file_unique_id: Seq<char>,
    file_id: Seq<char>,
    set_name: Option<Seq<char>>,
    raw_text: Seq<char>,
    now: i64,
) -> bool {
    (after, res) == before.tag_at(caller, file_unique_id, file_id, set_name, raw_text, now)
}

/// The view of what tagging returns.
pub open spec fn applied_view(res: Result<Vec<String>, EngineError>) -> Result<
    Seq<Seq<char>>,
    EngineError,
> {
    match res {
        Ok(words) => Ok(words.deep_view()),
        Err(e) => Err(e),
    }
}

/// Tests whether a sticker with this set name can be tagged.
pub fn taggable(set_name: &Option<String>) -> (b: bool)
    ensures
        b == is_taggable(text_view(*set_name)),
{
    match set_name {
        Some(name) => !name.as_str().is_empty(),
        None => false,
    }
}

impl DataStore {
    /// Tags a sticker with the words of `raw_text`, on behalf of the
    /// platform user `caller`, at the time `now`. Returns the tags that
    /// were put on.
    pub fn tag_at(
        &mut self,
        caller: i64,
        file_unique_id: &str,
        file_id: &str,
        set_name: Option<String>,
        raw_text: &str,
        now: i64,
    ) -> (res: Result<Vec<String>, EngineError>)
        requires
            old(self)@.wf(),
        ensures
            final(self)@.wf(),
            (final(self)@, applied_view(res)) == old(self)@.tag_at(
                caller,
                file_unique_id@,
                file_id@,
                text_view(set_name),
                raw_text@,
                now,
            ),
    {
        let tagger_id = match self.tagger(caller) {
            Ok(id) => id,
            Err(e) => {
                return Err(e);
            },
        };
        if !taggable(&set_name) {
            return Err(EngineError::Untaggable);
        }
        let words = split_words(raw_text);
        if words.len() == 0 {
            return Err(EngineError::NoTags);
        }
        proof {
            lemma_resolve_or_create(self@, file_unique_id@, file_id@, text_view(set_name));
            let i = choose|i: int| self@.user_at(i, caller);
            assert(self@.user_id_at(i, tagger_id));
        }
        let sticker_id = match self.resolve_or_create(file_unique_id, file_id, set_name) {
            Ok(id) => id,
            Err(e) => {
                return Err(e);
            },
        };
        proof {
            let i = choose|i: int| old(self)@.user_at(i, caller);
            assert(self@.user_id_at(i, tagger_id));
        }
        match self.insert_tags(&words, sticker_id, tagger_id, now) {
            Ok(()) => Ok(words),
            Err(_) => Err(EngineError::StoreUnavailable),
        }
    }

    /// Tags a sticker with the words of `raw_text`, on behalf of the
    /// platform user `caller`, now. Returns the tags that were put on.
    ///
    /// What happens is what [`DataStore::tag_at`] does at the time that
    /// the clock shows.
    pub fn tag(
        &mut self,
        caller: i64,
        file_unique_id: &str,
        file_id: &str,
        set_name: Option<String>,
        raw_text: &str,
    ) -> (res: Result<Vec<String>, EngineError>)
        requires
            old(self)@.wf(),
        ensures
            final(self)@.wf(),
            exists|now: i64|
                tagged_at(
                    old(self)@,
                    final(self)@,
                    applied_view(res),
                    caller,
                    file_unique_id@,
                    file_id@,
                    text_view(set_name),
                    raw_text@,
                    now,
                ),
    {
        let now = now_millis();
        let res = self.tag_at(caller, file_unique_id, file_id, set_name, raw_text, now);
        assert(tagged_at(
            old(self)@,
            self@,
            applied_view(res),
            caller,
            file_unique_id@,
            file_id@,
            text_view(set_name),
            raw_text@,
            now,
        ));
        res
    }

    /// Takes off a sticker the tags that the platform user `caller` put
    /// on it and whose word is one of the words of `raw_text`. Returns
    /// how many tags went.
    pub fn untag(&mut self, caller: i64, file_unique_id: &str, raw_text: &str) -> (res: Result<
        usize,
        EngineError,
    >)
        requires
            old(self)@.wf(),
        ensures
            final(self)@.wf(),
            final(self)@ == old(self)@.untag(caller, file_unique_id@, raw_text@).0,
            match res {
                Ok(n) => old(self)@.untag(caller, file_unique_id@, raw_text@).1 == Ok::<
                    nat,
                    EngineError,
                >(n as nat),
                Err(e) => old(self)@.untag(caller, file_unique_id@, raw_text@).1 == Err::<
                    nat,
                    EngineError,
                >(e),
            },
    {
        let tagger_id = match self.tagger(caller) {
            Ok(id) => id,
            Err(e) => {
                return Err(e);
            },
        };
        let words = split_words(raw_text);
        match self.find_sticker(file_unique_id) {
            None => Ok(0),
            Some(known) => Ok(self.delete_tags(known.id, &words, tagger_id)),
        }
    }

    /// The words of the tags on a sticker, oldest first.
    pub fn tags_of(&self, file_unique_id: &str) -> (words: Vec<String>)
        requires
            self@.wf(),
        ensures
            words.deep_view() == self@.tags_of(file_unique_id@),
    {
        let mut words: Vec<String> = Vec::new();
        let known = match self.find_sticker(file_unique_id) {
            None => {
                assert(words.deep_view() =~= Seq::empty());
                return words;
            },
            Some(known) => known,
        };
        let tags = self.tags();
        let ghost rows = self@.tags;
        let ghost on = is_on(known.id);
        let mut i: usize = 0;
        proof {
            reveal(Seq::filter);
            assert(rows.take(0) =~= Seq::empty());
            assert(words.deep_view() =~= rows.take(0).filter(on).map_values(word_of()));
        }
        while i < tags.len()
            invariant
                i <= tags.len(),
                tag_rows(tags@) == rows,
                on == is_on(known.id),
                words.deep_view() == rows.take(i as int).filter(on).map_values(word_of()),
            decreases tags.len() - i,
        {
            proof {
                assert(rows.take(i + 1) =~= rows.take(i as int).push(rows[i as int]));
                rows.take(i as int).lemma_filter_push(rows[i as int], on);
            }
            if tags[i].sticker_id == known.id {
                let ghost before = words.deep_view();
                words.push(tags[i].tag.clone());
                proof {
                    assert(words.deep_view() =~= before.push(rows[i as int].tag));
                    assert(rows.take(i as int).filter(on).push(rows[i as int]).map_values(word_of())
                        =~= rows.take(i as int).filter(on).map_values(word_of()).push(
                        rows[i as int].tag,
                    ));
                }
            }
            i += 1;
        }
        assert(rows.take(tags.len() as int) =~= rows);
        words
    }
}

} // verus!
