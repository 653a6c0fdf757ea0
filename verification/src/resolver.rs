//! From the platform's name for a sticker to the engine's record of it.
//!
//! A sticker is stored the first time it is named and found every time
//! after that, so that there is never more than one record for it, in
//! whatever order requests for it arrive.

use crate::error::EngineError;
use crate::model::sticker;
use crate::state::State;
use crate::store::{DataStore, InsertError};
use vstd::prelude::*;

verus! {

impl State {
    /// The record that a sticker gets when it is stored now.
    pub open spec fn fresh_sticker(
        self,
        file_unique_id: Seq<char>,
        file_id: Seq<char>,
        set_name: Option<Seq<char>>,
    ) -> sticker::Row {
        sticker::Row {
            id: (self.last_sticker_id + 1) as i32,
            file_unique_id,
            file_id,
            set_name,
            popularity: 0,
        }
    }

    /// What resolving a sticker leads to. A sticker that is known keeps
    /// its record as it is, whatever `file_id` and `set_name` say now; one
    /// that is not known is stored, unless the identifiers have run out.
    pub open spec fn resolve_or_create(
        self,
        file_unique_id: Seq<char>,
        file_id: Seq<char>,
        set_name: Option<Seq<char>>,
    ) -> (State, Result<i32, EngineError>) {
        match self.sticker(file_unique_id) {
            Some(known) => (self, Ok(known.id)),
            None => if self.last_sticker_id == i32::MAX {
                (self, Err(EngineError::StoreUnavailable))
            } else {
                let fresh = self.fresh_sticker(file_unique_id, file_id, set_name);
                (self.with_sticker(fresh), Ok(fresh.id))
            },
        }
    }
}

/// Resolving a sticker leaves a well formed state in which the sticker
/// has exactly the record whose identifier came back, and touches neither
/// the accounts nor the tags nor any other sticker.
pub proof fn lemma_resolve_or_create(
    s: State,
    file_unique_id: Seq<char>,
    file_id: Seq<char>,
    set_name: Option<Seq<char>>,
)
    requires
        s.wf(),
    ensures
        ({
            let (t, res) = s.resolve_or_create(file_unique_id, file_id, set_name);
            &&& t.wf()
            &&& t.users == s.users
            &&& t.tags == s.tags
            &&& t.secret == s.secret
            &&& t.last_user_id == s.last_user_id
            &&& t.last_tag_id == s.last_tag_id
            &&& s.stickers.is_prefix_of(t.stickers)
            &&& match res {
                Ok(id) => {
                    &&& t.sticker(file_unique_id) is Some
                    &&& t.sticker(file_unique_id)->0.id == id
                    &&& t.has_sticker_id(id)
                    &&& t.stickers.len() == s.stickers.len() + if s.sticker(file_unique_id) is Some {
                        0int
                    } else {
                        1int
                    }
                },
                Err(e) => {
                    &&& e == EngineError::StoreUnavailable
                    &&& t == s
                    &&& s.sticker(file_unique_id) is None
                },
            }
        }),
{
    let (t, res) = s.resolve_or_create(file_unique_id, file_id, set_name);
    match s.sticker(file_unique_id) {
        Some(known) => {
            let i = choose|i: int| s.sticker_at(i, file_unique_id);
            assert(s.sticker_id_at(i, known.id));
        },
        None => {
            if s.last_sticker_id < i32::MAX {
                let fresh = s.fresh_sticker(file_unique_id, file_id, set_name);
                crate::state::lemma_with_sticker_wf(s, fresh);
                let i = s.stickers.len() as int;
                assert(t.sticker_at(i, file_unique_id));
                assert(t.sticker_id_at(i, fresh.id));
                let j = choose|j: int| t.sticker_at(j, file_unique_id);
                assert(j == i) by {
                    if j != i {
                        assert(t.stickers[j].file_unique_id != t.stickers[i].file_unique_id);
                    }
                }
            }
        },
    }
}

/// What a lookup decides after the store refused a sticker as already
/// stored: the identifier of the record found, or, where none was found,
/// that the store contradicts itself.
pub fn after_conflict(found: Option<i32>) -> (res: Result<i32, EngineError>)
    ensures
        res == match found {
            Some(id) => Ok::<i32, EngineError>(id),
            None => Err::<i32, EngineError>(EngineError::ResolutionFailed),
        },
{
    match found {
        Some(id) => Ok(id),
        None => Err(EngineError::ResolutionFailed),
    }
}

impl DataStore {
    /// The internal identifier of the sticker that the platform calls
    /// `file_unique_id`, storing the sticker first where it is new.
    ///
    /// The sticker is offered to the store, which refuses it if it is
    /// there already; only then is it looked up. A well formed store
    /// never contradicts itself, so `ResolutionFailed` does not occur
    /// here.
    pub fn resolve_or_create(
        &mut self,
        file_unique_id: &str,
        file_id: &str,
        set_name: Option<String>,
    ) -> (res: Result<i32, EngineError>)
        requires
            old(self)@.wf(),
        ensures
            final(self)@.wf(),
            (final(self)@, res) == old(self)@.resolve_or_create(
                file_unique_id@,
                file_id@,
                match set_name {
                    Some(name) => Some(name@),
                    None => None,
                },
            ),
    {
        match self.insert_sticker(file_unique_id.to_owned(), file_id.to_owned(), set_name) {
            Ok(stored) => Ok(stored.id),
            Err(InsertError::Conflict) => {
                let found = match self.find_sticker(file_unique_id) {
                    Some(known) => Some(known.id),
                    None => None,
                };
                after_conflict(found)
            },
            Err(InsertError::Exhausted) => Err(EngineError::StoreUnavailable),
        }
    }
}

} // verus!
