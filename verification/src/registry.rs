//! Who may tag.
//!
//! An account goes one way only: unknown, then registered, then allowed to
//! tag. Nothing removes an account or takes the permission back.

use crate::error::EngineError;
use crate::model::user;
use crate::state::State;
use crate::store::{DataStore, InsertError};
use vstd::prelude::*;

verus! {

impl State {
    /// Whether the platform user `user_id` may tag: it has an account,
    /// and the account has been approved.
    pub open spec fn is_allowed(self, user_id: i64) -> bool {
        match self.user(user_id) {
            Some(account) => account.allowed,
            None => false,
        }
    }

    /// The internal identifier under which the platform user `user_id`
    /// tags, if it may tag.
    pub open spec fn tagger(self, user_id: i64) -> Option<i32> {
        match self.user(user_id) {
            Some(account) => if account.allowed {
                Some(account.id)
            } else {
                None
            },
            None => None,
        }
    }

    /// What registering the platform user `user_id` under the handle
    /// `username` leads to: a new account that may not tag yet, or no
    /// change where the user has an account already or the identifiers
    /// have run out.
    pub open spec fn register(self, user_id: i64, username: Seq<char>) -> (
        State,
        Result<user::Row, EngineError>,
    ) {
        if self.user(user_id) is Some {
            (self, Err(EngineError::AlreadyRegistered))
        } else if self.last_user_id == i32::MAX {
            (self, Err(EngineError::StoreUnavailable))
        } else {
            let account = user::Row {
                id: (self.last_user_id + 1) as i32,
                user_id,
                username,
                allowed: false,
            };
            (self.with_user(account), Ok(account))
        }
    }

    /// What approving the handle `username` with `secret` leads to. The
    /// secret is tested first, so that a wrong one learns nothing about
    /// who is registered; then the oldest account with that handle may
    /// tag.
    pub open spec fn approve(self, secret: Seq<char>, username: Seq<char>) -> (
        State,
        Result<user::Row, EngineError>,
    ) {
        if secret != self.secret {
            (self, Err(EngineError::InvalidSecret))
        } else if self.user_named(username) is None {
            (self, Err(EngineError::NotRegistered))
        } else {
            let i = choose|i: int| self.first_named_at(i, username);
            (self.allowing(i), Ok(user::Row { allowed: true, ..self.users[i] }))
        }
    }
}

/// Decides from the account that was found for a caller, if any, whether
/// the caller may tag, and if so under which internal identifier.
pub fn authorize(account: &Option<user::Model>) -> (res: Result<i32, EngineError>)
    ensures
        res == match *account {
            Some(found) => if found.allowed {
                Ok::<i32, EngineError>(found.id)
            } else {
                Err::<i32, EngineError>(EngineError::NotAuthorized)
            },
            None => Err::<i32, EngineError>(EngineError::NotAuthorized),
        },
{
    match account {
        Some(found) => if found.allowed {
            Ok(found.id)
        } else {
            Err(EngineError::NotAuthorized)
        },
        None => Err(EngineError::NotAuthorized),
    }
}

impl DataStore {
    /// The internal identifier under which a platform user tags, for a
    /// user who may tag.
    pub fn tagger(&self, user_id: i64) -> (res: Result<i32, EngineError>)
        requires
            self@.wf(),
        ensures
            res == match self@.tagger(user_id) {
                Some(id) => Ok::<i32, EngineError>(id),
                None => Err::<i32, EngineError>(EngineError::NotAuthorized),
            },
    {
        let account = self.find_user(user_id);
        authorize(&account)
    }

    /// Opens an account for a platform user. The account may not tag
    /// until it is approved.
    pub fn register(&mut self, user_id: i64, username: &str) -> (res: Result<
        user::Model,
        EngineError,
    >)
        requires
            old(self)@.wf(),
        ensures
            final(self)@.wf(),
            final(self)@ == old(self)@.register(user_id, username@).0,
            match res {
                Ok(account) => old(self)@.register(user_id, username@).1 == Ok::<
                    user::Row,
                    EngineError,
                >(account@),
                Err(e) => old(self)@.register(user_id, username@).1 == Err::<
                    user::Row,
                    EngineError,
                >(e),
            },
    {
        match self.insert_user(user_id, username.to_owned()) {
            Ok(account) => Ok(account),
            Err(InsertError::Conflict) => Err(EngineError::AlreadyRegistered),
            Err(InsertError::Exhausted) => Err(EngineError::StoreUnavailable),
        }
    }

    /// Lets the oldest account with the handle `username` tag, for a
    /// caller who presents the administrator's secret.
    pub fn approve(&mut self, secret: &str, username: &str) -> (res: Result<
        user::Model,
        EngineError,
    >)
        requires
            old(self)@.wf(),
        ensures
            final(self)@.wf(),
            final(self)@ == old(self)@.approve(secret@, username@).0,
            match res {
                Ok(account) => old(self)@.approve(secret@, username@).1 == Ok::<
                    user::Row,
                    EngineError,
                >(account@),
                Err(e) => old(self)@.approve(secret@, username@).1 == Err::<
                    user::Row,
                    EngineError,
                >(e),
            },
    {
        if !self.secret_is(secret) {
            return Err(EngineError::InvalidSecret);
        }
        match self.named_position(username) {
            None => Err(EngineError::NotRegistered),
            Some(i) => {
                assert(self@.first_named_at(i as int, username@));
                Ok(self.set_allowed(i))
            },
        }
    }

    /// Whether a platform user may tag. A user without an account may
    /// not.
    pub fn is_allowed(&self, user_id: i64) -> (b: bool)
        requires
            self@.wf(),
        ensures
            b == self@.is_allowed(user_id),
    {
        match self.find_user(user_id) {
            Some(account) => account.allowed,
            None => false,
        }
    }
}

} // verus!
