//! Users who asked to become taggers.

use vstd::prelude::*;

verus! {

/// One platform account and whether it may tag.
#[derive(Debug, PartialEq, Eq)]
pub struct Model {
    /// Internal identifier.
    pub id: i32,
    /// The platform's identifier of the account; no two records share it.
    pub user_id: i64,
    /// The account's handle on the platform.
    pub username: String,
    /// Whether the account may tag. False until an administrator says
    /// otherwise, and never false again after that.
    pub allowed: bool,
}

/// The view of a [`Model`].
pub struct Row {
    pub id: i32,
    pub user_id: i64,
    pub username: Seq<char>,
    pub allowed: bool,
}

impl View for Model {
    type V = Row;

    open spec fn view(&self) -> Row {
        Row { id: self.id, user_id: self.user_id, username: self.username@, allowed: self.allowed }
    }
}

impl Clone for Model {
    fn clone(&self) -> (copy: Self)
        ensures
            copy == *self,
    {
        Model {
            id: self.id,
            user_id: self.user_id,
            username: self.username.clone(),
            allowed: self.allowed,
        }
    }
}

} // verus!
