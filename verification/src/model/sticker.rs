//! Stickers that have been tagged at least once.

use vstd::prelude::*;

verus! {

/// One taggable sticker.
#[derive(Debug, PartialEq, Eq)]
pub struct Model {
    /// Internal identifier, assigned on creation and never changed.
    pub id: i32,
    /// The platform's identifier of the sticker, the same however often
    /// the sticker is sent; no two records share it.
    pub file_unique_id: String,
    /// What the platform needs to send the sticker again. Never looked
    /// into.
    pub file_id: String,
    /// The sticker set that the sticker belongs to, if any.
    pub set_name: Option<String>,
    /// How often the sticker was picked from a search result.
    pub popularity: i64,
}

/// The view of a [`Model`].
pub struct Row {
    pub id: i32,
    pub file_unique_id: Seq<char>,
    pub file_id: Seq<char>,
    pub set_name: Option<Seq<char>>,
    pub popularity: i64,
}

impl View for Model {
    type V = Row;

    open spec fn view(&self) -> Row {
        Row {
            id: self.id,
            file_unique_id: self.file_unique_id@,
            file_id: self.file_id@,
            set_name: match self.set_name {
                Some(name) => Some(name@),
                None => None,
            },
            popularity: self.popularity,
        }
    }
}

impl Clone for Model {
    fn clone(&self) -> (copy: Self)
        ensures
            copy == *self,
    {
        Model {
            id: self.id,
            file_unique_id: self.file_unique_id.clone(),
            file_id: self.file_id.clone(),
            set_name: match &self.set_name {
                Some(name) => Some(name.clone()),
                None => None,
            },
            popularity: self.popularity,
        }
    }
}

} // verus!
