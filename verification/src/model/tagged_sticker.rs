//! Tags on stickers.

use vstd::prelude::*;

verus! {

/// One tag that one tagger put on one sticker at one time.
#[derive(Debug, PartialEq, Eq)]
pub struct Model {
    /// Internal identifier.
    pub id: i32,
    /// The tag: a single word, without white space.
    pub tag: String,
    /// The `id` of the sticker.
    pub sticker_id: i32,
    /// The `id` of the user who tagged.
    pub tagger_id: i32,
    /// When the tag was put on, in milliseconds since the Unix epoch.
    pub ts: i64,
}

/// The view of a [`Model`].
pub struct Row {
    pub id: i32,
    pub tag: Seq<char>,
    pub sticker_id: i32,
    pub tagger_id: i32,
    pub ts: i64,
}

impl View for Model {
    type V = Row;

    open spec fn view(&self) -> Row {
        Row {
            id: self.id,
            tag: self.tag@,
            sticker_id: self.sticker_id,
            tagger_id: self.tagger_id,
            ts: self.ts,
        }
    }
}

impl Clone for Model {
    fn clone(&self) -> (copy: Self)
        ensures
            copy == *self,
    {
        Model {
            id: self.id,
            tag: self.tag.clone(),
            sticker_id: self.sticker_id,
            tagger_id: self.tagger_id,
            ts: self.ts,
        }
    }
}

} // verus!
