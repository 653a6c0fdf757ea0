//! The three kinds of record the engine keeps, and for each its
//! mathematical view: the same record with every string as a `Seq<char>`.

pub mod sticker;
pub mod tagged_sticker;
pub mod user;
