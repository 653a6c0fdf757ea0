//! What holds of the engine whatever it is asked, stated over
//! [`crate::state::State`] and proved.

pub mod accounts;
pub mod history;
pub mod journal;
pub mod popularity;
pub mod resolving;
pub mod search;
pub mod tagging;
