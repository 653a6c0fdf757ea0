//! Tag-indexed sticker search: taggers attach free-text tags to stickers,
//! anyone can look stickers up by keyword, and results are ranked by how
//! many keywords they match and by how often they were picked before.
//!
//! The engine is a [`store::DataStore`]: three tables of records and the
//! administrator's secret. What it knows at one moment is a
//! [`state::State`], and every operation is specified by what it makes of
//! that state:
//!
//! - [`registry`]: who may tag: registering, approving, asking;
//! - [`resolver`]: one record for each sticker, however often it is named;
//! - [`tagging`]: putting tags on stickers and taking them off;
//! - [`search`]: finding stickers by the words of a query, and ranking
//!   them;
//! - [`feedback`]: counting how often a sticker is picked;
//! - [`grammar`] and [`command`]: reading a command from a message, and
//!   answering it;
//! - [`journal`]: telling what a request changed, for whoever keeps the
//!   records elsewhere;
//! - [`laws`]: what holds of the engine whatever it is asked.
//!
//! Every executable function of this crate carries a contract that Verus
//! proves. Two calls go into other crates, for the time of day and for
//! joining strings; each sits behind a small wrapper whose contract is
//! stated, and documented, as an assumption.

pub mod clock;
pub mod command;
pub mod error;
pub mod feedback;
pub mod grammar;
pub mod journal;
pub mod laws;
pub mod model;
pub mod registry;
pub mod resolver;
pub mod search;
pub mod state;
pub mod store;
pub mod strings;
pub mod tagging;
pub mod text;
