//! Why the engine turns a request down.

use vstd::prelude::*;

verus! {

/// The reasons for which a request fails. None of them is fatal: the
/// engine stays usable, and well formed, after each.
#[derive(Debug, PartialEq, Eq, Clone, Copy)]
pub enum EngineError {
    /// The caller has no account, or has one that may not tag.
    NotAuthorized,
    /// The sticker belongs to no sticker set, and only stickers of sets
    /// are tagged.
    Untaggable,
    /// The text holds no tag.
    NoTags,
    /// The sticker could not be stored for being there already, and then
    /// was not there.
    ResolutionFailed,
    /// The secret presented is not the administrator's.
    InvalidSecret,
    /// No account has the handle that was to be approved.
    NotRegistered,
    /// The platform user has an account already.
    AlreadyRegistered,
    /// The store could not take what it was given.
    StoreUnavailable,
}

} // verus!
