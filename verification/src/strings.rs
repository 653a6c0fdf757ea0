//! What the engine says to the people who talk to it.

use vstd::prelude::*;

verus! {

pub const SENDER_UNKNOWN: &'static str = "Failed to find the sender of this message";

pub const TAG_NOT_AUTHORIZED: &'static str = "You're not authorized to tag stickers";

pub const TAGGED_STICKER: &'static str = "Tagged the sticker with the following tags:";

pub const USERNAME_MISSING: &'static str = "You must set a username (check your Telegram settings)";

pub const NEED_APPROVAL: &'static str = "Great! Now tell the admin to approve your request";

pub const ALREADY_REGISTERED: &'static str = "You have registered before";

pub const NOT_REGISTERED: &'static str = "The specified user has not registered";

pub const WRONG_ARGNUM: &'static str = "Wrong number of arguments";

pub const NO_PERM: &'static str = "*You're not supposed to do that*";

pub const NO_REPLY_STICKER: &'static str = "Reply to a sticker with this command";

pub const NO_STICKER_SET: &'static str =
    "Tagging is only supported for stickers that are contained in sticker sets";

pub const NO_TAGS: &'static str = "Name at least one tag";

pub const STICKER_UNTAGGED: &'static str = "This sticker is not tagged";

pub const UNTAG_SUCCESS: &'static str = "Successfully removed the specified tags";

/// What stands before the tags of a sticker when they are listed.
pub const TAGS_ON_STICKER: &'static str = "Tags on this sticker: ";

/// What stands before each tag in the answer to a tagger.
pub const BULLET: &'static str = "\n- ";

/// What stands between the tags of a sticker when they are listed.
pub const SPACE: &'static str = " ";

} // verus!
