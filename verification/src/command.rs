//! The commands that people send, and what the engine answers.
//!
//! A command arrives as a message. Of the message the engine needs to
//! know who sent it and which sticker, if any, it replies to: that is an
//! [`Incoming`]. What it answers is a [`Reply`].

use crate::clock::now_millis;
use crate::error::EngineError;
use crate::grammar::{help_text, CommandView};
use crate::model::user;
use crate::state::State;
use crate::store::DataStore;
use crate::strings::{
    ALREADY_REGISTERED, BULLET, NEED_APPROVAL, NOT_REGISTERED, NO_PERM, NO_REPLY_STICKER,
    NO_STICKER_SET, NO_TAGS, SENDER_UNKNOWN, SPACE, STICKER_UNTAGGED, TAGGED_STICKER,
    TAGS_ON_STICKER, TAG_NOT_AUTHORIZED, UNTAG_SUCCESS, USERNAME_MISSING, WRONG_ARGNUM,
};
use crate::tagging::text_view;
use crate::text::{join, joined, split_words, words_of};
use vstd::prelude::*;
use vstd::string::StringExecFns;

verus! {

/// What a message can ask for.
#[derive(Debug, PartialEq, Eq)]
pub enum Command {
    /// Tag the sticker that the message replies to with the words of
    /// `text`.
    Tag { text: String },
    /// Open an account for the sender.
    Register,
    /// Let an account tag. `text` holds the administrator's secret and the
    /// handle of the account.
    Allow { text: String },
    /// Say which commands there are.
    Help,
    /// Take the words of `text` off the sticker that the message replies
    /// to.
    Untag { text: String },
    /// List the tags on the sticker that the message replies to.
    ListTags,
}

/// Who sent a message.
#[derive(Debug, PartialEq, Eq)]
pub struct Sender {
    /// The platform's identifier of the account.
    pub id: i64,
    /// The account's handle, if it has one.
    pub username: Option<String>,
}

/// A sticker as the platform shows it in a message.
#[derive(Debug, PartialEq, Eq)]
pub struct StickerRef {
    /// The platform's identifier of the sticker, the same however often
    /// the sticker is sent.
    pub file_unique_id: String,
    /// What the platform needs to send the sticker again.
    pub file_id: String,
    /// The sticker set that the sticker belongs to, if any.
    pub set_name: Option<String>,
}

/// What a message replies to.
#[derive(Debug, PartialEq, Eq)]
pub enum Target {
    /// The message is no reply.
    NoReply,
    /// The message replies to one that holds no sticker.
    NotASticker,
    /// The message replies to this sticker.
    Sticker(StickerRef),
}

/// What the engine needs to know of a message that holds a command.
#[derive(Debug, PartialEq, Eq)]
pub struct Incoming {
    /// Who sent the message, where the platform says so.
    pub sender: Option<Sender>,
    /// What the message replies to.
    pub target: Target,
}

impl Incoming {
    /// The handle of the sender, or `fallback` where the sender is not
    /// known or has none.
    pub fn username_or<'a>(&'a self, fallback: &'a str) -> (name: &'a str)
        ensures
            name@ == match self.sender {
                Some(sender) => match sender.username {
                    Some(username) => username@,
                    None => fallback@,
                },
                None => fallback@,
            },
    {
        match &self.sender {
            Some(sender) => match &sender.username {
                Some(username) => username.as_str(),
                None => fallback,
            },
            None => fallback,
        }
    }
}

/// What the engine answers.
#[derive(Debug, PartialEq, Eq)]
pub enum Reply {
    /// This text, as it is.
    Text(String),
    /// An account has been approved, and is shown as it stands now.
    Approved(user::Model),
}

/// The view of a [`Reply`].
pub enum ReplyView {
    Text(Seq<char>),
    Approved(user::Row),
}

impl View for Reply {
    type V = ReplyView;

    open spec fn view(&self) -> ReplyView {
        match *self {
            Reply::Text(text) => ReplyView::Text(text@),
            Reply::Approved(account) => ReplyView::Approved(account@),
        }
    }
}

/// The view of what handling a command returns.
pub open spec fn answer_view(res: Result<Reply, EngineError>) -> Result<ReplyView, EngineError> {
    match res {
        Ok(reply) => Ok(reply@),
        Err(e) => Err(e),
    }
}

/// The answer that is the text `text`.
pub open spec fn saying(text: &str) -> Result<ReplyView, EngineError> {
    Ok(ReplyView::Text(text@))
}

/// The answer to a tagger: a headline, and each tag on a line of its
/// own.
pub open spec fn tagged_text(words: Seq<Seq<char>>) -> Seq<char> {
    TAGGED_STICKER@ + BULLET@ + joined(words, BULLET@)
}

/// The answer to somebody who asks for a sticker's tags: a headline, and
/// the tags in one line.
pub open spec fn tag_list_text(words: Seq<Seq<char>>) -> Seq<char> {
    TAGS_ON_STICKER@ + joined(words, SPACE@)
}

impl State {
    /// What a `Tag` command leads to, at the time `now`.
    ///
    /// The message must be a reply, its sender must be known and may tag,
    /// and what it replies to must be a sticker; then the sticker is
    /// tagged. A store that cannot take the tags is an error; everything
    /// else is answered in words.
    pub open spec fn handle_tag(self, incoming: Incoming, text: Seq<char>, now: i64) -> (
        State,
        Result<ReplyView, EngineError>,
    ) {
        if incoming.target is NoReply {
            (self, saying(NO_REPLY_STICKER))
        } else if incoming.sender is None {
            (self, saying(SENDER_UNKNOWN))
        } else if self.tagger(incoming.sender->0.id) is None {
            (self, saying(TAG_NOT_AUTHORIZED))
        } else {
            match incoming.target {
                Target::Sticker(sticker) => {
                    let (after, res) = self.tag_at(
                        incoming.sender->0.id,
                        sticker.file_unique_id@,
                        sticker.file_id@,
                        text_view(sticker.set_name),
                        text,
                        now,
                    );
                    (
                        after,
                        match res {
                            Ok(words) => Ok(ReplyView::Text(tagged_text(words))),
                            Err(EngineError::NotAuthorized) => saying(TAG_NOT_AUTHORIZED),
                            Err(EngineError::Untaggable) => saying(NO_STICKER_SET),
                            Err(EngineError::NoTags) => saying(NO_TAGS),
                            Err(e) => Err(e),
                        },
                    )
                },
                _ => (self, saying(NO_REPLY_STICKER)),
            }
        }
    }

    /// What an `Untag` command leads to.
    ///
    /// The message must be a reply, its sender must be known and may tag,
    /// and what it replies to must be a sticker; then the sender's tags
    /// with the words of `text` are taken off the sticker.
    pub open spec fn handle_untag(self, incoming: Incoming, text: Seq<char>) -> (
        State,
        Result<ReplyView, EngineError>,
    ) {
        if incoming.target is NoReply {
            (self, saying(NO_REPLY_STICKER))
        } else if incoming.sender is None {
            (self, saying(SENDER_UNKNOWN))
        } else if self.tagger(incoming.sender->0.id) is None {
            (self, saying(TAG_NOT_AUTHORIZED))
        } else {
            match incoming.target {
                Target::Sticker(sticker) => if self.sticker(sticker.file_unique_id@) is None {
                    (self, saying(STICKER_UNTAGGED))
                } else {
                    (
                        self.untag(incoming.sender->0.id, sticker.file_unique_id@, text).0,
                        saying(UNTAG_SUCCESS),
                    )
                },
                _ => (self, saying(NO_REPLY_STICKER)),
            }
        }
    }

    /// The answer to a `ListTags` command.
    pub open spec fn handle_list_tags(self, incoming: Incoming) -> Result<ReplyView, EngineError> {
        match incoming.target {
            Target::Sticker(sticker) => {
                let words = self.tags_of(sticker.file_unique_id@);
                if words.len() == 0 {
                    saying(STICKER_UNTAGGED)
                } else {
                    Ok(ReplyView::Text(tag_list_text(words)))
                }
            },
            _ => saying(NO_REPLY_STICKER),
        }
    }

    /// What a `Register` command leads to: an account for a sender who is
    /// known and has a handle. A sender who has an account is told so.
    pub open spec fn handle_register(self, incoming: Incoming) -> (
        State,
        Result<ReplyView, EngineError>,
    ) {
        match incoming.sender {
            None => (self, saying(SENDER_UNKNOWN)),
            Some(sender) => match sender.username {
                None => (self, saying(USERNAME_MISSING)),
                Some(username) => {
                    let (after, res) = self.register(sender.id, username@);
                    (
                        after,
                        match res {
                            Ok(_) => saying(NEED_APPROVAL),
                            Err(EngineError::AlreadyRegistered) => saying(ALREADY_REGISTERED),
                            Err(e) => Err(e),
                        },
                    )
                },
            },
        }
    }

    /// What an `Allow` command leads to. Its text must hold two words,
    /// the secret and a handle.
    pub open spec fn handle_allow(self, text: Seq<char>) -> (State, Result<ReplyView, EngineError>) {
        let words = words_of(text);
        if words.len() != 2 {
            (self, saying(WRONG_ARGNUM))
        } else {
            let (after, res) = self.approve(words[0], words[1]);
            (
                after,
                match res {
                    Ok(account) => Ok(ReplyView::Approved(account)),
                    Err(EngineError::InvalidSecret) => saying(NO_PERM),
                    Err(EngineError::NotRegistered) => saying(NOT_REGISTERED),
                    Err(e) => Err(e),
                },
            )
        }
    }

    /// What a command leads to, at the time `now`.
    pub open spec fn handle_at(self, command: CommandView, incoming: Incoming, now: i64) -> (
        State,
        Result<ReplyView, EngineError>,
    ) {
        match command {
            CommandView::Tag { text } => self.handle_tag(incoming, text, now),
            CommandView::Untag { text } => self.handle_untag(incoming, text),
            CommandView::ListTags => (self, self.handle_list_tags(incoming)),
            CommandView::Register => self.handle_register(incoming),
            CommandView::Allow { text } => self.handle_allow(text),
            CommandView::Help => (self, Ok(ReplyView::Text(help_text()))),
        }
    }
}

/// Whether `after` and `res` are what `command` leads to in `before` at
/// the time `now`.
pub open spec fn handled_at(
    before: State,
    after: State,
    res: Result<ReplyView, EngineError>,
    command: CommandView,
    incoming: Incoming,
    now: i64,
) -> bool {
    (after, res) == before.handle_at(command, incoming, now)
}

/// The answer that is the text `text`.
fn say(text: &str) -> (res: Result<Reply, EngineError>)
    ensures
        answer_view(res) == saying(text),
{
    Ok(Reply::Text(text.to_owned()))
}

impl DataStore {
    /// Serves a `Tag` command.
    fn handle_tag(&mut self, incoming: &Incoming, text: &str, now: i64) -> (res: Result<
        Reply,
        EngineError,
    >)
        requires
            old(self)@.wf(),
        ensures
            final(self)@.wf(),
            (final(self)@, answer_view(res)) == old(self)@.handle_tag(*incoming, text@, now),
    {
        if let Target::NoReply = incoming.target {
            return say(NO_REPLY_STICKER);
        }
        let sender = match &incoming.sender {
            None => {
                return say(SENDER_UNKNOWN);
            },
            Some(sender) => sender,
        };
        if self.tagger(sender.id).is_err() {
            return say(TAG_NOT_AUTHORIZED);
        }
        let sticker = match &incoming.target {
            Target::Sticker(sticker) => sticker,
            _ => {
                return say(NO_REPLY_STICKER);
            },
        };
        let res = self.tag_at(
            sender.id,
            sticker.file_unique_id.as_str(),
            sticker.file_id.as_str(),
            sticker.set_name.clone(),
            text,
            now,
        );
        match res {
            Ok(words) => {
                let mut answer = TAGGED_STICKER.to_owned();
                answer.append(BULLET);
                let list = join(&words, BULLET);
                answer.append(list.as_str());
                Ok(Reply::Text(answer))
            },
            Err(EngineError::NotAuthorized) => say(TAG_NOT_AUTHORIZED),
            Err(EngineError::Untaggable) => say(NO_STICKER_SET),
            Err(EngineError::NoTags) => say(NO_TAGS),
            Err(e) => Err(e),
        }
    }

    /// Serves an `Untag` command.
    fn handle_untag(&mut self, incoming: &Incoming, text: &str) -> (res: Result<Reply, EngineError>)
        requires
            old(self)@.wf(),
        ensures
            final(self)@.wf(),
            (final(self)@, answer_view(res)) == old(self)@.handle_untag(*incoming, text@),
    {
        if let Target::NoReply = incoming.target {
            return say(NO_REPLY_STICKER);
        }
        let sender = match &incoming.sender {
            None => {
                return say(SENDER_UNKNOWN);
            },
            Some(sender) => sender,
        };
        if self.tagger(sender.id).is_err() {
            return say(TAG_NOT_AUTHORIZED);
        }
        let sticker = match &incoming.target {
            Target::Sticker(sticker) => sticker,
            _ => {
                return say(NO_REPLY_STICKER);
            },
        };
        if self.find_sticker(sticker.file_unique_id.as_str()).is_none() {
            return say(STICKER_UNTAGGED);
        }
        let _ = self.untag(sender.id, sticker.file_unique_id.as_str(), text);
        say(UNTAG_SUCCESS)
    }

    /// Serves a `ListTags` command.
    fn handle_list_tags(&self, incoming: &Incoming) -> (res: Result<Reply, EngineError>)
        requires
            self@.wf(),
        ensures
            answer_view(res) == self@.handle_list_tags(*incoming),
    {
        match &incoming.target {
            Target::Sticker(sticker) => {
                let words = self.tags_of(sticker.file_unique_id.as_str());
                if words.len() == 0 {
                    say(STICKER_UNTAGGED)
                } else {
                    let mut answer = TAGS_ON_STICKER.to_owned();
                    let list = join(&words, SPACE);
                    answer.append(list.as_str());
                    Ok(Reply::Text(answer))
                }
            },
            _ => say(NO_REPLY_STICKER),
        }
    }

    /// Serves a `Register` command.
    fn handle_register(&mut self, incoming: &Incoming) -> (res: Result<Reply, EngineError>)
        requires
            old(self)@.wf(),
        ensures
            final(self)@.wf(),
            (final(self)@, answer_view(res)) == old(self)@.handle_register(*incoming),
    {
        let sender = match &incoming.sender {
            None => {
                return say(SENDER_UNKNOWN);
            },
            Some(sender) => sender,
        };
        let username = match &sender.username {
            None => {
                return say(USERNAME_MISSING);
            },
            Some(username) => username,
        };
        match self.register(sender.id, username.as_str()) {
            Ok(_) => say(NEED_APPROVAL),
            Err(EngineError::AlreadyRegistered) => say(ALREADY_REGISTERED),
            Err(e) => Err(e),
        }
    }

    /// Serves an `Allow` command.
    fn handle_allow(&mut self, text: &str) -> (res: Result<Reply, EngineError>)
        requires
            old(self)@.wf(),
        ensures
            final(self)@.wf(),
            (final(self)@, answer_view(res)) == old(self)@.handle_allow(text@),
    {
        let words = split_words(text);
        if words.len() != 2 {
            return say(WRONG_ARGNUM);
        }
        assert(words.deep_view()[0] == words[0]@ && words.deep_view()[1] == words[1]@);
        match self.approve(words[0].as_str(), words[1].as_str()) {
            Ok(account) => Ok(Reply::Approved(account)),
            Err(EngineError::InvalidSecret) => say(NO_PERM),
            Err(EngineError::NotRegistered) => say(NOT_REGISTERED),
            Err(e) => Err(e),
        }
    }

    /// Serves a command that arrived at the time `now`.
    pub fn handle_at(&mut self, command: &Command, incoming: &Incoming, now: i64) -> (res: Result<
        Reply,
        EngineError,
    >)
        requires
            old(self)@.wf(),
        ensures
            final(self)@.wf(),
            (final(self)@, answer_view(res)) == old(self)@.handle_at(command@, *incoming, now),
    {
        match command {
            Command::Tag { text } => self.handle_tag(incoming, text.as_str(), now),
            Command::Untag { text } => self.handle_untag(incoming, text.as_str()),
            Command::ListTags => self.handle_list_tags(incoming),
            Command::Register => self.handle_register(incoming),
            Command::Allow { text } => self.handle_allow(text.as_str()),
            Command::Help => Ok(Reply::Text(Command::descriptions())),
        }
    }

    /// Serves a command that arrives now.
    ///
    /// What happens is what [`DataStore::handle_at`] does at the time
    /// that the clock shows.
    pub fn handle(&mut self, command: &Command, incoming: &Incoming) -> (res: Result<
        Reply,
        EngineError,
    >)
        requires
            old(self)@.wf(),
        ensures
            final(self)@.wf(),
            exists|now: i64|
                handled_at(old(self)@, final(self)@, answer_view(res), command@, *incoming, now),
    {
        let now = now_millis();
        let res = self.handle_at(command, incoming, now);
        assert(handled_at(old(self)@, self@, answer_view(res), command@, *incoming, now));
        res
    }
}

} // verus!
