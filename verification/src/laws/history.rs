//! What the engine never undoes.
//!
//! Accounts and stickers are never removed and keep what identifies them;
//! a permission to tag, once given, stays; popularity never falls; and
//! identifiers are never given out twice.

use crate::resolver::lemma_resolve_or_create;
use crate::state::{
    lemma_allowing_wf, lemma_filter_tags, lemma_picked_wf, lemma_with_tags_wf, lemma_with_user_wf,
    lemma_without_tags_wf, stays, State,
};
use crate::text::{lemma_words_of, words_of};
use vstd::prelude::*;

verus! {

/// The requests that change what the engine knows.
pub enum Request {
    Register { user_id: i64, username: Seq<char> },
    Approve { secret: Seq<char>, username: Seq<char> },
    Resolve { file_unique_id: Seq<char>, file_id: Seq<char>, set_name: Option<Seq<char>> },
    Tag {
        caller: i64,
        file_unique_id: Seq<char>,
        file_id: Seq<char>,
        set_name: Option<Seq<char>>,
        raw_text: Seq<char>,
        now: i64,
    },
    Untag { caller: i64, file_unique_id: Seq<char>, raw_text: Seq<char> },
    Select { sticker_id: i32 },
}

impl State {
    /// The state after `request` has been served, whether it succeeded or
    /// not.
    pub open spec fn serve(self, request: Request) -> State {
        match request {
            Request::Register { user_id, username } => self.register(user_id, username).0,
            Request::Approve { secret, username } => self.approve(secret, username).0,
            Request::Resolve { file_unique_id, file_id, set_name } => self.resolve_or_create(
                file_unique_id,
                file_id,
                set_name,
            ).0,
            Request::Tag { caller, file_unique_id, file_id, set_name, raw_text, now } => self.tag_at(
                caller,
                file_unique_id,
                file_id,
                set_name,
                raw_text,
                now,
            ).0,
            Request::Untag { caller, file_unique_id, raw_text } => self.untag(
                caller,
                file_unique_id,
                raw_text,
            ).0,
            Request::Select { sticker_id } => self.record_selection(sticker_id).0,
        }
    }

    /// The state after the requests `requests` have been served, one
    /// after the other.
    pub open spec fn serve_all(self, requests: Seq<Request>) -> State
        decreases requests.len(),
    {
        if requests.len() == 0 {
            self
        } else {
            self.serve_all(requests.drop_last()).serve(requests.last())
        }
    }

    /// Whether `later` can have come out of this state: it has every
    /// account and every sticker of this state, each where it was and
    /// with the identity it had; no account has lost its permission and
    /// no sticker any popularity; every tag with an identifier that had
    /// been given out is a tag of this state; and the secret is the
    /// same.
    pub open spec fn precedes(self, later: State) -> bool {
        &&& self.secret == later.secret
        &&& self.last_user_id <= later.last_user_id
        &&& self.last_sticker_id <= later.last_sticker_id
        &&& self.last_tag_id <= later.last_tag_id
        &&& self.users.len() <= later.users.len()
        &&& forall|i: int|
            0 <= i < self.users.len() ==> {
                &&& (#[trigger] later.users[i]).id == self.users[i].id
                &&& later.users[i].user_id == self.users[i].user_id
                &&& later.users[i].username == self.users[i].username
                &&& self.users[i].allowed ==> later.users[i].allowed
            }
        &&& self.stickers.len() <= later.stickers.len()
        &&& forall|i: int|
            0 <= i < self.stickers.len() ==> {
                &&& (#[trigger] later.stickers[i]).id == self.stickers[i].id
                &&& later.stickers[i].file_unique_id == self.stickers[i].file_unique_id
                &&& later.stickers[i].file_id == self.stickers[i].file_id
                &&& later.stickers[i].set_name == self.stickers[i].set_name
                &&& self.stickers[i].popularity <= later.stickers[i].popularity
            }
        &&& forall|j: int|
            0 <= j < later.tags.len() && (#[trigger] later.tags[j]).id <= self.last_tag_id
                ==> self.tags.contains(later.tags[j])
    }
}

/// Serving a request, whichever it is and however it ends, leaves a well
/// formed state that has lost nothing: no account, no sticker, no
/// permission and no popularity.
pub proof fn law_nothing_is_undone(s: State, request: Request)
    requires
        s.wf(),
    ensures
        s.serve(request).wf(),
        s.precedes(s.serve(request)),
{
    match request {
        Request::Register { user_id, username } => {
            if s.user(user_id) is None && s.last_user_id < i32::MAX {
                lemma_with_user_wf(s, s.register(user_id, username).1->Ok_0);
            }
        },
        Request::Approve { secret, username } => {
            if secret == s.secret && s.user_named(username) is Some {
                let i = choose|i: int| s.first_named_at(i, username);
                lemma_allowing_wf(s, i);
            }
        },
        Request::Resolve { file_unique_id, file_id, set_name } => {
            lemma_resolve_or_create(s, file_unique_id, file_id, set_name);
        },
        Request::Tag { caller, file_unique_id, file_id, set_name, raw_text, now } => {
            lemma_tag_at(s, caller, file_unique_id, file_id, set_name, raw_text, now);
        },
        Request::Untag { caller, file_unique_id, raw_text } => {
            match s.tagger(caller) {
                Some(tagger_id) => match s.sticker(file_unique_id) {
                    Some(known) => {
                        let keep = stays(known.id, words_of(raw_text), tagger_id);
                        lemma_without_tags_wf(s, known.id, words_of(raw_text), tagger_id);
                        lemma_filter_tags(s.tags, keep);
                    },
                    None => {},
                },
                None => {},
            }
        },
        Request::Select { sticker_id } => {
            if s.has_sticker_id(sticker_id) {
                let i = choose|i: int| s.sticker_id_at(i, sticker_id);
                if s.stickers[i].popularity < i64::MAX {
                    lemma_picked_wf(s, i);
                }
            }
        },
    }
}

/// Tagging leaves a well formed state that differs from the one before
/// in the sticker, if it was new, and in the new tags.
pub proof fn lemma_tag_at(
    s: State,
    caller: i64,
    file_unique_id: Seq<char>,
    file_id: Seq<char>,
    set_name: Option<Seq<char>>,
    raw_text: Seq<char>,
    now: i64,
)
    requires
        s.wf(),
    ensures
        ({
            let (t, res) = s.tag_at(caller, file_unique_id, file_id, set_name, raw_text, now);
            &&& t.wf()
            &&& s.precedes(t)
            &&& t.users == s.users
            &&& s.tags.is_prefix_of(t.tags)
            &&& res is Ok ==> t.tags.len() == s.tags.len() + words_of(raw_text).len()
            &&& res is Err ==> t.tags == s.tags
        }),
{
    let words = words_of(raw_text);
    lemma_words_of(raw_text);
    match s.tagger(caller) {
        Some(tagger_id) => {
            if crate::tagging::is_taggable(set_name) && words.len() > 0 {
                lemma_resolve_or_create(s, file_unique_id, file_id, set_name);
                let (resolved, sticker) = s.resolve_or_create(file_unique_id, file_id, set_name);
                match sticker {
                    Ok(sticker_id) => {
                        if resolved.last_tag_id + words.len() <= i32::MAX {
                            let i = choose|i: int| s.user_at(i, caller);
                            assert(resolved.user_id_at(i, tagger_id));
                            lemma_with_tags_wf(resolved, words, sticker_id, tagger_id, now);
                        }
                    },
                    Err(_) => {},
                }
            }
        },
        None => {},
    }
}

/// A state can have come out of itself.
pub proof fn law_precedes_is_reflexive(s: State)
    ensures
        s.precedes(s),
{
}

/// What can have come out of a state that can have come out of another
/// can have come out of that other.
pub proof fn law_precedes_is_transitive(a: State, b: State, c: State)
    requires
        a.precedes(b),
        b.precedes(c),
    ensures
        a.precedes(c),
{
    assert forall|i: int| 0 <= i < a.users.len() implies {
        &&& (#[trigger] c.users[i]).id == a.users[i].id
        &&& c.users[i].user_id == a.users[i].user_id
        &&& c.users[i].username == a.users[i].username
        &&& a.users[i].allowed ==> c.users[i].allowed
    } by {
        assert(b.users[i].id == a.users[i].id);
    }
    assert forall|i: int| 0 <= i < a.stickers.len() implies {
        &&& (#[trigger] c.stickers[i]).id == a.stickers[i].id
        &&& c.stickers[i].file_unique_id == a.stickers[i].file_unique_id
        &&& c.stickers[i].file_id == a.stickers[i].file_id
        &&& c.stickers[i].set_name == a.stickers[i].set_name
        &&& a.stickers[i].popularity <= c.stickers[i].popularity
    } by {
        assert(b.stickers[i].id == a.stickers[i].id);
    }
    assert forall|j: int|
        0 <= j < c.tags.len() && (#[trigger] c.tags[j]).id <= a.last_tag_id implies a.tags.contains(
        c.tags[j],
    ) by {
        assert(b.tags.contains(c.tags[j]));
        let k = choose|k: int| 0 <= k < b.tags.len() && b.tags[k] == c.tags[j];
        assert(a.tags.contains(b.tags[k]));
    }
}

/// Whatever requests are served, in whatever order, the state stays well
/// formed and nothing is undone.
pub proof fn law_history(s: State, requests: Seq<Request>)
    requires
        s.wf(),
    ensures
        s.serve_all(requests).wf(),
        s.precedes(s.serve_all(requests)),
    decreases requests.len(),
{
    if requests.len() > 0 {
        let before = s.serve_all(requests.drop_last());
        law_history(s, requests.drop_last());
        law_nothing_is_undone(before, requests.last());
        law_precedes_is_transitive(s, before, before.serve(requests.last()));
    }
}

} // verus!
