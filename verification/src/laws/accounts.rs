//! How an account comes to tag: it registers, and is approved.

use crate::error::EngineError;
use crate::model::user;
use crate::state::{lemma_allowing_wf, lemma_with_user_wf, State};
use vstd::prelude::*;

verus! {

/// A platform user without an account may not tag, and one who has just
/// registered may not tag either.
pub proof fn law_registering_does_not_allow(s: State, user_id: i64, username: Seq<char>)
    requires
        s.wf(),
        s.user(user_id) is None,
    ensures
        !s.is_allowed(user_id),
        !s.register(user_id, username).0.is_allowed(user_id),
{
    let (t, res) = s.register(user_id, username);
    if res is Ok {
        let account = res->Ok_0;
        lemma_with_user_wf(s, account);
        let i = s.users.len() as int;
        assert(t.user_at(i, user_id));
        let j = choose|j: int| t.user_at(j, user_id);
        assert(j == i) by {
            if j != i {
                assert(t.users[j].user_id != t.users[i].user_id);
            }
        }
    }
}

/// An account that has been approved may tag: the oldest account with the
/// handle that was approved.
pub proof fn law_approving_allows(s: State, secret: Seq<char>, username: Seq<char>)
    requires
        s.wf(),
        s.approve(secret, username).1 is Ok,
    ensures
        ({
            let (t, res) = s.approve(secret, username);
            let account = res->Ok_0;
            &&& secret == s.secret
            &&& account.username == username
            &&& account.allowed
            &&& t.is_allowed(account.user_id)
            &&& t.user(account.user_id) == Some(account)
        }),
{
    let (t, res) = s.approve(secret, username);
    let account = res->Ok_0;
    let i = choose|i: int| s.first_named_at(i, username);
    lemma_allowing_wf(s, i);
    assert(t.user_at(i, account.user_id));
    let j = choose|j: int| t.user_at(j, account.user_id);
    assert(j == i) by {
        if j != i {
            assert(t.users[j].user_id != t.users[i].user_id);
        }
    }
}

/// Who presents a wrong secret learns nothing: the answer is
/// `InvalidSecret` whether the handle is registered or not, and nothing
/// changes.
pub proof fn law_wrong_secret_learns_nothing(s: State, secret: Seq<char>, username: Seq<char>)
    requires
        secret != s.secret,
    ensures
        s.approve(secret, username) == (
            s,
            Err::<user::Row, EngineError>(EngineError::InvalidSecret),
        ),
{
}

} // verus!
