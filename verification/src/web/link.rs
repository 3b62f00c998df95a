//! Consuming a linking challenge: the decisions of the OAuth callback.
//!
//! The caller redeems the challenge named by the callback's `state`,
//! exchanges the authorization code using the stored verifier, resolves
//! the external identity, and hands both to `complete_link`. A missing
//! challenge, a restricted account or an already-linked username reject
//! the link; prior links are never overwritten implicitly.

use crate::lichess::client::{is_bot_spec, LichessUser};
use crate::models::challenge::Challenge;
use crate::models::user::{user_by_name, User, UserStore};
use crate::ratings::empty_ratings;
use vstd::prelude::*;

verus! {

/// The query parameters of the OAuth callback: the authorization code
/// and the challenge id carried through `state`.
#[derive(Debug, Clone)]
pub struct CallbackParams {
    pub code: String,
    pub state: u64,
}

/// Why a link attempt was rejected.
#[derive(Debug, Clone, Copy, PartialEq, Eq, Structural)]
pub enum LinkError {
    /// No live challenge under the given id: expired or already used.
    ChallengeNotFound,
    /// The resolved account is an automated account.
    BotAccount,
    /// The username is already linked within this community.
    DuplicateLink,
}

impl LinkError {
    /// The HTTP status the rejection is reported with.
    pub fn status_code(&self) -> (r: u16)
        ensures
            r == match *self {
                LinkError::ChallengeNotFound => 404u16,
                LinkError::BotAccount => 409u16,
                LinkError::DuplicateLink => 409u16,
            },
    {
        match self {
            LinkError::ChallengeNotFound => 404,
            LinkError::BotAccount => 409,
            LinkError::DuplicateLink => 409,
        }
    }

    /// The user-facing explanation of the rejection.
    pub fn message(&self) -> (r: &'static str)
        ensures
            r@ == match *self {
                LinkError::ChallengeNotFound => "authentication challenge not found"@,
                LinkError::BotAccount => "bot accounts are not allowed"@,
                LinkError::DuplicateLink
                    => "The account you are trying to link is already in use on this Discord server"@,
            },
    {
        match self {
            LinkError::ChallengeNotFound => "authentication challenge not found",
            LinkError::BotAccount => "bot accounts are not allowed",
            LinkError::DuplicateLink
                => "The account you are trying to link is already in use on this Discord server",
        }
    }
}

/// Turns a redemption result into the callback's first decision: a
/// missing challenge rejects the request as not found or expired.
pub fn require_challenge(redeemed: Option<Challenge>) -> (r: Result<Challenge, LinkError>)
    ensures
        match redeemed {
            Some(c) => r == Result::<Challenge, LinkError>::Ok(c),
            None => r == Result::<Challenge, LinkError>::Err(LinkError::ChallengeNotFound),
        },
{
    match redeemed {
        Some(c) => Ok(c),
        None => Err(LinkError::ChallengeNotFound),
    }
}

/// Completes a link after the external identity was resolved: rejects
/// restricted accounts and usernames already linked in the community;
/// otherwise creates the identity record, with no ratings yet, under
/// the challenge's member.
pub fn complete_link(users: &mut UserStore, challenge: &Challenge, account: &LichessUser) -> (r:
    Result<User, LinkError>)
    requires
        old(users).wf(),
    ensures
        final(users).wf(),
        match r {
            Err(e) => {
                &&& *final(users) == *old(users)
                &&& e != LinkError::ChallengeNotFound
                &&& (e == LinkError::BotAccount <==> is_bot_spec(*account))
                &&& e == LinkError::DuplicateLink ==> user_by_name(
                    old(users).users@,
                    challenge.guild_id,
                    account.username@,
                ) is Some
            },
            Ok(u) => {
                &&& !is_bot_spec(*account)
                &&& user_by_name(old(users).users@, challenge.guild_id, account.username@) is None
                &&& u.guild_id == challenge.guild_id
                &&& u.discord_id == challenge.discord_id
                &&& u.lichess_username@ == account.username@
                &&& u.ratings == empty_ratings()
                &&& final(users).record_for(challenge.guild_id, challenge.discord_id) == Some(u)
                &&& forall|g: u64, d: u64|
                    !(g == challenge.guild_id && d == challenge.discord_id) ==> final(users).record_for(
                        g,
                        d,
                    ) == old(users).record_for(g, d)
            },
        },
{
    if account.is_bot() {
        return Err(LinkError::BotAccount);
    }
    match users.find_by_username(challenge.guild_id(), account.get_username()) {
        Some(_) => Err(LinkError::DuplicateLink),
        None => {
            let username = String::from_str(account.get_username());
            let user = User::new(challenge.guild_id(), challenge.discord_id(), username);
            users.save(user.duplicate());
            Ok(user)
        },
    }
}

} // verus!
