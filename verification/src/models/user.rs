//! The linked identity record: one external account and its last-known
//! ratings per `(community, member)` pair. Absence means "not linked".

use crate::ratings::{empty_ratings, Ratings};
use crate::text::{dec_str, u64_to_string};
use vstd::prelude::*;

verus! {

/// The storage key of a member's record.
pub open spec fn user_key_spec(guild_id: u64, discord_id: u64) -> Seq<char> {
    "guilds:"@ + dec_str(guild_id as nat) + ":users:"@ + dec_str(discord_id as nat)
}

/// Builds the storage key `guilds:<guild>:users:<member>`.
pub fn key(guild_id: u64, discord_id: u64) -> (r: String)
    ensures
        r@ == user_key_spec(guild_id, discord_id),
{
    let mut s = String::from_str("guilds:");
    let g = u64_to_string(guild_id);
    s.append(g.as_str());
    s.append(":users:");
    let d = u64_to_string(discord_id);
    s.append(d.as_str());
    s
}

/// A member linked to an external account, with the ratings seen at the
/// last reconciliation.
#[derive(Debug, Clone)]
pub struct User {
    pub guild_id: u64,
    pub discord_id: u64,
    pub lichess_username: String,
    pub ratings: Ratings,
}

impl User {
    /// A freshly linked member: no ratings known yet.
    pub fn new(guild_id: u64, discord_id: u64, lichess_username: String) -> (u: User)
        ensures
            u.guild_id == guild_id,
            u.discord_id == discord_id,
            u.lichess_username == lichess_username,
            u.ratings == empty_ratings(),
    {
        User { guild_id, discord_id, lichess_username, ratings: Ratings::empty() }
    }

    /// This record's storage key.
    pub fn key(&self) -> (r: String)
        ensures
            r@ == user_key_spec(self.guild_id, self.discord_id),
    {
        key(self.guild_id, self.discord_id)
    }

    pub fn get_lichess_username(&self) -> (r: &str)
        ensures
            r@ == self.lichess_username@,
    {
        self.lichess_username.as_str()
    }

    pub fn get_ratings(&self) -> (r: Ratings)
        ensures
            r == self.ratings,
    {
        self.ratings
    }

    /// Overwrites (not merges) the stored ratings with a fresh snapshot.
    pub fn update_ratings(&mut self, new_ratings: Ratings)
        ensures
            *final(self) == (User { ratings: new_ratings, ..*old(self) }),
    {
        self.ratings = new_ratings;
    }

    /// An owned copy with the same fields.
    pub fn duplicate(&self) -> (u: User)
        ensures
            u == *self,
    {
        User {
            guild_id: self.guild_id,
            discord_id: self.discord_id,
            lichess_username: self.lichess_username.clone(),
            ratings: self.ratings,
        }
    }
}

/// The first record stored for `(guild_id, discord_id)`.
pub open spec fn user_for(users: Seq<User>, guild_id: u64, discord_id: u64) -> Option<User>
    decreases users.len(),
{
    if users.len() == 0 {
        None
    } else if users[0].guild_id == guild_id && users[0].discord_id == discord_id {
        Some(users[0])
    } else {
        user_for(users.drop_first(), guild_id, discord_id)
    }
}

/// The first record of the community whose username matches.
pub open spec fn user_by_name(users: Seq<User>, guild_id: u64, name: Seq<char>) -> Option<User>
    decreases users.len(),
{
    if users.len() == 0 {
        None
    } else if users[0].guild_id == guild_id && users[0].lichess_username@ == name {
        Some(users[0])
    } else {
        user_by_name(users.drop_first(), guild_id, name)
    }
}

/// No two records share a `(guild_id, discord_id)` key.
pub open spec fn unique_users(users: Seq<User>) -> bool {
    forall|i: int, j: int|
        0 <= i < j < users.len() ==> !(users[i].guild_id == users[j].guild_id
            && users[i].discord_id == users[j].discord_id)
}

proof fn lemma_user_for_exists(users: Seq<User>, g: u64, d: u64)
    ensures
        (user_for(users, g, d) is Some) <==> (exists|k: int|
            0 <= k < users.len() && users[k].guild_id == g && #[trigger] users[k].discord_id == d),
    decreases users.len(),
{
    if users.len() > 0 {
        lemma_user_for_exists(users.drop_first(), g, d);
        if !(users[0].guild_id == g && users[0].discord_id == d) {
            assert forall|k: int|
                0 <= k < users.len() && users[k].guild_id == g && #[trigger] users[k].discord_id
                    == d implies exists|k2: int|
                0 <= k2 < users.drop_first().len() && users.drop_first()[k2].guild_id == g
                    && #[trigger] users.drop_first()[k2].discord_id == d by {
                assert(users.drop_first()[k - 1] == users[k]);
            }
        }
    }
}

/// A found record carries the key it was found under.
pub proof fn lemma_user_for_key(users: Seq<User>, g: u64, d: u64)
    requires
        user_for(users, g, d) is Some,
    ensures
        user_for(users, g, d)->0.guild_id == g,
        user_for(users, g, d)->0.discord_id == d,
    decreases users.len(),
{
    if users.len() > 0 && !(users[0].guild_id == g && users[0].discord_id == d) {
        lemma_user_for_key(users.drop_first(), g, d);
    }
}

proof fn lemma_user_for_witness(users: Seq<User>, g: u64, d: u64, k: int)
    requires
        unique_users(users),
        0 <= k < users.len(),
        users[k].guild_id == g,
        users[k].discord_id == d,
    ensures
        user_for(users, g, d) == Some(users[k]),
    decreases users.len(),
{
    if k > 0 {
        assert forall|i: int, j: int|
            0 <= i < j < users.drop_first().len() implies !(users.drop_first()[i].guild_id
            == users.drop_first()[j].guild_id && users.drop_first()[i].discord_id
            == users.drop_first()[j].discord_id) by {
            assert(users.drop_first()[i] == users[i + 1]);
            assert(users.drop_first()[j] == users[j + 1]);
        }
        assert(users.drop_first()[k - 1] == users[k]);
        lemma_user_for_witness(users.drop_first(), g, d, k - 1);
    }
}

proof fn lemma_user_for_push(s: Seq<User>, u: User, g: u64, d: u64)
    ensures
        user_for(s.push(u), g, d) == (match user_for(s, g, d) {
            Some(v) => Some(v),
            None => if u.guild_id == g && u.discord_id == d {
                Some(u)
            } else {
                None
            },
        }),
    decreases s.len(),
{
    if s.len() == 0 {
        assert(s.push(u)[0] == u);
        assert(user_for(s, g, d) is None);
        if !(u.guild_id == g && u.discord_id == d) {
            assert(s.push(u).drop_first() =~= Seq::<User>::empty());
            assert(user_for(s.push(u).drop_first(), g, d) is None);
        }
    } else {
        assert(s.push(u)[0] == s[0]);
        assert(s.push(u).drop_first() =~= s.drop_first().push(u));
        lemma_user_for_push(s.drop_first(), u, g, d);
    }
}

proof fn lemma_user_by_name_push(s: Seq<User>, u: User, g: u64, name: Seq<char>)
    ensures
        user_by_name(s.push(u), g, name) == (match user_by_name(s, g, name) {
            Some(v) => Some(v),
            None => if u.guild_id == g && u.lichess_username@ == name {
                Some(u)
            } else {
                None
            },
        }),
    decreases s.len(),
{
    if s.len() == 0 {
        assert(s.push(u)[0] == u);
        assert(user_by_name(s, g, name) is None);
        if !(u.guild_id == g && u.lichess_username@ == name) {
            assert(s.push(u).drop_first() =~= Seq::<User>::empty());
            assert(user_by_name(s.push(u).drop_first(), g, name) is None);
        }
    } else {
        assert(s.push(u)[0] == s[0]);
        assert(s.push(u).drop_first() =~= s.drop_first().push(u));
        lemma_user_by_name_push(s.drop_first(), u, g, name);
    }
}

/// The in-memory identity-record store, keyed by
/// `(guild_id, discord_id)`.
#[derive(Debug, Clone)]
pub struct UserStore {
    pub users: Vec<User>,
}

impl UserStore {
    pub open spec fn wf(self) -> bool {
        unique_users(self.users@)
    }

    /// The record stored for the member, if linked.
    pub open spec fn record_for(self, guild_id: u64, discord_id: u64) -> Option<User> {
        user_for(self.users@, guild_id, discord_id)
    }

    pub fn new() -> (s: UserStore)
        ensures
            s.wf(),
            forall|g: u64, d: u64| s.record_for(g, d) is None,
    {
        UserStore { users: Vec::new() }
    }

    fn find_index(&self, guild_id: u64, discord_id: u64) -> (r: Option<usize>)
        ensures
            match r {
                Some(i) => i < self.users@.len() && self.users@[i as int].guild_id == guild_id
                    && self.users@[i as int].discord_id == discord_id,
                None => forall|k: int|
                    0 <= k < self.users@.len() ==> !(self.users@[k].guild_id == guild_id
                        && #[trigger] self.users@[k].discord_id == discord_id),
            },
    {
        let n = self.users.len();
        let mut i: usize = 0;
        while i < n
            invariant
                i <= n,
                n == self.users@.len(),
                forall|k: int|
                    0 <= k < i ==> !(self.users@[k].guild_id == guild_id
                        && #[trigger] self.users@[k].discord_id == discord_id),
            decreases n - i,
        {
            let u = &self.users[i];
            if u.guild_id == guild_id && u.discord_id == discord_id {
                return Some(i);
            }
            i = i + 1;
        }
        None
    }

    /// Writes the record under its key, overwriting any previous record
    /// for the same member.
    pub fn save(&mut self, user: User)
        requires
            old(self).wf(),
        ensures
            final(self).wf(),
            final(self).record_for(user.guild_id, user.discord_id) == Some(user),
            forall|g: u64, d: u64|
                !(g == user.guild_id && d == user.discord_id) ==> final(self).record_for(g, d)
                    == old(self).record_for(g, d),
    {
        match self.find_index(user.guild_id, user.discord_id) {
            Some(i) => {
                let ghost pre = self.users@;
                self.users.remove(i);
                proof {
                    pre.remove_ensures(i as int);
                    assert forall|k: int, l: int|
                        0 <= k < l < self.users@.len() implies !(self.users@[k].guild_id
                        == self.users@[l].guild_id && self.users@[k].discord_id
                        == self.users@[l].discord_id) by {
                        assert(self.users@[k] == if k < i {
                            pre[k]
                        } else {
                            pre[k + 1]
                        });
                        assert(self.users@[l] == if l < i {
                            pre[l]
                        } else {
                            pre[l + 1]
                        });
                    }
                    assert forall|g: u64, d: u64| true implies #[trigger] user_for(
                        self.users@,
                        g,
                        d,
                    ) == (if g == user.guild_id && d == user.discord_id {
                        None
                    } else {
                        user_for(pre, g, d)
                    }) by {
                        lemma_user_for_remove(pre, i as int, g, d);
                    }
                }
            },
            None => {
                proof {
                    lemma_user_for_exists(self.users@, user.guild_id, user.discord_id);
                }
            },
        }
        let ghost mid = self.users@;
        proof {
            assert(user_for(mid, user.guild_id, user.discord_id) is None) by {
                lemma_user_for_exists(mid, user.guild_id, user.discord_id);
            }
        }
        self.users.push(user);
        proof {
            assert forall|g: u64, d: u64| true implies #[trigger] user_for(self.users@, g, d)
                == (match user_for(mid, g, d) {
                Some(v) => Some(v),
                None => if g == user.guild_id && d == user.discord_id {
                    Some(user)
                } else {
                    None
                },
            }) by {
                lemma_user_for_push(mid, user, g, d);
            }
            assert forall|k: int, l: int|
                0 <= k < l < self.users@.len() implies !(self.users@[k].guild_id
                == self.users@[l].guild_id && self.users@[k].discord_id
                == self.users@[l].discord_id) by {
                assert(self.users@[k] == mid[k]);
                if l == self.users@.len() - 1 {
                    if self.users@[k].guild_id == user.guild_id && self.users@[k].discord_id
                        == user.discord_id {
                        lemma_user_for_witness(mid, user.guild_id, user.discord_id, k);
                    }
                } else {
                    assert(self.users@[l] == mid[l]);
                }
            }
        }
    }

    /// Looks the member up; `None` means "not linked".
    pub fn find(&self, guild_id: u64, discord_id: u64) -> (r: Option<User>)
        requires
            self.wf(),
        ensures
            r == self.record_for(guild_id, discord_id),
    {
        match self.find_index(guild_id, discord_id) {
            Some(i) => {
                proof {
                    lemma_user_for_witness(self.users@, guild_id, discord_id, i as int);
                }
                Some(self.users[i].duplicate())
            },
            None => {
                proof {
                    lemma_user_for_exists(self.users@, guild_id, discord_id);
                }
                None
            },
        }
    }

    /// The first record of the community linked to this external
    /// username, if any.
    pub fn find_by_username(&self, guild_id: u64, username: &str) -> (r: Option<User>)
        ensures
            r == user_by_name(self.users@, guild_id, username@),
    {
        let n = self.users.len();
        let mut i: usize = 0;
        proof {
            assert(self.users@.skip(0) =~= self.users@);
        }
        while i < n
            invariant
                i <= n,
                n == self.users@.len(),
                user_by_name(self.users@, guild_id, username@) == user_by_name(
                    self.users@.skip(i as int),
                    guild_id,
                    username@,
                ),
            decreases n - i,
        {
            let u = &self.users[i];
            proof {
                assert(self.users@.skip(i as int)[0] == self.users@[i as int]);
                assert(self.users@.skip(i as int).drop_first() =~= self.users@.skip(i + 1 as int));
            }
            if u.guild_id == guild_id && crate::text::str_eq(u.lichess_username.as_str(), username) {
                return Some(u.duplicate());
            }
            i = i + 1;
        }
        proof {
            assert(self.users@.skip(n as int) =~= Seq::<User>::empty());
        }
        None
    }

    /// Deletes the member's record; reports whether one was stored.
    pub fn delete(&mut self, guild_id: u64, discord_id: u64) -> (r: bool)
        requires
            old(self).wf(),
        ensures
            final(self).wf(),
            r == (old(self).record_for(guild_id, discord_id) is Some),
            final(self).record_for(guild_id, discord_id) is None,
            forall|g: u64, d: u64|
                !(g == guild_id && d == discord_id) ==> final(self).record_for(g, d) == old(
                    self,
                ).record_for(g, d),
    {
        match self.find_index(guild_id, discord_id) {
            Some(i) => {
                let ghost pre = self.users@;
                proof {
                    lemma_user_for_witness(pre, guild_id, discord_id, i as int);
                }
                self.users.remove(i);
                proof {
                    pre.remove_ensures(i as int);
                    assert forall|k: int, l: int|
                        0 <= k < l < self.users@.len() implies !(self.users@[k].guild_id
                        == self.users@[l].guild_id && self.users@[k].discord_id
                        == self.users@[l].discord_id) by {
                        assert(self.users@[k] == if k < i {
                            pre[k]
                        } else {
                            pre[k + 1]
                        });
                        assert(self.users@[l] == if l < i {
                            pre[l]
                        } else {
                            pre[l + 1]
                        });
                    }
                    assert forall|g: u64, d: u64| true implies #[trigger] user_for(
                        self.users@,
                        g,
                        d,
                    ) == (if g == guild_id && d == discord_id {
                        None
                    } else {
                        user_for(pre, g, d)
                    }) by {
                        lemma_user_for_remove(pre, i as int, g, d);
                    }
                }
                true
            },
            None => {
                proof {
                    lemma_user_for_exists(self.users@, guild_id, discord_id);
                }
                false
            },
        }
    }

    /// How many records the store holds.
    pub fn count(&self) -> (r: usize)
        ensures
            r == self.users@.len(),
    {
        self.users.len()
    }
}

/// Removing the record at `i` answers its own key with `None` and every
/// other key as before.
proof fn lemma_user_for_remove(s: Seq<User>, i: int, g: u64, d: u64)
    requires
        unique_users(s),
        0 <= i < s.len(),
    ensures
        user_for(s.remove(i), g, d) == (if s[i].guild_id == g && s[i].discord_id == d {
            None
        } else {
            user_for(s, g, d)
        }),
{
    let s2 = s.remove(i);
    s.remove_ensures(i);
    assert forall|k: int| 0 <= k < s2.len() implies s2[k] == (if k < i {
        s[k]
    } else {
        s[k + 1]
    }) by {}
    assert(unique_users(s2)) by {
        assert forall|k: int, l: int| 0 <= k < l < s2.len() implies !(s2[k].guild_id
            == s2[l].guild_id && s2[k].discord_id == s2[l].discord_id) by {
            assert(s2[k] == if k < i {
                s[k]
            } else {
                s[k + 1]
            });
            assert(s2[l] == if l < i {
                s[l]
            } else {
                s[l + 1]
            });
        }
    }
    if s[i].guild_id == g && s[i].discord_id == d {
        lemma_user_for_exists(s2, g, d);
        assert forall|k: int| 0 <= k < s2.len() implies !(s2[k].guild_id == g
            && #[trigger] s2[k].discord_id == d) by {
            assert(s2[k] == if k < i {
                s[k]
            } else {
                s[k + 1]
            });
        }
    } else {
        lemma_user_for_exists(s, g, d);
        lemma_user_for_exists(s2, g, d);
        if user_for(s, g, d) is Some {
            let k = choose|k: int|
                0 <= k < s.len() && s[k].guild_id == g && #[trigger] s[k].discord_id == d;
            lemma_user_for_witness(s, g, d, k);
            let k2: int = if k < i {
                k
            } else {
                k - 1
            };
            assert(s2[k2] == s[k]);
            lemma_user_for_witness(s2, g, d, k2);
        } else {
            assert forall|k: int| 0 <= k < s2.len() implies !(s2[k].guild_id == g
                && #[trigger] s2[k].discord_id == d) by {
                assert(s2[k] == if k < i {
                    s[k]
                } else {
                    s[k + 1]
                });
            }
        }
    }
}

} // verus!
