//! The single-use account-linking challenge: a random 64-bit id bound
//! to a member and a fresh PKCE code verifier. A challenge is stored
//! with a bounded TTL, consumed (read and deleted in one step) exactly
//! once, and never reusable afterwards.

use crate::lichess::auth::{oauth_url, oauth_url_spec};
use crate::text::{ascii_bytes_to_string, ascii_seq, copy_bytes, dec_str, u64_to_string};
use vstd::prelude::*;

verus! {

/// How long a stored challenge lives, in seconds, before the storage
/// collaborator expires it.
pub const TTL: usize = 86400;

/// Whether a byte belongs to the PKCE code-verifier alphabet: ASCII
/// letters, digits, `-`, `.`, `~` and `_`.
pub open spec fn is_verifier_byte(b: u8) -> bool {
    ||| 65 <= b <= 90
    ||| 97 <= b <= 122
    ||| 48 <= b <= 57
    ||| b == 45
    ||| b == 46
    ||| b == 126
    ||| b == 95
}

/// Relies on `rand::random`: a value drawn from the thread-local
/// generator. Nothing is promised of which value comes back.
pub assume_specification<T>[ rand::random::<T> ]() -> (r: T)
    where rand::distributions::Standard: rand::distributions::Distribution<T>,
;

/// Relies on `pkce::code_verifier`: a sequence of `len` bytes drawn
/// from the verifier alphabet. `len` outside 43..=128 panics there, so
/// it is excluded here. Which bytes come back is random and not
/// promised.
#[verifier::external_body]
fn fresh_code_verifier(len: usize) -> (r: Vec<u8>)
    requires
        43 <= len <= 128,
    ensures
        r@.len() == len,
        forall|i: int| 0 <= i < r@.len() ==> is_verifier_byte(#[trigger] r@[i]),
{
    pkce::code_verifier(len)
}

/// The PKCE code challenge derived from a verifier: the base64url text
/// of its SHA-256 digest. A function of the verifier bytes alone.
pub uninterp spec fn code_challenge_chars(verifier: Seq<u8>) -> Seq<char>;

/// Relies on `pkce::code_challenge`: SHA-256 of the verifier, base64
/// encoded with `+`, `/` and padding mapped to the URL-safe alphabet.
/// The result depends on the verifier bytes alone.
#[verifier::external_body]
pub(crate) fn derive_code_challenge(verifier: &Vec<u8>) -> (r: String)
    ensures
        r@ == code_challenge_chars(verifier@),
{
    pkce::code_challenge(verifier.as_slice())
}

/// The storage key of a challenge record.
pub open spec fn challenge_key_spec(id: u64) -> Seq<char> {
    "challenges:"@ + dec_str(id as nat)
}

/// Builds the storage key `challenges:<id>`.
pub fn key(id: u64) -> (r: String)
    ensures
        r@ == challenge_key_spec(id),
{
    let mut s = String::from_str("challenges:");
    let d = u64_to_string(id);
    s.append(d.as_str());
    s
}

/// An ephemeral, single-use record binding a link request to a PKCE
/// verifier.
#[derive(Debug, Clone)]
pub struct Challenge {
    pub id: u64,
    pub guild_id: u64,
    pub discord_id: u64,
    pub code_verifier: Vec<u8>,
}

impl Challenge {
    /// The verifier bytes come from the verifier alphabet, so they read
    /// as ASCII text.
    pub open spec fn wf(self) -> bool {
        forall|i: int|
            0 <= i < self.code_verifier@.len() ==> is_verifier_byte(#[trigger] self.code_verifier@[i])
    }

    /// This record's storage key.
    pub fn key(&self) -> (r: String)
        ensures
            r@ == challenge_key_spec(self.id),
    {
        key(self.id)
    }

    /// The opaque `state` value carried through the OAuth round trip:
    /// the challenge id in decimal.
    pub fn state(&self) -> (r: String)
        ensures
            r@ == dec_str(self.id as nat),
    {
        u64_to_string(self.id)
    }

    pub fn guild_id(&self) -> (r: u64)
        ensures
            r == self.guild_id,
    {
        self.guild_id
    }

    pub fn discord_id(&self) -> (r: u64)
        ensures
            r == self.discord_id,
    {
        self.discord_id
    }

    /// The stored verifier as text, for the token exchange.
    pub fn code_verifier(&self) -> (r: String)
        requires
            self.wf(),
        ensures
            r@ == ascii_seq(self.code_verifier@),
    {
        proof {
            assert forall|i: int| 0 <= i < self.code_verifier@.len() implies self.code_verifier@[i]
                < 128 by {
                assert(is_verifier_byte(self.code_verifier@[i]));
            }
        }
        ascii_bytes_to_string(&self.code_verifier)
    }

    /// The one-time authorization URL for this challenge: the code
    /// challenge derived from the stored verifier, and the challenge id
    /// as the `state` parameter.
    pub fn lichess_url(&self, hostname: &str, client_id: &str) -> (r: String)
        ensures
            r@ == oauth_url_spec(
                code_challenge_chars(self.code_verifier@),
                dec_str(self.id as nat),
                hostname@,
                client_id@,
            ),
    {
        let challenge = derive_code_challenge(&self.code_verifier);
        let state = self.state();
        oauth_url(challenge.as_str(), state.as_str(), hostname, client_id)
    }

    /// An owned copy with the same fields.
    pub fn duplicate(&self) -> (c: Challenge)
        ensures
            same_challenge(c, *self),
    {
        Challenge {
            id: self.id,
            guild_id: self.guild_id,
            discord_id: self.discord_id,
            code_verifier: copy_bytes(&self.code_verifier),
        }
    }
}

/// Field-wise sameness of two challenge records.
pub open spec fn same_challenge(a: Challenge, b: Challenge) -> bool {
    &&& a.id == b.id
    &&& a.guild_id == b.guild_id
    &&& a.discord_id == b.discord_id
    &&& a.code_verifier@ == b.code_verifier@
}

/// The first challenge stored for `id`.
pub open spec fn challenge_for(cs: Seq<Challenge>, id: u64) -> Option<Challenge>
    decreases cs.len(),
{
    if cs.len() == 0 {
        None
    } else if cs[0].id == id {
        Some(cs[0])
    } else {
        challenge_for(cs.drop_first(), id)
    }
}

/// No two stored challenges share an id.
pub open spec fn unique_challenges(cs: Seq<Challenge>) -> bool {
    forall|i: int, j: int| 0 <= i < j < cs.len() ==> cs[i].id != cs[j].id
}

proof fn lemma_challenge_for_exists(cs: Seq<Challenge>, id: u64)
    ensures
        (challenge_for(cs, id) is Some) <==> (exists|k: int|
            0 <= k < cs.len() && #[trigger] cs[k].id == id),
    decreases cs.len(),
{
    if cs.len() > 0 {
        lemma_challenge_for_exists(cs.drop_first(), id);
        if cs[0].id != id {
            assert forall|k: int|
                0 <= k < cs.len() && #[trigger] cs[k].id == id implies exists|k2: int|
                0 <= k2 < cs.drop_first().len() && #[trigger] cs.drop_first()[k2].id == id by {
                assert(cs.drop_first()[k - 1] == cs[k]);
            }
        }
    }
}

proof fn lemma_challenge_for_witness(cs: Seq<Challenge>, id: u64, k: int)
    requires
        unique_challenges(cs),
        0 <= k < cs.len(),
        cs[k].id == id,
    ensures
        challenge_for(cs, id) == Some(cs[k]),
    decreases cs.len(),
{
    if k > 0 {
        assert forall|i: int, j: int|
            0 <= i < j < cs.drop_first().len() implies cs.drop_first()[i].id
            != cs.drop_first()[j].id by {
            assert(cs.drop_first()[i] == cs[i + 1]);
            assert(cs.drop_first()[j] == cs[j + 1]);
        }
        assert(cs.drop_first()[k - 1] == cs[k]);
        lemma_challenge_for_witness(cs.drop_first(), id, k - 1);
    }
}

proof fn lemma_challenge_for_push(s: Seq<Challenge>, c: Challenge, id: u64)
    ensures
        challenge_for(s.push(c), id) == (match challenge_for(s, id) {
            Some(v) => Some(v),
            None => if c.id == id {
                Some(c)
            } else {
                None
            },
        }),
    decreases s.len(),
{
    if s.len() == 0 {
        assert(s.push(c)[0] == c);
        assert(challenge_for(s, id) is None);
        if c.id != id {
            assert(s.push(c).drop_first() =~= Seq::<Challenge>::empty());
            assert(challenge_for(s.push(c).drop_first(), id) is None);
        }
    } else {
        assert(s.push(c)[0] == s[0]);
        assert(s.push(c).drop_first() =~= s.drop_first().push(c));
        lemma_challenge_for_push(s.drop_first(), c, id);
    }
}

/// Removing the record at `i` answers its own id with `None` and every
/// other id as before.
proof fn lemma_challenge_for_remove(s: Seq<Challenge>, i: int, id: u64)
    requires
        unique_challenges(s),
        0 <= i < s.len(),
    ensures
        challenge_for(s.remove(i), id) == (if s[i].id == id {
            None
        } else {
            challenge_for(s, id)
        }),
        unique_challenges(s.remove(i)),
{
    let s2 = s.remove(i);
    s.remove_ensures(i);
    assert forall|k: int| 0 <= k < s2.len() implies s2[k] == (if k < i {
        s[k]
    } else {
        s[k + 1]
    }) by {}
    assert(unique_challenges(s2)) by {
        assert forall|k: int, l: int| 0 <= k < l < s2.len() implies s2[k].id != s2[l].id by {
            assert(s2[k] == if k < i {
                s[k]
            } else {
                s[k + 1]
            });
            assert(s2[l] == if l < i {
                s[l]
            } else {
                s[l + 1]
            });
        }
    }
    if s[i].id == id {
        lemma_challenge_for_exists(s2, id);
        assert forall|k: int| 0 <= k < s2.len() implies #[trigger] s2[k].id != id by {
            assert(s2[k] == if k < i {
                s[k]
            } else {
                s[k + 1]
            });
        }
    } else {
        lemma_challenge_for_exists(s, id);
        lemma_challenge_for_exists(s2, id);
        if challenge_for(s, id) is Some {
            let k = choose|k: int| 0 <= k < s.len() && #[trigger] s[k].id == id;
            lemma_challenge_for_witness(s, id, k);
            let k2: int = if k < i {
                k
            } else {
                k - 1
            };
            assert(s2[k2] == s[k]);
            lemma_challenge_for_witness(s2, id, k2);
        } else {
            assert forall|k: int| 0 <= k < s2.len() implies #[trigger] s2[k].id != id by {
                assert(s2[k] == if k < i {
                    s[k]
                } else {
                    s[k + 1]
                });
            }
        }
    }
}

/// What consuming a challenge promises: the id's record is returned if
/// it was stored, it is gone afterwards, and no other id is touched.
pub open spec fn redeem_post(
    before: ChallengeStore,
    after: ChallengeStore,
    id: u64,
    r: Option<Challenge>,
) -> bool {
    &&& r == before.record_for(id)
    &&& after.record_for(id) is None
    &&& forall|x: u64| x != id ==> after.record_for(x) == before.record_for(x)
}

/// The in-memory challenge store, keyed by challenge id. The bounded
/// TTL of stored records is enforced by the storage collaborator.
#[derive(Debug, Clone)]
pub struct ChallengeStore {
    pub challenges: Vec<Challenge>,
}

impl ChallengeStore {
    pub open spec fn wf(self) -> bool {
        &&& unique_challenges(self.challenges@)
        &&& forall|k: int| 0 <= k < self.challenges@.len() ==> (#[trigger] self.challenges@[k]).wf()
    }

    /// The challenge stored for `id`, if it is still live.
    pub open spec fn record_for(self, id: u64) -> Option<Challenge> {
        challenge_for(self.challenges@, id)
    }

    pub fn new() -> (s: ChallengeStore)
        ensures
            s.wf(),
            forall|id: u64| s.record_for(id) is None,
    {
        ChallengeStore { challenges: Vec::new() }
    }

    fn find_index(&self, id: u64) -> (r: Option<usize>)
        ensures
            match r {
                Some(i) => i < self.challenges@.len() && self.challenges@[i as int].id == id,
                None => forall|k: int|
                    0 <= k < self.challenges@.len() ==> #[trigger] self.challenges@[k].id != id,
            },
    {
        let n = self.challenges.len();
        let mut i: usize = 0;
        while i < n
            invariant
                i <= n,
                n == self.challenges@.len(),
                forall|k: int| 0 <= k < i ==> #[trigger] self.challenges@[k].id != id,
            decreases n - i,
        {
            if self.challenges[i].id == id {
                return Some(i);
            }
            i = i + 1;
        }
        None
    }

    /// Issues a fresh challenge for the member: a random id, a fresh
    /// 128-byte verifier, stored under the id. A random-id collision
    /// overwrites the older, unrelated challenge, which then simply
    /// fails on redemption.
    pub fn issue(&mut self, guild_id: u64, discord_id: u64) -> (c: Challenge)
        requires
            old(self).wf(),
        ensures
            final(self).wf(),
            c.wf(),
            c.guild_id == guild_id,
            c.discord_id == discord_id,
            c.code_verifier@.len() == 128,
            final(self).record_for(c.id) is Some,
            same_challenge(final(self).record_for(c.id)->0, c),
            forall|x: u64| x != c.id ==> final(self).record_for(x) == old(self).record_for(x),
    {
        let id: u64 = rand::random();
        let verifier = fresh_code_verifier(128);
        let c = Challenge { id, guild_id, discord_id, code_verifier: verifier };
        let stored = c.duplicate();
        match self.find_index(id) {
            Some(i) => {
                let ghost pre = self.challenges@;
                self.challenges.remove(i);
                proof {
                    pre.remove_ensures(i as int);
                    assert forall|x: u64| true implies #[trigger] challenge_for(self.challenges@, x)
                        == (if x == id {
                        None
                    } else {
                        challenge_for(pre, x)
                    }) by {
                        lemma_challenge_for_remove(pre, i as int, x);
                    }
                    lemma_challenge_for_remove(pre, i as int, id);
                    assert forall|k: int|
                        0 <= k < self.challenges@.len() implies (
                    #[trigger] self.challenges@[k]).wf() by {
                        assert(self.challenges@[k] == if k < i {
                            pre[k]
                        } else {
                            pre[k + 1]
                        });
                    }
                }
            },
            None => {
                proof {
                    lemma_challenge_for_exists(self.challenges@, id);
                }
            },
        }
        let ghost mid = self.challenges@;
        proof {
            assert(challenge_for(mid, id) is None) by {
                lemma_challenge_for_exists(mid, id);
            }
        }
        self.challenges.push(stored);
        proof {
            assert forall|x: u64| true implies #[trigger] challenge_for(self.challenges@, x)
                == (match challenge_for(mid, x) {
                Some(v) => Some(v),
                None => if x == id {
                    Some(stored)
                } else {
                    None
                },
            }) by {
                lemma_challenge_for_push(mid, stored, x);
            }
            assert forall|k: int, l: int|
                0 <= k < l < self.challenges@.len() implies self.challenges@[k].id
                != self.challenges@[l].id by {
                assert(self.challenges@[k] == mid[k]);
                if l == self.challenges@.len() - 1 {
                    if self.challenges@[k].id == id {
                        lemma_challenge_for_witness(mid, id, k);
                    }
                } else {
                    assert(self.challenges@[l] == mid[l]);
                }
            }
            assert forall|k: int|
                0 <= k < self.challenges@.len() implies (#[trigger] self.challenges@[k]).wf() by {
                if k < self.challenges@.len() - 1 {
                    assert(self.challenges@[k] == mid[k]);
                }
            }
        }
        c
    }

    /// Consumes the challenge under `id`: looks it up and deletes it in
    /// one step. A second redemption of the same id finds nothing.
    pub fn redeem(&mut self, id: u64) -> (r: Option<Challenge>)
        requires
            old(self).wf(),
        ensures
            final(self).wf(),
            redeem_post(*old(self), *final(self), id, r),
            r is Some ==> r->0.wf(),
    {
        match self.find_index(id) {
            Some(i) => {
                let ghost pre = self.challenges@;
                proof {
                    lemma_challenge_for_witness(pre, id, i as int);
                }
                let c = self.challenges.remove(i);
                proof {
                    pre.remove_ensures(i as int);
                    assert forall|x: u64| true implies #[trigger] challenge_for(self.challenges@, x)
                        == (if x == id {
                        None
                    } else {
                        challenge_for(pre, x)
                    }) by {
                        lemma_challenge_for_remove(pre, i as int, x);
                    }
                    lemma_challenge_for_remove(pre, i as int, id);
                    assert forall|k: int|
                        0 <= k < self.challenges@.len() implies (
                    #[trigger] self.challenges@[k]).wf() by {
                        assert(self.challenges@[k] == if k < i {
                            pre[k]
                        } else {
                            pre[k + 1]
                        });
                    }
                }
                Some(c)
            },
            None => {
                proof {
                    lemma_challenge_for_exists(self.challenges@, id);
                }
                None
            },
        }
    }

    /// How many challenges are live.
    pub fn count(&self) -> (r: usize)
        ensures
            r == self.challenges@.len(),
    {
        self.challenges.len()
    }
}

/// Law: the linking round trip is deterministic. The code challenge a
/// challenge's authorization URL embeds is exactly what deriving the
/// code challenge from the stored verifier reproduces: for a fixed
/// verifier, both sides of the handshake compute the same value.
pub proof fn lemma_link_url_round_trip(
    c: Challenge,
    hostname: Seq<char>,
    client_id: Seq<char>,
    url: Seq<char>,
    rederived: Seq<char>,
)
    requires
        url == oauth_url_spec(
            code_challenge_chars(c.code_verifier@),
            dec_str(c.id as nat),
            hostname,
            client_id,
        ),
        rederived == code_challenge_chars(c.code_verifier@),
    ensures
        url == oauth_url_spec(rederived, dec_str(c.id as nat), hostname, client_id),
{
}

/// Law: redemption is single-use. After one redemption of an id — be it
/// successful or not — a second redemption of the same id returns
/// nothing, and in particular never hands the verifier out again.
pub proof fn lemma_redeem_single_use(
    s1: ChallengeStore,
    s2: ChallengeStore,
    s3: ChallengeStore,
    id: u64,
    r1: Option<Challenge>,
    r2: Option<Challenge>,
)
    requires
        redeem_post(s1, s2, id, r1),
        redeem_post(s2, s3, id, r2),
    ensures
        r2 is None,
{
}

} // verus!
