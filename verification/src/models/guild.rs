//! The community record: the communities the bot has joined.

use crate::text::{dec_str, u64_to_string};
use vstd::prelude::*;

verus! {

/// The storage key of a community record.
pub open spec fn guild_key_spec(guild_id: u64) -> Seq<char> {
    "guilds:"@ + dec_str(guild_id as nat)
}

/// Builds the storage key `guilds:<guild>`.
pub fn key(guild_id: u64) -> (r: String)
    ensures
        r@ == guild_key_spec(guild_id),
{
    let mut s = String::from_str("guilds:");
    let g = u64_to_string(guild_id);
    s.append(g.as_str());
    s
}

/// A community the bot has joined.
#[derive(Debug, Clone)]
pub struct Guild {
    pub id: u64,
    pub name: String,
}

impl Guild {
    pub fn new(id: u64, name: String) -> (g: Guild)
        ensures
            g.id == id,
            g.name == name,
    {
        Guild { id, name }
    }

    /// This record's storage key.
    pub fn key(&self) -> (r: String)
        ensures
            r@ == guild_key_spec(self.id),
    {
        key(self.id)
    }

    /// An owned copy with the same fields.
    pub fn duplicate(&self) -> (g: Guild)
        ensures
            g == *self,
    {
        Guild { id: self.id, name: self.name.clone() }
    }
}

/// The first record stored for `id`.
pub open spec fn guild_for(guilds: Seq<Guild>, id: u64) -> Option<Guild>
    decreases guilds.len(),
{
    if guilds.len() == 0 {
        None
    } else if guilds[0].id == id {
        Some(guilds[0])
    } else {
        guild_for(guilds.drop_first(), id)
    }
}

/// No two records share an id.
pub open spec fn unique_guilds(guilds: Seq<Guild>) -> bool {
    forall|i: int, j: int| 0 <= i < j < guilds.len() ==> guilds[i].id != guilds[j].id
}

proof fn lemma_guild_for_exists(guilds: Seq<Guild>, id: u64)
    ensures
        (guild_for(guilds, id) is Some) <==> (exists|k: int|
            0 <= k < guilds.len() && #[trigger] guilds[k].id == id),
    decreases guilds.len(),
{
    if guilds.len() > 0 {
        lemma_guild_for_exists(guilds.drop_first(), id);
        if guilds[0].id != id {
            assert forall|k: int|
                0 <= k < guilds.len() && #[trigger] guilds[k].id == id implies exists|k2: int|
                0 <= k2 < guilds.drop_first().len() && #[trigger] guilds.drop_first()[k2].id
                    == id by {
                assert(guilds.drop_first()[k - 1] == guilds[k]);
            }
        }
    }
}

proof fn lemma_guild_for_witness(guilds: Seq<Guild>, id: u64, k: int)
    requires
        unique_guilds(guilds),
        0 <= k < guilds.len(),
        guilds[k].id == id,
    ensures
        guild_for(guilds, id) == Some(guilds[k]),
    decreases guilds.len(),
{
    if k > 0 {
        assert forall|i: int, j: int|
            0 <= i < j < guilds.drop_first().len() implies guilds.drop_first()[i].id
            != guilds.drop_first()[j].id by {
            assert(guilds.drop_first()[i] == guilds[i + 1]);
            assert(guilds.drop_first()[j] == guilds[j + 1]);
        }
        assert(guilds.drop_first()[k - 1] == guilds[k]);
        lemma_guild_for_witness(guilds.drop_first(), id, k - 1);
    }
}

proof fn lemma_guild_for_push(s: Seq<Guild>, g: Guild, id: u64)
    ensures
        guild_for(s.push(g), id) == (match guild_for(s, id) {
            Some(v) => Some(v),
            None => if g.id == id {
                Some(g)
            } else {
                None
            },
        }),
    decreases s.len(),
{
    if s.len() == 0 {
        assert(s.push(g)[0] == g);
        assert(guild_for(s, id) is None);
        if g.id != id {
            assert(s.push(g).drop_first() =~= Seq::<Guild>::empty());
            assert(guild_for(s.push(g).drop_first(), id) is None);
        }
    } else {
        assert(s.push(g)[0] == s[0]);
        assert(s.push(g).drop_first() =~= s.drop_first().push(g));
        lemma_guild_for_push(s.drop_first(), g, id);
    }
}

/// The in-memory community store, keyed by community id.
#[derive(Debug, Clone)]
pub struct GuildStore {
    pub guilds: Vec<Guild>,
}

impl GuildStore {
    pub open spec fn wf(self) -> bool {
        unique_guilds(self.guilds@)
    }

    /// The record stored for the community, if any.
    pub open spec fn record_for(self, id: u64) -> Option<Guild> {
        guild_for(self.guilds@, id)
    }

    pub fn new() -> (s: GuildStore)
        ensures
            s.wf(),
            forall|id: u64| s.record_for(id) is None,
    {
        GuildStore { guilds: Vec::new() }
    }

    fn find_index(&self, id: u64) -> (r: Option<usize>)
        ensures
            match r {
                Some(i) => i < self.guilds@.len() && self.guilds@[i as int].id == id,
                None => forall|k: int|
                    0 <= k < self.guilds@.len() ==> #[trigger] self.guilds@[k].id != id,
            },
    {
        let n = self.guilds.len();
        let mut i: usize = 0;
        while i < n
            invariant
                i <= n,
                n == self.guilds@.len(),
                forall|k: int| 0 <= k < i ==> #[trigger] self.guilds@[k].id != id,
            decreases n - i,
        {
            if self.guilds[i].id == id {
                return Some(i);
            }
            i = i + 1;
        }
        None
    }

    /// Writes the record under its id, overwriting any previous record.
    pub fn save(&mut self, guild: Guild)
        requires
            old(self).wf(),
        ensures
            final(self).wf(),
            final(self).record_for(guild.id) == Some(guild),
            forall|id: u64|
                id != guild.id ==> final(self).record_for(id) == old(self).record_for(id),
    {
        match self.find_index(guild.id) {
            Some(i) => {
                let ghost pre = self.guilds@;
                self.guilds.remove(i);
                proof {
                    pre.remove_ensures(i as int);
                    assert forall|k: int, l: int|
                        0 <= k < l < self.guilds@.len() implies self.guilds@[k].id
                        != self.guilds@[l].id by {
                        assert(self.guilds@[k] == if k < i {
                            pre[k]
                        } else {
                            pre[k + 1]
                        });
                        assert(self.guilds@[l] == if l < i {
                            pre[l]
                        } else {
                            pre[l + 1]
                        });
                    }
                    assert forall|id: u64| true implies #[trigger] guild_for(self.guilds@, id)
                        == (if id == guild.id {
                        None
                    } else {
                        guild_for(pre, id)
                    }) by {
                        lemma_guild_for_remove(pre, i as int, id);
                    }
                }
            },
            None => {
                proof {
                    lemma_guild_for_exists(self.guilds@, guild.id);
                }
            },
        }
        let ghost mid = self.guilds@;
        proof {
            assert(guild_for(mid, guild.id) is None) by {
                lemma_guild_for_exists(mid, guild.id);
            }
        }
        self.guilds.push(guild);
        proof {
            assert forall|id: u64| true implies #[trigger] guild_for(self.guilds@, id)
                == (match guild_for(mid, id) {
                Some(v) => Some(v),
                None => if guild.id == id {
                    Some(guild)
                } else {
                    None
                },
            }) by {
                lemma_guild_for_push(mid, guild, id);
            }
            assert forall|k: int, l: int|
                0 <= k < l < self.guilds@.len() implies self.guilds@[k].id
                != self.guilds@[l].id by {
                assert(self.guilds@[k] == mid[k]);
                if l == self.guilds@.len() - 1 {
                    if self.guilds@[k].id == guild.id {
                        lemma_guild_for_witness(mid, guild.id, k);
                    }
                } else {
                    assert(self.guilds@[l] == mid[l]);
                }
            }
        }
    }

    /// Looks the community up.
    pub fn find(&self, id: u64) -> (r: Option<Guild>)
        requires
            self.wf(),
        ensures
            r == self.record_for(id),
    {
        match self.find_index(id) {
            Some(i) => {
                proof {
                    lemma_guild_for_witness(self.guilds@, id, i as int);
                }
                Some(self.guilds[i].duplicate())
            },
            None => {
                proof {
                    lemma_guild_for_exists(self.guilds@, id);
                }
                None
            },
        }
    }

    /// Deletes the community's record; reports whether one was stored.
    pub fn delete(&mut self, id: u64) -> (r: bool)
        requires
            old(self).wf(),
        ensures
            final(self).wf(),
            r == (old(self).record_for(id) is Some),
            final(self).record_for(id) is None,
            forall|g: u64| g != id ==> final(self).record_for(g) == old(self).record_for(g),
    {
        match self.find_index(id) {
            Some(i) => {
                let ghost pre = self.guilds@;
                proof {
                    lemma_guild_for_witness(pre, id, i as int);
                }
                self.guilds.remove(i);
                proof {
                    pre.remove_ensures(i as int);
                    assert forall|k: int, l: int|
                        0 <= k < l < self.guilds@.len() implies self.guilds@[k].id
                        != self.guilds@[l].id by {
                        assert(self.guilds@[k] == if k < i {
                            pre[k]
                        } else {
                            pre[k + 1]
                        });
                        assert(self.guilds@[l] == if l < i {
                            pre[l]
                        } else {
                            pre[l + 1]
                        });
                    }
                    assert forall|g: u64| true implies #[trigger] guild_for(self.guilds@, g)
                        == (if g == id {
                        None
                    } else {
                        guild_for(pre, g)
                    }) by {
                        lemma_guild_for_remove(pre, i as int, g);
                    }
                }
                true
            },
            None => {
                proof {
                    lemma_guild_for_exists(self.guilds@, id);
                }
                false
            },
        }
    }

    /// How many communities the store holds.
    pub fn count(&self) -> (r: usize)
        ensures
            r == self.guilds@.len(),
    {
        self.guilds.len()
    }
}

/// Removing the record at `i` answers its own id with `None` and every
/// other id as before.
proof fn lemma_guild_for_remove(s: Seq<Guild>, i: int, id: u64)
    requires
        unique_guilds(s),
        0 <= i < s.len(),
    ensures
        guild_for(s.remove(i), id) == (if s[i].id == id {
            None
        } else {
            guild_for(s, id)
        }),
{
    let s2 = s.remove(i);
    s.remove_ensures(i);
    assert forall|k: int| 0 <= k < s2.len() implies s2[k] == (if k < i {
        s[k]
    } else {
        s[k + 1]
    }) by {}
    assert(unique_guilds(s2)) by {
        assert forall|k: int, l: int| 0 <= k < l < s2.len() implies s2[k].id != s2[l].id by {
            assert(s2[k] == if k < i {
                s[k]
            } else {
                s[k + 1]
            });
            assert(s2[l] == if l < i {
                s[l]
            } else {
                s[l + 1]
            });
        }
    }
    if s[i].id == id {
        lemma_guild_for_exists(s2, id);
        assert forall|k: int| 0 <= k < s2.len() implies #[trigger] s2[k].id != id by {
            assert(s2[k] == if k < i {
                s[k]
            } else {
                s[k + 1]
            });
        }
    } else {
        lemma_guild_for_exists(s, id);
        lemma_guild_for_exists(s2, id);
        if guild_for(s, id) is Some {
            let k = choose|k: int| 0 <= k < s.len() && #[trigger] s[k].id == id;
            lemma_guild_for_witness(s, id, k);
            let k2: int = if k < i {
                k
            } else {
                k - 1
            };
            assert(s2[k2] == s[k]);
            lemma_guild_for_witness(s2, id, k2);
        } else {
            assert forall|k: int| 0 <= k < s2.len() implies #[trigger] s2[k].id != id by {
                assert(s2[k] == if k < i {
                    s[k]
                } else {
                    s[k + 1]
                });
            }
        }
    }
}

} // verus!
