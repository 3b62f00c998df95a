//! The per-community registry mapping role ids to rating ranges.
//!
//! Communities are registered on join and reset or discarded on
//! lifecycle events; role entries come and go with role creation,
//! rename and deletion. Reads answer which roles a rating snapshot
//! earns and which registry roles lie outside a given target set.

use crate::bot::rating_range::{is_match_spec, name_spec, parsed_range, valid_label, RatingRange};
use crate::lichess::format::Format;
use crate::ratings::{rating_of, Ratings};
use vstd::prelude::*;

verus! {

/// One registry entry: a role and the rating band its label denotes.
#[derive(Debug, Clone, Copy)]
pub struct RoleEntry {
    pub guild_id: u64,
    pub role_id: u64,
    pub range: RatingRange,
}

/// The first range registered for `(guild_id, role_id)`, scanning from
/// the front.
pub open spec fn entry_for(entries: Seq<RoleEntry>, guild_id: u64, role_id: u64) -> Option<
    RatingRange,
>
    decreases entries.len(),
{
    if entries.len() == 0 {
        None
    } else if entries[0].guild_id == guild_id && entries[0].role_id == role_id {
        Some(entries[0].range)
    } else {
        entry_for(entries.drop_first(), guild_id, role_id)
    }
}

/// Whether the rating snapshot has an established rating inside `rr`.
pub open spec fn range_matches_ratings(rr: RatingRange, ra: Ratings) -> bool {
    exists|f: Format| #[trigger] rating_of(ra, f) is Some && is_match_spec(rr, f, rating_of(ra, f)->0)
}

/// The registry of rating-band roles, one namespace per community.
#[derive(Debug, Clone)]
pub struct RoleManager {
    pub guilds: Vec<u64>,
    pub entries: Vec<RoleEntry>,
}

impl RoleManager {
    /// Guild ids are unique, entry keys are unique, and every entry
    /// belongs to a known guild.
    pub open spec fn wf(self) -> bool {
        &&& forall|i: int, j: int|
            0 <= i < j < self.guilds@.len() ==> self.guilds@[i] != self.guilds@[j]
        &&& forall|i: int, j: int|
            0 <= i < j < self.entries@.len() ==> !(self.entries@[i].guild_id
                == self.entries@[j].guild_id && self.entries@[i].role_id
                == self.entries@[j].role_id)
        &&& forall|i: int|
            0 <= i < self.entries@.len() ==> self.guilds@.contains(
                #[trigger] self.entries@[i].guild_id,
            )
    }

    /// Whether the community is known to the registry.
    pub open spec fn has_guild(self, guild_id: u64) -> bool {
        self.guilds@.contains(guild_id)
    }

    /// The range registered for a role, if any.
    pub open spec fn range_for(self, guild_id: u64, role_id: u64) -> Option<RatingRange> {
        entry_for(self.entries@, guild_id, role_id)
    }

    /// Whether a range is registered for the role.
    pub open spec fn has_role(self, guild_id: u64, role_id: u64) -> bool {
        self.range_for(guild_id, role_id) is Some
    }

    pub fn new() -> (rm: RoleManager)
        ensures
            rm.wf(),
            forall|g: u64| !rm.has_guild(g),
            forall|g: u64, r: u64| !rm.has_role(g, r),
    {
        RoleManager { guilds: Vec::new(), entries: Vec::new() }
    }
}

/// No two entries share a `(guild_id, role_id)` key.
pub open spec fn unique_pairs(entries: Seq<RoleEntry>) -> bool {
    forall|i: int, j: int|
        0 <= i < j < entries.len() ==> !(entries[i].guild_id == entries[j].guild_id
            && entries[i].role_id == entries[j].role_id)
}

/// `entry_for` finds a key exactly when some entry carries it.
proof fn lemma_entry_for_exists(entries: Seq<RoleEntry>, g: u64, r: u64)
    ensures
        (entry_for(entries, g, r) is Some) <==> (exists|k: int|
            0 <= k < entries.len() && entries[k].guild_id == g && #[trigger] entries[k].role_id
                == r),
    decreases entries.len(),
{
    if entries.len() > 0 {
        lemma_entry_for_exists(entries.drop_first(), g, r);
        if entries[0].guild_id == g && entries[0].role_id == r {
        } else {
            assert forall|k: int|
                0 <= k < entries.len() && entries[k].guild_id == g && #[trigger] entries[k].role_id
                    == r implies exists|k2: int|
                0 <= k2 < entries.drop_first().len() && entries.drop_first()[k2].guild_id == g
                    && #[trigger] entries.drop_first()[k2].role_id == r by {
                assert(entries.drop_first()[k - 1] == entries[k]);
            }
        }
    }
}

/// With unique keys, any entry carrying the key gives `entry_for`'s value.
proof fn lemma_entry_for_witness(entries: Seq<RoleEntry>, g: u64, r: u64, k: int)
    requires
        unique_pairs(entries),
        0 <= k < entries.len(),
        entries[k].guild_id == g,
        entries[k].role_id == r,
    ensures
        entry_for(entries, g, r) == Some(entries[k].range),
    decreases entries.len(),
{
    if k > 0 {
        assert forall|i: int, j: int|
            0 <= i < j < entries.drop_first().len() implies !(entries.drop_first()[i].guild_id
            == entries.drop_first()[j].guild_id && entries.drop_first()[i].role_id
            == entries.drop_first()[j].role_id) by {
            assert(entries.drop_first()[i] == entries[i + 1]);
            assert(entries.drop_first()[j] == entries[j + 1]);
        }
        assert(entries.drop_first()[k - 1] == entries[k]);
        lemma_entry_for_witness(entries.drop_first(), g, r, k - 1);
    }
}

/// Appending an entry only answers keys the prefix left unanswered.
proof fn lemma_entry_for_push(s: Seq<RoleEntry>, e: RoleEntry, g: u64, r: u64)
    ensures
        entry_for(s.push(e), g, r) == (match entry_for(s, g, r) {
            Some(v) => Some(v),
            None => if e.guild_id == g && e.role_id == r {
                Some(e.range)
            } else {
                None
            },
        }),
    decreases s.len(),
{
    if s.len() == 0 {
        assert(s.push(e)[0] == e);
        assert(entry_for(s, g, r) is None);
        if e.guild_id == g && e.role_id == r {
            assert(entry_for(s.push(e), g, r) == Some(e.range));
        } else {
            assert(s.push(e).drop_first() =~= Seq::<RoleEntry>::empty());
            assert(entry_for(s.push(e).drop_first(), g, r) is None);
        }
    } else {
        assert(s.push(e)[0] == s[0]);
        assert(s.push(e).drop_first() =~= s.drop_first().push(e));
        lemma_entry_for_push(s.drop_first(), e, g, r);
        assert(entry_for(s.push(e), g, r) == if s[0].guild_id == g && s[0].role_id == r {
            Some(s[0].range)
        } else {
            entry_for(s.drop_first().push(e), g, r)
        });
    }
}

impl RoleManager {
    fn guilds_contain(&self, guild_id: u64) -> (r: bool)
        ensures
            r == self.has_guild(guild_id),
    {
        let n = self.guilds.len();
        let mut i: usize = 0;
        while i < n
            invariant
                i <= n,
                n == self.guilds@.len(),
                forall|j: int| 0 <= j < i ==> self.guilds@[j] != guild_id,
            decreases n - i,
        {
            if self.guilds[i] == guild_id {
                return true;
            }
            i = i + 1;
        }
        false
    }

    fn find_entry(&self, guild_id: u64, role_id: u64) -> (r: Option<usize>)
        ensures
            match r {
                Some(i) => i < self.entries@.len() && self.entries@[i as int].guild_id == guild_id
                    && self.entries@[i as int].role_id == role_id,
                None => forall|k: int|
                    0 <= k < self.entries@.len() ==> !(self.entries@[k].guild_id == guild_id
                        && #[trigger] self.entries@[k].role_id == role_id),
            },
    {
        let n = self.entries.len();
        let mut i: usize = 0;
        while i < n
            invariant
                i <= n,
                n == self.entries@.len(),
                forall|k: int|
                    0 <= k < i ==> !(self.entries@[k].guild_id == guild_id
                        && #[trigger] self.entries@[k].role_id == role_id),
            decreases n - i,
        {
            let e = self.entries[i];
            if e.guild_id == guild_id && e.role_id == role_id {
                return Some(i);
            }
            i = i + 1;
        }
        None
    }

    /// Drops every entry of `guild_id`, keeping the rest in order.
    fn retain_other_guilds(&mut self, guild_id: u64)
        requires
            old(self).wf(),
        ensures
            final(self).wf(),
            final(self).guilds == old(self).guilds,
            forall|r: u64| final(self).range_for(guild_id, r) is None,
            forall|g: u64, r: u64|
                g != guild_id ==> final(self).range_for(g, r) == old(self).range_for(g, r),
    {
        let n = self.entries.len();
        let mut kept: Vec<RoleEntry> = Vec::new();
        let mut i: usize = 0;
        while i < n
            invariant
                i <= n,
                n == self.entries@.len(),
                self.wf(),
                unique_pairs(kept@),
                forall|k: int|
                    0 <= k < kept@.len() ==> self.guilds@.contains(#[trigger] kept@[k].guild_id),
                forall|k: int| 0 <= k < kept@.len() ==> kept@[k].guild_id != guild_id,
                forall|r: u64| entry_for(kept@, guild_id, r) is None,
                forall|g: u64, r: u64|
                    g != guild_id ==> #[trigger] entry_for(kept@, g, r) == entry_for(
                        self.entries@.take(i as int),
                        g,
                        r,
                    ),
            decreases n - i,
        {
            let e = self.entries[i];
            proof {
                assert(self.entries@.take(i + 1 as int).drop_last() =~= self.entries@.take(
                    i as int,
                ));
                assert(self.entries@.take(i + 1 as int) =~= self.entries@.take(i as int).push(
                    self.entries@[i as int],
                ));
                assert forall|g: u64, r: u64| g != guild_id implies #[trigger] entry_for(
                    self.entries@.take(i as int).push(self.entries@[i as int]),
                    g,
                    r,
                ) == (match entry_for(self.entries@.take(i as int), g, r) {
                    Some(v) => Some(v),
                    None => if e.guild_id == g && e.role_id == r {
                        Some(e.range)
                    } else {
                        None
                    },
                }) by {
                    lemma_entry_for_push(self.entries@.take(i as int), self.entries@[i as int], g, r);
                }
            }
            if e.guild_id != guild_id {
                proof {
                    lemma_entry_for_exists(kept@, e.guild_id, e.role_id);
                    assert(entry_for(self.entries@.take(i as int), e.guild_id, e.role_id)
                        is None) by {
                        lemma_entry_for_exists(
                            self.entries@.take(i as int),
                            e.guild_id,
                            e.role_id,
                        );
                        assert forall|k: int|
                            0 <= k < i implies !(self.entries@.take(i as int)[k].guild_id
                            == e.guild_id && #[trigger] self.entries@.take(i as int)[k].role_id
                            == e.role_id) by {
                            assert(self.entries@.take(i as int)[k] == self.entries@[k]);
                        }
                    }
                    assert(entry_for(kept@, e.guild_id, e.role_id) is None);
                    assert forall|k: int| 0 <= k < kept@.len() implies !(kept@[k].guild_id
                        == e.guild_id && kept@[k].role_id == e.role_id) by {
                        lemma_entry_for_exists(kept@, e.guild_id, e.role_id);
                    }
                }
                let ghost old_kept = kept@;
                kept.push(e);
                proof {
                    assert forall|g: u64, r: u64| true implies #[trigger] entry_for(kept@, g, r)
                        == (match entry_for(old_kept, g, r) {
                        Some(v) => Some(v),
                        None => if e.guild_id == g && e.role_id == r {
                            Some(e.range)
                        } else {
                            None
                        },
                    }) by {
                        lemma_entry_for_push(old_kept, e, g, r);
                    }
                }
            }
            i = i + 1;
        }
        proof {
            assert(self.entries@.take(n as int) =~= self.entries@);
        }
        self.entries = kept;
    }

    /// Registers (or resets) the community: afterwards it is known and
    /// carries no role entries. Registering twice clears prior entries.
    pub fn add_guild(&mut self, guild_id: u64)
        requires
            old(self).wf(),
        ensures
            final(self).wf(),
            final(self).has_guild(guild_id),
            forall|g: u64|
                g != guild_id ==> final(self).has_guild(g) == old(self).has_guild(g),
            forall|r: u64| final(self).range_for(guild_id, r) is None,
            forall|g: u64, r: u64|
                g != guild_id ==> final(self).range_for(g, r) == old(self).range_for(g, r),
    {
        self.retain_other_guilds(guild_id);
        let ghost mid = *self;
        if !self.guilds_contain(guild_id) {
            let ghost old_guilds = self.guilds@;
            self.guilds.push(guild_id);
            proof {
                assert forall|g: u64, r: u64| true implies #[trigger] self.range_for(g, r)
                    == mid.range_for(g, r) by {
                    assert(self.range_for(g, r) == entry_for(self.entries@, g, r));
                    assert(mid.range_for(g, r) == entry_for(mid.entries@, g, r));
                }
                assert forall|g: u64| #[trigger] self.guilds@.contains(g) implies old_guilds.contains(g)
                    || g == guild_id by {
                    let k = choose|k: int| 0 <= k < self.guilds@.len() && self.guilds@[k] == g;
                    if k < old_guilds.len() {
                        assert(old_guilds[k] == g);
                    }
                }
                assert forall|g: u64| old_guilds.contains(g) implies #[trigger] self.guilds@.contains(
                    g,
                ) by {
                    let k = choose|k: int| 0 <= k < old_guilds.len() && old_guilds[k] == g;
                    assert(self.guilds@[k] == g);
                }
                assert(self.guilds@.contains(guild_id)) by {
                    assert(self.guilds@[self.guilds@.len() - 1] == guild_id);
                }
            }
        }
    }

    /// Forgets the community and all its role entries.
    pub fn delete_guild(&mut self, guild_id: u64)
        requires
            old(self).wf(),
        ensures
            final(self).wf(),
            !final(self).has_guild(guild_id),
            forall|g: u64|
                g != guild_id ==> final(self).has_guild(g) == old(self).has_guild(g),
            forall|r: u64| final(self).range_for(guild_id, r) is None,
            forall|g: u64, r: u64|
                g != guild_id ==> final(self).range_for(g, r) == old(self).range_for(g, r),
    {
        self.retain_other_guilds(guild_id);
        let n = self.guilds.len();
        let mut kept: Vec<u64> = Vec::new();
        let mut i: usize = 0;
        while i < n
            invariant
                i <= n,
                n == self.guilds@.len(),
                self.wf(),
                forall|k: int, l: int| 0 <= k < l < kept@.len() ==> kept@[k] != kept@[l],
                forall|k: int| 0 <= k < kept@.len() ==> kept@[k] != guild_id,
                forall|g: u64|
                    g != guild_id ==> (#[trigger] kept@.contains(g) == self.guilds@.take(
                        i as int,
                    ).contains(g)),
            decreases n - i,
        {
            let g = self.guilds[i];
            proof {
                assert forall|x: u64| self.guilds@.take(i + 1 as int).contains(x) implies self.guilds@.take(
                    i as int,
                ).contains(x) || x == self.guilds@[i as int] by {
                    let k = choose|k: int|
                        0 <= k < i + 1 && #[trigger] self.guilds@.take(i + 1 as int)[k] == x;
                    if k < i {
                        assert(self.guilds@.take(i as int)[k] == x);
                    }
                }
                assert forall|x: u64| self.guilds@.take(i as int).contains(x)
                    implies #[trigger] self.guilds@.take(i + 1 as int).contains(x) by {
                    let k = choose|k: int|
                        0 <= k < i && #[trigger] self.guilds@.take(i as int)[k] == x;
                    assert(self.guilds@.take(i + 1 as int)[k] == x);
                }
                assert(self.guilds@.take(i + 1 as int)[i as int] == self.guilds@[i as int]);
            }
            if g != guild_id {
                let ghost old_kept = kept@;
                proof {
                    assert(!old_kept.contains(g)) by {
                        if self.guilds@.take(i as int).contains(g) {
                            let k = choose|k: int|
                                0 <= k < i && #[trigger] self.guilds@.take(i as int)[k] == g;
                            assert(self.guilds@[k] == g);
                            assert(self.guilds@[i as int] == g);
                        }
                    }
                }
                kept.push(g);
                proof {
                    assert forall|k: int, l: int| 0 <= k < l < kept@.len() implies kept@[k]
                        != kept@[l] by {
                        assert(kept@[k] == old_kept[k]);
                        if l == kept@.len() - 1 {
                            assert(old_kept.contains(old_kept[k]));
                        } else {
                            assert(kept@[l] == old_kept[l]);
                        }
                    }
                    assert forall|x: u64| #[trigger] kept@.contains(x) implies old_kept.contains(x)
                        || x == g by {
                        let k = choose|k: int| 0 <= k < kept@.len() && kept@[k] == x;
                        if k < old_kept.len() {
                            assert(old_kept[k] == x);
                        }
                    }
                    assert forall|x: u64| old_kept.contains(x) implies #[trigger] kept@.contains(
                        x,
                    ) by {
                        let k = choose|k: int| 0 <= k < old_kept.len() && old_kept[k] == x;
                        assert(kept@[k] == x);
                    }
                    assert(kept@.contains(g)) by {
                        assert(kept@[kept@.len() - 1] == g);
                    }
                }
            }
            i = i + 1;
        }
        proof {
            assert(self.guilds@.take(n as int) =~= self.guilds@);
        }
        let ghost mid = *self;
        self.guilds = kept;
        proof {
            assert(self.entries@ == mid.entries@);
            assert forall|g: u64, r: u64| true implies #[trigger] self.range_for(g, r)
                == mid.range_for(g, r) by {
                assert(self.range_for(g, r) == entry_for(self.entries@, g, r));
                assert(mid.range_for(g, r) == entry_for(mid.entries@, g, r));
            }
            assert forall|k: int| 0 <= k < self.entries@.len() implies self.guilds@.contains(
                #[trigger] self.entries@[k].guild_id,
            ) by {
                assert(self.entries@[k].guild_id != guild_id) by {
                    if self.entries@[k].guild_id == guild_id {
                        lemma_entry_for_witness(
                            mid.entries@,
                            guild_id,
                            self.entries@[k].role_id,
                            k,
                        );
                        assert(mid.range_for(guild_id, self.entries@[k].role_id) is None);
                    }
                }
                assert(mid.guilds@.contains(self.entries@[k].guild_id));
            }
        }
    }
}

/// Removing one entry leaves every other key's answer unchanged.
proof fn lemma_entry_for_remove(s: Seq<RoleEntry>, i: int, g: u64, r: u64)
    requires
        unique_pairs(s),
        0 <= i < s.len(),
        !(s[i].guild_id == g && s[i].role_id == r),
    ensures
        entry_for(s.remove(i), g, r) == entry_for(s, g, r),
{
    let s2 = s.remove(i);
    assert(s2.len() == s.len() - 1);
    assert forall|k: int| 0 <= k < s2.len() implies s2[k] == (if k < i {
        s[k]
    } else {
        s[k + 1]
    }) by {
        s.remove_ensures(i);
    }
    lemma_entry_for_exists(s, g, r);
    lemma_entry_for_exists(s2, g, r);
    if entry_for(s, g, r) is Some {
        let k = choose|k: int|
            0 <= k < s.len() && s[k].guild_id == g && #[trigger] s[k].role_id == r;
        lemma_entry_for_witness(s, g, r, k);
        let k2: int = if k < i {
            k
        } else {
            k - 1
        };
        assert(s2[k2] == s[k]);
        assert(unique_pairs(s2));
        lemma_entry_for_witness(s2, g, r, k2);
    } else {
        assert forall|k: int| 0 <= k < s2.len() implies !(s2[k].guild_id == g
            && #[trigger] s2[k].role_id == r) by {
            if k < i {
                assert(s2[k] == s[k]);
            } else {
                assert(s2[k] == s[k + 1]);
            }
        }
    }
}

impl RoleManager {
    /// The roles of a community the registry does not know: none. An
    /// entry always belongs to a known community.
    pub proof fn lemma_unknown_guild_has_no_roles(self, guild_id: u64, role_id: u64)
        requires
            self.wf(),
            !self.has_guild(guild_id),
        ensures
            self.range_for(guild_id, role_id) is None,
    {
        lemma_entry_for_exists(self.entries@, guild_id, role_id);
    }

    /// Registers `range` for the role, replacing any previous range for
    /// it. A no-op — not an error — when the community is unknown:
    /// entries exist only for communities registered on join.
    pub fn add_rating_range(&mut self, guild_id: u64, role_id: u64, range: RatingRange)
        requires
            old(self).wf(),
        ensures
            final(self).wf(),
            forall|g: u64| final(self).has_guild(g) == old(self).has_guild(g),
            old(self).has_guild(guild_id) ==> final(self).range_for(guild_id, role_id) == Some(
                range,
            ),
            !old(self).has_guild(guild_id) ==> *final(self) == *old(self),
            forall|g: u64, r: u64|
                !(g == guild_id && r == role_id) ==> final(self).range_for(g, r) == old(
                    self,
                ).range_for(g, r),
            add_rating_range_post(*old(self), *final(self), guild_id, role_id, range),
    {
        if !self.guilds_contain(guild_id) {
            return;
        }
        let ghost mid = *self;
        proof {
            assert forall|g: u64, r: u64| true implies #[trigger] mid.range_for(g, r) == old(
                self,
            ).range_for(g, r) by {
                assert(mid.range_for(g, r) == entry_for(mid.entries@, g, r));
                assert(old(self).range_for(g, r) == entry_for(old(self).entries@, g, r));
            }
        }
        match self.find_entry(guild_id, role_id) {
            Some(i) => {
                let ghost pre = self.entries@;
                self.entries.remove(i);
                proof {
                    pre.remove_ensures(i as int);
                    assert(unique_pairs(self.entries@)) by {
                        assert forall|k: int, l: int|
                            0 <= k < l < self.entries@.len() implies !(self.entries@[k].guild_id
                            == self.entries@[l].guild_id && self.entries@[k].role_id
                            == self.entries@[l].role_id) by {
                            assert(self.entries@[k] == if k < i {
                                pre[k]
                            } else {
                                pre[k + 1]
                            });
                            assert(self.entries@[l] == if l < i {
                                pre[l]
                            } else {
                                pre[l + 1]
                            });
                        }
                    }
                    assert forall|g: u64, r: u64|
                        !(g == guild_id && r == role_id) implies #[trigger] entry_for(
                        self.entries@,
                        g,
                        r,
                    ) == entry_for(pre, g, r) by {
                        lemma_entry_for_remove(pre, i as int, g, r);
                    }
                    assert(entry_for(self.entries@, guild_id, role_id) is None) by {
                        lemma_entry_for_exists(self.entries@, guild_id, role_id);
                        assert forall|k: int|
                            0 <= k < self.entries@.len() implies !(self.entries@[k].guild_id
                            == guild_id && #[trigger] self.entries@[k].role_id == role_id) by {
                            assert(self.entries@[k] == if k < i {
                                pre[k]
                            } else {
                                pre[k + 1]
                            });
                        }
                    }
                    assert forall|k: int|
                        0 <= k < self.entries@.len() implies self.guilds@.contains(
                        #[trigger] self.entries@[k].guild_id,
                    ) by {
                        assert(self.entries@[k] == if k < i {
                            pre[k]
                        } else {
                            pre[k + 1]
                        });
                    }
                }
            },
            None => {
                proof {
                    lemma_entry_for_exists(self.entries@, guild_id, role_id);
                }
            },
        }
        let ghost before_push = *self;
        let e = RoleEntry { guild_id, role_id, range };
        self.entries.push(e);
        proof {
            assert forall|g: u64, r: u64| true implies #[trigger] entry_for(self.entries@, g, r)
                == (match entry_for(before_push.entries@, g, r) {
                Some(v) => Some(v),
                None => if g == guild_id && r == role_id {
                    Some(range)
                } else {
                    None
                },
            }) by {
                lemma_entry_for_push(before_push.entries@, e, g, r);
            }
            assert(unique_pairs(self.entries@)) by {
                assert forall|k: int, l: int|
                    0 <= k < l < self.entries@.len() implies !(self.entries@[k].guild_id
                    == self.entries@[l].guild_id && self.entries@[k].role_id
                    == self.entries@[l].role_id) by {
                    if l == self.entries@.len() - 1 {
                        assert(self.entries@[k] == before_push.entries@[k]);
                        if self.entries@[k].guild_id == guild_id && self.entries@[k].role_id
                            == role_id {
                            lemma_entry_for_exists(before_push.entries@, guild_id, role_id);
                        }
                    } else {
                        assert(self.entries@[k] == before_push.entries@[k]);
                        assert(self.entries@[l] == before_push.entries@[l]);
                    }
                }
            }
            assert forall|k: int| 0 <= k < self.entries@.len() implies self.guilds@.contains(
                #[trigger] self.entries@[k].guild_id,
            ) by {
                if k < self.entries@.len() - 1 {
                    assert(self.entries@[k] == before_push.entries@[k]);
                }
            }
            assert forall|g: u64, r: u64| true implies #[trigger] self.range_for(g, r)
                == entry_for(self.entries@, g, r) by {}
        }
    }

    /// Drops the entry for the role, if any. Unknown roles and
    /// communities are a no-op, not an error.
    pub fn remove_role(&mut self, guild_id: u64, role_id: u64)
        requires
            old(self).wf(),
        ensures
            final(self).wf(),
            forall|g: u64| final(self).has_guild(g) == old(self).has_guild(g),
            final(self).range_for(guild_id, role_id) is None,
            forall|g: u64, r: u64|
                !(g == guild_id && r == role_id) ==> final(self).range_for(g, r) == old(
                    self,
                ).range_for(g, r),
    {
        match self.find_entry(guild_id, role_id) {
            Some(i) => {
                let ghost pre = self.entries@;
                self.entries.remove(i);
                proof {
                    pre.remove_ensures(i as int);
                    assert(unique_pairs(self.entries@)) by {
                        assert forall|k: int, l: int|
                            0 <= k < l < self.entries@.len() implies !(self.entries@[k].guild_id
                            == self.entries@[l].guild_id && self.entries@[k].role_id
                            == self.entries@[l].role_id) by {
                            assert(self.entries@[k] == if k < i {
                                pre[k]
                            } else {
                                pre[k + 1]
                            });
                            assert(self.entries@[l] == if l < i {
                                pre[l]
                            } else {
                                pre[l + 1]
                            });
                        }
                    }
                    assert forall|g: u64, r: u64|
                        !(g == guild_id && r == role_id) implies #[trigger] entry_for(
                        self.entries@,
                        g,
                        r,
                    ) == entry_for(pre, g, r) by {
                        lemma_entry_for_remove(pre, i as int, g, r);
                    }
                    assert(entry_for(self.entries@, guild_id, role_id) is None) by {
                        lemma_entry_for_exists(self.entries@, guild_id, role_id);
                        assert forall|k: int|
                            0 <= k < self.entries@.len() implies !(self.entries@[k].guild_id
                            == guild_id && #[trigger] self.entries@[k].role_id == role_id) by {
                            assert(self.entries@[k] == if k < i {
                                pre[k]
                            } else {
                                pre[k + 1]
                            });
                        }
                    }
                    assert forall|k: int|
                        0 <= k < self.entries@.len() implies self.guilds@.contains(
                        #[trigger] self.entries@[k].guild_id,
                    ) by {
                        assert(self.entries@[k] == if k < i {
                            pre[k]
                        } else {
                            pre[k + 1]
                        });
                    }
                }
            },
            None => {
                proof {
                    lemma_entry_for_exists(self.entries@, guild_id, role_id);
                }
            },
        }
    }
}

/// Exec check of `range_matches_ratings`.
fn matches_ratings(rr: &RatingRange, ra: &Ratings) -> (r: bool)
    ensures
        r == range_matches_ratings(*rr, *ra),
{
    let fs = Format::all();
    let mut i: usize = 0;
    while i < 4
        invariant
            i <= 4,
            fs@ =~= seq![Format::Blitz, Format::Bullet, Format::Classical, Format::Rapid],
            forall|j: int|
                0 <= j < i ==> !(rating_of(*ra, fs@[j]) is Some && is_match_spec(
                    *rr,
                    fs@[j],
                    rating_of(*ra, fs@[j])->0,
                )),
        decreases 4 - i,
    {
        let f = fs[i];
        if let Some(v) = ra.get(f) {
            if rr.is_match(f, v) {
                return true;
            }
        }
        i = i + 1;
    }
    proof {
        assert forall|f: Format| !(#[trigger] rating_of(*ra, f) is Some && is_match_spec(
            *rr,
            f,
            rating_of(*ra, f)->0,
        )) by {
            match f {
                Format::Blitz => assert(f == fs@[0]),
                Format::Bullet => assert(f == fs@[1]),
                Format::Classical => assert(f == fs@[2]),
                Format::Rapid => assert(f == fs@[3]),
            }
        }
    }
    false
}

impl RoleManager {
    /// Every role of the community whose registered band contains one of
    /// the snapshot's established ratings. Bands in distinct categories
    /// can match independently; each role appears at most once.
    pub fn find_rating_range_roles(&self, guild_id: u64, ratings: &Ratings) -> (r: Vec<u64>)
        requires
            self.wf(),
        ensures
            forall|id: u64|
                #[trigger] r@.contains(id) <==> (self.range_for(guild_id, id) is Some
                    && range_matches_ratings(self.range_for(guild_id, id)->0, *ratings)),
            forall|i: int, j: int| 0 <= i < j < r@.len() ==> r@[i] != r@[j],
    {
        let n = self.entries.len();
        let mut out: Vec<u64> = Vec::new();
        let mut i: usize = 0;
        while i < n
            invariant
                i <= n,
                n == self.entries@.len(),
                self.wf(),
                forall|k: int, l: int| 0 <= k < l < out@.len() ==> out@[k] != out@[l],
                forall|id: u64|
                    #[trigger] out@.contains(id) ==> exists|k: int|
                        0 <= k < i && self.entries@[k].guild_id == guild_id
                            && #[trigger] self.entries@[k].role_id == id && range_matches_ratings(
                            self.entries@[k].range,
                            *ratings,
                        ),
                forall|k: int|
                    0 <= k < i && self.entries@[k].guild_id == guild_id && range_matches_ratings(
                        #[trigger] self.entries@[k].range,
                        *ratings,
                    ) ==> out@.contains(self.entries@[k].role_id),
            decreases n - i,
        {
            let e = self.entries[i];
            if e.guild_id == guild_id && matches_ratings(&e.range, ratings) {
                proof {
                    assert(!out@.contains(e.role_id)) by {
                        if out@.contains(e.role_id) {
                            let k = choose|k: int|
                                0 <= k < i && self.entries@[k].guild_id == guild_id
                                    && #[trigger] self.entries@[k].role_id == e.role_id
                                    && range_matches_ratings(self.entries@[k].range, *ratings);
                            assert(self.entries@[k].role_id == self.entries@[i as int].role_id);
                        }
                    }
                }
                let ghost old_out = out@;
                out.push(e.role_id);
                proof {
                    assert forall|id: u64| #[trigger] out@.contains(id) implies old_out.contains(
                        id,
                    ) || id == e.role_id by {
                        let k = choose|k: int| 0 <= k < out@.len() && out@[k] == id;
                        if k < old_out.len() {
                            assert(old_out[k] == id);
                        }
                    }
                    assert forall|id: u64| old_out.contains(id) implies #[trigger] out@.contains(
                        id,
                    ) by {
                        let k = choose|k: int| 0 <= k < old_out.len() && old_out[k] == id;
                        assert(out@[k] == id);
                    }
                    assert(out@.contains(e.role_id)) by {
                        assert(out@[out@.len() - 1] == e.role_id);
                    }
                    assert forall|k: int, l: int| 0 <= k < l < out@.len() implies out@[k]
                        != out@[l] by {
                        assert(out@[k] == old_out[k]);
                        if l == out@.len() - 1 {
                            assert(old_out.contains(old_out[k]));
                        } else {
                            assert(out@[l] == old_out[l]);
                        }
                    }
                }
            }
            i = i + 1;
        }
        proof {
            assert forall|id: u64| #[trigger] out@.contains(id) implies (self.range_for(
                guild_id,
                id,
            ) is Some && range_matches_ratings(self.range_for(guild_id, id)->0, *ratings)) by {
                let k = choose|k: int|
                    0 <= k < n && self.entries@[k].guild_id == guild_id
                        && #[trigger] self.entries@[k].role_id == id && range_matches_ratings(
                        self.entries@[k].range,
                        *ratings,
                    );
                lemma_entry_for_witness(self.entries@, guild_id, id, k);
            }
            assert forall|id: u64|
                (self.range_for(guild_id, id) is Some && range_matches_ratings(
                    self.range_for(guild_id, id)->0,
                    *ratings,
                )) implies #[trigger] out@.contains(id) by {
                lemma_entry_for_exists(self.entries@, guild_id, id);
                let k = choose|k: int|
                    0 <= k < self.entries@.len() && self.entries@[k].guild_id == guild_id
                        && #[trigger] self.entries@[k].role_id == id;
                lemma_entry_for_witness(self.entries@, guild_id, id, k);
                assert(self.entries@[k].range == self.range_for(guild_id, id)->0);
            }
        }
        out
    }

    /// Every registered role of the community that is not in `role_ids`:
    /// the rating-band roles a member must not keep when outside them.
    pub fn other_rating_range_roles(&self, guild_id: u64, role_ids: &[u64]) -> (r: Vec<u64>)
        requires
            self.wf(),
        ensures
            forall|id: u64|
                #[trigger] r@.contains(id) <==> (self.has_role(guild_id, id)
                    && !role_ids@.contains(id)),
            forall|i: int, j: int| 0 <= i < j < r@.len() ==> r@[i] != r@[j],
    {
        let n = self.entries.len();
        let mut out: Vec<u64> = Vec::new();
        let mut i: usize = 0;
        while i < n
            invariant
                i <= n,
                n == self.entries@.len(),
                self.wf(),
                forall|k: int, l: int| 0 <= k < l < out@.len() ==> out@[k] != out@[l],
                forall|id: u64| #[trigger] out@.contains(id) ==> !role_ids@.contains(id),
                forall|id: u64|
                    #[trigger] out@.contains(id) ==> exists|k: int|
                        0 <= k < i && self.entries@[k].guild_id == guild_id
                            && #[trigger] self.entries@[k].role_id == id,
                forall|k: int|
                    0 <= k < i && self.entries@[k].guild_id == guild_id && !role_ids@.contains(
                        #[trigger] self.entries@[k].role_id,
                    ) ==> out@.contains(self.entries@[k].role_id),
            decreases n - i,
        {
            let e = self.entries[i];
            if e.guild_id == guild_id && !slice_contains_u64(role_ids, e.role_id) {
                proof {
                    assert(!out@.contains(e.role_id)) by {
                        if out@.contains(e.role_id) {
                            let k = choose|k: int|
                                0 <= k < i && self.entries@[k].guild_id == guild_id
                                    && #[trigger] self.entries@[k].role_id == e.role_id;
                            assert(self.entries@[k].role_id == self.entries@[i as int].role_id);
                        }
                    }
                }
                let ghost old_out = out@;
                out.push(e.role_id);
                proof {
                    assert forall|id: u64| #[trigger] out@.contains(id) implies old_out.contains(
                        id,
                    ) || id == e.role_id by {
                        let k = choose|k: int| 0 <= k < out@.len() && out@[k] == id;
                        if k < old_out.len() {
                            assert(old_out[k] == id);
                        }
                    }
                    assert forall|id: u64| old_out.contains(id) implies #[trigger] out@.contains(
                        id,
                    ) by {
                        let k = choose|k: int| 0 <= k < old_out.len() && old_out[k] == id;
                        assert(out@[k] == id);
                    }
                    assert(out@.contains(e.role_id)) by {
                        assert(out@[out@.len() - 1] == e.role_id);
                    }
                    assert forall|k: int, l: int| 0 <= k < l < out@.len() implies out@[k]
                        != out@[l] by {
                        assert(out@[k] == old_out[k]);
                        if l == out@.len() - 1 {
                            assert(old_out.contains(old_out[k]));
                        } else {
                            assert(out@[l] == old_out[l]);
                        }
                    }
                }
            }
            i = i + 1;
        }
        proof {
            assert forall|id: u64| #[trigger] out@.contains(id) implies (self.has_role(
                guild_id,
                id,
            ) && !role_ids@.contains(id)) by {
                let k = choose|k: int|
                    0 <= k < n && self.entries@[k].guild_id == guild_id
                        && #[trigger] self.entries@[k].role_id == id;
                lemma_entry_for_witness(self.entries@, guild_id, id, k);
            }
            assert forall|id: u64|
                (self.has_role(guild_id, id) && !role_ids@.contains(id))
                    implies #[trigger] out@.contains(id) by {
                lemma_entry_for_exists(self.entries@, guild_id, id);
                let k = choose|k: int|
                    0 <= k < self.entries@.len() && self.entries@[k].guild_id == guild_id
                        && #[trigger] self.entries@[k].role_id == id;
            }
        }
        out
    }
}

/// The label names of the registry entries of `guild_id` whose role id
/// is listed in `ids`, in registry order.
pub open spec fn names_for(entries: Seq<RoleEntry>, guild_id: u64, ids: Seq<u64>) -> Seq<Seq<char>>
    decreases entries.len(),
{
    if entries.len() == 0 {
        Seq::empty()
    } else {
        let rest = names_for(entries.drop_last(), guild_id, ids);
        let e = entries.last();
        if e.guild_id == guild_id && ids.contains(e.role_id) && name_spec(e.range) is Some {
            rest.push(name_spec(e.range)->0)
        } else {
            rest
        }
    }
}

/// The band label a registered role carries, if its range has one.
pub open spec fn role_name(rm: RoleManager, guild_id: u64, role_id: u64) -> Option<Seq<char>> {
    match rm.range_for(guild_id, role_id) {
        Some(rr) => name_spec(rr),
        None => None,
    }
}

impl RoleManager {
    /// The printable band labels of the listed roles in this community,
    /// in registry order. `lemma_role_names_characterized` relates the
    /// returned list to `role_name` for callers that reason through the
    /// mutators' contracts.
    pub fn get_rating_role_names(&self, guild_id: u64, role_ids: &[u64]) -> (r: Vec<String>)
        requires
            self.wf(),
        ensures
            r@.map_values(|s: String| s@) == names_for(self.entries@, guild_id, role_ids@),
    {
        let n = self.entries.len();
        let mut out: Vec<String> = Vec::new();
        let mut i: usize = 0;
        while i < n
            invariant
                i <= n,
                n == self.entries@.len(),
                out@.map_values(|s: String| s@) =~= names_for(
                    self.entries@.take(i as int),
                    guild_id,
                    role_ids@,
                ),
            decreases n - i,
        {
            let e = self.entries[i];
            proof {
                assert(self.entries@.take(i + 1 as int).drop_last() =~= self.entries@.take(
                    i as int,
                ));
                assert(self.entries@.take(i + 1 as int).last() == self.entries@[i as int]);
            }
            if e.guild_id == guild_id && slice_contains_u64(role_ids, e.role_id) {
                if let Some(name) = e.range.get_name() {
                    let ghost old_out = out@;
                    out.push(name);
                    proof {
                        assert(out@.map_values(|s: String| s@) =~= old_out.map_values(
                            |s: String| s@,
                        ).push(out@.last()@));
                    }
                }
            }
            i = i + 1;
        }
        proof {
            assert(self.entries@.take(n as int) =~= self.entries@);
        }
        out
    }
}

/// Every name in `names_for` comes from a listed entry of the guild.
proof fn lemma_names_for_sound(
    entries: Seq<RoleEntry>,
    guild_id: u64,
    ids: Seq<u64>,
    name: Seq<char>,
)
    requires
        names_for(entries, guild_id, ids).contains(name),
    ensures
        exists|k: int|
            0 <= k < entries.len() && (#[trigger] entries[k]).guild_id == guild_id && ids.contains(
                entries[k].role_id,
            ) && name_spec(entries[k].range) == Some(name),
    decreases entries.len(),
{
    let rest = names_for(entries.drop_last(), guild_id, ids);
    let e = entries.last();
    if e.guild_id == guild_id && ids.contains(e.role_id) && name_spec(e.range) is Some {
        let whole = rest.push(name_spec(e.range)->0);
        let j = choose|j: int| 0 <= j < whole.len() && whole[j] == name;
        if j < rest.len() {
            assert(rest.contains(name)) by {
                assert(rest[j] == name);
            }
            lemma_names_for_sound(entries.drop_last(), guild_id, ids, name);
            let k = choose|k: int|
                0 <= k < entries.drop_last().len() && (#[trigger] entries.drop_last()[k]).guild_id
                    == guild_id && ids.contains(entries.drop_last()[k].role_id) && name_spec(
                    entries.drop_last()[k].range,
                ) == Some(name);
            assert(entries[k] == entries.drop_last()[k]);
        } else {
            assert(entries[entries.len() - 1] == e);
        }
    } else {
        lemma_names_for_sound(entries.drop_last(), guild_id, ids, name);
        let k = choose|k: int|
            0 <= k < entries.drop_last().len() && (#[trigger] entries.drop_last()[k]).guild_id
                == guild_id && ids.contains(entries.drop_last()[k].role_id) && name_spec(
                entries.drop_last()[k].range,
            ) == Some(name);
        assert(entries[k] == entries.drop_last()[k]);
    }
}

/// Every listed entry of the guild with a printable label shows up in
/// `names_for`.
proof fn lemma_names_for_complete(entries: Seq<RoleEntry>, guild_id: u64, ids: Seq<u64>, k: int)
    requires
        0 <= k < entries.len(),
        entries[k].guild_id == guild_id,
        ids.contains(entries[k].role_id),
        name_spec(entries[k].range) is Some,
    ensures
        names_for(entries, guild_id, ids).contains(name_spec(entries[k].range)->0),
    decreases entries.len(),
{
    let rest = names_for(entries.drop_last(), guild_id, ids);
    let e = entries.last();
    if k == entries.len() - 1 {
        let whole = rest.push(name_spec(e.range)->0);
        assert(whole[whole.len() - 1] == name_spec(e.range)->0);
    } else {
        assert(entries.drop_last()[k] == entries[k]);
        lemma_names_for_complete(entries.drop_last(), guild_id, ids, k);
        let target = name_spec(entries[k].range)->0;
        let j = choose|j: int| 0 <= j < rest.len() && rest[j] == target;
        if e.guild_id == guild_id && ids.contains(e.role_id) && name_spec(e.range) is Some {
            assert(rest.push(name_spec(e.range)->0)[j] == target);
        }
    }
}

/// Law: the band-label list is, element for element, the `role_name`
/// answer of the registry. Every name in `names_for` over a registry's
/// entries belongs to a listed, registered role, and every listed role
/// with a printable label contributes its name — so a caller reasoning
/// through the mutators' `range_for` contracts knows what
/// `get_rating_role_names` returns.
pub proof fn lemma_role_names_characterized(rm: RoleManager, guild_id: u64, ids: Seq<u64>)
    requires
        rm.wf(),
    ensures
        forall|name: Seq<char>|
            #[trigger] names_for(rm.entries@, guild_id, ids).contains(name) ==> exists|id: u64|
                ids.contains(id) && #[trigger] role_name(rm, guild_id, id) == Some(name),
        forall|id: u64|
            ids.contains(id) && (#[trigger] role_name(rm, guild_id, id)) is Some ==> names_for(
                rm.entries@,
                guild_id,
                ids,
            ).contains(role_name(rm, guild_id, id)->0),
{
    assert forall|name: Seq<char>|
        #[trigger] names_for(rm.entries@, guild_id, ids).contains(name) implies exists|id: u64|
        ids.contains(id) && #[trigger] role_name(rm, guild_id, id) == Some(name) by {
        lemma_names_for_sound(rm.entries@, guild_id, ids, name);
        let k = choose|k: int|
            0 <= k < rm.entries@.len() && (#[trigger] rm.entries@[k]).guild_id == guild_id
                && ids.contains(rm.entries@[k].role_id) && name_spec(rm.entries@[k].range) == Some(
                name,
            );
        lemma_entry_for_witness(rm.entries@, guild_id, rm.entries@[k].role_id, k);
        assert(role_name(rm, guild_id, rm.entries@[k].role_id) == Some(name));
    }
    assert forall|id: u64|
        ids.contains(id) && (#[trigger] role_name(rm, guild_id, id)) is Some implies names_for(
        rm.entries@,
        guild_id,
        ids,
    ).contains(role_name(rm, guild_id, id)->0) by {
        lemma_entry_for_exists(rm.entries@, guild_id, id);
        let k = choose|k: int|
            0 <= k < rm.entries@.len() && rm.entries@[k].guild_id == guild_id
                && #[trigger] rm.entries@[k].role_id == id;
        lemma_entry_for_witness(rm.entries@, guild_id, id, k);
        lemma_names_for_complete(rm.entries@, guild_id, ids, k);
    }
}

/// What registering a range promises of the registry afterwards: in a
/// known community the role now carries the range; in an unknown one
/// nothing happens; every other key is untouched either way.
pub open spec fn add_rating_range_post(
    before: RoleManager,
    after: RoleManager,
    guild_id: u64,
    role_id: u64,
    range: RatingRange,
) -> bool {
    &&& after.range_for(guild_id, role_id) == (if before.has_guild(guild_id) {
        Some(range)
    } else {
        before.range_for(guild_id, role_id)
    })
    &&& forall|g: u64, r: u64|
        !(g == guild_id && r == role_id) ==> after.range_for(g, r) == before.range_for(g, r)
}

/// Law: the matching-role answer is monotonic under registration.
/// Registering a range never removes an existing match for any other
/// role: whatever a snapshot earned before registering, it still earns.
pub proof fn lemma_roles_matching_monotonic(
    before: RoleManager,
    after: RoleManager,
    guild_id: u64,
    role_id: u64,
    range: RatingRange,
    other_guild: u64,
    other_role: u64,
    ratings: Ratings,
)
    requires
        add_rating_range_post(before, after, guild_id, role_id, range),
        !(other_guild == guild_id && other_role == role_id),
        before.range_for(other_guild, other_role) is Some,
        range_matches_ratings(before.range_for(other_guild, other_role)->0, ratings),
    ensures
        after.range_for(other_guild, other_role) is Some,
        range_matches_ratings(after.range_for(other_guild, other_role)->0, ratings),
{
}

/// Law: the add set and the remove set of one reconciliation never
/// overlap. The "other roles" computed from a matching set exclude, by
/// construction, every role of that set.
pub proof fn lemma_matching_and_others_disjoint(
    rm: RoleManager,
    guild_id: u64,
    matching: Seq<u64>,
    others: Seq<u64>,
)
    requires
        forall|id: u64|
            #[trigger] others.contains(id) <==> (rm.has_role(guild_id, id) && !matching.contains(
                id,
            )),
    ensures
        forall|id: u64| !(matching.contains(id) && #[trigger] others.contains(id)),
{
}

/// The range role `r` ends up with after registering the labelled roles
/// in order, starting from `init`; later labels overwrite earlier ones.
pub open spec fn label_fold(
    roles: Seq<(u64, String)>,
    r: u64,
    init: Option<RatingRange>,
) -> Option<RatingRange>
    decreases roles.len(),
{
    if roles.len() == 0 {
        init
    } else {
        let prev = label_fold(roles.drop_last(), r, init);
        if roles.last().0 == r && valid_label(roles.last().1@) {
            Some(parsed_range(roles.last().1@))
        } else {
            prev
        }
    }
}

impl RoleManager {
    /// Registers every role of a known community whose label carries
    /// range semantics, as on joining the community: labels without
    /// range semantics are skipped, a later entry for the same role
    /// wins, and an unknown community is left untouched.
    pub fn add_guild_roles(&mut self, guild_id: u64, roles: &Vec<(u64, String)>)
        requires
            old(self).wf(),
        ensures
            final(self).wf(),
            forall|g: u64| final(self).has_guild(g) == old(self).has_guild(g),
            old(self).has_guild(guild_id) ==> forall|r: u64|
                final(self).range_for(guild_id, r) == label_fold(
                    roles@,
                    r,
                    old(self).range_for(guild_id, r),
                ),
            !old(self).has_guild(guild_id) ==> *final(self) == *old(self),
            forall|g: u64, r: u64|
                g != guild_id ==> final(self).range_for(g, r) == old(self).range_for(g, r),
    {
        let n = roles.len();
        let mut i: usize = 0;
        while i < n
            invariant
                i <= n,
                n == roles@.len(),
                self.wf(),
                forall|g: u64| self.has_guild(g) == old(self).has_guild(g),
                old(self).has_guild(guild_id) ==> forall|r: u64|
                    self.range_for(guild_id, r) == label_fold(
                        roles@.take(i as int),
                        r,
                        old(self).range_for(guild_id, r),
                    ),
                !old(self).has_guild(guild_id) ==> *self == *old(self),
                forall|g: u64, r: u64|
                    g != guild_id ==> self.range_for(g, r) == old(self).range_for(g, r),
            decreases n - i,
        {
            proof {
                assert(roles@.take(i + 1 as int).drop_last() =~= roles@.take(i as int));
                assert(roles@.take(i + 1 as int).last() == roles@[i as int]);
            }
            let entry = &roles[i];
            match RatingRange::parse_label(entry.1.as_str()) {
                Some(range) => {
                    self.add_rating_range(guild_id, entry.0, range);
                },
                None => {
                },
            }
            i = i + 1;
        }
        proof {
            assert(roles@.take(n as int) =~= roles@);
        }
    }

    /// Re-registers a role after a rename: the old range is dropped, and
    /// the role carries a range again exactly when the community is
    /// known and the new label has range semantics.
    pub fn update_role(&mut self, guild_id: u64, role_id: u64, label: &str)
        requires
            old(self).wf(),
        ensures
            final(self).wf(),
            forall|g: u64| final(self).has_guild(g) == old(self).has_guild(g),
            final(self).range_for(guild_id, role_id) == (if old(self).has_guild(guild_id)
                && valid_label(label@) {
                Some(parsed_range(label@))
            } else {
                Option::<RatingRange>::None
            }),
            forall|g: u64, r: u64|
                !(g == guild_id && r == role_id) ==> final(self).range_for(g, r) == old(
                    self,
                ).range_for(g, r),
    {
        self.remove_role(guild_id, role_id);
        match RatingRange::parse_label(label) {
            Some(range) => {
                self.add_rating_range(guild_id, role_id, range);
            },
            None => {
            },
        }
    }
}

/// Exec membership test on a `u64` slice.
fn slice_contains_u64(s: &[u64], x: u64) -> (r: bool)
    ensures
        r == s@.contains(x),
{
    let n = s.len();
    let mut i: usize = 0;
    while i < n
        invariant
            i <= n,
            n == s@.len(),
            forall|j: int| 0 <= j < i ==> s@[j] != x,
        decreases n - i,
    {
        if *vstd::slice::slice_index_get(s, i) == x {
            proof {
                assert(s@[i as int] == x);
            }
            return true;
        }
        i = i + 1;
    }
    false
}

} // verus!
