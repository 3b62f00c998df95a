//! Plain-value models for the rating service's public profile endpoint:
//! the account identity and the games-weighted average rating across
//! the tracked categories.

use crate::lichess::format::{format_of_name, Format};
use vstd::prelude::*;

verus! {

/// The public account identity.
#[derive(Debug, Clone)]
pub struct LichessUser {
    pub username: String,
}

impl LichessUser {
    pub fn get_username(&self) -> (r: &str)
        ensures
            r@ == self.username@,
    {
        self.username.as_str()
    }
}

/// One performance entry of a public profile.
#[derive(Debug, Clone, Copy)]
pub struct FormatRating {
    pub games: Option<i64>,
    pub rating: Option<i16>,
}

/// A public rating profile: performance entries keyed by category name.
#[derive(Debug, Clone)]
pub struct Profile {
    pub perfs: Vec<(String, FormatRating)>,
}

/// Whether an entry takes part in the average: it has a rating, a game
/// count, and belongs to a tracked category.
pub open spec fn counted(name: Seq<char>, fr: FormatRating) -> bool {
    &&& fr.rating is Some
    &&& fr.games is Some
    &&& format_of_name(name) is Some
}

/// The games an entry contributes.
pub open spec fn games_of(e: (String, FormatRating)) -> int {
    if counted(e.0@, e.1) {
        e.1.games->0 as int
    } else {
        0
    }
}

/// The rating-times-games weight an entry contributes.
pub open spec fn weight_of(e: (String, FormatRating)) -> int {
    if counted(e.0@, e.1) {
        e.1.rating->0 as int * e.1.games->0 as int
    } else {
        0
    }
}

/// Total games over the counted entries.
pub open spec fn sum_games(perfs: Seq<(String, FormatRating)>) -> int
    decreases perfs.len(),
{
    if perfs.len() == 0 {
        0
    } else {
        sum_games(perfs.drop_last()) + games_of(perfs.last())
    }
}

/// Total rating-times-games weight over the counted entries.
pub open spec fn sum_weight(perfs: Seq<(String, FormatRating)>) -> int
    decreases perfs.len(),
{
    if perfs.len() == 0 {
        0
    } else {
        sum_weight(perfs.drop_last()) + weight_of(perfs.last())
    }
}

/// Per-entry values are non-negative wherever present.
pub open spec fn perfs_nonneg(perfs: Seq<(String, FormatRating)>) -> bool {
    &&& forall|k: int|
        0 <= k < perfs.len() && (#[trigger] perfs[k]).1.games is Some ==> perfs[k].1.games->0 >= 0
    &&& forall|k: int|
        0 <= k < perfs.len() && (#[trigger] perfs[k]).1.rating is Some ==> perfs[k].1.rating->0
            >= 0
}

proof fn lemma_prefix_sums(perfs: Seq<(String, FormatRating)>, i: int)
    requires
        perfs_nonneg(perfs),
        0 <= i <= perfs.len(),
    ensures
        0 <= sum_games(perfs.take(i)),
        0 <= sum_weight(perfs.take(i)),
        sum_weight(perfs.take(i)) <= 32767 * sum_games(perfs.take(i)),
    decreases i,
{
    if i == 0 {
        assert(perfs.take(0) =~= Seq::<(String, FormatRating)>::empty());
    } else {
        lemma_prefix_sums(perfs, i - 1);
        assert(perfs.take(i).drop_last() =~= perfs.take(i - 1));
        assert(perfs.take(i).last() == perfs[i - 1]);
        let e = perfs[i - 1];
        assert(0 <= games_of(e));
        assert(weight_of(e) <= 32767 * games_of(e)) by {
            if counted(e.0@, e.1) {
                assert(e.1.rating->0 as int * e.1.games->0 as int <= 32767 * (e.1.games->0 as int))
                    by (nonlinear_arith)
                    requires
                        e.1.rating->0 as int <= 32767,
                        e.1.games->0 as int >= 0,
                {}
            }
        }
        assert(0 <= weight_of(e)) by {
            if counted(e.0@, e.1) {
                assert(e.1.rating->0 as int * e.1.games->0 as int >= 0) by (nonlinear_arith)
                    requires
                        e.1.rating->0 as int >= 0,
                        e.1.games->0 as int >= 0,
                {}
            }
        }
    }
}

proof fn lemma_games_prefix_bounded(perfs: Seq<(String, FormatRating)>, i: int)
    requires
        perfs_nonneg(perfs),
        0 <= i <= perfs.len(),
    ensures
        sum_games(perfs.take(i)) <= sum_games(perfs),
    decreases perfs.len() - i,
{
    if i == perfs.len() {
        assert(perfs.take(i) =~= perfs);
    } else {
        lemma_games_prefix_bounded(perfs, i + 1);
        assert(perfs.take(i + 1).drop_last() =~= perfs.take(i));
        assert(perfs.take(i + 1).last() == perfs[i]);
        assert(0 <= games_of(perfs[i]));
    }
}

impl Profile {
    /// The average rating over the tracked categories, weighted by the
    /// number of games in each.
    ///
    /// The profile must have at least one counted game, and the totals
    /// must stay within machine range.
    pub fn calculate_rating(&self) -> (r: i16)
        requires
            perfs_nonneg(self.perfs@),
            0 < sum_games(self.perfs@) <= 0x1000_0000_0000,
        ensures
            r as int == sum_weight(self.perfs@) / sum_games(self.perfs@),
    {
        let n = self.perfs.len();
        let mut total_rating: i64 = 0;
        let mut total_games: i64 = 0;
        let mut i: usize = 0;
        while i < n
            invariant
                i <= n,
                n == self.perfs@.len(),
                perfs_nonneg(self.perfs@),
                0 < sum_games(self.perfs@) <= 0x1000_0000_0000,
                total_games == sum_games(self.perfs@.take(i as int)),
                total_rating == sum_weight(self.perfs@.take(i as int)),
            decreases n - i,
        {
            let p = &self.perfs[i];
            proof {
                assert(self.perfs@.take(i + 1 as int).drop_last() =~= self.perfs@.take(i as int));
                assert(self.perfs@.take(i + 1 as int).last() == self.perfs@[i as int]);
                lemma_prefix_sums(self.perfs@, i as int);
                lemma_prefix_sums(self.perfs@, i + 1 as int);
                lemma_games_prefix_bounded(self.perfs@, i as int);
                lemma_games_prefix_bounded(self.perfs@, i + 1 as int);
            }
            let counted_here = match (p.1.rating, p.1.games) {
                (Some(_), Some(_)) => Format::from_name(p.0.as_str()).is_some(),
                _ => false,
            };
            proof {
                if format_of_name(self.perfs@[i as int].0@) is Some {
                    crate::lichess::format::lemma_format_of_name_sound(
                        format_of_name(self.perfs@[i as int].0@)->0,
                    );
                }
            }
            if counted_here {
                let rt = match p.1.rating {
                    Some(v) => v,
                    None => 0,
                };
                let g = match p.1.games {
                    Some(v) => v,
                    None => 0,
                };
                proof {
                    let e = self.perfs@[i as int];
                    assert(games_of(e) == g as int);
                    assert(g as int <= sum_games(self.perfs@)) by {
                        assert(sum_games(self.perfs@.take(i + 1 as int)) == sum_games(
                            self.perfs@.take(i as int),
                        ) + games_of(e));
                    }
                    assert(rt as int * g as int <= 32767 * (g as int) && rt as int * g as int >= 0)
                        by (nonlinear_arith)
                        requires
                            0 <= rt as int <= 32767,
                            g as int >= 0,
                    {}
                }
                total_rating = total_rating + (rt as i64) * g;
                total_games = total_games + g;
            }
            i = i + 1;
        }
        proof {
            assert(self.perfs@.take(n as int) =~= self.perfs@);
            lemma_prefix_sums(self.perfs@, n as int);
            assert(sum_weight(self.perfs@) / sum_games(self.perfs@) <= 32767 && sum_weight(
                self.perfs@,
            ) / sum_games(self.perfs@) >= 0) by (nonlinear_arith)
                requires
                    0 < sum_games(self.perfs@),
                    0 <= sum_weight(self.perfs@),
                    sum_weight(self.perfs@) <= 32767 * sum_games(self.perfs@),
            {}
        }
        let avg = (total_rating as u64) / (total_games as u64);
        avg as i16
    }
}

} // verus!
