//! Plain-value models of what the rating-service client returns: the
//! resolved account identity and the rating profile, with the filter
//! that keeps only established (non-provisional) ratings in known
//! categories. The HTTP calls themselves live outside the library.

use crate::lichess::format::{format_of_name, lemma_format_of_name_sound, Format};
use crate::ratings::{empty_ratings, with_rating, Ratings};
use crate::text::str_eq;
use vstd::prelude::*;

verus! {

/// The account identity the rating service resolves for a token.
#[derive(Debug, Clone)]
pub struct LichessUser {
    pub username: String,
    pub title: Option<String>,
}

/// Whether the account is a restricted (automated) account.
pub open spec fn is_bot_spec(u: LichessUser) -> bool {
    match u.title {
        Some(t) => t@ == "BOT"@,
        None => false,
    }
}

impl LichessUser {
    pub fn new(username: String, title: Option<String>) -> (u: LichessUser)
        ensures
            u == (LichessUser { username, title }),
    {
        LichessUser { username, title }
    }

    pub fn get_username(&self) -> (r: &str)
        ensures
            r@ == self.username@,
    {
        self.username.as_str()
    }

    /// Whether this account is an automated account, which must not be
    /// linked.
    pub fn is_bot(&self) -> (r: bool)
        ensures
            r == is_bot_spec(*self),
    {
        match &self.title {
            Some(t) => str_eq(t.as_str(), "BOT"),
            None => false,
        }
    }
}

/// One performance entry of a profile, as the rating service reports it.
/// `prov` is present exactly when the rating is provisional.
#[derive(Debug, Clone, Copy)]
pub struct FormatRating {
    pub games: Option<i64>,
    pub rating: Option<i16>,
    pub prov: Option<bool>,
}

/// A fetched rating profile: performance entries keyed by category name.
#[derive(Debug, Clone)]
pub struct Profile {
    pub perfs: Vec<(String, FormatRating)>,
}

/// Folds one profile entry into a snapshot: an entry counts only when
/// it has an established (non-provisional) rating in a known category.
pub open spec fn apply_perf(acc: Ratings, name: Seq<char>, fr: FormatRating) -> Ratings {
    match (fr.prov, fr.rating, format_of_name(name)) {
        (None, Some(v), Some(f)) => with_rating(acc, f, Some(v)),
        _ => acc,
    }
}

/// The snapshot a profile yields; later entries for the same category
/// overwrite earlier ones.
pub open spec fn collect_ratings(perfs: Seq<(String, FormatRating)>) -> Ratings
    decreases perfs.len(),
{
    if perfs.len() == 0 {
        empty_ratings()
    } else {
        apply_perf(collect_ratings(perfs.drop_last()), perfs.last().0@, perfs.last().1)
    }
}

impl Profile {
    pub fn new(perfs: Vec<(String, FormatRating)>) -> (p: Profile)
        ensures
            p.perfs == perfs,
    {
        Profile { perfs }
    }

    /// The established ratings of this profile, one per known category;
    /// provisional or unrated entries and unknown categories are
    /// dropped.
    pub fn get_ratings(&self) -> (r: Ratings)
        ensures
            r == collect_ratings(self.perfs@),
    {
        let n = self.perfs.len();
        let mut acc = Ratings::empty();
        let mut i: usize = 0;
        while i < n
            invariant
                i <= n,
                n == self.perfs@.len(),
                acc == collect_ratings(self.perfs@.take(i as int)),
            decreases n - i,
        {
            let p = &self.perfs[i];
            proof {
                assert(self.perfs@.take(i + 1 as int).drop_last() =~= self.perfs@.take(i as int));
                assert(self.perfs@.take(i + 1 as int).last() == self.perfs@[i as int]);
            }
            let prov_absent = p.1.prov.is_none();
            if prov_absent {
                if let Some(v) = p.1.rating {
                    if let Some(f) = Format::from_name(p.0.as_str()) {
                        proof {
                            lemma_format_of_name_sound(f);
                        }
                        acc.set(f, Some(v));
                    } else {
                        proof {
                            assert(format_of_name(self.perfs@[i as int].0@) is None);
                        }
                    }
                }
            }
            i = i + 1;
        }
        proof {
            assert(self.perfs@.take(n as int) =~= self.perfs@);
        }
        acc
    }
}

} // verus!
