//! A member's rating snapshot: at most one established rating per
//! category. A category with no entry is unrated or provisional.

use crate::lichess::format::Format;
use vstd::prelude::*;

verus! {

/// One optional established rating per category.
#[derive(Debug, Clone, Copy, PartialEq, Eq)]
pub struct Ratings {
    pub blitz: Option<i16>,
    pub bullet: Option<i16>,
    pub classical: Option<i16>,
    pub rapid: Option<i16>,
}

/// The rating stored for category `f`.
pub open spec fn rating_of(ra: Ratings, f: Format) -> Option<i16> {
    match f {
        Format::Blitz => ra.blitz,
        Format::Bullet => ra.bullet,
        Format::Classical => ra.classical,
        Format::Rapid => ra.rapid,
    }
}

/// The all-unrated snapshot.
pub open spec fn empty_ratings() -> Ratings {
    Ratings { blitz: None, bullet: None, classical: None, rapid: None }
}

/// The snapshot with the rating for `f` replaced by `v`.
pub open spec fn with_rating(ra: Ratings, f: Format, v: Option<i16>) -> Ratings {
    match f {
        Format::Blitz => Ratings { blitz: v, ..ra },
        Format::Bullet => Ratings { bullet: v, ..ra },
        Format::Classical => Ratings { classical: v, ..ra },
        Format::Rapid => Ratings { rapid: v, ..ra },
    }
}

impl Ratings {
    /// A snapshot with no established rating in any category.
    pub fn empty() -> (r: Ratings)
        ensures
            r == empty_ratings(),
            forall|f: Format| rating_of(r, f) is None,
    {
        Ratings { blitz: None, bullet: None, classical: None, rapid: None }
    }

    /// The rating stored for category `f`.
    pub fn get(&self, f: Format) -> (r: Option<i16>)
        ensures
            r == rating_of(*self, f),
    {
        match f {
            Format::Blitz => self.blitz,
            Format::Bullet => self.bullet,
            Format::Classical => self.classical,
            Format::Rapid => self.rapid,
        }
    }

    /// Stores `v` as the rating for category `f`.
    pub fn set(&mut self, f: Format, v: Option<i16>)
        ensures
            *final(self) == with_rating(*old(self), f, v),
            forall|g: Format|
                rating_of(*final(self), g) == if g == f {
                    v
                } else {
                    rating_of(*old(self), g)
                },
    {
        match f {
            Format::Blitz => self.blitz = v,
            Format::Bullet => self.bullet = v,
            Format::Classical => self.classical = v,
            Format::Rapid => self.rapid = v,
        }
    }
}

} // verus!
