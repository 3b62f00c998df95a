//! The rating categories the bot tracks, and their textual names.

use crate::text::str_eq;
use vstd::prelude::*;

verus! {

/// A rating discipline tracked by the rating service.
#[derive(Debug, Clone, Copy, PartialEq, Eq, Hash, Structural)]
pub enum Format {
    Blitz,
    Bullet,
    Classical,
    Rapid,
}

/// The canonical lowercase name of a category, as the rating service and
/// role labels spell it.
pub open spec fn lower_name_spec(f: Format) -> Seq<char> {
    match f {
        Format::Blitz => "blitz"@,
        Format::Bullet => "bullet"@,
        Format::Classical => "classical"@,
        Format::Rapid => "rapid"@,
    }
}

/// The capitalised display name of a category.
pub open spec fn display_name_spec(f: Format) -> Seq<char> {
    match f {
        Format::Blitz => "Blitz"@,
        Format::Bullet => "Bullet"@,
        Format::Classical => "Classical"@,
        Format::Rapid => "Rapid"@,
    }
}

impl Format {
    /// The four categories, in a fixed order.
    pub fn all() -> (r: Vec<Format>)
        ensures
            r@ =~= seq![Format::Blitz, Format::Bullet, Format::Classical, Format::Rapid],
    {
        let mut v: Vec<Format> = Vec::new();
        v.push(Format::Blitz);
        v.push(Format::Bullet);
        v.push(Format::Classical);
        v.push(Format::Rapid);
        v
    }

    /// The canonical lowercase name, e.g. `"blitz"`.
    pub fn lower_name(&self) -> (r: &'static str)
        ensures
            r@ == lower_name_spec(*self),
    {
        match self {
            Format::Blitz => "blitz",
            Format::Bullet => "bullet",
            Format::Classical => "classical",
            Format::Rapid => "rapid",
        }
    }

    /// The capitalised display name, e.g. `"Blitz"`.
    pub fn display_name(&self) -> (r: &'static str)
        ensures
            r@ == display_name_spec(*self),
    {
        match self {
            Format::Blitz => "Blitz",
            Format::Bullet => "Bullet",
            Format::Classical => "Classical",
            Format::Rapid => "Rapid",
        }
    }

    /// Parses a lowercase category name; any other text is rejected.
    pub fn from_name(s: &str) -> (r: Option<Format>)
        ensures
            match r {
                Some(f) => s@ == lower_name_spec(f),
                None => forall|f: Format| s@ != lower_name_spec(f),
            },
    {
        if str_eq(s, "blitz") {
            Some(Format::Blitz)
        } else if str_eq(s, "bullet") {
            Some(Format::Bullet)
        } else if str_eq(s, "classical") {
            Some(Format::Classical)
        } else if str_eq(s, "rapid") {
            Some(Format::Rapid)
        } else {
            proof {
                assert forall|f: Format| s@ != lower_name_spec(f) by {
                    match f {
                        Format::Blitz => assert(s@ != "blitz"@),
                        Format::Bullet => assert(s@ != "bullet"@),
                        Format::Classical => assert(s@ != "classical"@),
                        Format::Rapid => assert(s@ != "rapid"@),
                    }
                }
            }
            None
        }
    }
}

impl core::str::FromStr for Format {
    type Err = ();

    fn from_str(s: &str) -> Result<Format, ()> {
        match Format::from_name(s) {
            Some(f) => Ok(f),
            None => Err(()),
        }
    }
}

/// The category denoted by an exact lowercase name, if any.
pub open spec fn format_of_name(s: Seq<char>) -> Option<Format> {
    if s == lower_name_spec(Format::Blitz) {
        Some(Format::Blitz)
    } else if s == lower_name_spec(Format::Bullet) {
        Some(Format::Bullet)
    } else if s == lower_name_spec(Format::Classical) {
        Some(Format::Classical)
    } else if s == lower_name_spec(Format::Rapid) {
        Some(Format::Rapid)
    } else {
        None
    }
}

pub proof fn lemma_format_of_name_sound(f: Format)
    ensures
        format_of_name(lower_name_spec(f)) == Some(f),
{
    reveal_strlit("blitz");
    reveal_strlit("bullet");
    reveal_strlit("classical");
    reveal_strlit("rapid");
    assert("blitz"@.len() == 5);
    assert("bullet"@.len() == 6);
    assert("classical"@.len() == 9);
    assert("rapid"@.len() == 5);
    match f {
        Format::Blitz => {
        },
        Format::Bullet => {
            assert("bullet"@ != "blitz"@);
        },
        Format::Classical => {
            assert("classical"@ != "blitz"@);
            assert("classical"@ != "bullet"@);
        },
        Format::Rapid => {
            assert("rapid"@[0] == 'r' && "blitz"@[0] == 'b');
            assert("rapid"@ != "blitz"@);
            assert("rapid"@ != "bullet"@);
            assert("rapid"@ != "classical"@);
        },
    }
}

} // verus!
