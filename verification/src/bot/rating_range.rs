//! A rating band in one category, tied to a role by its label.
//!
//! A role label carries range semantics when it has one of three shapes,
//! each followed by one space and a lowercase category name:
//! `"<A>-<B>"` (inclusive), `"U<N>"` (everything strictly under `N`), or
//! `"<N>+"` (everything from `N` up). The numbers have three or four
//! digits; any other text carries no range semantics and is rejected.

use crate::lichess::format::{format_of_name, lemma_format_of_name_sound, lower_name_spec, Format};
use crate::text::{i16_to_string, int_str};
use vstd::prelude::*;

verus! {

/// A numeric rating interval in one category.
///
/// `min` and `max` are inclusive bounds except when `min` is absent: a
/// range built from an "under" label stores the first excluded value in
/// `max` (label `U1000` matches ratings up to `999`).
#[derive(Debug, Clone, Copy, PartialEq, Eq)]
pub struct RatingRange {
    pub format: Format,
    pub min: Option<i16>,
    pub max: Option<i16>,
}

/// Whether `rating` in category `f` falls inside the range.
pub open spec fn is_match_spec(rr: RatingRange, f: Format, rating: i16) -> bool {
    &&& rr.format == f
    &&& match (rr.min, rr.max) {
        (Some(mn), Some(mx)) => mn <= rating && rating <= mx,
        (Some(mn), None) => rating >= mn,
        (None, Some(mx)) => rating < mx,
        (None, None) => false,
    }
}

/// The canonical label text of a range, when it has both semantics and a
/// shape to print: `"<A>-<B> <fmt>"`, `"<N>+ <fmt>"` or `"U<N> <fmt>"`.
pub open spec fn name_spec(rr: RatingRange) -> Option<Seq<char>> {
    match (rr.min, rr.max) {
        (Some(mn), Some(mx)) => Some(
            int_str(mn as int) + seq!['-'] + int_str(mx as int) + seq![' '] + lower_name_spec(
                rr.format,
            ),
        ),
        (Some(mn), None) => Some(int_str(mn as int) + seq!['+', ' '] + lower_name_spec(rr.format)),
        (None, Some(mx)) => Some(
            seq!['U'] + int_str(mx as int) + seq![' '] + lower_name_spec(rr.format),
        ),
        (None, None) => None,
    }
}

impl RatingRange {
    pub fn new(format: Format, min: Option<i16>, max: Option<i16>) -> (rr: RatingRange)
        ensures
            rr == (RatingRange { format, min, max }),
    {
        RatingRange { format, min, max }
    }

    /// Whether `rating` in category `format` falls inside this range.
    pub fn is_match(&self, format: Format, rating: i16) -> (r: bool)
        ensures
            r == is_match_spec(*self, format, rating),
    {
        if self.format != format {
            return false;
        }
        match (self.min, self.max) {
            (Some(mn), Some(mx)) => rating >= mn && rating <= mx,
            (Some(mn), None) => rating >= mn,
            (None, Some(mx)) => rating < mx,
            (None, None) => false,
        }
    }

    /// The canonical label text of this range, if it has one.
    pub fn get_name(&self) -> (r: Option<String>)
        ensures
            match r {
                Some(s) => name_spec(*self) == Some(s@),
                None => name_spec(*self) is None,
            },
    {
        proof {
            reveal_strlit("-");
            reveal_strlit("+ ");
            reveal_strlit("U");
            reveal_strlit(" ");
        }
        match (self.min, self.max) {
            (Some(mn), Some(mx)) => {
                let mut s = i16_to_string(mn);
                s.append("-");
                let mxs = i16_to_string(mx);
                s.append(mxs.as_str());
                s.append(" ");
                s.append(self.format.lower_name());
                proof {
                    assert(Some(s@) =~~= name_spec(*self));
                }
                Some(s)
            },
            (Some(mn), None) => {
                let mut s = i16_to_string(mn);
                s.append("+ ");
                s.append(self.format.lower_name());
                proof {
                    assert(Some(s@) =~~= name_spec(*self));
                }
                Some(s)
            },
            (None, Some(mx)) => {
                let mut s = String::from_str("U");
                let mxs = i16_to_string(mx);
                s.append(mxs.as_str());
                s.append(" ");
                s.append(self.format.lower_name());
                proof {
                    assert(Some(s@) =~~= name_spec(*self));
                }
                Some(s)
            },
            (None, None) => None,
        }
    }
}

/// Whether `c` is a decimal digit.
pub open spec fn is_digit(c: char) -> bool {
    '0' <= c && c <= '9'
}

/// The value of a decimal digit character.
pub open spec fn digit_val(c: char) -> int {
    c as int - '0' as int
}

/// Whether every character of `s` is a decimal digit.
pub open spec fn all_digits(s: Seq<char>) -> bool {
    forall|i: int| 0 <= i < s.len() ==> is_digit(s[i])
}

/// The numeric value of a digit string.
pub open spec fn digits_val(s: Seq<char>) -> int
    decreases s.len(),
{
    if s.len() == 0 {
        0
    } else {
        digits_val(s.drop_last()) * 10 + digit_val(s.last())
    }
}

/// A number field of a label: three or four decimal digits.
pub open spec fn valid_num(s: Seq<char>) -> bool {
    3 <= s.len() <= 4 && all_digits(s)
}

/// The body shape `U<N>` / `u<N>`.
pub open spec fn under_shape(b: Seq<char>) -> bool {
    b.len() >= 1 && (b[0] == 'U' || b[0] == 'u') && valid_num(b.skip(1))
}

/// The body shape `<N>+`.
pub open spec fn plus_shape(b: Seq<char>) -> bool {
    b.len() >= 1 && b.last() == '+' && valid_num(b.drop_last())
}

/// The body shape `<A>-<B>` with the dash at position `p`.
pub open spec fn pair_shape_at(b: Seq<char>, p: int) -> bool {
    0 <= p < b.len() && b[p] == '-' && valid_num(b.take(p)) && valid_num(b.skip(p + 1))
}

/// The body shape `<A>-<B>`; the first number fixes the dash at
/// position 3 or 4.
pub open spec fn pair_shape(b: Seq<char>) -> bool {
    pair_shape_at(b, 3) || pair_shape_at(b, 4)
}

/// Whether `b` is a well-formed label body (the part before the space).
pub open spec fn body_shape(b: Seq<char>) -> bool {
    under_shape(b) || plus_shape(b) || pair_shape(b)
}

/// The index of the first space in `s` at or after `i`, or `s.len()`.
pub open spec fn find_space(s: Seq<char>, i: int) -> int
    decreases s.len() - i when 0 <= i <= s.len()
{
    if i >= s.len() {
        s.len() as int
    } else if s[i] == ' ' {
        i
    } else {
        find_space(s, i + 1)
    }
}

/// Whether `s` is a label with range semantics: a body shape, one space,
/// and a known category name.
pub open spec fn valid_label(s: Seq<char>) -> bool {
    let sp = find_space(s, 0);
    &&& sp < s.len()
    &&& body_shape(s.take(sp))
    &&& format_of_name(s.skip(sp + 1)) is Some
}

/// The range a valid label denotes.
pub open spec fn parsed_range(s: Seq<char>) -> RatingRange {
    let sp = find_space(s, 0);
    let b = s.take(sp);
    let f = match format_of_name(s.skip(sp + 1)) {
        Some(f) => f,
        None => Format::Blitz,
    };
    if under_shape(b) {
        RatingRange { format: f, min: None, max: Some(digits_val(b.skip(1)) as i16) }
    } else if plus_shape(b) {
        RatingRange { format: f, min: Some(digits_val(b.drop_last()) as i16), max: None }
    } else {
        let p: int = if pair_shape_at(b, 3) {
            3
        } else {
            4
        };
        RatingRange {
            format: f,
            min: Some(digits_val(b.take(p)) as i16),
            max: Some(digits_val(b.skip(p + 1)) as i16),
        }
    }
}

proof fn lemma_find_space_is(s: Seq<char>, k: int, i: int)
    requires
        0 <= k <= i <= s.len(),
        forall|j: int| k <= j < i ==> s[j] != ' ',
        i == s.len() || s[i] == ' ',
    ensures
        find_space(s, k) == i,
    decreases i - k,
{
    if k < i {
        lemma_find_space_is(s, k + 1, i);
    }
}

/// `digits_val` of up to four digits stays under 10000.
proof fn lemma_digits_val_bound(s: Seq<char>)
    requires
        all_digits(s),
        s.len() <= 4,
    ensures
        0 <= digits_val(s) < 10000,
        s.len() <= 3 ==> digits_val(s) < 1000,
        s.len() <= 2 ==> digits_val(s) < 100,
        s.len() <= 1 ==> digits_val(s) < 10,
    decreases s.len(),
{
    if s.len() > 0 {
        lemma_digits_val_bound(s.drop_last());
    }
}

/// Reads the number field at `s[from..to]`: exactly three or four
/// decimal digits.
fn parse_digits(s: &str, from: usize, to: usize) -> (r: Option<u16>)
    requires
        from <= to <= s@.len(),
    ensures
        r is Some <==> valid_num(s@.subrange(from as int, to as int)),
        r is Some ==> {
            &&& 0 <= digits_val(s@.subrange(from as int, to as int)) < 10000
            &&& r == Some(digits_val(s@.subrange(from as int, to as int)) as u16)
        },
{
    let len = to - from;
    if len < 3 || len > 4 {
        return None;
    }
    let mut i = from;
    let mut val: u16 = 0;
    while i < to
        invariant
            from <= i <= to <= s@.len(),
            to - from <= 4,
            all_digits(s@.subrange(from as int, i as int)),
            val as int == digits_val(s@.subrange(from as int, i as int)),
        decreases to - i,
    {
        let c = s.get_char(i);
        if c < '0' || c > '9' {
            proof {
                assert(s@.subrange(from as int, to as int)[i - from] == s@[i as int]);
            }
            return None;
        }
        let d: u16 = ((c as u32) - 48) as u16;
        proof {
            lemma_digits_val_bound(s@.subrange(from as int, i as int));
            assert(s@.subrange(from as int, i + 1 as int).drop_last() =~= s@.subrange(
                from as int,
                i as int,
            ));
            assert(s@.subrange(from as int, i + 1 as int).last() == s@[i as int]);
        }
        val = val * 10 + d;
        i = i + 1;
    }
    proof {
        lemma_digits_val_bound(s@.subrange(from as int, to as int));
    }
    Some(val)
}

impl RatingRange {
    /// Parses a role label. Returns the range it denotes, or `None` when
    /// the text carries no range semantics.
    pub fn parse_label(s: &str) -> (r: Option<RatingRange>)
        ensures
            r is Some <==> valid_label(s@),
            r is Some ==> r == Some(parsed_range(s@)),
    {
        let n = s.unicode_len();
        let mut sp: usize = 0;
        while sp < n
            invariant
                sp <= n,
                n == s@.len(),
                forall|j: int| 0 <= j < sp ==> s@[j] != ' ',
            ensures
                sp <= n,
                n == s@.len(),
                sp == n || s@[sp as int] == ' ',
                forall|j: int| 0 <= j < sp ==> s@[j] != ' ',
            decreases n - sp,
        {
            if s.get_char(sp) == ' ' {
                break ;
            }
            sp = sp + 1;
        }
        proof {
            lemma_find_space_is(s@, 0, sp as int);
        }
        if sp == n {
            return None;
        }
        let fname = s.substring_char(sp + 1, n);
        proof {
            assert(fname@ =~= s@.skip(sp + 1));
        }
        let f = match Format::from_name(fname) {
            Some(f) => {
                proof {
                    lemma_format_of_name_sound(f);
                }
                f
            },
            None => {
                proof {
                    assert(fname@ != lower_name_spec(Format::Blitz));
                    assert(fname@ != lower_name_spec(Format::Bullet));
                    assert(fname@ != lower_name_spec(Format::Classical));
                    assert(fname@ != lower_name_spec(Format::Rapid));
                }
                return None;
            },
        };
        let ghost b = s@.take(sp as int);
        if sp == 0 {
            return None;
        }
        let c0 = s.get_char(0);
        if c0 == 'U' || c0 == 'u' {
            proof {
                assert(b.skip(1) =~= s@.subrange(1, sp as int));
            }
            match parse_digits(s, 1, sp) {
                Some(v) => {
                    proof {
                        assert(under_shape(b));
                    }
                    Some(RatingRange { format: f, min: None, max: Some(v as i16) })
                },
                None => {
                    proof {
                        assert(!under_shape(b));
                        assert(!plus_shape(b)) by {
                            if plus_shape(b) {
                                assert(is_digit(b.drop_last()[0]));
                            }
                        }
                        assert(!pair_shape_at(b, 3)) by {
                            if pair_shape_at(b, 3) {
                                assert(is_digit(b.take(3)[0]));
                            }
                        }
                        assert(!pair_shape_at(b, 4)) by {
                            if pair_shape_at(b, 4) {
                                assert(is_digit(b.take(4)[0]));
                            }
                        }
                    }
                    None
                },
            }
        } else {
            let clast = s.get_char(sp - 1);
            if clast == '+' {
                proof {
                    assert(b.drop_last() =~= s@.subrange(0, sp - 1));
                    assert(b.last() == s@[sp - 1]);
                }
                match parse_digits(s, 0, sp - 1) {
                    Some(v) => {
                        proof {
                            assert(plus_shape(b));
                            assert(!under_shape(b));
                        }
                        Some(RatingRange { format: f, min: Some(v as i16), max: None })
                    },
                    None => {
                        proof {
                            assert(!under_shape(b));
                            assert(!plus_shape(b));
                            assert(!pair_shape_at(b, 3)) by {
                                if pair_shape_at(b, 3) {
                                    if sp - 1 > 3 {
                                        assert(is_digit(b.skip(4).last()));
                                    }
                                }
                            }
                            assert(!pair_shape_at(b, 4)) by {
                                if pair_shape_at(b, 4) {
                                    if sp - 1 > 4 {
                                        assert(is_digit(b.skip(5).last()));
                                    }
                                }
                            }
                        }
                        None
                    },
                }
            } else {
                proof {
                    assert(!under_shape(b));
                    assert(!plus_shape(b)) by {
                        if plus_shape(b) {
                            assert(b.last() == s@[sp - 1]);
                        }
                    }
                }
                if sp > 3 && s.get_char(3) == '-' {
                    proof {
                        assert(b.take(3) =~= s@.subrange(0, 3));
                        assert(b.skip(4) =~= s@.subrange(4, sp as int));
                        assert(!pair_shape_at(b, 4)) by {
                            if pair_shape_at(b, 4) {
                                assert(is_digit(b.take(4)[3]));
                            }
                        }
                    }
                    let lo = parse_digits(s, 0, 3);
                    let hi = parse_digits(s, 4, sp);
                    match (lo, hi) {
                        (Some(a), Some(v)) => {
                            proof {
                                assert(pair_shape_at(b, 3));
                            }
                            Some(RatingRange { format: f, min: Some(a as i16), max: Some(v as i16) })
                        },
                        _ => {
                            proof {
                                assert(!pair_shape_at(b, 3));
                            }
                            None
                        },
                    }
                } else if sp > 4 && s.get_char(4) == '-' {
                    proof {
                        assert(b.take(4) =~= s@.subrange(0, 4));
                        assert(b.skip(5) =~= s@.subrange(5, sp as int));
                        assert(!pair_shape_at(b, 3)) by {
                            if pair_shape_at(b, 3) {
                                assert(b[3] == s@[3]);
                            }
                        }
                    }
                    let lo = parse_digits(s, 0, 4);
                    let hi = parse_digits(s, 5, sp);
                    match (lo, hi) {
                        (Some(a), Some(v)) => {
                            proof {
                                assert(pair_shape_at(b, 4));
                            }
                            Some(RatingRange { format: f, min: Some(a as i16), max: Some(v as i16) })
                        },
                        _ => {
                            proof {
                                assert(!pair_shape_at(b, 4));
                            }
                            None
                        },
                    }
                } else {
                    proof {
                        assert(!pair_shape_at(b, 3)) by {
                            if pair_shape_at(b, 3) {
                                assert(b[3] == s@[3]);
                            }
                        }
                        assert(!pair_shape_at(b, 4)) by {
                            if pair_shape_at(b, 4) {
                                assert(b[4] == s@[4]);
                            }
                        }
                    }
                    None
                }
            }
        }
    }
}

/// Law: an "under" label `U<N> <fmt>` parses to a range with no lower
/// bound whose stored `max` is `N`, and which matches exactly the
/// ratings up to `N - 1`: the named value itself is excluded.
pub proof fn lemma_under_label_matches(s: Seq<char>, rating: i16)
    requires
        valid_label(s),
        under_shape(s.take(find_space(s, 0))),
    ensures
        parsed_range(s).min is None,
        parsed_range(s).max == Some(digits_val(s.take(find_space(s, 0)).skip(1)) as i16),
        is_match_spec(parsed_range(s), parsed_range(s).format, rating) <==> rating as int
            <= digits_val(s.take(find_space(s, 0)).skip(1)) - 1,
{
    let b = s.take(find_space(s, 0));
    lemma_digits_val_bound(b.skip(1));
}

/// Law: an "over" label `<N>+ <fmt>` parses to a range with no upper
/// bound whose `min` is `N`, and which matches exactly the ratings from
/// `N` up.
pub proof fn lemma_plus_label_matches(s: Seq<char>, rating: i16)
    requires
        valid_label(s),
        plus_shape(s.take(find_space(s, 0))),
    ensures
        parsed_range(s).max is None,
        parsed_range(s).min == Some(digits_val(s.take(find_space(s, 0)).drop_last()) as i16),
        is_match_spec(parsed_range(s), parsed_range(s).format, rating) <==> rating as int
            >= digits_val(s.take(find_space(s, 0)).drop_last()),
{
    let b = s.take(find_space(s, 0));
    assert(!under_shape(b)) by {
        if under_shape(b) {
            assert(is_digit(b.drop_last()[0]));
        }
    }
    lemma_digits_val_bound(b.drop_last());
}

/// Law: a pair label `<A>-<B> <fmt>` parses to the inclusive range
/// `[A, B]`: it matches exactly the ratings from `A` through `B`.
pub proof fn lemma_pair_label_matches(s: Seq<char>, rating: i16, p: int)
    requires
        valid_label(s),
        pair_shape_at(s.take(find_space(s, 0)), p),
        p == 3 || p == 4,
    ensures
        parsed_range(s).min == Some(digits_val(s.take(find_space(s, 0)).take(p)) as i16),
        parsed_range(s).max == Some(digits_val(s.take(find_space(s, 0)).skip(p + 1)) as i16),
        is_match_spec(parsed_range(s), parsed_range(s).format, rating) <==> (digits_val(
            s.take(find_space(s, 0)).take(p),
        ) <= rating as int && rating as int <= digits_val(s.take(find_space(s, 0)).skip(p + 1))),
{
    let b = s.take(find_space(s, 0));
    assert(!under_shape(b)) by {
        if under_shape(b) {
            assert(is_digit(b.take(p)[0]));
        }
    }
    assert(!plus_shape(b)) by {
        if plus_shape(b) {
            assert(b.last() == b.skip(p + 1).last());
            assert(is_digit(b.skip(p + 1).last()));
        }
    }
    if p == 3 {
        assert(!pair_shape_at(b, 4)) by {
            if pair_shape_at(b, 4) {
                assert(is_digit(b.take(4)[3]));
            }
        }
    } else {
        assert(!pair_shape_at(b, 3)) by {
            if pair_shape_at(b, 3) {
                assert(is_digit(b.take(3)[3]) ==> b[3] == '-');
                assert(b.take(4)[3] == b[3]);
                assert(is_digit(b.take(4)[3]));
            }
        }
    }
    lemma_digits_val_bound(b.take(p));
    lemma_digits_val_bound(b.skip(p + 1));
}

impl core::str::FromStr for RatingRange {
    type Err = ();

    fn from_str(s: &str) -> Result<RatingRange, ()> {
        match RatingRange::parse_label(s) {
            Some(rr) => Ok(rr),
            None => Err(()),
        }
    }
}

} // verus!
