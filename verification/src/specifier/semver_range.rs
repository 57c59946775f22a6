//! The range operator of a simple semver specifier, such as "^" or ">=".

use vstd::prelude::*;
use crate::text::str_is;

verus! {

/// A semver range operator. The variants are declared from the least to the
/// most greedy, so the derived order sorts ranges by their greediness.
#[derive(Clone, Copy, Debug, PartialEq, Eq, Hash, PartialOrd, Ord, Structural)]
pub enum SemverRange {
    /// <1.4.2
    Lt,
    /// <=1.4.2
    Lte,
    /// 1.4.2
    Exact,
    /// ~1.4.2
    Patch,
    /// ^1.4.2
    Minor,
    /// >=1.4.2
    Gte,
    /// >1.4.2
    Gt,
    /// *
    Any,
}

/// The characters that stand for each range in a specifier.
pub open spec fn range_chars(r: SemverRange) -> Seq<char> {
    match r {
        SemverRange::Any => seq!['*'],
        SemverRange::Minor => seq!['^'],
        SemverRange::Exact => seq![],
        SemverRange::Gt => seq!['>'],
        SemverRange::Gte => seq!['>', '='],
        SemverRange::Lt => seq!['<'],
        SemverRange::Lte => seq!['<', '='],
        SemverRange::Patch => seq!['~'],
    }
}

/// The range that a string stands for, if it is one.
pub open spec fn range_from_chars(s: Seq<char>) -> Option<SemverRange> {
    if s == range_chars(SemverRange::Any) {
        Some(SemverRange::Any)
    } else if s == range_chars(SemverRange::Minor) {
        Some(SemverRange::Minor)
    } else if s == range_chars(SemverRange::Exact) {
        Some(SemverRange::Exact)
    } else if s == range_chars(SemverRange::Gt) {
        Some(SemverRange::Gt)
    } else if s == range_chars(SemverRange::Gte) {
        Some(SemverRange::Gte)
    } else if s == range_chars(SemverRange::Lt) {
        Some(SemverRange::Lt)
    } else if s == range_chars(SemverRange::Lte) {
        Some(SemverRange::Lte)
    } else if s == range_chars(SemverRange::Patch) {
        Some(SemverRange::Patch)
    } else {
        None
    }
}

/// The numeric rank of a range by its greediness, from 0 (`Lt`) to 7 (`Any`).
pub open spec fn greediness(r: SemverRange) -> u8 {
    match r {
        SemverRange::Any => 7,
        SemverRange::Gt => 6,
        SemverRange::Gte => 5,
        SemverRange::Minor => 4,
        SemverRange::Patch => 3,
        SemverRange::Exact => 2,
        SemverRange::Lte => 1,
        SemverRange::Lt => 0,
    }
}

impl SemverRange {
    /// Create a SemverRange if the given string is a valid range
    pub fn new(range: &str) -> (r: Option<SemverRange>)
        ensures
            r == range_from_chars(range@),
    {
        proof {
            reveal_strlit("*");
            reveal_strlit("^");
            reveal_strlit("");
            reveal_strlit(">");
            reveal_strlit(">=");
            reveal_strlit("<");
            reveal_strlit("<=");
            reveal_strlit("~");
            assert("*"@ =~= seq!['*']);
            assert("^"@ =~= seq!['^']);
            assert(""@ =~= Seq::<char>::empty());
            assert(">"@ =~= seq!['>']);
            assert(">="@ =~= seq!['>', '=']);
            assert("<"@ =~= seq!['<']);
            assert("<="@ =~= seq!['<', '=']);
            assert("~"@ =~= seq!['~']);
        }
        if str_is(range, "*") {
            Some(SemverRange::Any)
        } else if str_is(range, "^") {
            Some(SemverRange::Minor)
        } else if str_is(range, "") {
            Some(SemverRange::Exact)
        } else if str_is(range, ">") {
            Some(SemverRange::Gt)
        } else if str_is(range, ">=") {
            Some(SemverRange::Gte)
        } else if str_is(range, "<") {
            Some(SemverRange::Lt)
        } else if str_is(range, "<=") {
            Some(SemverRange::Lte)
        } else if str_is(range, "~") {
            Some(SemverRange::Patch)
        } else {
            None
        }
    }

    /// Get the string representation of the range
    pub fn unwrap(&self) -> (r: String)
        ensures
            r@ == range_chars(*self),
    {
        proof {
            reveal_strlit("*");
            reveal_strlit("^");
            reveal_strlit("");
            reveal_strlit(">");
            reveal_strlit(">=");
            reveal_strlit("<");
            reveal_strlit("<=");
            reveal_strlit("~");
            assert("*"@ =~= seq!['*']);
            assert("^"@ =~= seq!['^']);
            assert(""@ =~= Seq::<char>::empty());
            assert(">"@ =~= seq!['>']);
            assert(">="@ =~= seq!['>', '=']);
            assert("<"@ =~= seq!['<']);
            assert("<="@ =~= seq!['<', '=']);
            assert("~"@ =~= seq!['~']);
        }
        let s = match self {
            SemverRange::Any => "*",
            SemverRange::Minor => "^",
            SemverRange::Exact => "",
            SemverRange::Gt => ">",
            SemverRange::Gte => ">=",
            SemverRange::Lt => "<",
            SemverRange::Lte => "<=",
            SemverRange::Patch => "~",
        };
        String::from_str(s)
    }

    /// Get a numeric rank according to its greediness, for use in sorting
    pub fn get_greediness_ranking(&self) -> (r: u8)
        ensures
            r == greediness(*self),
    {
        match self {
            SemverRange::Any => 7,
            SemverRange::Gt => 6,
            SemverRange::Gte => 5,
            SemverRange::Minor => 4,
            SemverRange::Patch => 3,
            SemverRange::Exact => 2,
            SemverRange::Lte => 1,
            SemverRange::Lt => 0,
        }
    }
}

/// Reading back the string of a range gives the same range.
pub proof fn lemma_range_roundtrip(r: SemverRange)
    ensures
        range_from_chars(range_chars(r)) == Some(r),
{
    let s = range_chars(r);
    assert forall|q: SemverRange| q != r implies range_chars(q) != s by {
        if range_chars(q).len() == s.len() && s.len() > 0 {
            assert(range_chars(q)[0] != s[0] || (s.len() == 2 && range_chars(q)[0] != s[0]));
        }
    }
}

/// Two ranges have the same greediness only when they are the same range, so
/// ranking by greediness orders them without ties.
pub proof fn law_greediness_ranks_are_distinct(a: SemverRange, b: SemverRange)
    ensures
        (greediness(a) == greediness(b)) == (a == b),
{
}

} // verus!
