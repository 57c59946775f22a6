//! The range operators that a semver group can ask for, by the names that
//! config files give them ("^" is `Caret`, "~" is `Tilde`).

use vstd::prelude::*;
use crate::text::str_is;

verus! {

#[derive(Clone, Copy, Debug, PartialEq, Eq, Structural)]
pub enum SemverRange {
    /// *
    Any,
    /// ^1.4.2
    Caret,
    /// 1.4.2
    Exact,
    /// >1.4.2
    Gt,
    /// >=1.4.2
    Gte,
    /// <1.4.2
    Lt,
    /// <=1.4.2
    Lte,
    /// ~1.4.2
    Tilde,
}

/// How each range operator is written.
pub open spec fn operator_text(r: SemverRange) -> Seq<char> {
    match r {
        SemverRange::Any => seq!['*'],
        SemverRange::Caret => seq!['^'],
        SemverRange::Exact => seq![],
        SemverRange::Gt => seq!['>'],
        SemverRange::Gte => seq!['>', '='],
        SemverRange::Lt => seq!['<'],
        SemverRange::Lte => seq!['<', '='],
        SemverRange::Tilde => seq!['~'],
    }
}

/// The range operator written as `s`, if `s` is one.
pub open spec fn operator_named(s: Seq<char>) -> Option<SemverRange> {
    if s == operator_text(SemverRange::Any) {
        Some(SemverRange::Any)
    } else if s == operator_text(SemverRange::Caret) {
        Some(SemverRange::Caret)
    } else if s == operator_text(SemverRange::Exact) {
        Some(SemverRange::Exact)
    } else if s == operator_text(SemverRange::Gt) {
        Some(SemverRange::Gt)
    } else if s == operator_text(SemverRange::Gte) {
        Some(SemverRange::Gte)
    } else if s == operator_text(SemverRange::Lt) {
        Some(SemverRange::Lt)
    } else if s == operator_text(SemverRange::Lte) {
        Some(SemverRange::Lte)
    } else if s == operator_text(SemverRange::Tilde) {
        Some(SemverRange::Tilde)
    } else {
        None
    }
}

proof fn reveal_operator_literals()
    ensures
        "*"@ == seq!['*'],
        "^"@ == seq!['^'],
        ""@ == Seq::<char>::empty(),
        ">"@ == seq!['>'],
        ">="@ == seq!['>', '='],
        "<"@ == seq!['<'],
        "<="@ == seq!['<', '='],
        "~"@ == seq!['~'],
{
    reveal_strlit("*");
    reveal_strlit("^");
    reveal_strlit("");
    reveal_strlit(">");
    reveal_strlit(">=");
    reveal_strlit("<");
    reveal_strlit("<=");
    reveal_strlit("~");
    assert("*"@ =~= seq!['*']);
    assert("^"@ =~= seq!['^']);
    assert(""@ =~= Seq::<char>::empty());
    assert(">"@ =~= seq!['>']);
    assert(">="@ =~= seq!['>', '=']);
    assert("<"@ =~= seq!['<']);
    assert("<="@ =~= seq!['<', '=']);
    assert("~"@ =~= seq!['~']);
}

impl SemverRange {
    /// The range operator that `range` spells, or `None` when it spells none.
    pub fn new(range: &String) -> (r: Option<SemverRange>)
        ensures
            r == operator_named(range@),
    {
        proof {
            reveal_operator_literals();
        }
        let s = range.as_str();
        if str_is(s, "*") {
            Some(SemverRange::Any)
        } else if str_is(s, "^") {
            Some(SemverRange::Caret)
        } else if str_is(s, "") {
            Some(SemverRange::Exact)
        } else if str_is(s, ">") {
            Some(SemverRange::Gt)
        } else if str_is(s, ">=") {
            Some(SemverRange::Gte)
        } else if str_is(s, "<") {
            Some(SemverRange::Lt)
        } else if str_is(s, "<=") {
            Some(SemverRange::Lte)
        } else if str_is(s, "~") {
            Some(SemverRange::Tilde)
        } else {
            None
        }
    }

    /// How this range operator is written.
    pub fn unwrap(&self) -> (r: String)
        ensures
            r@ == operator_text(*self),
    {
        proof {
            reveal_operator_literals();
        }
        let s = match self {
            SemverRange::Any => "*",
            SemverRange::Caret => "^",
            SemverRange::Exact => "",
            SemverRange::Gt => ">",
            SemverRange::Gte => ">=",
            SemverRange::Lt => "<",
            SemverRange::Lte => "<=",
            SemverRange::Tilde => "~",
        };
        String::from_str(s)
    }
}

/// Reading back what `unwrap` writes gives the same range operator: no two
/// operators are written alike.
pub proof fn law_operator_roundtrip(r: SemverRange)
    ensures
        operator_named(operator_text(r)) == Some(r),
{
    let s = operator_text(r);
    assert forall|q: SemverRange| q != r implies operator_text(q) != s by {
        if operator_text(q).len() == s.len() && s.len() > 0 {
            assert(operator_text(q)[0] != s[0]);
        }
    }
}

/// What `new` accepts, `unwrap` writes back unchanged.
pub proof fn law_operator_text_roundtrip(s: Seq<char>)
    requires
        operator_named(s) is Some,
    ensures
        operator_text(operator_named(s)->0) == s,
{
}

} // verus!
