//! The commands and options that the command line offers.

use vstd::prelude::*;

verus! {

#[derive(Clone, Copy, Debug, PartialEq, Eq, Structural)]
pub enum Subcommand {
    Lint,
    Fix,
}

/// Does `s` end with `suffix`?
pub open spec fn ends_with(s: Seq<char>, suffix: Seq<char>) -> bool {
    suffix.len() <= s.len() && s.subrange(s.len() - suffix.len(), s.len() as int) == suffix
}

/// A source pattern is kept when it points at package.json files.
pub fn validate_source(value: &str) -> (r: Result<String, String>)
    ensures
        match r {
            Ok(kept) => ends_with(value@, "package.json"@) && kept@ == value@,
            Err(message) => !ends_with(value@, "package.json"@) && message@ == "must end with 'package.json'"@,
        },
{
    let chars = crate::text::to_chars(value);
    let suffix = crate::text::to_chars("package.json");
    if suffix.len() <= chars.len() {
        let tail = crate::text::copy_range(chars.as_slice(), chars.len() - suffix.len(), chars.len());
        if crate::text::chars_eq(tail.as_slice(), suffix.as_slice()) {
            return Ok(String::from_str(value));
        }
    }
    Err(String::from_str("must end with 'package.json'"))
}

/// Whether `regex::Regex::new` accepts the pattern.
pub uninterp spec fn regex_is_valid(pattern: Seq<char>) -> bool;

/// Calls `regex::Regex::new` on the pattern. Claimed: it succeeds exactly
/// when `regex_is_valid` holds of the pattern; the regex syntax is not
/// stated.
#[verifier::external_body]
fn regex_compiles(pattern: &str) -> (r: bool)
    ensures
        r == regex_is_valid(pattern@),
{
    regex::Regex::new(pattern).is_ok()
}

/// A filter is kept when it is a valid regex, to be compiled again later.
pub fn validate_filter(value: &str) -> (r: Result<String, String>)
    ensures
        match r {
            Ok(kept) => regex_is_valid(value@) && kept@ == value@,
            Err(message) => !regex_is_valid(value@) && message@ == "not a valid Regex"@,
        },
{
    if regex_compiles(value) {
        Ok(String::from_str(value))
    } else {
        Err(String::from_str("not a valid Regex"))
    }
}

/// Which checks run, formatting then versions: those asked for, or all of
/// them when none is asked for.
pub fn checks_to_run(use_format: bool, use_versions: bool) -> (r: (bool, bool))
    ensures
        r.0 == (use_format || !use_versions),
        r.1 == (use_versions || !use_format),
{
    let use_all = !use_format && !use_versions;
    (use_all || use_format, use_all || use_versions)
}

} // verus!
