//! Which instances a version or semver group applies to.

use vstd::prelude::*;
use crate::text::to_chars;

verus! {

#[derive(Clone, Debug)]
pub struct GroupSelector {
    /// Glob patterns to match against the installed dependency name.
    ///
    /// The keyword "$LOCAL" can also be used to match every locally-developed
    /// package used as a dependency.
    pub dependencies: Vec<String>,
    /// Named locations where dependencies should be found, such as "dev",
    /// "peer", "prod" or "local", each optionally negated with "!".
    pub dependency_types: Vec<String>,
    /// Optional label to describe the group.
    pub label: String,
    /// Array index of the group in the config file.
    pub index: usize,
    /// Glob patterns to match against the package name the dependency is located in.
    pub packages: Vec<String>,
    /// Types of version specifier the installed dependency should have, such
    /// as "exact" or "!range".
    pub specifier_types: Vec<String>,
}

/// Whether the glob pattern matches the value, as the `glob` crate's
/// `Pattern::new` and `Pattern::matches` decide it; `None` when the pattern
/// is not valid.
pub uninterp spec fn glob_pattern_matches(pattern: Seq<char>, value: Seq<char>) -> Option<bool>;

/// Calls `glob::Pattern::new` on the pattern and, if it is valid,
/// `Pattern::matches` on the value. Claimed: the result is named
/// `glob_pattern_matches` of the two strings; the glob syntax itself is not
/// stated here.
#[verifier::external_body]
fn glob_matches(pattern: &str, value: &str) -> (r: Option<bool>)
    ensures
        r == glob_pattern_matches(pattern@, value@),
{
    match glob::Pattern::new(pattern) {
        Ok(p) => Some(p.matches(value)),
        Err(_) => None,
    }
}

/// Is the entry a negated one, such as "!dev"?
pub open spec fn is_negated(entry: Seq<char>) -> bool {
    entry.len() > 0 && entry[0] == '!'
}

/// Does one selector entry (without its "!") accept the value? Patterns of
/// names are globs, others are compared as they are.
pub open spec fn entry_accepts(pattern: Seq<char>, value: Seq<char>, is_glob: bool) -> bool {
    if is_glob {
        glob_pattern_matches(pattern, value) == Some(true)
    } else {
        pattern == value
    }
}

/// The part of an entry after a leading "!".
pub open spec fn entry_body(entry: Seq<char>) -> Seq<char> {
    if is_negated(entry) {
        entry.drop_first()
    } else {
        entry
    }
}

/// A list of entries accepts a value when it has no positive entries or one
/// of them accepts it, and none of its negated entries accepts it.
pub open spec fn list_accepts(list: Seq<Seq<char>>, value: Seq<char>, is_glob: bool) -> bool {
    &&& ((forall|i: int| 0 <= i < list.len() ==> is_negated(#[trigger] list[i])) || exists|i: int|
        0 <= i < list.len() && !is_negated(#[trigger] list[i]) && entry_accepts(list[i], value, is_glob))
    &&& forall|i: int|
        0 <= i < list.len() && is_negated(#[trigger] list[i]) ==> !entry_accepts(
            entry_body(list[i]),
            value,
            is_glob,
        )
}

pub open spec fn strings_view(v: Seq<String>) -> Seq<Seq<char>> {
    v.map_values(|s: String| s@)
}

/// Does the list of entries accept the value?
pub fn list_matches(list: &Vec<String>, value: &str, is_glob: bool) -> (r: bool)
    ensures
        r == list_accepts(strings_view(list@), value@, is_glob),
{
    let ghost l = strings_view(list@);
    let mut has_positive = false;
    let mut positive_hit = false;
    let mut i: usize = 0;
    while i < list.len()
        invariant
            l == strings_view(list@),
            i <= list@.len(),
            has_positive == exists|j: int| 0 <= j < i && !is_negated(#[trigger] l[j]),
            positive_hit == exists|j: int|
                0 <= j < i && !is_negated(#[trigger] l[j]) && entry_accepts(l[j], value@, is_glob),
            forall|j: int|
                0 <= j < i && is_negated(#[trigger] l[j]) ==> !entry_accepts(
                    entry_body(l[j]),
                    value@,
                    is_glob,
                ),
        decreases list@.len() - i,
    {
        let chars = to_chars(list[i].as_str());
        assert(l[i as int] == list@[i as int]@);
        let negated = chars.len() > 0 && chars[0] == '!';
        let accepted = if negated {
            let body = crate::text::copy_range(chars.as_slice(), 1, chars.len());
            assert(body@ =~= entry_body(l[i as int]));
            let body_string = crate::text::string_from_chars(body.as_slice());
            if is_glob {
                glob_matches(body_string.as_str(), value) == Some(true)
            } else {
                crate::text::str_is(body_string.as_str(), value)
            }
        } else if is_glob {
            glob_matches(list[i].as_str(), value) == Some(true)
        } else {
            crate::text::str_is(list[i].as_str(), value)
        };
        if negated && accepted {
            assert(is_negated(l[i as int]));
            return false;
        }
        if !negated {
            has_positive = true;
            if accepted {
                positive_hit = true;
            }
        }
        i = i + 1;
    }
    if has_positive && !positive_hit {
        assert(!(forall|j: int| 0 <= j < l.len() ==> is_negated(#[trigger] l[j]))) by {
            let j = choose|j: int| 0 <= j < l.len() && !is_negated(#[trigger] l[j]);
        }
        return false;
    }
    true
}

impl GroupSelector {
    pub fn new(
        dependencies: Vec<String>,
        dependency_types: Vec<String>,
        label: String,
        packages: Vec<String>,
        specifier_types: Vec<String>,
    ) -> (r: GroupSelector)
        ensures
            r.dependencies@ == dependencies@,
            r.dependency_types@ == dependency_types@,
            r.label@ == label@,
            r.index == 0,
            r.packages@ == packages@,
            r.specifier_types@ == specifier_types@,
    {
        GroupSelector { dependencies, dependency_types, label, index: 0, packages, specifier_types }
    }

    /// Does this selector accept an instance of the dependency `name`, found
    /// in the dependency type `dependency_type` of the package `package_name`,
    /// whose specifier is of the config type `specifier_type`? Dependency and
    /// package names are matched as globs.
    pub open spec fn accepts(
        self,
        name: Seq<char>,
        dependency_type: Seq<char>,
        package_name: Seq<char>,
        specifier_type: Seq<char>,
    ) -> bool {
        &&& list_accepts(strings_view(self.dependencies@), name, true)
        &&& list_accepts(strings_view(self.dependency_types@), dependency_type, false)
        &&& list_accepts(strings_view(self.packages@), package_name, true)
        &&& list_accepts(strings_view(self.specifier_types@), specifier_type, false)
    }

    pub fn can_add(
        &self,
        name: &str,
        dependency_type: &str,
        package_name: &str,
        specifier_type: &str,
    ) -> (r: bool)
        ensures
            r == self.accepts(name@, dependency_type@, package_name@, specifier_type@),
    {
        list_matches(&self.dependencies, name, true) && list_matches(
            &self.dependency_types,
            dependency_type,
            false,
        ) && list_matches(&self.packages, package_name, true) && list_matches(
            &self.specifier_types,
            specifier_type,
            false,
        )
    }
}

} // verus!
