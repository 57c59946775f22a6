//! Where in a package.json file a kind of dependency is found, and how its
//! version is written there.

use vstd::prelude::*;
use crate::text::{str_is, string_push, to_chars};

verus! {

#[derive(Clone, Copy, Debug, PartialEq, Eq, Structural)]
pub enum Strategy {
    /// "name~version"
    NameAndVersionProps,
    /// "name@version"
    NamedVersionString,
    /// "version"
    UnnamedVersionString,
    /// "versionsByName"
    VersionsByName,
    /// Not recognised
    InvalidConfig,
}

/// The strategy that a config names.
pub open spec fn strategy_named(s: Seq<char>) -> Strategy {
    if s == "name~version"@ {
        Strategy::NameAndVersionProps
    } else if s == "name@version"@ {
        Strategy::NamedVersionString
    } else if s == "version"@ {
        Strategy::UnnamedVersionString
    } else if s == "versionsByName"@ {
        Strategy::VersionsByName
    } else {
        Strategy::InvalidConfig
    }
}

impl Strategy {
    pub fn new(strategy: &str) -> (r: Strategy)
        ensures
            r == strategy_named(strategy@),
    {
        if str_is(strategy, "name~version") {
            Strategy::NameAndVersionProps
        } else if str_is(strategy, "name@version") {
            Strategy::NamedVersionString
        } else if str_is(strategy, "version") {
            Strategy::UnnamedVersionString
        } else if str_is(strategy, "versionsByName") {
            Strategy::VersionsByName
        } else {
            Strategy::InvalidConfig
        }
    }
}

/// A custom dependency type as written in a config file.
#[derive(Clone, Debug)]
pub struct CustomType {
    /// The path to the property that contains the dependency name
    pub name_path: Option<String>,
    /// The path to the property that contains the version string
    pub path: String,
    /// The strategy to use when reading/writing the version string
    pub strategy: String,
}

#[derive(Clone, Debug)]
pub struct DependencyType {
    /// The path to the property that contains the dependency name
    pub name_path: Option<String>,
    /// The dependency type name this strategy is referred to as
    pub name: String,
    /// The path to the property that contains the version string
    pub path: String,
    /// The strategy to use when reading/writing the version string
    pub strategy: Strategy,
}

/// "some.nested.prop.name" as the pointer "/some/nested/prop/name".
pub open spec fn normalized_path(path: Seq<char>) -> Seq<char> {
    seq!['/'] + path.map_values(|c: char| if c == '.' { '/' } else { c })
}

/// Converts a "some.nested.prop.name" selector to "/some/nested/prop/name"
pub fn normalize_path(path: &String) -> (r: String)
    ensures
        r@ == normalized_path(path@),
{
    let chars = to_chars(path.as_str());
    let mut normalized = String::new();
    string_push(&mut normalized, '/');
    let mut i: usize = 0;
    while i < chars.len()
        invariant
            chars@ == path@,
            i <= chars@.len(),
            normalized@ == seq!['/'] + path@.subrange(0, i as int).map_values(
                |c: char| if c == '.' { '/' } else { c },
            ),
        decreases chars@.len() - i,
    {
        let c = chars[i];
        let ghost before = normalized@;
        string_push(&mut normalized, if c == '.' { '/' } else { c });
        assert(path@.subrange(0, i + 1).map_values(|c: char| if c == '.' { '/' } else { c })
            =~= path@.subrange(0, i as int).map_values(|c: char| if c == '.' { '/' } else { c }).push(
            if c == '.' { '/' } else { c },
        ));
        i = i + 1;
    }
    assert(path@.subrange(0, chars@.len() as int) =~= path@);
    normalized
}

impl DependencyType {
    /// A copy of this dependency type.
    pub fn duplicate(&self) -> (r: DependencyType)
        ensures
            r == *self,
    {
        DependencyType {
            name_path: match &self.name_path {
                Some(p) => Some(p.clone()),
                None => None,
            },
            name: self.name.clone(),
            path: self.path.clone(),
            strategy: self.strategy,
        }
    }

    pub fn new(name: &String, config: &CustomType) -> (r: DependencyType)
        ensures
            r.name@ == name@,
            r.path@ == normalized_path(config.path@),
            match (r.name_path, config.name_path) {
                (Some(a), Some(b)) => a@ == normalized_path(b@),
                (None, None) => true,
                _ => false,
            },
            r.strategy == strategy_named(config.strategy@),
    {
        DependencyType {
            name_path: match &config.name_path {
                Some(name_path) => Some(normalize_path(name_path)),
                None => None,
            },
            name: name.clone(),
            path: normalize_path(&config.path),
            strategy: Strategy::new(config.strategy.as_str()),
        }
    }
}

} // verus!
