//! A dependency type's way of reading and writing versions, kept with the
//! strategy's name as the config file spells it.

use vstd::prelude::*;
use crate::dependency_type::{CustomType, normalize_path, normalized_path};

verus! {

#[derive(Clone, Debug)]
pub struct Strategy {
    /// The path to the property that contains the dependency name
    pub name_path: Option<String>,
    /// The dependency type name this strategy is referred to as
    pub name: String,
    /// The path to the property that contains the version string
    pub path: String,
    /// The strategy to use when reading/writing the version string
    pub strategy: String,
}

impl Strategy {
    /// The strategy named `name` that `config` describes, with its property
    /// path written as a JSON pointer.
    pub fn new(name: &String, config: &CustomType) -> (r: Strategy)
        ensures
            r.name@ == name@,
            r.path@ == normalized_path(config.path@),
            r.strategy@ == config.strategy@,
            match (r.name_path, config.name_path) {
                (Some(a), Some(b)) => a@ == b@,
                (None, None) => true,
                _ => false,
            },
    {
        Strategy {
            name_path: match &config.name_path {
                Some(name_path) => Some(name_path.clone()),
                None => None,
            },
            name: name.clone(),
            path: normalize_path(&config.path),
            strategy: config.strategy.clone(),
        }
    }
}

} // verus!
