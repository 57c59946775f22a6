//! Consistent dependency versions in JavaScript monorepos: the verified core of
//! syncpack. Version specifiers are classified by a grammar of their own, every
//! instance of a dependency is judged against the policy of its version group,
//! and the judgement says which specifier each instance should end up with.
//! Fixing writes those specifiers back into the package.json files, whose
//! formatting is checked against rules of their own.

pub mod text;
pub mod specifier;
pub mod instance_state;
pub mod dependency_type;
pub mod group_selector;
pub mod semver_group;
pub mod instance;
pub mod dependency;
pub mod version_group;
pub mod visit_packages;
pub mod context;
pub mod packages;
pub mod semver_range;
pub mod groups;
pub mod status_code;
pub mod instance_group;
pub mod effects;
pub mod cli;
pub mod strategy;
pub mod versions;
pub mod json;
pub mod format;
pub mod file_paths;
