//! Version and semver groups as each kind of group is written in a config
//! file, before it is resolved into a group with a policy.

pub mod semver;
pub mod version;
