//! Which glob patterns are used to find the package.json files of a project.

use vstd::prelude::*;
use crate::version_group::strings_view;

verus! {

/// The patterns used when neither the command line nor the config file gives
/// any.
pub open spec fn default_patterns() -> Seq<Seq<char>> {
    seq!["package.json"@, "packages/*/package.json"@]
}

/// The patterns of the command line, else those of the config file, else
/// the default ones.
pub open spec fn source_patterns(cli_source: Seq<Seq<char>>, rcfile_source: Seq<Seq<char>>) -> Seq<Seq<char>> {
    if cli_source.len() > 0 {
        cli_source
    } else if rcfile_source.len() > 0 {
        rcfile_source
    } else {
        default_patterns()
    }
}

fn copy_all(v: &Vec<String>) -> (r: Vec<String>)
    ensures
        strings_view(r@) == strings_view(v@),
{
    let mut out: Vec<String> = Vec::new();
    let mut i: usize = 0;
    while i < v.len()
        invariant
            i <= v@.len(),
            strings_view(out@) == strings_view(v@.subrange(0, i as int)),
        decreases v@.len() - i,
    {
        let ghost before = out@;
        out.push(v[i].clone());
        proof {
            assert(v@.subrange(0, i + 1) =~= v@.subrange(0, i as int).push(v@[i as int]));
            assert(strings_view(out@) =~= strings_view(before).push(v@[i as int]@));
            assert(strings_view(v@.subrange(0, i + 1)) =~= strings_view(v@.subrange(0, i as int)).push(v@[i as int]@));
        }
        i = i + 1;
    }
    proof {
        assert(v@.subrange(0, v@.len() as int) =~= v@);
    }
    out
}

/// Based on the user's config file and command line `--source` options,
/// return the source glob patterns which should be used to resolve
/// package.json files
pub fn get_source_patterns(cli_source: &Vec<String>, rcfile_source: &Vec<String>) -> (r: Vec<String>)
    ensures
        strings_view(r@) == source_patterns(strings_view(cli_source@), strings_view(rcfile_source@)),
{
    if cli_source.len() > 0 {
        copy_all(cli_source)
    } else if rcfile_source.len() > 0 {
        copy_all(rcfile_source)
    } else {
        let mut defaults: Vec<String> = Vec::new();
        defaults.push(String::from_str("package.json"));
        defaults.push(String::from_str("packages/*/package.json"));
        proof {
            assert(strings_view(defaults@) =~= default_patterns());
        }
        defaults
    }
}

} // verus!
