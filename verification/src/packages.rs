//! The package.json files of a project, as the entries that visiting needs.

use vstd::prelude::*;
use crate::dependency_type::{CustomType, DependencyType, Strategy};
use crate::json::{at_pointer, lemma_members_view, members_view, Json, JsonView};
use crate::instance::{Instance, instance_id};
use crate::specifier::new_kind;
use crate::text::str_is;

verus! {

/// One dependency listed in a package.json file.
#[derive(Clone, Debug)]
pub struct DependencyEntry {
    /// The name of the dependency type it is listed under, eg. "prod"
    pub dependency_type: String,
    /// The name of the dependency, eg. "react"
    pub name: String,
    /// The raw version specifier, eg. "^18.0.0"
    pub specifier: String,
}

/// What visiting needs of one package.json file.
#[derive(Clone, Debug)]
pub struct PackageJson {
    /// Its `.name`
    pub name: String,
    /// Its `.version`, if it has one
    pub version: Option<String>,
    /// Where the file is
    pub file_path: String,
    /// Every dependency it lists, in the order they were read
    pub dependencies: Vec<DependencyEntry>,
}

/// One instance to create: the position of its package and of its
/// dependency type, its name and its raw specifier.
pub struct RawInstance {
    pub package: int,
    pub dependency_type: int,
    pub name: Seq<char>,
    pub specifier: Seq<char>,
}

/// The raw specifier of a package's own version ("" when it has none).
pub open spec fn version_chars(p: PackageJson) -> Seq<char> {
    match p.version {
        Some(v) => v@,
        None => Seq::empty(),
    }
}

/// The entries of `deps` listed under the dependency type named `kind_name`,
/// in order.
pub open spec fn entries_of_type(deps: Seq<DependencyEntry>, kind_name: Seq<char>) -> Seq<DependencyEntry>
    decreases deps.len(),
{
    if deps.len() == 0 {
        Seq::empty()
    } else {
        let rest = entries_of_type(deps.drop_last(), kind_name);
        if deps.last().dependency_type@ == kind_name {
            rest.push(deps.last())
        } else {
            rest
        }
    }
}

/// Is this the dependency type of a package's own version?
pub open spec fn is_local_type(t: DependencyType) -> bool {
    t.path@ == "/version"@
}

/// The instances of one dependency type of package `pi`: the package itself
/// for the local type, else each of its entries of that type.
pub open spec fn raw_of_type(packages: Seq<PackageJson>, pi: int, types: Seq<DependencyType>, ti: int) -> Seq<RawInstance> {
    let p = packages[pi];
    if is_local_type(types[ti]) {
        seq![RawInstance { package: pi, dependency_type: ti, name: p.name@, specifier: version_chars(p) }]
    } else {
        entries_of_type(p.dependencies@, types[ti].name@).map_values(
            |e: DependencyEntry| RawInstance { package: pi, dependency_type: ti, name: e.name@, specifier: e.specifier@ },
        )
    }
}

/// The instances of package `pi` for the first `n` dependency types.
pub open spec fn raw_of_package(packages: Seq<PackageJson>, pi: int, types: Seq<DependencyType>, n: int) -> Seq<RawInstance>
    decreases n,
{
    if n <= 0 {
        Seq::empty()
    } else {
        raw_of_package(packages, pi, types, n - 1) + raw_of_type(packages, pi, types, n - 1)
    }
}

/// The instances of the first `n` packages, package by package and, within
/// a package, dependency type by dependency type.
pub open spec fn raw_instances(packages: Seq<PackageJson>, types: Seq<DependencyType>, n: int) -> Seq<RawInstance>
    decreases n,
{
    if n <= 0 {
        Seq::empty()
    } else {
        raw_instances(packages, types, n - 1) + raw_of_package(packages, n - 1, types, types.len() as int)
    }
}

/// `inst` is the instance that `raw` describes.
pub open spec fn made_from(inst: Instance, raw: RawInstance, packages: Seq<PackageJson>, types: Seq<DependencyType>) -> bool {
    &&& inst.wf()
    &&& inst.name@ == raw.name
    &&& inst.actual.kind() == new_kind(raw.specifier)
    &&& inst.dependency_type == types[raw.dependency_type]
    &&& inst.package_name@ == packages[raw.package].name@
    &&& inst.file_path@ == packages[raw.package].file_path@
    &&& inst.id@ == instance_id(raw.name, types[raw.dependency_type].path@, packages[raw.package].name@)
    &&& inst.is_local == is_local_type(types[raw.dependency_type])
    &&& inst.prefer_range is None
    &&& inst.state == crate::instance_state::InstanceState::Unknown
    &&& inst.overridden is None
    &&& inst.expected == inst.actual
}

/// Append the instances of dependency type `ti` of package `pi`.
fn push_instances_of_type(
    out: &mut Vec<Instance>,
    packages: &Vec<PackageJson>,
    pi: usize,
    types: &Vec<DependencyType>,
    ti: usize,
)
    requires
        pi < packages@.len(),
        ti < types@.len(),
    ensures
        final(out)@.len() == old(out)@.len() + raw_of_type(packages@, pi as int, types@, ti as int).len(),
        forall|i: int| 0 <= i < old(out)@.len() ==> final(out)@[i] == old(out)@[i],
        forall|i: int|
            0 <= i < raw_of_type(packages@, pi as int, types@, ti as int).len() ==> made_from(
                #[trigger] final(out)@[old(out)@.len() + i],
                raw_of_type(packages@, pi as int, types@, ti as int)[i],
                packages@,
                types@,
            ),
{
    let package = &packages[pi];
    let dependency_type = &types[ti];
    let ghost start = out@;
    if str_is(dependency_type.path.as_str(), "/version") {
        let version = match &package.version {
            Some(v) => v.clone(),
            None => String::new(),
        };
        let inst = Instance::new(package.name.clone(), version, dependency_type, package.name.clone(), package.file_path.clone());
        out.push(inst);
        proof {
            let raw = raw_of_type(packages@, pi as int, types@, ti as int);
            assert(raw.len() == 1);
            assert(out@[start.len() as int] == inst);
        }
    } else {
        let ghost selected = entries_of_type(package.dependencies@, dependency_type.name@);
        let mut j: usize = 0;
        while j < package.dependencies.len()
            invariant
                j <= package.dependencies@.len(),
                pi < packages@.len(),
                ti < types@.len(),
                *package == packages@[pi as int],
                *dependency_type == types@[ti as int],
                !is_local_type(types@[ti as int]),
                out@.len() == start.len() + entries_of_type(package.dependencies@.subrange(0, j as int), dependency_type.name@).len(),
                forall|i: int| 0 <= i < start.len() ==> out@[i] == start[i],
                forall|i: int|
                    0 <= i < entries_of_type(package.dependencies@.subrange(0, j as int), dependency_type.name@).len()
                        ==> made_from(
                        #[trigger] out@[start.len() + i],
                        RawInstance {
                            package: pi as int,
                            dependency_type: ti as int,
                            name: entries_of_type(package.dependencies@.subrange(0, j as int), dependency_type.name@)[i].name@,
                            specifier: entries_of_type(package.dependencies@.subrange(0, j as int), dependency_type.name@)[i].specifier@,
                        },
                        packages@,
                        types@,
                    ),
            decreases package.dependencies@.len() - j,
        {
            let entry = &package.dependencies[j];
            let ghost prev = entries_of_type(package.dependencies@.subrange(0, j as int), dependency_type.name@);
            proof {
                assert(package.dependencies@.subrange(0, j + 1).drop_last() =~= package.dependencies@.subrange(0, j as int));
                assert(package.dependencies@.subrange(0, j + 1).last() == *entry);
            }
            if str_is(entry.dependency_type.as_str(), dependency_type.name.as_str()) {
                let inst = Instance::new(entry.name.clone(), entry.specifier.clone(), dependency_type, package.name.clone(), package.file_path.clone());
                out.push(inst);
            }
            j = j + 1;
        }
        proof {
            assert(package.dependencies@.subrange(0, package.dependencies@.len() as int) =~= package.dependencies@);
        }
    }
}

/// Every instance of every package: for each package in order, for each
/// dependency type in order, the package's own version for the local type
/// (missing when it has none) and each dependency listed under the others.
pub fn get_all_instances(packages: &Vec<PackageJson>, dependency_types: &Vec<DependencyType>) -> (r: Vec<Instance>)
    ensures
        r@.len() == raw_instances(packages@, dependency_types@, packages@.len() as int).len(),
        forall|i: int|
            0 <= i < r@.len() ==> made_from(
                #[trigger] r@[i],
                raw_instances(packages@, dependency_types@, packages@.len() as int)[i],
                packages@,
                dependency_types@,
            ),
{
    let mut out: Vec<Instance> = Vec::new();
    let mut pi: usize = 0;
    while pi < packages.len()
        invariant
            pi <= packages@.len(),
            out@.len() == raw_instances(packages@, dependency_types@, pi as int).len(),
            forall|i: int|
                0 <= i < out@.len() ==> made_from(
                    #[trigger] out@[i],
                    raw_instances(packages@, dependency_types@, pi as int)[i],
                    packages@,
                    dependency_types@,
                ),
        decreases packages@.len() - pi,
    {
        let ghost before_package = out@;
        let mut ti: usize = 0;
        while ti < dependency_types.len()
            invariant
                pi < packages@.len(),
                ti <= dependency_types@.len(),
                out@.len() == before_package.len() + raw_of_package(packages@, pi as int, dependency_types@, ti as int).len(),
                forall|i: int| 0 <= i < before_package.len() ==> out@[i] == before_package[i],
                forall|i: int|
                    0 <= i < raw_of_package(packages@, pi as int, dependency_types@, ti as int).len() ==> made_from(
                        #[trigger] out@[before_package.len() + i],
                        raw_of_package(packages@, pi as int, dependency_types@, ti as int)[i],
                        packages@,
                        dependency_types@,
                    ),
            decreases dependency_types@.len() - ti,
        {
            let ghost before_type = out@;
            push_instances_of_type(&mut out, packages, pi, dependency_types, ti);
            proof {
                let a = raw_of_package(packages@, pi as int, dependency_types@, ti as int);
                let b = raw_of_type(packages@, pi as int, dependency_types@, ti as int);
                assert(raw_of_package(packages@, pi as int, dependency_types@, ti + 1) == a + b);
                assert forall|i: int| 0 <= i < a.len() + b.len() implies made_from(
                    #[trigger] out@[before_package.len() + i],
                    (a + b)[i],
                    packages@,
                    dependency_types@,
                ) by {
                    if i < a.len() {
                        assert(out@[before_package.len() + i] == before_type[before_package.len() + i]);
                    } else {
                        assert(out@[before_package.len() + i] == out@[before_type.len() + (i - a.len())]);
                    }
                }
            }
            ti = ti + 1;
        }
        proof {
            let a = raw_instances(packages@, dependency_types@, pi as int);
            let b = raw_of_package(packages@, pi as int, dependency_types@, dependency_types@.len() as int);
            assert(raw_instances(packages@, dependency_types@, pi + 1) == a + b);
            assert forall|i: int| 0 <= i < a.len() + b.len() implies made_from(
                #[trigger] out@[i],
                (a + b)[i],
                packages@,
                dependency_types@,
            ) by {
                if i < a.len() {
                    assert(out@[i] == before_package[i]);
                } else {
                    assert(out@[i] == out@[before_package.len() + (i - a.len())]);
                }
            }
        }
        pi = pi + 1;
    }
    out
}

fn custom(path: &str, strategy: &str, name_path: Option<&str>) -> (r: CustomType)
    ensures
        r.path@ == path@,
        r.strategy@ == strategy@,
        match (r.name_path, name_path) {
            (Some(a), Some(b)) => a@ == b@,
            (None, None) => true,
            _ => false,
        },
{
    CustomType {
        name_path: match name_path {
            Some(n) => Some(String::from_str(n)),
            None => None,
        },
        path: String::from_str(path),
        strategy: String::from_str(strategy),
    }
}

/// The dependency types every project has: "dev", "local", "overrides",
/// "peer", "pnpmOverrides", "prod" and "resolutions".
pub fn default_dependency_types() -> (r: Vec<DependencyType>)
    ensures
        r@.len() == 7,
        r@[0].name@ == "dev"@ && r@[0].path@ == crate::dependency_type::normalized_path("devDependencies"@),
        r@[1].name@ == "local"@ && r@[1].path@ == crate::dependency_type::normalized_path("version"@),
        r@[2].name@ == "overrides"@ && r@[2].path@ == crate::dependency_type::normalized_path("overrides"@),
        r@[3].name@ == "peer"@ && r@[3].path@ == crate::dependency_type::normalized_path("peerDependencies"@),
        r@[4].name@ == "pnpmOverrides"@ && r@[4].path@ == crate::dependency_type::normalized_path("pnpm.overrides"@),
        r@[5].name@ == "prod"@ && r@[5].path@ == crate::dependency_type::normalized_path("dependencies"@),
        r@[6].name@ == "resolutions"@ && r@[6].path@ == crate::dependency_type::normalized_path("resolutions"@),
{
    let mut types: Vec<DependencyType> = Vec::new();
    types.push(DependencyType::new(&String::from_str("dev"), &custom("devDependencies", "versionsByName", None)));
    types.push(DependencyType::new(&String::from_str("local"), &custom("version", "name~version", Some("name"))));
    types.push(DependencyType::new(&String::from_str("overrides"), &custom("overrides", "versionsByName", None)));
    types.push(DependencyType::new(&String::from_str("peer"), &custom("peerDependencies", "versionsByName", None)));
    types.push(DependencyType::new(&String::from_str("pnpmOverrides"), &custom("pnpm.overrides", "versionsByName", None)));
    types.push(DependencyType::new(&String::from_str("prod"), &custom("dependencies", "versionsByName", None)));
    types.push(DependencyType::new(&String::from_str("resolutions"), &custom("resolutions", "versionsByName", None)));
    types
}

/// The string that the pointer leads to, if it leads to a string.
pub open spec fn string_at(contents: JsonView, p: Seq<char>) -> Option<Seq<char>> {
    match at_pointer(contents, p) {
        Some(JsonView::Str(s)) => Some(s),
        _ => None,
    }
}

/// Where the name ends in a "name@version" string: the last '@' that is
/// not its first character.
pub open spec fn version_separator(s: Seq<char>) -> Option<int>
    decreases s.len(),
{
    if s.len() <= 1 {
        None
    } else if s.last() == '@' {
        Some(s.len() - 1)
    } else {
        version_separator(s.drop_last())
    }
}

/// A dependency entry as plain values: its type, its name, its specifier.
pub open spec fn entry_of(kind: Seq<char>, name: Seq<char>, specifier: Seq<char>) -> (Seq<char>, Seq<char>, Seq<char>) {
    (kind, name, specifier)
}

/// The entries of an object that lists versions by name: each member whose
/// value is a string, in order.
pub open spec fn by_name_entries(kind: Seq<char>, members: Seq<(Seq<char>, JsonView)>) -> Seq<(Seq<char>, Seq<char>, Seq<char>)>
    decreases members.len(),
{
    if members.len() == 0 {
        Seq::empty()
    } else {
        let rest = by_name_entries(kind, members.drop_last());
        match members.last().1 {
            JsonView::Str(v) => rest.push(entry_of(kind, members.last().0, v)),
            _ => rest,
        }
    }
}

/// The entries of one dependency type in a package.json file, as its
/// strategy stores them (the local type's version is read separately).
pub open spec fn type_entries(contents: JsonView, t: DependencyType) -> Seq<(Seq<char>, Seq<char>, Seq<char>)> {
    if is_local_type(t) {
        Seq::empty()
    } else {
        match t.strategy {
            Strategy::VersionsByName => match at_pointer(contents, t.path@) {
                Some(JsonView::Object(members)) => by_name_entries(t.name@, members),
                _ => Seq::empty(),
            },
            Strategy::NameAndVersionProps => match (t.name_path, string_at(contents, t.path@)) {
                (Some(name_path), Some(v)) => match string_at(contents, name_path@) {
                    Some(n) => seq![entry_of(t.name@, n, v)],
                    None => Seq::empty(),
                },
                _ => Seq::empty(),
            },
            Strategy::NamedVersionString => match string_at(contents, t.path@) {
                Some(s) => match version_separator(s) {
                    Some(i) => seq![entry_of(t.name@, s.subrange(0, i), s.subrange(i + 1, s.len() as int))],
                    None => Seq::empty(),
                },
                None => Seq::empty(),
            },
            Strategy::UnnamedVersionString => match string_at(contents, t.path@) {
                Some(v) => seq![entry_of(t.name@, t.name@, v)],
                None => Seq::empty(),
            },
            Strategy::InvalidConfig => Seq::empty(),
        }
    }
}

/// The entries of every dependency type, type by type.
pub open spec fn contents_entries(contents: JsonView, types: Seq<DependencyType>) -> Seq<(Seq<char>, Seq<char>, Seq<char>)>
    decreases types.len(),
{
    if types.len() == 0 {
        Seq::empty()
    } else {
        contents_entries(contents, types.drop_last()) + type_entries(contents, types.last())
    }
}

/// The string the pointer leads to, if it leads to one.
fn string_at_exec(contents: &Json, p: &str) -> (r: Option<String>)
    ensures
        match r {
            Some(s) => string_at(contents.view(), p@) == Some(s@),
            None => string_at(contents.view(), p@) is None,
        },
{
    match contents.pointer(p) {
        Some(Json::Str(s)) => Some(s.clone()),
        _ => None,
    }
}

fn entry(kind: &String, name: String, specifier: String) -> (r: DependencyEntry)
    ensures
        crate::versions::entry_view(r) == entry_of(kind@, name@, specifier@),
{
    DependencyEntry { dependency_type: kind.clone(), name, specifier }
}

/// Append the entries of one dependency type.
fn push_type_entries(out: &mut Vec<DependencyEntry>, contents: &Json, t: &DependencyType)
    ensures
        crate::versions::entries_view(final(out)@) == crate::versions::entries_view(old(out)@) + type_entries(
            contents.view(),
            *t,
        ),
{
    let ghost before = crate::versions::entries_view(out@);
    proof {
        reveal_strlit("/version");
    }
    if str_is(t.path.as_str(), "/version") {
        proof {
            assert(before + Seq::<(Seq<char>, Seq<char>, Seq<char>)>::empty() =~= before);
        }
        return;
    }
    match t.strategy {
        Strategy::VersionsByName => {
            match contents.pointer(t.path.as_str()) {
                Some(Json::Object(members)) => {
                    let ghost mv = members_view(members@);
                    proof {
                        lemma_members_view(members@);
                    }
                    let mut i: usize = 0;
                    while i < members.len()
                        invariant
                            i <= members@.len(),
                            mv == members_view(members@),
                            mv.len() == members@.len(),
                            forall|k: int| 0 <= k < members@.len() ==> #[trigger] mv[k] == (members@[k].0@, members@[k].1.view()),
                            crate::versions::entries_view(out@) == before + by_name_entries(t.name@, mv.subrange(0, i as int)),
                        decreases members@.len() - i,
                    {
                        proof {
                            assert(mv.subrange(0, i + 1).drop_last() =~= mv.subrange(0, i as int));
                            assert(mv.subrange(0, i + 1).last() == mv[i as int]);
                        }
                        match &members[i].1 {
                            Json::Str(v) => {
                                let e = entry(&t.name, members[i].0.clone(), v.clone());
                                let ghost prev = out@;
                                out.push(e);
                                proof {
                                    assert(crate::versions::entries_view(out@) =~= crate::versions::entries_view(prev).push(
                                        crate::versions::entry_view(e),
                                    ));
                                }
                            },
                            _ => {},
                        }
                        i = i + 1;
                    }
                    proof {
                        assert(mv.subrange(0, mv.len() as int) =~= mv);
                    }
                },
                _ => {
                    proof {
                        assert(before + Seq::<(Seq<char>, Seq<char>, Seq<char>)>::empty() =~= before);
                    }
                },
            }
        },
        Strategy::NameAndVersionProps => {
            let version = string_at_exec(contents, t.path.as_str());
            let mut found = false;
            match (&t.name_path, version) {
                (Some(name_path), Some(v)) => match string_at_exec(contents, name_path.as_str()) {
                    Some(n) => {
                        let e = entry(&t.name, n, v);
                        out.push(e);
                        found = true;
                        proof {
                            assert(crate::versions::entries_view(out@) =~= before + seq![crate::versions::entry_view(e)]);
                        }
                    },
                    None => {},
                },
                _ => {},
            }
            if !found {
                proof {
                    assert(before + Seq::<(Seq<char>, Seq<char>, Seq<char>)>::empty() =~= before);
                }
            }
        },
        Strategy::NamedVersionString => {
            match string_at_exec(contents, t.path.as_str()) {
                Some(s) => {
                    let chars = crate::text::to_chars(s.as_str());
                    let mut i: usize = chars.len();
                    proof {
                        assert(chars@.subrange(0, chars@.len() as int) =~= chars@);
                    }
                    while i > 1 && chars[i - 1] != '@'
                        invariant
                            i <= chars@.len(),
                            chars@ == s@,
                            version_separator(chars@) == version_separator(chars@.subrange(0, i as int)),
                        decreases i,
                    {
                        proof {
                            assert(chars@.subrange(0, i as int).drop_last() =~= chars@.subrange(0, i - 1));
                        }
                        i = i - 1;
                    }
                    proof {
                        assert(chars@.subrange(0, chars@.len() as int) =~= chars@);
                    }
                    if i > 1 {
                        proof {
                            assert(chars@.subrange(0, i as int).last() == '@');
                        }
                        let name = crate::text::string_from_chars(crate::text::copy_range(chars.as_slice(), 0, i - 1).as_slice());
                        let version = crate::text::string_from_chars(
                            crate::text::copy_range(chars.as_slice(), i, chars.len()).as_slice(),
                        );
                        let e = entry(&t.name, name, version);
                        out.push(e);
                        proof {
                            assert(crate::versions::entries_view(out@) =~= before + seq![crate::versions::entry_view(e)]);
                        }
                    } else {
                        proof {
                            assert(before + Seq::<(Seq<char>, Seq<char>, Seq<char>)>::empty() =~= before);
                        }
                    }
                },
                None => {
                    proof {
                        assert(before + Seq::<(Seq<char>, Seq<char>, Seq<char>)>::empty() =~= before);
                    }
                },
            }
        },
        Strategy::UnnamedVersionString => {
            match string_at_exec(contents, t.path.as_str()) {
                Some(v) => {
                    let e = entry(&t.name, t.name.clone(), v);
                    out.push(e);
                    proof {
                        assert(crate::versions::entries_view(out@) =~= before + seq![crate::versions::entry_view(e)]);
                    }
                },
                None => {
                    proof {
                        assert(before + Seq::<(Seq<char>, Seq<char>, Seq<char>)>::empty() =~= before);
                    }
                },
            }
        },
        Strategy::InvalidConfig => {
            proof {
                assert(before + Seq::<(Seq<char>, Seq<char>, Seq<char>)>::empty() =~= before);
            }
        },
    }
}

/// What a package.json file holds of the project, read by the given
/// dependency types; `None` when the file has no string `name`.
pub fn read_package(file_path: String, contents: &Json, dependency_types: &Vec<DependencyType>) -> (r: Option<PackageJson>)
    ensures
        match string_at(contents.view(), "/name"@) {
            None => r is None,
            Some(name) => match r {
                Some(p) => {
                    &&& p.name@ == name
                    &&& p.file_path@ == file_path@
                    &&& crate::versions::version_view(p.version) == string_at(contents.view(), "/version"@)
                    &&& crate::versions::entries_view(p.dependencies@) == contents_entries(contents.view(), dependency_types@)
                },
                None => false,
            },
        },
{
    let name = match string_at_exec(contents, "/name") {
        Some(n) => n,
        None => return None,
    };
    let version = string_at_exec(contents, "/version");
    let mut dependencies: Vec<DependencyEntry> = Vec::new();
    let mut k: usize = 0;
    while k < dependency_types.len()
        invariant
            k <= dependency_types@.len(),
            crate::versions::entries_view(dependencies@) == contents_entries(
                contents.view(),
                dependency_types@.subrange(0, k as int),
            ),
        decreases dependency_types@.len() - k,
    {
        proof {
            assert(dependency_types@.subrange(0, k + 1).drop_last() =~= dependency_types@.subrange(0, k as int));
            assert(dependency_types@.subrange(0, k + 1).last() == dependency_types@[k as int]);
        }
        push_type_entries(&mut dependencies, contents, &dependency_types[k]);
        k = k + 1;
    }
    proof {
        assert(dependency_types@.subrange(0, dependency_types@.len() as int) =~= dependency_types@);
    }
    Some(PackageJson { name, version, file_path, dependencies })
}

} // verus!
