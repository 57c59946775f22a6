use syncpack::dependency_type::{normalize_path, CustomType, DependencyType, Strategy};
use syncpack::effects::EventsByType;
use syncpack::group_selector::GroupSelector;
use syncpack::instance::Instance;
use syncpack::instance_group::InstanceGroup;
use syncpack::instance_state::{
    FixableInstance, InstanceState, SemverGroupAndVersionConflict, SuspectInstance, UnfixableInstance,
    ValidInstance,
};
use syncpack::packages::{default_dependency_types, get_all_instances, DependencyEntry, PackageJson};
use syncpack::semver_range::SemverRange as ConfigRange;
use syncpack::specifier::parser::{is_complex_range, parse, sanitise};
use syncpack::specifier::range_text::range_is_readable;
use syncpack::specifier::semver_range::SemverRange;
use syncpack::specifier::simple_semver::SimpleSemver;
use syncpack::specifier::specifier_tree::SpecifierTree;
use syncpack::specifier::semver::Semver;
use syncpack::specifier::non_semver::NonSemver;
use syncpack::specifier::Specifier;
use syncpack::version_group::{with_resolved_keywords, AnyVersionGroup, Variant, VersionGroup};

fn strings(values: &[&str]) -> Vec<String> {
    values.iter().map(|v| v.to_string()).collect()
}

fn simple(specifier: &str) -> SimpleSemver {
    SimpleSemver::new(&specifier.to_string()).unwrap()
}

fn version_group() -> AnyVersionGroup {
    AnyVersionGroup {
        dependencies: vec![],
        dependency_types: vec![],
        label: String::new(),
        packages: vec![],
        specifier_types: vec![],
        is_banned: None,
        is_ignored: None,
        pin_version: None,
        policy: None,
        snap_to: None,
        prefer_version: None,
    }
}

fn prod() -> DependencyType {
    DependencyType::new(
        &"prod".to_string(),
        &CustomType { name_path: None, path: "dependencies".to_string(), strategy: "versionsByName".to_string() },
    )
}

#[test]
fn config_ranges_round_trip_through_their_text() {
    let cases: Vec<(&str, ConfigRange)> = vec![
        ("*", ConfigRange::Any),
        ("^", ConfigRange::Caret),
        ("", ConfigRange::Exact),
        (">", ConfigRange::Gt),
        (">=", ConfigRange::Gte),
        ("<", ConfigRange::Lt),
        ("<=", ConfigRange::Lte),
        ("~", ConfigRange::Tilde),
    ];
    for (text, range) in cases {
        assert_eq!(ConfigRange::new(&text.to_string()), Some(range));
        assert_eq!(range.unwrap(), text);
    }
    assert_eq!(ConfigRange::new(&"^^".to_string()), None);
    assert_eq!(ConfigRange::new(&"=".to_string()), None);
}

#[test]
fn greediness_ranks_are_distinct_and_ordered() {
    let ranges = ["<", "<=", "", "~", "^", ">=", ">", "*"];
    for (rank, text) in ranges.iter().enumerate() {
        assert_eq!(SemverRange::new(text).unwrap().get_greediness_ranking() as usize, rank);
    }
}

#[test]
fn specifiers_are_classified_by_config_identifier() {
    let cases: Vec<(&str, &str)> = vec![
        ("1.2.3", "exact"),
        ("^1.2.3", "range"),
        ("~1.2.3", "range"),
        (">=1.2.3", "range"),
        ("1", "major"),
        ("1.2", "minor"),
        ("^1.2", "range-minor"),
        ("*", "latest"),
        ("latest", "latest"),
        ("x", "latest"),
        ("workspace:*", "workspace-protocol"),
        ("npm:foo@1.2.3", "alias"),
        ("file:../foo", "file"),
        ("git://github.com/foo/bar.git", "git"),
        ("https://example.com/foo.tgz", "url"),
        ("alpha", "tag"),
        (">=1.2.3 <2.0.0", "range-complex"),
        ("^1.2.3 || ^2.0.0", "range-complex"),
        ("", "missing"),
        ("}wat{", "unsupported"),
    ];
    for (raw, identifier) in cases {
        let specifier = Specifier::new(raw);
        assert_eq!(specifier.get_config_identifier(), identifier, "'{raw}' should be '{identifier}'");
    }
}

#[test]
fn a_missing_specifier_unwraps_to_a_marker() {
    let missing = Specifier::new("");
    assert_eq!(missing.unwrap(), "VERSION_IS_MISSING");
    assert!(!missing.is_simple_semver());
    assert!(missing.get_simple_semver().is_none());
}

#[test]
fn latest_keywords_are_sanitised_to_a_star() {
    assert_eq!(sanitise(&"latest".to_string()), "*");
    assert_eq!(sanitise(&"x".to_string()), "*");
    assert_eq!(sanitise(&"1.2.3".to_string()), "1.2.3");
    assert_eq!(Specifier::new("latest").unwrap(), "*");
}

#[test]
fn complex_ranges_are_made_of_simple_semver() {
    assert!(is_complex_range(">=1.2.3 <2.0.0"));
    assert!(is_complex_range("^1.0.0 || ^2.0.0"));
    assert!(!is_complex_range("^1.0.0 || wat:1"));
    let parsed = parse(&"1.2.3".to_string(), false);
    assert_eq!(Specifier::from_parsed(parsed).get_config_identifier(), "exact");
}

#[test]
fn simple_semver_rejects_what_is_not_simple() {
    let err = SimpleSemver::new(&"workspace:*".to_string());
    assert!(err.is_err());
    assert!(SimpleSemver::new(&"^1.2.3 || ^2.0.0".to_string()).is_err());
    assert!(SimpleSemver::new(&"1.2.3".to_string()).is_ok());
}

#[test]
fn with_range_replaces_the_range_and_keeps_the_version() {
    let caret = simple("^1.2.3");
    let tilde = caret.with_range(&SemverRange::Patch);
    assert_eq!(tilde.unwrap(), "~1.2.3");
    assert_eq!(tilde.get_range(), SemverRange::Patch);
    assert!(tilde.has_same_version(&caret));
    assert!(!tilde.has_same_range(&caret));
    // applying a range twice is the same as applying it once
    assert_eq!(tilde.with_range(&SemverRange::Patch).unwrap(), "~1.2.3");
    // applying its own range changes nothing
    assert_eq!(caret.with_range(&caret.get_range()).unwrap(), "^1.2.3");
    assert_eq!(simple("1.2.3").with_range(&SemverRange::Gte).unwrap(), ">=1.2.3");
    assert_eq!(simple(">=1.2.3").with_range(&SemverRange::Exact).unwrap(), "1.2.3");
}

#[test]
fn versions_are_compared_through_node_semver() {
    assert!(simple("^1.2.3").has_same_version(&simple("~1.2.3")));
    assert!(!simple("1.2.3").has_same_version(&simple("1.2.4")));
    assert!(simple("1").has_same_version(&simple("^1")));
    let orderable = simple("^1.2.3").get_orderable().unwrap();
    let other = simple("1.3.0").get_orderable().unwrap();
    assert_eq!(orderable.compare(&other), syncpack::specifier::orderable::Comparison::Less);
}

#[test]
fn property_paths_become_json_pointers() {
    assert_eq!(normalize_path(&"version".to_string()), "/version");
    assert_eq!(normalize_path(&"a.b.c".to_string()), "/a/b/c");
    assert_eq!(normalize_path(&"".to_string()), "/");
}

#[test]
fn strategies_are_named_as_in_config_files() {
    assert_eq!(Strategy::new("name~version"), Strategy::NameAndVersionProps);
    assert_eq!(Strategy::new("name@version"), Strategy::NamedVersionString);
    assert_eq!(Strategy::new("version"), Strategy::UnnamedVersionString);
    assert_eq!(Strategy::new("versionsByName"), Strategy::VersionsByName);
    assert_eq!(Strategy::new("wat"), Strategy::InvalidConfig);
    let prod = prod();
    assert_eq!(prod.name, "prod");
    assert_eq!(prod.path, "/dependencies");
    assert_eq!(prod.strategy, Strategy::VersionsByName);
}

#[test]
fn a_named_strategy_keeps_its_spelling() {
    let config = CustomType {
        name_path: Some("name".to_string()),
        path: "engines.node".to_string(),
        strategy: "version".to_string(),
    };
    let strategy = syncpack::strategy::Strategy::new(&"engines".to_string(), &config);
    assert_eq!(strategy.name, "engines");
    assert_eq!(strategy.path, "/engines/node");
    assert_eq!(strategy.strategy, "version");
    assert_eq!(strategy.name_path, Some("name".to_string()));
}

#[test]
fn instance_states_are_named_by_their_variant() {
    assert_eq!(InstanceState::Unknown.get_name(), "Unknown");
    assert_eq!(InstanceState::valid(ValidInstance::EqualsLocal).get_name(), "EqualsLocal");
    assert_eq!(InstanceState::fixable(FixableInstance::MismatchesPin).get_name(), "MismatchesPin");
    assert_eq!(
        InstanceState::unfixable(UnfixableInstance::MismatchesSameRangeGroup).get_name(),
        "MismatchesSameRangeGroup"
    );
    assert_eq!(
        InstanceState::conflict(SemverGroupAndVersionConflict::MatchConflictsWithPrefer).get_name(),
        "MatchConflictsWithPrefer"
    );
    assert_eq!(InstanceState::suspect(SuspectInstance::RefuseToBanLocal).get_name(), "RefuseToBanLocal");
}

#[test]
fn local_keywords_resolve_to_package_names() {
    let packages = strings(&["a", "b"]);
    assert_eq!(with_resolved_keywords(&strings(&["$LOCAL"]), &packages), strings(&["a", "b"]));
    assert_eq!(with_resolved_keywords(&strings(&["!$LOCAL"]), &packages), strings(&["!a", "!b"]));
    assert_eq!(with_resolved_keywords(&strings(&["react", "$LOCAL"]), &packages), strings(&["react", "a", "b"]));
    assert_eq!(with_resolved_keywords(&strings(&["react"]), &strings(&[])), strings(&["react"]));
}

#[test]
fn version_groups_take_their_variant_from_config() {
    let names = strings(&["a"]);
    let mut banned = version_group();
    banned.is_banned = Some(true);
    banned.pin_version = Some("1.0.0".to_string());
    assert_eq!(VersionGroup::from_config(&banned, &names).variant, Variant::Banned);
    let mut pinned = version_group();
    pinned.pin_version = Some("1.0.0".to_string());
    let pinned = VersionGroup::from_config(&pinned, &names);
    assert_eq!(pinned.variant, Variant::Pinned);
    assert_eq!(pinned.pin_version.unwrap().unwrap(), "1.0.0");
    let mut same_range = version_group();
    same_range.policy = Some("sameRange".to_string());
    assert_eq!(VersionGroup::from_config(&same_range, &names).variant, Variant::SameRange);
    let mut snapped = version_group();
    snapped.snap_to = Some(strings(&["a"]));
    assert_eq!(VersionGroup::from_config(&snapped, &names).variant, Variant::SnappedTo);
    let mut lowest = version_group();
    lowest.prefer_version = Some("lowestSemver".to_string());
    assert_eq!(VersionGroup::from_config(&lowest, &names).variant, Variant::LowestSemver);
    assert_eq!(VersionGroup::from_config(&version_group(), &names).variant, Variant::HighestSemver);
    let mut local = version_group();
    local.dependencies = strings(&["$LOCAL"]);
    assert_eq!(VersionGroup::from_config(&local, &names).selector.dependencies, strings(&["a"]));
}

#[test]
fn selectors_match_names_by_glob() {
    let selector = GroupSelector::new(strings(&["@scope/*"]), strings(&["!dev"]), String::new(), vec![], vec![]);
    assert!(selector.can_add("@scope/foo", "prod", "pkg", "exact"));
    assert!(!selector.can_add("react", "prod", "pkg", "exact"));
    assert!(!selector.can_add("@scope/foo", "dev", "pkg", "exact"));
    let everything = GroupSelector::new(vec![], vec![], String::new(), vec![], vec![]);
    assert!(everything.can_add("anything", "dev", "pkg", "range"));
    let negated = GroupSelector::new(strings(&["!react*"]), vec![], String::new(), vec![], strings(&["exact"]));
    assert!(!negated.can_add("react-dom", "prod", "pkg", "exact"));
    assert!(negated.can_add("vue", "prod", "pkg", "exact"));
    assert!(!negated.can_add("vue", "prod", "pkg", "range"));
}

#[test]
fn instance_groups_compare_against_their_expected_version() {
    let a = Instance::new("react".to_string(), "1.0.0".to_string(), &prod(), "a".to_string(), "a/package.json".to_string());
    let mut group = InstanceGroup::new("react".to_string());
    assert_eq!(group.name, "react");
    assert!(!group.has_identical_specifiers());
    group.by_specifier.push(("1.0.0".to_string(), vec![&a]));
    assert!(group.has_identical_specifiers());
    group.by_specifier.push(("2.0.0".to_string(), vec![]));
    assert!(!group.has_identical_specifiers());
    group.expected_version = Some("1.0.0".to_string());
    assert!(!group.is_mismatch(&"1.0.0".to_string()));
    assert!(group.is_mismatch(&"2.0.0".to_string()));
    group.expected_version = None;
    group.non_semver.push(&a);
    assert!(group.is_mismatch(&"1.0.0".to_string()));
}

#[test]
fn event_counts_start_empty() {
    let events = EventsByType::new();
    assert!(events.dependency_invalid.is_empty());
    assert!(events.group_visited.is_empty());
    assert!(events.package_format_mismatch.is_empty());
}

#[test]
fn instances_are_read_from_each_dependency_type() {
    let package = PackageJson {
        name: "pkg".to_string(),
        version: Some("1.0.0".to_string()),
        file_path: "pkg/package.json".to_string(),
        dependencies: vec![
            DependencyEntry { dependency_type: "prod".to_string(), name: "react".to_string(), specifier: "^18.0.0".to_string() },
            DependencyEntry { dependency_type: "dev".to_string(), name: "jest".to_string(), specifier: "29.0.0".to_string() },
            DependencyEntry { dependency_type: "unknown".to_string(), name: "x".to_string(), specifier: "1.0.0".to_string() },
        ],
    };
    let instances = get_all_instances(&vec![package], &default_dependency_types());
    let mut described: Vec<(String, String, String, bool)> = instances
        .iter()
        .map(|i| (i.name.clone(), i.dependency_type.name.clone(), i.actual.unwrap(), i.is_local))
        .collect();
    described.sort();
    assert_eq!(
        described,
        vec![
            ("jest".to_string(), "dev".to_string(), "29.0.0".to_string(), false),
            ("pkg".to_string(), "local".to_string(), "1.0.0".to_string(), true),
            ("react".to_string(), "prod".to_string(), "^18.0.0".to_string(), false),
        ]
    );
}

fn package(name: &str, version: Option<&str>, dependencies: &[(&str, &str, &str)]) -> PackageJson {
    PackageJson {
        name: name.to_string(),
        version: version.map(|v| v.to_string()),
        file_path: format!("{}/package.json", name),
        dependencies: dependencies
            .iter()
            .map(|(kind, dependency, specifier)| DependencyEntry {
                dependency_type: kind.to_string(),
                name: dependency.to_string(),
                specifier: specifier.to_string(),
            })
            .collect(),
    }
}

fn lint(packages: &Vec<PackageJson>, version_groups: Vec<AnyVersionGroup>) -> syncpack::context::Context {
    let names: Vec<String> = packages.iter().map(|p| p.name.clone()).collect();
    let instances = get_all_instances(packages, &default_dependency_types());
    let version_groups: Vec<VersionGroup> = version_groups.iter().map(|g| VersionGroup::from_config(g, &names)).collect();
    let mut ctx = syncpack::context::Context::create(instances, vec![], version_groups);
    syncpack::visit_packages::visit_packages(&mut ctx);
    ctx
}

fn entries(package: &PackageJson) -> Vec<(String, String, String)> {
    package
        .dependencies
        .iter()
        .map(|e| (e.dependency_type.clone(), e.name.clone(), e.specifier.clone()))
        .collect()
}

#[test]
fn fixing_writes_the_highest_version_to_every_mismatch() {
    let mut packages = vec![
        package("a", None, &[("prod", "wat", "1.0.0"), ("dev", "wat", "2.0.0")]),
        package("b", None, &[("peer", "wat", "1.5.0")]),
    ];
    let ctx = lint(&packages, vec![]);
    assert!(!syncpack::versions::is_valid(&ctx));
    assert!(syncpack::versions::fix(&ctx, &mut packages));
    assert_eq!(
        entries(&packages[0]),
        vec![
            ("prod".to_string(), "wat".to_string(), "2.0.0".to_string()),
            ("dev".to_string(), "wat".to_string(), "2.0.0".to_string()),
        ]
    );
    assert_eq!(entries(&packages[1]), vec![("peer".to_string(), "wat".to_string(), "2.0.0".to_string())]);
    // fixing again changes nothing
    let before: Vec<_> = packages.iter().map(entries).collect();
    assert!(syncpack::versions::fix(&ctx, &mut packages));
    let after: Vec<_> = packages.iter().map(entries).collect();
    assert_eq!(before, after);
    // and the fixed packages lint as valid
    let relinted = lint(&packages, vec![]);
    assert!(relinted.instances.iter().all(|i| !matches!(i.state, InstanceState::Invalid(_))));
}

#[test]
fn fixing_removes_banned_dependencies() {
    let mut packages = vec![package("a", Some("1.0.0"), &[("prod", "bad", "1.0.0"), ("prod", "good", "1.0.0")])];
    let mut banned = version_group();
    banned.dependencies = strings(&["bad"]);
    banned.is_banned = Some(true);
    let ctx = lint(&packages, vec![banned]);
    assert!(syncpack::versions::fix(&ctx, &mut packages));
    assert_eq!(entries(&packages[0]), vec![("prod".to_string(), "good".to_string(), "1.0.0".to_string())]);
    assert_eq!(packages[0].version, Some("1.0.0".to_string()));
}

#[test]
fn fixing_reports_what_it_cannot_fix() {
    let mut packages = vec![package("a", None, &[("prod", "wat", "alpha"), ("dev", "wat", "beta")])];
    let ctx = lint(&packages, vec![]);
    assert!(!syncpack::versions::fix(&ctx, &mut packages));
    assert_eq!(
        entries(&packages[0]),
        vec![
            ("prod".to_string(), "wat".to_string(), "alpha".to_string()),
            ("dev".to_string(), "wat".to_string(), "beta".to_string()),
        ]
    );
}

#[test]
fn instances_are_listed_highest_specifier_first_then_by_package() {
    let packages = vec![
        package("b", None, &[("prod", "wat", "1.0.0")]),
        package("a", None, &[("prod", "wat", "2.0.0"), ("dev", "wat", "1.0.0")]),
    ];
    let ctx = lint(&packages, vec![]);
    let mut dependency = ctx
        .version_groups
        .iter()
        .flat_map(|g| g.dependencies.iter())
        .find(|d| d.name == "wat")
        .unwrap()
        .clone();
    dependency.sort_instances(&ctx.instances);
    let listed: Vec<(String, String)> = dependency
        .instances
        .iter()
        .map(|&i| (ctx.instances[i].actual.unwrap(), ctx.instances[i].package_name.clone()))
        .collect();
    assert_eq!(
        listed,
        vec![
            ("2.0.0".to_string(), "a".to_string()),
            ("1.0.0".to_string(), "a".to_string()),
            ("1.0.0".to_string(), "b".to_string()),
        ]
    );
}

#[test]
fn an_empty_range_is_not_a_complex_range() {
    assert!(!is_complex_range(""));
    assert!(!is_complex_range("   "));
    assert!(!is_complex_range(" || "));
    assert!(is_complex_range(" >=1.0.0 "));
}

#[test]
fn a_pinned_version_group_keeps_the_text_of_its_version() {
    let names = strings(&["a"]);
    let mut pinned = version_group();
    pinned.pin_version = Some("^2.3.4".to_string());
    let pinned = VersionGroup::from_config(&pinned, &names);
    assert_eq!(pinned.variant, Variant::Pinned);
    assert_eq!(pinned.pin_version.unwrap().unwrap(), "^2.3.4");
    let mut latest = version_group();
    latest.pin_version = Some("latest".to_string());
    assert_eq!(VersionGroup::from_config(&latest, &names).pin_version.unwrap().unwrap(), "*");
}

#[test]
fn instance_states_are_equal_when_equally_severe() {
    assert!(InstanceState::Valid(ValidInstance::EqualsPin) == InstanceState::Valid(ValidInstance::EqualsLocal));
    assert!(
        InstanceState::Invalid(syncpack::instance_state::InvalidInstance::Fixable(FixableInstance::Banned))
            == InstanceState::Invalid(syncpack::instance_state::InvalidInstance::Unfixable(
                UnfixableInstance::SnapToVersionNotFound
            ))
    );
    assert!(InstanceState::Valid(ValidInstance::EqualsPin) != InstanceState::Suspect(SuspectInstance::RefuseToPinLocal));
    assert!(InstanceState::Unknown != InstanceState::Valid(ValidInstance::Ignored));
}

#[test]
fn a_specifier_tree_keeps_the_parsed_string() {
    match SpecifierTree::new(&parse(&"^1.2.3".to_string(), false)) {
        SpecifierTree::Semver(Semver::Simple(v)) => assert_eq!(v.unwrap(), "^1.2.3"),
        _ => panic!("expected simple semver"),
    }
    match SpecifierTree::new(&parse(&">=1.0.0 <2.0.0".to_string(), false)) {
        SpecifierTree::Semver(Semver::Complex(s)) => assert_eq!(s, ">=1.0.0 <2.0.0"),
        _ => panic!("expected a complex range"),
    }
    match SpecifierTree::new(&parse(&"workspace:*".to_string(), false)) {
        SpecifierTree::NonSemver(NonSemver::WorkspaceProtocol(s)) => assert_eq!(s, "workspace:*"),
        _ => panic!("expected the workspace protocol"),
    }
    assert!(SpecifierTree::new(&parse(&"1.2.3".to_string(), false)).is_simple_semver());
    assert!(!SpecifierTree::new(&parse(&"alpha".to_string(), false)).is_simple_semver());
}

#[test]
fn with_range_keeps_the_version() {
    let s = simple("~1.2.3");
    let t = s.with_range(&SemverRange::Gte);
    assert_eq!(t.unwrap(), ">=1.2.3");
    assert!(t.has_same_version(&s));
    assert_eq!(s.with_range(&SemverRange::Exact).unwrap(), "1.2.3");
    assert_eq!(s.with_range(&SemverRange::Any).unwrap(), "*");
}

#[test]
fn ranges_node_semver_cannot_read_are_recognised() {
    for unreadable in ["=*", "= x", "=vX", "~*", "~> x", "~1.x.3", "1.0.0 || =*", ">=1.0.0 ~*", "a|=*"] {
        assert!(!range_is_readable(unreadable), "{unreadable}");
    }
    for readable in ["", ">=1.0.0", "=1.2.3", "~1.2.3", "~1.x", "^*", "*", "a=*", "<=*", "1.0.0 - 2.0.0"] {
        assert!(range_is_readable(readable), "{readable}");
    }
}
