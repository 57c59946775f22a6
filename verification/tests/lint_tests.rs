use syncpack::context::Context;
use syncpack::instance_state::{FixableInstance, InstanceState, InvalidInstance, SuspectInstance, ValidInstance};
use syncpack::packages::{default_dependency_types, get_all_instances, DependencyEntry, PackageJson};
use syncpack::semver_group::{AnySemverGroup, SemverGroup};
use syncpack::version_group::{AnyVersionGroup, VersionGroup};
use syncpack::visit_packages::visit_packages;

fn package(name: &str, version: Option<&str>, dependencies: &[(&str, &str, &str)]) -> PackageJson {
    PackageJson {
        name: name.to_string(),
        version: version.map(|v| v.to_string()),
        file_path: format!("{}/package.json", name),
        dependencies: dependencies
            .iter()
            .map(|(kind, dependency, specifier)| DependencyEntry {
                dependency_type: kind.to_string(),
                name: dependency.to_string(),
                specifier: specifier.to_string(),
            })
            .collect(),
    }
}

fn version_group(packages: &[&str]) -> AnyVersionGroup {
    AnyVersionGroup {
        dependencies: vec![],
        dependency_types: vec![],
        label: String::new(),
        packages: packages.iter().map(|p| p.to_string()).collect(),
        specifier_types: vec![],
        is_banned: None,
        is_ignored: None,
        pin_version: None,
        policy: None,
        snap_to: None,
        prefer_version: None,
    }
}

fn lint(packages: Vec<PackageJson>, version_groups: Vec<AnyVersionGroup>) -> Context {
    let names: Vec<String> = packages.iter().map(|p| p.name.clone()).collect();
    let instances = get_all_instances(&packages, &default_dependency_types());
    let version_groups: Vec<VersionGroup> = version_groups.iter().map(|g| VersionGroup::from_config(g, &names)).collect();
    let semver_groups: Vec<SemverGroup> = vec![];
    let mut ctx = Context::create(instances, semver_groups, version_groups);
    visit_packages(&mut ctx);
    ctx
}

struct ExpectedMatchEvent<'a> {
    dependency_name: &'a str,
    instance_id: &'a str,
    specifier: &'a str,
}

struct ExpectedMismatchEvent<'a> {
    dependency_name: &'a str,
    instance_id: &'a str,
    actual_specifier: &'a str,
    expected_specifier: &'a str,
}

fn equals_prefer_version() -> InstanceState {
    InstanceState::Valid(ValidInstance::EqualsPreferVersion)
}

fn mismatches_prefer_version() -> InstanceState {
    InstanceState::Invalid(InvalidInstance::Fixable(FixableInstance::MismatchesPreferVersion))
}

/// The instances that match the highest version are exactly those expected.
fn expect_highest_version_matches(ctx: &Context, expected: Vec<ExpectedMatchEvent>) {
    let matches: Vec<_> = ctx.instances.iter().filter(|i| i.state.get_name() == equals_prefer_version().get_name()).collect();
    assert_eq!(matches.len(), expected.len(), "number of highest version matches");
    for e in expected {
        let instance = matches.iter().find(|i| i.id == e.instance_id).unwrap_or_else(|| panic!("no match {}", e.instance_id));
        assert_eq!(instance.name, e.dependency_name);
        assert_eq!(instance.actual.unwrap(), e.specifier);
    }
}

/// The instances that mismatch the highest version are exactly those
/// expected, each expected to become the highest version.
fn expect_highest_version_mismatches(ctx: &Context, expected: Vec<ExpectedMismatchEvent>) {
    let mismatches: Vec<_> = ctx.instances.iter().filter(|i| i.state.get_name() == mismatches_prefer_version().get_name()).collect();
    assert_eq!(mismatches.len(), expected.len(), "number of highest version mismatches");
    for e in expected {
        let instance =
            mismatches.iter().find(|i| i.id == e.instance_id).unwrap_or_else(|| panic!("no mismatch {}", e.instance_id));
        assert_eq!(instance.name, e.dependency_name);
        assert_eq!(instance.actual.unwrap(), e.actual_specifier);
        assert_eq!(instance.expected.unwrap(), e.expected_specifier);
    }
}

#[test]
fn lint_reports_one_highest_version_mismatch_in_one_file() {
    let ctx = lint(vec![package("package-a", None, &[("prod", "wat", "1.0.0"), ("dev", "wat", "2.0.0")])], vec![]);
    expect_highest_version_matches(&ctx, vec![ExpectedMatchEvent {
        dependency_name: "wat",
        instance_id: "wat in /devDependencies of package-a",
        specifier: "2.0.0",
    }]);
    expect_highest_version_mismatches(&ctx, vec![ExpectedMismatchEvent {
        dependency_name: "wat",
        instance_id: "wat in /dependencies of package-a",
        actual_specifier: "1.0.0",
        expected_specifier: "2.0.0",
    }]);
}

#[test]
fn lint_reports_many_highest_version_mismatches_in_one_file() {
    let ctx = lint(
        vec![package("package-a", None, &[("prod", "wat", "0.1.0"), ("dev", "wat", "0.3.0"), ("peer", "wat", "0.2.0")])],
        vec![],
    );
    expect_highest_version_matches(&ctx, vec![ExpectedMatchEvent {
        dependency_name: "wat",
        instance_id: "wat in /devDependencies of package-a",
        specifier: "0.3.0",
    }]);
    expect_highest_version_mismatches(&ctx, vec![
        ExpectedMismatchEvent {
            dependency_name: "wat",
            instance_id: "wat in /dependencies of package-a",
            actual_specifier: "0.1.0",
            expected_specifier: "0.3.0",
        },
        ExpectedMismatchEvent {
            dependency_name: "wat",
            instance_id: "wat in /peerDependencies of package-a",
            actual_specifier: "0.2.0",
            expected_specifier: "0.3.0",
        },
    ]);
}

#[test]
fn lint_reports_highest_version_mismatches_in_many_files() {
    let ctx = lint(
        vec![
            package("package-a", None, &[("prod", "wat", "1.0.0")]),
            package("package-b", None, &[("prod", "wat", "2.0.0")]),
        ],
        vec![],
    );
    expect_highest_version_matches(&ctx, vec![ExpectedMatchEvent {
        dependency_name: "wat",
        instance_id: "wat in /dependencies of package-b",
        specifier: "2.0.0",
    }]);
    expect_highest_version_mismatches(&ctx, vec![ExpectedMismatchEvent {
        dependency_name: "wat",
        instance_id: "wat in /dependencies of package-a",
        actual_specifier: "1.0.0",
        expected_specifier: "2.0.0",
    }]);
}

#[test]
fn does_not_consider_instances_in_different_version_groups_a_highest_version_mismatch() {
    let ctx = lint(
        vec![
            package("package-a", None, &[("prod", "good", "1.0.0")]),
            package("package-b", None, &[("prod", "good", "2.0.0")]),
        ],
        vec![version_group(&["package-a"]), version_group(&["package-b"])],
    );
    expect_highest_version_mismatches(&ctx, vec![]);
    expect_highest_version_matches(&ctx, vec![
        ExpectedMatchEvent {
            dependency_name: "good",
            instance_id: "good in /dependencies of package-a",
            specifier: "1.0.0",
        },
        ExpectedMatchEvent {
            dependency_name: "good",
            instance_id: "good in /dependencies of package-b",
            specifier: "2.0.0",
        },
    ]);
}

#[test]
fn does_not_confuse_highest_version_matches_and_mismatches() {
    let ctx = lint(
        vec![
            package("package-a", None, &[("prod", "mix", "0.3.0"), ("dev", "mix", "0.1.0"), ("peer", "mix", "0.2.0")]),
            package("package-b", None, &[("dev", "mix", "0.3.0")]),
        ],
        vec![],
    );
    expect_highest_version_matches(&ctx, vec![
        ExpectedMatchEvent {
            dependency_name: "mix",
            instance_id: "mix in /dependencies of package-a",
            specifier: "0.3.0",
        },
        ExpectedMatchEvent {
            dependency_name: "mix",
            instance_id: "mix in /devDependencies of package-b",
            specifier: "0.3.0",
        },
    ]);
    expect_highest_version_mismatches(&ctx, vec![
        ExpectedMismatchEvent {
            dependency_name: "mix",
            instance_id: "mix in /devDependencies of package-a",
            actual_specifier: "0.1.0",
            expected_specifier: "0.3.0",
        },
        ExpectedMismatchEvent {
            dependency_name: "mix",
            instance_id: "mix in /peerDependencies of package-a",
            actual_specifier: "0.2.0",
            expected_specifier: "0.3.0",
        },
    ]);
}

#[test]
fn reports_local_version_mismatch_when_an_instance_uses_a_higher_version() {
    let ctx = lint(
        vec![
            package("package-a", Some("1.0.0"), &[]),
            package("package-b", None, &[("prod", "package-a", "1.1.0"), ("dev", "package-a", "workspace:*")]),
        ],
        vec![],
    );
    let find = |id: &str| ctx.instances.iter().find(|i| i.id == id).unwrap();
    let local = find("package-a in /version of package-a");
    assert_eq!(local.state.get_name(), InstanceState::Valid(ValidInstance::ValidLocal).get_name());
    assert_eq!(local.actual.unwrap(), "1.0.0");
    let mismatches_local = InstanceState::Invalid(InvalidInstance::Fixable(FixableInstance::MismatchesLocal));
    for (id, actual) in [
        ("package-a in /dependencies of package-b", "1.1.0"),
        ("package-a in /devDependencies of package-b", "workspace:*"),
    ] {
        let instance = find(id);
        assert_eq!(instance.state.get_name(), mismatches_local.get_name(), "state of {id}");
        assert_eq!(instance.actual.unwrap(), actual);
        assert_eq!(instance.expected.unwrap(), "1.0.0");
    }
}

#[test]
fn rejects_pinned_version_when_it_would_replace_local_version() {
    let mut pinned = version_group(&[]);
    pinned.dependencies = vec!["package-a".to_string()];
    pinned.pin_version = Some("1.2.0".to_string());
    let ctx = lint(
        vec![package("package-a", Some("1.0.0"), &[]), package("package-b", None, &[("prod", "package-a", "1.1.0")])],
        vec![pinned],
    );
    let find = |id: &str| ctx.instances.iter().find(|i| i.id == id).unwrap();
    // the local version is not replaced by the pinned version it mismatches
    let local = find("package-a in /version of package-a");
    assert_eq!(local.name, "package-a");
    assert_eq!(local.state.get_name(), InstanceState::Suspect(SuspectInstance::RefuseToPinLocal).get_name());
    assert_eq!(local.actual.unwrap(), "1.0.0");
    let pin = ctx
        .version_groups
        .iter()
        .flat_map(|g| g.dependencies.iter())
        .find(|d| d.name == "package-a")
        .and_then(|d| d.pinned_specifier.as_ref())
        .map(|p| p.unwrap());
    assert_eq!(pin, Some("1.2.0".to_string()));
    // the other instance is expected to become the pinned version
    let dependent = find("package-a in /dependencies of package-b");
    assert_eq!(dependent.name, "package-a");
    assert_eq!(dependent.state.get_name(), InstanceState::Invalid(InvalidInstance::Fixable(FixableInstance::MismatchesPin)).get_name());
    assert_eq!(dependent.actual.unwrap(), "1.1.0");
    assert_eq!(dependent.expected.unwrap(), "1.2.0");
}

#[test]
fn instance_has_same_version_as_local_package_but_does_not_match_its_semver_group() {
    let packages = vec![package("package-a", Some("1.0.0"), &[]), package("package-b", None, &[("prod", "package-a", "1.0.0")])];
    let instances = get_all_instances(&packages, &default_dependency_types());
    let caret = AnySemverGroup {
        dependencies: vec![],
        dependency_types: vec![],
        label: String::new(),
        packages: vec![],
        specifier_types: vec![],
        is_disabled: None,
        is_ignored: None,
        range: Some("^".to_string()),
    };
    let mut ctx = Context::create(instances, vec![SemverGroup::from_config(&caret)], vec![]);
    visit_packages(&mut ctx);
    let find = |id: &str| ctx.instances.iter().find(|i| i.id == id).unwrap();
    // refuse to break local package's version
    let local = find("package-a in /version of package-a");
    assert_eq!(local.name, "package-a");
    assert_eq!(local.actual.unwrap(), "1.0.0");
    assert_eq!(local.get_specifier_with_preferred_semver_range().unwrap().unwrap(), "^1.0.0");
    assert_eq!(local.expected.unwrap(), "1.0.0");
    assert_eq!(local.state.get_name(), InstanceState::Valid(ValidInstance::ValidLocal).get_name());
    let dependent = find("package-a in /dependencies of package-b");
    assert_eq!(dependent.name, "package-a");
    assert_eq!(dependent.state.get_name(), InstanceState::Invalid(InvalidInstance::Fixable(FixableInstance::SemverRangeMismatch)).get_name());
    assert_eq!(dependent.actual.unwrap(), "1.0.0");
    assert_eq!(dependent.expected.unwrap(), "^1.0.0");
}
