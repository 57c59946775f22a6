use syncpack::context::Context;
use syncpack::instance_state::{
    FixableInstance, InstanceState, InvalidInstance, SemverGroupAndVersionConflict, SuspectInstance,
    UnfixableInstance, ValidInstance,
};
use syncpack::packages::{default_dependency_types, get_all_instances, DependencyEntry, PackageJson};
use syncpack::semver_group::{AnySemverGroup, SemverGroup};
use syncpack::version_group::{AnyVersionGroup, VersionGroup};
use syncpack::visit_packages::visit_packages;

fn strings(values: &[&str]) -> Vec<String> {
    values.iter().map(|v| v.to_string()).collect()
}

/// A package.json with a name, an optional version and dependencies given as
/// (dependency type, name, specifier).
fn package(name: &str, version: Option<&str>, dependencies: &[(&str, &str, &str)]) -> PackageJson {
    PackageJson {
        name: name.to_string(),
        version: version.map(|v| v.to_string()),
        file_path: format!("{}/package.json", name),
        dependencies: dependencies
            .iter()
            .map(|(kind, dependency, specifier)| DependencyEntry {
                dependency_type: kind.to_string(),
                name: dependency.to_string(),
                specifier: specifier.to_string(),
            })
            .collect(),
    }
}

fn version_group() -> AnyVersionGroup {
    AnyVersionGroup {
        dependencies: vec![],
        dependency_types: vec![],
        label: String::new(),
        packages: vec![],
        specifier_types: vec![],
        is_banned: None,
        is_ignored: None,
        pin_version: None,
        policy: None,
        snap_to: None,
        prefer_version: None,
    }
}

fn semver_group() -> AnySemverGroup {
    AnySemverGroup {
        dependencies: vec![],
        dependency_types: vec![],
        label: String::new(),
        packages: vec![],
        specifier_types: vec![],
        is_disabled: None,
        is_ignored: None,
        range: None,
    }
}

/// Read the packages, sort their instances into the configured groups and
/// visit them.
fn visit(packages: Vec<PackageJson>, semver_groups: Vec<AnySemverGroup>, version_groups: Vec<AnyVersionGroup>) -> Context {
    let names: Vec<String> = packages.iter().map(|p| p.name.clone()).collect();
    let types = default_dependency_types();
    let instances = get_all_instances(&packages, &types);
    let semver_groups = semver_groups.iter().map(SemverGroup::from_config).collect();
    let version_groups = version_groups.iter().map(|g| VersionGroup::from_config(g, &names)).collect();
    let mut ctx = Context::create(instances, semver_groups, version_groups);
    visit_packages(&mut ctx);
    ctx
}

/// The state of an instance by the name of what it reports.
fn state(name: &str) -> InstanceState {
    match name {
        "Ignored" => InstanceState::Valid(ValidInstance::Ignored),
        "ValidLocal" => InstanceState::Valid(ValidInstance::ValidLocal),
        "EqualsLocal" => InstanceState::Valid(ValidInstance::EqualsLocal),
        "MatchesLocal" => InstanceState::Valid(ValidInstance::MatchesLocal),
        "EqualsPreferVersion" => InstanceState::Valid(ValidInstance::EqualsPreferVersion),
        "MatchesPreferVersion" => InstanceState::Valid(ValidInstance::MatchesPreferVersion),
        "EqualsNonSemverPreferVersion" => InstanceState::Valid(ValidInstance::EqualsNonSemverPreferVersion),
        "EqualsPin" => InstanceState::Valid(ValidInstance::EqualsPin),
        "MatchesSameRangeGroup" => InstanceState::Valid(ValidInstance::MatchesSameRangeGroup),
        "EqualsSnapToVersion" => InstanceState::Valid(ValidInstance::EqualsSnapToVersion),
        "MatchesSnapToVersion" => InstanceState::Valid(ValidInstance::MatchesSnapToVersion),
        "Banned" => InstanceState::Invalid(InvalidInstance::Fixable(FixableInstance::Banned)),
        "MismatchesLocal" => InstanceState::Invalid(InvalidInstance::Fixable(FixableInstance::MismatchesLocal)),
        "MismatchesPreferVersion" => InstanceState::Invalid(InvalidInstance::Fixable(FixableInstance::MismatchesPreferVersion)),
        "MismatchesSnapToVersion" => InstanceState::Invalid(InvalidInstance::Fixable(FixableInstance::MismatchesSnapToVersion)),
        "MismatchesPin" => InstanceState::Invalid(InvalidInstance::Fixable(FixableInstance::MismatchesPin)),
        "SemverRangeMismatch" => InstanceState::Invalid(InvalidInstance::Fixable(FixableInstance::SemverRangeMismatch)),
        "PinMatchOverridesSemverRangeMatch" => {
            InstanceState::Invalid(InvalidInstance::Fixable(FixableInstance::PinMatchOverridesSemverRangeMatch))
        }
        "PinMatchOverridesSemverRangeMismatch" => {
            InstanceState::Invalid(InvalidInstance::Fixable(FixableInstance::PinMatchOverridesSemverRangeMismatch))
        }
        "MismatchesInvalidLocalVersion" => {
            InstanceState::Invalid(InvalidInstance::Unfixable(UnfixableInstance::MismatchesInvalidLocalVersion))
        }
        "MismatchesNonSemverPreferVersion" => {
            InstanceState::Invalid(InvalidInstance::Unfixable(UnfixableInstance::MismatchesNonSemverPreferVersion))
        }
        "MismatchesSameRangeGroup" => InstanceState::Invalid(InvalidInstance::Unfixable(UnfixableInstance::MismatchesSameRangeGroup)),
        "SnapToVersionNotFound" => InstanceState::Invalid(InvalidInstance::Unfixable(UnfixableInstance::SnapToVersionNotFound)),
        "SemverRangeMatchConflictsWithPreferVersion" => {
            InstanceState::Invalid(InvalidInstance::Conflict(SemverGroupAndVersionConflict::MatchConflictsWithPrefer))
        }
        "SemverRangeMismatchConflictsWithPreferVersion" => {
            InstanceState::Invalid(InvalidInstance::Conflict(SemverGroupAndVersionConflict::MismatchConflictsWithPrefer))
        }
        "SemverRangeMatchConflictsWithSnapToVersion" => {
            InstanceState::Invalid(InvalidInstance::Conflict(SemverGroupAndVersionConflict::MatchConflictsWithSnapTo))
        }
        "SemverRangeMismatchConflictsWithSnapToVersion" => {
            InstanceState::Invalid(InvalidInstance::Conflict(SemverGroupAndVersionConflict::MismatchConflictsWithSnapTo))
        }
        "SemverRangeMatchConflictsWithLocalVersion" => {
            InstanceState::Invalid(InvalidInstance::Conflict(SemverGroupAndVersionConflict::MatchConflictsWithLocal))
        }
        "SemverRangeMismatchConflictsWithLocalVersion" => {
            InstanceState::Invalid(InvalidInstance::Conflict(SemverGroupAndVersionConflict::MismatchConflictsWithLocal))
        }
        "RefuseToBanLocal" => InstanceState::Suspect(SuspectInstance::RefuseToBanLocal),
        "RefuseToPinLocal" => InstanceState::Suspect(SuspectInstance::RefuseToPinLocal),
        "RefuseToSnapLocal" => InstanceState::Suspect(SuspectInstance::RefuseToSnapLocal),
        "InvalidLocalVersion" => InstanceState::Suspect(SuspectInstance::InvalidLocalVersion),
        other => panic!("unknown state {other}"),
    }
}

struct ExpectedInstance<'a> {
    state: InstanceState,
    dependency_name: &'a str,
    id: &'a str,
    actual: &'a str,
    expected: Option<&'a str>,
    overridden: Option<&'a str>,
}

/// Every instance of the project is one of those expected, with the state,
/// specifiers and override expected of it.
fn expect_instances(ctx: &Context, expected: Vec<ExpectedInstance>) {
    assert_eq!(ctx.instances.len(), expected.len(), "number of instances");
    for e in expected {
        let instance = ctx
            .instances
            .iter()
            .find(|i| i.id == e.id)
            .unwrap_or_else(|| panic!("no instance {}", e.id));
        assert_eq!(instance.state.get_name(), e.state.get_name(), "state of {}", e.id);
        assert_eq!(instance.name, e.dependency_name, "dependency name of {}", e.id);
        assert_eq!(instance.actual.unwrap(), e.actual, "actual specifier of {}", e.id);
        assert_eq!(Some(instance.expected.unwrap()), e.expected.map(|s| s.to_string()), "expected specifier of {}", e.id);
        assert_eq!(
            instance.overridden.as_ref().map(|s| s.unwrap()),
            e.overridden.map(|s| s.to_string()),
            "overridden specifier of {}",
            e.id
        );
    }
}

#[test]
fn instance_depends_on_local_version_which_is_missing() {
    let packages = vec![
        package("package-a", None, &[]),
        package("package-b", None, &[("dev", "package-a", "0.1.0")]),
    ];
    let semver_groups = vec![];
    let version_groups = vec![];
    let ctx = visit(packages, semver_groups, version_groups);
    expect_instances(&ctx, vec![
        ExpectedInstance {
            state: state("InvalidLocalVersion"),
            dependency_name: "package-a",
            id: "package-a in /version of package-a",
            actual: "VERSION_IS_MISSING",
            expected: Some("VERSION_IS_MISSING"),
            overridden: None,
        },
        ExpectedInstance {
            state: state("InvalidLocalVersion"),
            dependency_name: "package-b",
            id: "package-b in /version of package-b",
            actual: "VERSION_IS_MISSING",
            expected: Some("VERSION_IS_MISSING"),
            overridden: None,
        },
        ExpectedInstance {
            state: state("MismatchesInvalidLocalVersion"),
            dependency_name: "package-a",
            id: "package-a in /devDependencies of package-b",
            actual: "0.1.0",
            expected: Some("0.1.0"),
            overridden: None,
        },
    ]);
}

#[test]
fn instance_depends_on_local_version_which_is_not_exact_semver() {
    let packages = vec![
        package("package-a", Some("^1.0.0"), &[]),
        package("package-b", None, &[("dev", "package-a", "0.1.0")]),
    ];
    let semver_groups = vec![];
    let version_groups = vec![];
    let ctx = visit(packages, semver_groups, version_groups);
    expect_instances(&ctx, vec![
        ExpectedInstance {
            state: state("InvalidLocalVersion"),
            dependency_name: "package-a",
            id: "package-a in /version of package-a",
            actual: "^1.0.0",
            expected: Some("^1.0.0"),
            overridden: None,
        },
        ExpectedInstance {
            state: state("InvalidLocalVersion"),
            dependency_name: "package-b",
            id: "package-b in /version of package-b",
            actual: "VERSION_IS_MISSING",
            expected: Some("VERSION_IS_MISSING"),
            overridden: None,
        },
        ExpectedInstance {
            state: state("MismatchesInvalidLocalVersion"),
            dependency_name: "package-a",
            id: "package-a in /devDependencies of package-b",
            actual: "0.1.0",
            expected: Some("0.1.0"),
            overridden: None,
        },
    ]);
}

#[test]
fn instance_has_higher_version_than_local_package_and_has_no_semver_group() {
    let packages = vec![
        package("package-a", Some("1.0.0"), &[]),
        package("package-b", None, &[("prod", "package-a", "1.1.0")]),
    ];
    let semver_groups = vec![];
    let version_groups = vec![];
    let ctx = visit(packages, semver_groups, version_groups);
    expect_instances(&ctx, vec![
        ExpectedInstance {
            state: state("InvalidLocalVersion"),
            dependency_name: "package-b",
            id: "package-b in /version of package-b",
            actual: "VERSION_IS_MISSING",
            expected: Some("VERSION_IS_MISSING"),
            overridden: None,
        },
        ExpectedInstance {
            state: state("ValidLocal"),
            dependency_name: "package-a",
            id: "package-a in /version of package-a",
            actual: "1.0.0",
            expected: Some("1.0.0"),
            overridden: None,
        },
        ExpectedInstance {
            state: state("MismatchesLocal"),
            dependency_name: "package-a",
            id: "package-a in /dependencies of package-b",
            actual: "1.1.0",
            expected: Some("1.0.0"),
            overridden: None,
        },
    ]);
}

#[test]
fn instance_identical_to_local_package_and_has_no_semver_group() {
    let packages = vec![
        package("package-a", Some("1.0.0"), &[]),
        package("package-b", None, &[("prod", "package-a", "1.0.0")]),
    ];
    let semver_groups = vec![];
    let version_groups = vec![];
    let ctx = visit(packages, semver_groups, version_groups);
    expect_instances(&ctx, vec![
        ExpectedInstance {
            state: state("InvalidLocalVersion"),
            dependency_name: "package-b",
            id: "package-b in /version of package-b",
            actual: "VERSION_IS_MISSING",
            expected: Some("VERSION_IS_MISSING"),
            overridden: None,
        },
        ExpectedInstance {
            state: state("ValidLocal"),
            dependency_name: "package-a",
            id: "package-a in /version of package-a",
            actual: "1.0.0",
            expected: Some("1.0.0"),
            overridden: None,
        },
        ExpectedInstance {
            state: state("EqualsLocal"),
            dependency_name: "package-a",
            id: "package-a in /dependencies of package-b",
            actual: "1.0.0",
            expected: Some("1.0.0"),
            overridden: None,
        },
    ]);
}

#[test]
fn instance_has_different_version_to_local_package_and_has_no_semver_group() {
    let packages = vec![
        package("package-a", Some("1.0.0"), &[]),
        package("package-b", None, &[("prod", "package-a", "1.1.0")]),
    ];
    let semver_groups = vec![];
    let version_groups = vec![];
    let ctx = visit(packages, semver_groups, version_groups);
    expect_instances(&ctx, vec![
        ExpectedInstance {
            state: state("InvalidLocalVersion"),
            dependency_name: "package-b",
            id: "package-b in /version of package-b",
            actual: "VERSION_IS_MISSING",
            expected: Some("VERSION_IS_MISSING"),
            overridden: None,
        },
        ExpectedInstance {
            state: state("ValidLocal"),
            dependency_name: "package-a",
            id: "package-a in /version of package-a",
            actual: "1.0.0",
            expected: Some("1.0.0"),
            overridden: None,
        },
        ExpectedInstance {
            state: state("MismatchesLocal"),
            dependency_name: "package-a",
            id: "package-a in /dependencies of package-b",
            actual: "1.1.0",
            expected: Some("1.0.0"),
            overridden: None,
        },
    ]);
}

#[test]
fn instance_has_same_version_number_as_local_package_but_a_different_range_and_has_no_semver_group() {
    let packages = vec![
        package("package-a", Some("1.0.0"), &[]),
        package("package-b", None, &[("dev", "package-a", "~1.0.0")]),
    ];
    let semver_groups = vec![];
    let version_groups = vec![];
    let ctx = visit(packages, semver_groups, version_groups);
    expect_instances(&ctx, vec![
        ExpectedInstance {
            state: state("InvalidLocalVersion"),
            dependency_name: "package-b",
            id: "package-b in /version of package-b",
            actual: "VERSION_IS_MISSING",
            expected: Some("VERSION_IS_MISSING"),
            overridden: None,
        },
        ExpectedInstance {
            state: state("ValidLocal"),
            dependency_name: "package-a",
            id: "package-a in /version of package-a",
            actual: "1.0.0",
            expected: Some("1.0.0"),
            overridden: None,
        },
        ExpectedInstance {
            state: state("MismatchesLocal"),
            dependency_name: "package-a",
            id: "package-a in /devDependencies of package-b",
            actual: "~1.0.0",
            expected: Some("1.0.0"),
            overridden: None,
        },
    ]);
}

#[test]
fn instance_has_same_version_number_as_local_package_but_matches_a_different_but_compatible_semver_group() {
    let packages = vec![
        package("package-a", Some("1.0.0"), &[]),
        package("package-b", None, &[("prod", "package-a", "^1.0.0")]),
    ];
    let semver_groups = vec![AnySemverGroup { range: Some("^".to_string()), ..semver_group() }];
    let version_groups = vec![];
    let ctx = visit(packages, semver_groups, version_groups);
    expect_instances(&ctx, vec![
        ExpectedInstance {
            state: state("InvalidLocalVersion"),
            dependency_name: "package-b",
            id: "package-b in /version of package-b",
            actual: "VERSION_IS_MISSING",
            expected: Some("VERSION_IS_MISSING"),
            overridden: None,
        },
        ExpectedInstance {
            state: state("ValidLocal"),
            dependency_name: "package-a",
            id: "package-a in /version of package-a",
            actual: "1.0.0",
            expected: Some("1.0.0"),
            overridden: None,
        },
        ExpectedInstance {
            state: state("MatchesLocal"),
            dependency_name: "package-a",
            id: "package-a in /dependencies of package-b",
            actual: "^1.0.0",
            expected: Some("^1.0.0"),
            overridden: None,
        },
    ]);
}

#[test]
fn instance_has_same_version_number_as_local_package_but_mismatches_a_different_but_compatible_semver_group() {
    let packages = vec![
        package("package-a", Some("1.0.0"), &[]),
        package("package-b", None, &[("prod", "package-a", "~1.0.0")]),
    ];
    let semver_groups = vec![AnySemverGroup { range: Some("^".to_string()), ..semver_group() }];
    let version_groups = vec![];
    let ctx = visit(packages, semver_groups, version_groups);
    expect_instances(&ctx, vec![
        ExpectedInstance {
            state: state("InvalidLocalVersion"),
            dependency_name: "package-b",
            id: "package-b in /version of package-b",
            actual: "VERSION_IS_MISSING",
            expected: Some("VERSION_IS_MISSING"),
            overridden: None,
        },
        ExpectedInstance {
            state: state("ValidLocal"),
            dependency_name: "package-a",
            id: "package-a in /version of package-a",
            actual: "1.0.0",
            expected: Some("1.0.0"),
            overridden: None,
        },
        ExpectedInstance {
            state: state("SemverRangeMismatch"),
            dependency_name: "package-a",
            id: "package-a in /dependencies of package-b",
            actual: "~1.0.0",
            expected: Some("^1.0.0"),
            overridden: None,
        },
    ]);
}

#[test]
fn instance_has_same_version_number_as_local_package_but_matches_a_different_but_incompatible_semver_group() {
    let packages = vec![
        package("package-a", Some("1.0.0"), &[]),
        package("package-b", None, &[("prod", "package-a", "<1.0.0")]),
    ];
    let semver_groups = vec![AnySemverGroup { range: Some("<".to_string()), ..semver_group() }];
    let version_groups = vec![];
    let ctx = visit(packages, semver_groups, version_groups);
    expect_instances(&ctx, vec![
        ExpectedInstance {
            state: state("InvalidLocalVersion"),
            dependency_name: "package-b",
            id: "package-b in /version of package-b",
            actual: "VERSION_IS_MISSING",
            expected: Some("VERSION_IS_MISSING"),
            overridden: None,
        },
        ExpectedInstance {
            state: state("ValidLocal"),
            dependency_name: "package-a",
            id: "package-a in /version of package-a",
            actual: "1.0.0",
            expected: Some("1.0.0"),
            overridden: None,
        },
        ExpectedInstance {
            state: state("SemverRangeMatchConflictsWithLocalVersion"),
            dependency_name: "package-a",
            id: "package-a in /dependencies of package-b",
            actual: "<1.0.0",
            expected: Some("<1.0.0"),
            overridden: None,
        },
    ]);
}

#[test]
fn instance_has_same_version_number_as_local_package_but_mismatches_a_different_but_incompatible_semver_group() {
    let packages = vec![
        package("package-a", Some("1.0.0"), &[]),
        package("package-b", None, &[("prod", "package-a", "~1.0.0")]),
    ];
    let semver_groups = vec![AnySemverGroup { range: Some(">".to_string()), ..semver_group() }];
    let version_groups = vec![];
    let ctx = visit(packages, semver_groups, version_groups);
    expect_instances(&ctx, vec![
        ExpectedInstance {
            state: state("InvalidLocalVersion"),
            dependency_name: "package-b",
            id: "package-b in /version of package-b",
            actual: "VERSION_IS_MISSING",
            expected: Some("VERSION_IS_MISSING"),
            overridden: None,
        },
        ExpectedInstance {
            state: state("ValidLocal"),
            dependency_name: "package-a",
            id: "package-a in /version of package-a",
            actual: "1.0.0",
            expected: Some("1.0.0"),
            overridden: None,
        },
        ExpectedInstance {
            state: state("SemverRangeMismatchConflictsWithLocalVersion"),
            dependency_name: "package-a",
            id: "package-a in /dependencies of package-b",
            actual: "~1.0.0",
            expected: Some("~1.0.0"),
            overridden: None,
        },
    ]);
}

#[test]
fn reports_one_highest_version_mismatch_in_one_file() {
    let packages = vec![
        package("package-a", None, &[("prod", "wat", "1.0.0"), ("dev", "wat", "2.0.0")]),
    ];
    let semver_groups = vec![];
    let version_groups = vec![];
    let ctx = visit(packages, semver_groups, version_groups);
    expect_instances(&ctx, vec![
        ExpectedInstance {
            state: state("InvalidLocalVersion"),
            dependency_name: "package-a",
            id: "package-a in /version of package-a",
            actual: "VERSION_IS_MISSING",
            expected: Some("VERSION_IS_MISSING"),
            overridden: None,
        },
        ExpectedInstance {
            state: state("EqualsPreferVersion"),
            dependency_name: "wat",
            id: "wat in /devDependencies of package-a",
            actual: "2.0.0",
            expected: Some("2.0.0"),
            overridden: None,
        },
        ExpectedInstance {
            state: state("MismatchesPreferVersion"),
            dependency_name: "wat",
            id: "wat in /dependencies of package-a",
            actual: "1.0.0",
            expected: Some("2.0.0"),
            overridden: None,
        },
    ]);
}

#[test]
fn reports_many_highest_version_mismatches_in_one_file() {
    let packages = vec![
        package("package-a", None, &[("prod", "wat", "0.1.0"), ("dev", "wat", "0.3.0"), ("peer", "wat", "0.2.0")]),
    ];
    let semver_groups = vec![];
    let version_groups = vec![];
    let ctx = visit(packages, semver_groups, version_groups);
    expect_instances(&ctx, vec![
        ExpectedInstance {
            state: state("InvalidLocalVersion"),
            dependency_name: "package-a",
            id: "package-a in /version of package-a",
            actual: "VERSION_IS_MISSING",
            expected: Some("VERSION_IS_MISSING"),
            overridden: None,
        },
        ExpectedInstance {
            state: state("EqualsPreferVersion"),
            dependency_name: "wat",
            id: "wat in /devDependencies of package-a",
            actual: "0.3.0",
            expected: Some("0.3.0"),
            overridden: None,
        },
        ExpectedInstance {
            state: state("MismatchesPreferVersion"),
            dependency_name: "wat",
            id: "wat in /dependencies of package-a",
            actual: "0.1.0",
            expected: Some("0.3.0"),
            overridden: None,
        },
        ExpectedInstance {
            state: state("MismatchesPreferVersion"),
            dependency_name: "wat",
            id: "wat in /peerDependencies of package-a",
            actual: "0.2.0",
            expected: Some("0.3.0"),
            overridden: None,
        },
    ]);
}

#[test]
fn reports_highest_version_mismatches_in_many_files() {
    let packages = vec![
        package("package-a", None, &[("prod", "wat", "1.0.0")]),
        package("package-b", None, &[("prod", "wat", "2.0.0")]),
    ];
    let semver_groups = vec![];
    let version_groups = vec![];
    let ctx = visit(packages, semver_groups, version_groups);
    expect_instances(&ctx, vec![
        ExpectedInstance {
            state: state("InvalidLocalVersion"),
            dependency_name: "package-a",
            id: "package-a in /version of package-a",
            actual: "VERSION_IS_MISSING",
            expected: Some("VERSION_IS_MISSING"),
            overridden: None,
        },
        ExpectedInstance {
            state: state("InvalidLocalVersion"),
            dependency_name: "package-b",
            id: "package-b in /version of package-b",
            actual: "VERSION_IS_MISSING",
            expected: Some("VERSION_IS_MISSING"),
            overridden: None,
        },
        ExpectedInstance {
            state: state("EqualsPreferVersion"),
            dependency_name: "wat",
            id: "wat in /dependencies of package-b",
            actual: "2.0.0",
            expected: Some("2.0.0"),
            overridden: None,
        },
        ExpectedInstance {
            state: state("MismatchesPreferVersion"),
            dependency_name: "wat",
            id: "wat in /dependencies of package-a",
            actual: "1.0.0",
            expected: Some("2.0.0"),
            overridden: None,
        },
    ]);
}

#[test]
fn does_not_report_highest_version_mismatches_when_in_different_version_groups() {
    let packages = vec![
        package("package-a", None, &[("prod", "good", "1.0.0")]),
        package("package-b", None, &[("prod", "good", "2.0.0")]),
    ];
    let semver_groups = vec![];
    let version_groups = vec![AnyVersionGroup { packages: strings(&["package-a"]), ..version_group() }, AnyVersionGroup { packages: strings(&["package-b"]), ..version_group() }];
    let ctx = visit(packages, semver_groups, version_groups);
    expect_instances(&ctx, vec![
        ExpectedInstance {
            state: state("InvalidLocalVersion"),
            dependency_name: "package-a",
            id: "package-a in /version of package-a",
            actual: "VERSION_IS_MISSING",
            expected: Some("VERSION_IS_MISSING"),
            overridden: None,
        },
        ExpectedInstance {
            state: state("InvalidLocalVersion"),
            dependency_name: "package-b",
            id: "package-b in /version of package-b",
            actual: "VERSION_IS_MISSING",
            expected: Some("VERSION_IS_MISSING"),
            overridden: None,
        },
        ExpectedInstance {
            state: state("EqualsPreferVersion"),
            dependency_name: "good",
            id: "good in /dependencies of package-a",
            actual: "1.0.0",
            expected: Some("1.0.0"),
            overridden: None,
        },
        ExpectedInstance {
            state: state("EqualsPreferVersion"),
            dependency_name: "good",
            id: "good in /dependencies of package-b",
            actual: "2.0.0",
            expected: Some("2.0.0"),
            overridden: None,
        },
    ]);
}

#[test]
fn does_not_confuse_highest_version_matches_and_mismatches_of_the_same_dependency() {
    let packages = vec![
        package("package-a", Some("0.0.0"), &[("prod", "mix", "0.3.0"), ("dev", "mix", "0.1.0"), ("peer", "mix", "0.2.0")]),
        package("package-b", Some("0.0.0"), &[("dev", "mix", "0.3.0")]),
    ];
    let semver_groups = vec![];
    let version_groups = vec![];
    let ctx = visit(packages, semver_groups, version_groups);
    expect_instances(&ctx, vec![
        ExpectedInstance {
            state: state("ValidLocal"),
            dependency_name: "package-a",
            id: "package-a in /version of package-a",
            actual: "0.0.0",
            expected: Some("0.0.0"),
            overridden: None,
        },
        ExpectedInstance {
            state: state("ValidLocal"),
            dependency_name: "package-b",
            id: "package-b in /version of package-b",
            actual: "0.0.0",
            expected: Some("0.0.0"),
            overridden: None,
        },
        ExpectedInstance {
            state: state("EqualsPreferVersion"),
            dependency_name: "mix",
            id: "mix in /dependencies of package-a",
            actual: "0.3.0",
            expected: Some("0.3.0"),
            overridden: None,
        },
        ExpectedInstance {
            state: state("EqualsPreferVersion"),
            dependency_name: "mix",
            id: "mix in /devDependencies of package-b",
            actual: "0.3.0",
            expected: Some("0.3.0"),
            overridden: None,
        },
        ExpectedInstance {
            state: state("MismatchesPreferVersion"),
            dependency_name: "mix",
            id: "mix in /devDependencies of package-a",
            actual: "0.1.0",
            expected: Some("0.3.0"),
            overridden: None,
        },
        ExpectedInstance {
            state: state("MismatchesPreferVersion"),
            dependency_name: "mix",
            id: "mix in /peerDependencies of package-a",
            actual: "0.2.0",
            expected: Some("0.3.0"),
            overridden: None,
        },
    ]);
}

#[test]
fn instance_identical_to_highest_semver_and_has_no_semver_group() {
    let packages = vec![
        package("package-a", None, &[("prod", "foo", "1.0.0")]),
        package("package-b", None, &[("prod", "foo", "1.0.0")]),
    ];
    let semver_groups = vec![];
    let version_groups = vec![];
    let ctx = visit(packages, semver_groups, version_groups);
    expect_instances(&ctx, vec![
        ExpectedInstance {
            state: state("InvalidLocalVersion"),
            dependency_name: "package-a",
            id: "package-a in /version of package-a",
            actual: "VERSION_IS_MISSING",
            expected: Some("VERSION_IS_MISSING"),
            overridden: None,
        },
        ExpectedInstance {
            state: state("InvalidLocalVersion"),
            dependency_name: "package-b",
            id: "package-b in /version of package-b",
            actual: "VERSION_IS_MISSING",
            expected: Some("VERSION_IS_MISSING"),
            overridden: None,
        },
        ExpectedInstance {
            state: state("EqualsPreferVersion"),
            dependency_name: "foo",
            id: "foo in /dependencies of package-a",
            actual: "1.0.0",
            expected: Some("1.0.0"),
            overridden: None,
        },
        ExpectedInstance {
            state: state("EqualsPreferVersion"),
            dependency_name: "foo",
            id: "foo in /dependencies of package-b",
            actual: "1.0.0",
            expected: Some("1.0.0"),
            overridden: None,
        },
    ]);
}

#[test]
fn instance_has_different_version_to_highest_semver_and_has_no_semver_group() {
    let packages = vec![
        package("package-a", None, &[("prod", "foo", "1.0.0")]),
        package("package-b", None, &[("prod", "foo", "1.1.0")]),
    ];
    let semver_groups = vec![];
    let version_groups = vec![];
    let ctx = visit(packages, semver_groups, version_groups);
    expect_instances(&ctx, vec![
        ExpectedInstance {
            state: state("InvalidLocalVersion"),
            dependency_name: "package-a",
            id: "package-a in /version of package-a",
            actual: "VERSION_IS_MISSING",
            expected: Some("VERSION_IS_MISSING"),
            overridden: None,
        },
        ExpectedInstance {
            state: state("InvalidLocalVersion"),
            dependency_name: "package-b",
            id: "package-b in /version of package-b",
            actual: "VERSION_IS_MISSING",
            expected: Some("VERSION_IS_MISSING"),
            overridden: None,
        },
        ExpectedInstance {
            state: state("EqualsPreferVersion"),
            dependency_name: "foo",
            id: "foo in /dependencies of package-b",
            actual: "1.1.0",
            expected: Some("1.1.0"),
            overridden: None,
        },
        ExpectedInstance {
            state: state("MismatchesPreferVersion"),
            dependency_name: "foo",
            id: "foo in /dependencies of package-a",
            actual: "1.0.0",
            expected: Some("1.1.0"),
            overridden: None,
        },
    ]);
}

#[test]
fn instance_has_same_version_number_as_highest_semver_but_a_different_range_and_has_no_semver_group() {
    let packages = vec![
        package("package-a", None, &[("prod", "foo", "^1.0.0")]),
        package("package-b", None, &[("dev", "foo", "~1.0.0")]),
    ];
    let semver_groups = vec![];
    let version_groups = vec![];
    let ctx = visit(packages, semver_groups, version_groups);
    expect_instances(&ctx, vec![
        ExpectedInstance {
            state: state("InvalidLocalVersion"),
            dependency_name: "package-a",
            id: "package-a in /version of package-a",
            actual: "VERSION_IS_MISSING",
            expected: Some("VERSION_IS_MISSING"),
            overridden: None,
        },
        ExpectedInstance {
            state: state("InvalidLocalVersion"),
            dependency_name: "package-b",
            id: "package-b in /version of package-b",
            actual: "VERSION_IS_MISSING",
            expected: Some("VERSION_IS_MISSING"),
            overridden: None,
        },
        ExpectedInstance {
            state: state("EqualsPreferVersion"),
            dependency_name: "foo",
            id: "foo in /dependencies of package-a",
            actual: "^1.0.0",
            expected: Some("^1.0.0"),
            overridden: None,
        },
        ExpectedInstance {
            state: state("MismatchesPreferVersion"),
            dependency_name: "foo",
            id: "foo in /devDependencies of package-b",
            actual: "~1.0.0",
            expected: Some("^1.0.0"),
            overridden: None,
        },
    ]);
}

#[test]
fn instance_has_same_version_number_as_highest_semver_but_matches_a_different_but_compatible_semver_group() {
    let packages = vec![
        package("package-a", None, &[("prod", "foo", "^1.0.0")]),
        package("package-b", None, &[("prod", "foo", "~1.0.0")]),
    ];
    let semver_groups = vec![AnySemverGroup { packages: strings(&["package-b"]), range: Some("~".to_string()), ..semver_group() }];
    let version_groups = vec![];
    let ctx = visit(packages, semver_groups, version_groups);
    expect_instances(&ctx, vec![
        ExpectedInstance {
            state: state("InvalidLocalVersion"),
            dependency_name: "package-a",
            id: "package-a in /version of package-a",
            actual: "VERSION_IS_MISSING",
            expected: Some("VERSION_IS_MISSING"),
            overridden: None,
        },
        ExpectedInstance {
            state: state("InvalidLocalVersion"),
            dependency_name: "package-b",
            id: "package-b in /version of package-b",
            actual: "VERSION_IS_MISSING",
            expected: Some("VERSION_IS_MISSING"),
            overridden: None,
        },
        ExpectedInstance {
            state: state("MatchesPreferVersion"),
            dependency_name: "foo",
            id: "foo in /dependencies of package-b",
            actual: "~1.0.0",
            expected: Some("~1.0.0"),
            overridden: None,
        },
        ExpectedInstance {
            state: state("EqualsPreferVersion"),
            dependency_name: "foo",
            id: "foo in /dependencies of package-a",
            actual: "^1.0.0",
            expected: Some("^1.0.0"),
            overridden: None,
        },
    ]);
}

#[test]
fn instance_has_same_version_number_as_highest_semver_but_mismatches_a_different_but_compatible_semver_group() {
    let packages = vec![
        package("package-a", None, &[("prod", "foo", ">=1.0.0")]),
        package("package-b", None, &[("prod", "foo", "~1.0.0")]),
    ];
    let semver_groups = vec![AnySemverGroup { packages: strings(&["package-b"]), range: Some("^".to_string()), ..semver_group() }];
    let version_groups = vec![];
    let ctx = visit(packages, semver_groups, version_groups);
    expect_instances(&ctx, vec![
        ExpectedInstance {
            state: state("InvalidLocalVersion"),
            dependency_name: "package-a",
            id: "package-a in /version of package-a",
            actual: "VERSION_IS_MISSING",
            expected: Some("VERSION_IS_MISSING"),
            overridden: None,
        },
        ExpectedInstance {
            state: state("InvalidLocalVersion"),
            dependency_name: "package-b",
            id: "package-b in /version of package-b",
            actual: "VERSION_IS_MISSING",
            expected: Some("VERSION_IS_MISSING"),
            overridden: None,
        },
        ExpectedInstance {
            state: state("EqualsPreferVersion"),
            dependency_name: "foo",
            id: "foo in /dependencies of package-a",
            actual: ">=1.0.0",
            expected: Some(">=1.0.0"),
            overridden: None,
        },
        ExpectedInstance {
            state: state("SemverRangeMismatch"),
            dependency_name: "foo",
            id: "foo in /dependencies of package-b",
            actual: "~1.0.0",
            expected: Some("^1.0.0"),
            overridden: None,
        },
    ]);
}

#[test]
fn instance_has_same_version_number_as_highest_semver_but_matches_a_different_but_incompatible_semver_group() {
    let packages = vec![
        package("package-a", None, &[("prod", "foo", "1.0.0")]),
        package("package-b", None, &[("prod", "foo", "<1.0.0")]),
    ];
    let semver_groups = vec![AnySemverGroup { packages: strings(&["package-b"]), range: Some("<".to_string()), ..semver_group() }];
    let version_groups = vec![];
    let ctx = visit(packages, semver_groups, version_groups);
    expect_instances(&ctx, vec![
        ExpectedInstance {
            state: state("InvalidLocalVersion"),
            dependency_name: "package-a",
            id: "package-a in /version of package-a",
            actual: "VERSION_IS_MISSING",
            expected: Some("VERSION_IS_MISSING"),
            overridden: None,
        },
        ExpectedInstance {
            state: state("InvalidLocalVersion"),
            dependency_name: "package-b",
            id: "package-b in /version of package-b",
            actual: "VERSION_IS_MISSING",
            expected: Some("VERSION_IS_MISSING"),
            overridden: None,
        },
        ExpectedInstance {
            state: state("EqualsPreferVersion"),
            dependency_name: "foo",
            id: "foo in /dependencies of package-a",
            actual: "1.0.0",
            expected: Some("1.0.0"),
            overridden: None,
        },
        ExpectedInstance {
            state: state("SemverRangeMatchConflictsWithPreferVersion"),
            dependency_name: "foo",
            id: "foo in /dependencies of package-b",
            actual: "<1.0.0",
            expected: Some("<1.0.0"),
            overridden: None,
        },
    ]);
}

#[test]
fn instance_has_same_version_number_as_highest_semver_but_mismatches_a_different_but_incompatible_semver_group() {
    let packages = vec![
        package("package-a", None, &[("prod", "foo", "~1.0.0")]),
        package("package-b", None, &[("prod", "foo", "1.0.0")]),
    ];
    let semver_groups = vec![AnySemverGroup { packages: strings(&["package-b"]), range: Some("<".to_string()), ..semver_group() }];
    let version_groups = vec![];
    let ctx = visit(packages, semver_groups, version_groups);
    expect_instances(&ctx, vec![
        ExpectedInstance {
            state: state("InvalidLocalVersion"),
            dependency_name: "package-a",
            id: "package-a in /version of package-a",
            actual: "VERSION_IS_MISSING",
            expected: Some("VERSION_IS_MISSING"),
            overridden: None,
        },
        ExpectedInstance {
            state: state("InvalidLocalVersion"),
            dependency_name: "package-b",
            id: "package-b in /version of package-b",
            actual: "VERSION_IS_MISSING",
            expected: Some("VERSION_IS_MISSING"),
            overridden: None,
        },
        ExpectedInstance {
            state: state("EqualsPreferVersion"),
            dependency_name: "foo",
            id: "foo in /dependencies of package-a",
            actual: "~1.0.0",
            expected: Some("~1.0.0"),
            overridden: None,
        },
        ExpectedInstance {
            state: state("SemverRangeMismatchConflictsWithPreferVersion"),
            dependency_name: "foo",
            id: "foo in /dependencies of package-b",
            actual: "1.0.0",
            expected: Some("1.0.0"),
            overridden: None,
        },
    ]);
}

#[test]
fn no_instances_are_semver_but_all_are_identical() {
    let packages = vec![
        package("package-a", None, &[("prod", "foo", "workspace:*")]),
        package("package-b", None, &[("prod", "foo", "workspace:*")]),
    ];
    let semver_groups = vec![];
    let version_groups = vec![];
    let ctx = visit(packages, semver_groups, version_groups);
    expect_instances(&ctx, vec![
        ExpectedInstance {
            state: state("InvalidLocalVersion"),
            dependency_name: "package-a",
            id: "package-a in /version of package-a",
            actual: "VERSION_IS_MISSING",
            expected: Some("VERSION_IS_MISSING"),
            overridden: None,
        },
        ExpectedInstance {
            state: state("InvalidLocalVersion"),
            dependency_name: "package-b",
            id: "package-b in /version of package-b",
            actual: "VERSION_IS_MISSING",
            expected: Some("VERSION_IS_MISSING"),
            overridden: None,
        },
        ExpectedInstance {
            state: state("EqualsNonSemverPreferVersion"),
            dependency_name: "foo",
            id: "foo in /dependencies of package-a",
            actual: "workspace:*",
            expected: Some("workspace:*"),
            overridden: None,
        },
        ExpectedInstance {
            state: state("EqualsNonSemverPreferVersion"),
            dependency_name: "foo",
            id: "foo in /dependencies of package-b",
            actual: "workspace:*",
            expected: Some("workspace:*"),
            overridden: None,
        },
    ]);
}

#[test]
fn no_instances_are_semver_and_they_differ() {
    let packages = vec![
        package("package-a", None, &[("prod", "foo", "workspace:*")]),
        package("package-b", None, &[("prod", "foo", "workspace:^")]),
    ];
    let semver_groups = vec![];
    let version_groups = vec![];
    let ctx = visit(packages, semver_groups, version_groups);
    expect_instances(&ctx, vec![
        ExpectedInstance {
            state: state("InvalidLocalVersion"),
            dependency_name: "package-a",
            id: "package-a in /version of package-a",
            actual: "VERSION_IS_MISSING",
            expected: Some("VERSION_IS_MISSING"),
            overridden: None,
        },
        ExpectedInstance {
            state: state("InvalidLocalVersion"),
            dependency_name: "package-b",
            id: "package-b in /version of package-b",
            actual: "VERSION_IS_MISSING",
            expected: Some("VERSION_IS_MISSING"),
            overridden: None,
        },
        ExpectedInstance {
            state: state("MismatchesNonSemverPreferVersion"),
            dependency_name: "foo",
            id: "foo in /dependencies of package-a",
            actual: "workspace:*",
            expected: Some("workspace:*"),
            overridden: None,
        },
        ExpectedInstance {
            state: state("MismatchesNonSemverPreferVersion"),
            dependency_name: "foo",
            id: "foo in /dependencies of package-b",
            actual: "workspace:^",
            expected: Some("workspace:^"),
            overridden: None,
        },
    ]);
}

#[test]
fn all_instances_are_ignored() {
    let packages = vec![
        package("package-a", Some("1.0.0"), &[]),
        package("package-b", None, &[("prod", "package-a", "1.1.0")]),
    ];
    let semver_groups = vec![];
    let version_groups = vec![AnyVersionGroup { is_ignored: Some(true), ..version_group() }];
    let ctx = visit(packages, semver_groups, version_groups);
    expect_instances(&ctx, vec![
        ExpectedInstance {
            state: state("Ignored"),
            dependency_name: "package-b",
            id: "package-b in /version of package-b",
            actual: "VERSION_IS_MISSING",
            expected: Some("VERSION_IS_MISSING"),
            overridden: None,
        },
        ExpectedInstance {
            state: state("Ignored"),
            dependency_name: "package-a",
            id: "package-a in /version of package-a",
            actual: "1.0.0",
            expected: Some("1.0.0"),
            overridden: None,
        },
        ExpectedInstance {
            state: state("Ignored"),
            dependency_name: "package-a",
            id: "package-a in /dependencies of package-b",
            actual: "1.1.0",
            expected: Some("1.1.0"),
            overridden: None,
        },
    ]);
}

#[test]
fn refuses_to_pin_local_version() {
    let packages = vec![
        package("package-a", Some("1.0.0"), &[]),
        package("package-b", None, &[("prod", "package-a", "1.1.0")]),
    ];
    let semver_groups = vec![];
    let version_groups = vec![AnyVersionGroup { dependencies: strings(&["package-a"]), pin_version: Some("1.2.0".to_string()), ..version_group() }];
    let ctx = visit(packages, semver_groups, version_groups);
    expect_instances(&ctx, vec![
        ExpectedInstance {
            state: state("InvalidLocalVersion"),
            dependency_name: "package-b",
            id: "package-b in /version of package-b",
            actual: "VERSION_IS_MISSING",
            expected: Some("VERSION_IS_MISSING"),
            overridden: None,
        },
        ExpectedInstance {
            state: state("RefuseToPinLocal"),
            dependency_name: "package-a",
            id: "package-a in /version of package-a",
            actual: "1.0.0",
            expected: Some("1.0.0"),
            overridden: None,
        },
        ExpectedInstance {
            state: state("MismatchesPin"),
            dependency_name: "package-a",
            id: "package-a in /dependencies of package-b",
            actual: "1.1.0",
            expected: Some("1.2.0"),
            overridden: None,
        },
    ]);
}

#[test]
fn a_pinned_version_will_replace_anything_different() {
    let packages = vec![
        package("package-a", Some("1.0.0"), &[("dev", "foo", "workspace:*")]),
    ];
    let semver_groups = vec![];
    let version_groups = vec![AnyVersionGroup { dependencies: strings(&["foo"]), pin_version: Some("1.2.0".to_string()), ..version_group() }];
    let ctx = visit(packages, semver_groups, version_groups);
    expect_instances(&ctx, vec![
        ExpectedInstance {
            state: state("ValidLocal"),
            dependency_name: "package-a",
            id: "package-a in /version of package-a",
            actual: "1.0.0",
            expected: Some("1.0.0"),
            overridden: None,
        },
        ExpectedInstance {
            state: state("MismatchesPin"),
            dependency_name: "foo",
            id: "foo in /devDependencies of package-a",
            actual: "workspace:*",
            expected: Some("1.2.0"),
            overridden: None,
        },
    ]);
}

#[test]
fn pin_version_will_override_instance_with_same_version_number_as_pinned_but_matching_a_semver_group() {
    let packages = vec![
        package("package-a", Some("1.0.0"), &[("dev", "foo", "^1.0.0")]),
    ];
    let semver_groups = vec![AnySemverGroup { dependencies: strings(&["foo"]), range: Some("^".to_string()), ..semver_group() }];
    let version_groups = vec![AnyVersionGroup { dependencies: strings(&["foo"]), pin_version: Some("1.0.0".to_string()), ..version_group() }];
    let ctx = visit(packages, semver_groups, version_groups);
    expect_instances(&ctx, vec![
        ExpectedInstance {
            state: state("PinMatchOverridesSemverRangeMatch"),
            dependency_name: "foo",
            id: "foo in /devDependencies of package-a",
            actual: "^1.0.0",
            expected: Some("1.0.0"),
            overridden: Some("^1.0.0"),
        },
        ExpectedInstance {
            state: state("ValidLocal"),
            dependency_name: "package-a",
            id: "package-a in /version of package-a",
            actual: "1.0.0",
            expected: Some("1.0.0"),
            overridden: None,
        },
    ]);
}

#[test]
fn pin_version_will_override_instance_with_same_version_number_as_pinned_but_mismatching_a_semver_group() {
    let packages = vec![
        package("package-a", Some("1.0.0"), &[("dev", "foo", ">=1.0.0")]),
    ];
    let semver_groups = vec![AnySemverGroup { dependencies: strings(&["foo"]), range: Some("^".to_string()), ..semver_group() }];
    let version_groups = vec![AnyVersionGroup { dependencies: strings(&["foo"]), pin_version: Some("1.0.0".to_string()), ..version_group() }];
    let ctx = visit(packages, semver_groups, version_groups);
    expect_instances(&ctx, vec![
        ExpectedInstance {
            state: state("PinMatchOverridesSemverRangeMismatch"),
            dependency_name: "foo",
            id: "foo in /devDependencies of package-a",
            actual: ">=1.0.0",
            expected: Some("1.0.0"),
            overridden: Some("^1.0.0"),
        },
        ExpectedInstance {
            state: state("ValidLocal"),
            dependency_name: "package-a",
            id: "package-a in /version of package-a",
            actual: "1.0.0",
            expected: Some("1.0.0"),
            overridden: None,
        },
    ]);
}

#[test]
fn pin_version_will_override_instance_with_same_version_number_as_pinned_but_a_different_range_and_no_semver_group() {
    let packages = vec![
        package("package-a", Some("1.0.0"), &[("dev", "foo", "^1.0.0")]),
    ];
    let semver_groups = vec![];
    let version_groups = vec![AnyVersionGroup { dependencies: strings(&["foo"]), pin_version: Some("1.0.0".to_string()), ..version_group() }];
    let ctx = visit(packages, semver_groups, version_groups);
    expect_instances(&ctx, vec![
        ExpectedInstance {
            state: state("ValidLocal"),
            dependency_name: "package-a",
            id: "package-a in /version of package-a",
            actual: "1.0.0",
            expected: Some("1.0.0"),
            overridden: None,
        },
        ExpectedInstance {
            state: state("MismatchesPin"),
            dependency_name: "foo",
            id: "foo in /devDependencies of package-a",
            actual: "^1.0.0",
            expected: Some("1.0.0"),
            overridden: None,
        },
    ]);
}

#[test]
fn an_already_pinned_version_is_valid() {
    let packages = vec![
        package("package-a", Some("1.0.0"), &[("dev", "foo", "1.2.0")]),
    ];
    let semver_groups = vec![];
    let version_groups = vec![AnyVersionGroup { dependencies: strings(&["foo"]), pin_version: Some("1.2.0".to_string()), ..version_group() }];
    let ctx = visit(packages, semver_groups, version_groups);
    expect_instances(&ctx, vec![
        ExpectedInstance {
            state: state("ValidLocal"),
            dependency_name: "package-a",
            id: "package-a in /version of package-a",
            actual: "1.0.0",
            expected: Some("1.0.0"),
            overridden: None,
        },
        ExpectedInstance {
            state: state("EqualsPin"),
            dependency_name: "foo",
            id: "foo in /devDependencies of package-a",
            actual: "1.2.0",
            expected: Some("1.2.0"),
            overridden: None,
        },
    ]);
}

#[test]
fn refuses_to_ban_local_version() {
    let packages = vec![
        package("package-a", Some("1.0.0"), &[]),
        package("package-b", None, &[("prod", "package-a", "1.1.0")]),
    ];
    let semver_groups = vec![];
    let version_groups = vec![AnyVersionGroup { dependencies: strings(&["package-a"]), is_banned: Some(true), ..version_group() }];
    let ctx = visit(packages, semver_groups, version_groups);
    expect_instances(&ctx, vec![
        ExpectedInstance {
            state: state("InvalidLocalVersion"),
            dependency_name: "package-b",
            id: "package-b in /version of package-b",
            actual: "VERSION_IS_MISSING",
            expected: Some("VERSION_IS_MISSING"),
            overridden: None,
        },
        ExpectedInstance {
            state: state("RefuseToBanLocal"),
            dependency_name: "package-a",
            id: "package-a in /version of package-a",
            actual: "1.0.0",
            expected: Some("1.0.0"),
            overridden: None,
        },
        ExpectedInstance {
            state: state("Banned"),
            dependency_name: "package-a",
            id: "package-a in /dependencies of package-b",
            actual: "1.1.0",
            expected: Some("VERSION_IS_MISSING"),
            overridden: None,
        },
    ]);
}

#[test]
fn instance_in_a_same_range_group_satisfies_every_other_and_there_are_no_semver_groups() {
    let packages = vec![
        package("package-a", None, &[("prod", "foo", ">=1.0.0")]),
        package("package-b", None, &[("prod", "foo", "<=2.0.0")]),
    ];
    let semver_groups = vec![];
    let version_groups = vec![AnyVersionGroup { dependency_types: strings(&["local"]), is_ignored: Some(true), ..version_group() }, AnyVersionGroup { dependencies: strings(&["foo"]), policy: Some("sameRange".to_string()), ..version_group() }];
    let ctx = visit(packages, semver_groups, version_groups);
    expect_instances(&ctx, vec![
        ExpectedInstance {
            state: state("Ignored"),
            dependency_name: "package-a",
            id: "package-a in /version of package-a",
            actual: "VERSION_IS_MISSING",
            expected: Some("VERSION_IS_MISSING"),
            overridden: None,
        },
        ExpectedInstance {
            state: state("Ignored"),
            dependency_name: "package-b",
            id: "package-b in /version of package-b",
            actual: "VERSION_IS_MISSING",
            expected: Some("VERSION_IS_MISSING"),
            overridden: None,
        },
        ExpectedInstance {
            state: state("MatchesSameRangeGroup"),
            dependency_name: "foo",
            id: "foo in /dependencies of package-a",
            actual: ">=1.0.0",
            expected: Some(">=1.0.0"),
            overridden: None,
        },
        ExpectedInstance {
            state: state("MatchesSameRangeGroup"),
            dependency_name: "foo",
            id: "foo in /dependencies of package-b",
            actual: "<=2.0.0",
            expected: Some("<=2.0.0"),
            overridden: None,
        },
    ]);
}

#[test]
fn instance_in_a_same_range_group_satisfies_every_other_and_matches_its_semver_group() {
    let packages = vec![
        package("package-a", None, &[("prod", "foo", ">=1.0.0")]),
        package("package-b", None, &[("prod", "foo", "^1.2.3")]),
    ];
    let semver_groups = vec![AnySemverGroup { packages: strings(&["package-b"]), range: Some("^".to_string()), ..semver_group() }];
    let version_groups = vec![AnyVersionGroup { dependency_types: strings(&["local"]), is_ignored: Some(true), ..version_group() }, AnyVersionGroup { dependencies: strings(&["foo"]), policy: Some("sameRange".to_string()), ..version_group() }];
    let ctx = visit(packages, semver_groups, version_groups);
    expect_instances(&ctx, vec![
        ExpectedInstance {
            state: state("Ignored"),
            dependency_name: "package-a",
            id: "package-a in /version of package-a",
            actual: "VERSION_IS_MISSING",
            expected: Some("VERSION_IS_MISSING"),
            overridden: None,
        },
        ExpectedInstance {
            state: state("Ignored"),
            dependency_name: "package-b",
            id: "package-b in /version of package-b",
            actual: "VERSION_IS_MISSING",
            expected: Some("VERSION_IS_MISSING"),
            overridden: None,
        },
        ExpectedInstance {
            state: state("MatchesSameRangeGroup"),
            dependency_name: "foo",
            id: "foo in /dependencies of package-a",
            actual: ">=1.0.0",
            expected: Some(">=1.0.0"),
            overridden: None,
        },
        ExpectedInstance {
            state: state("MatchesSameRangeGroup"),
            dependency_name: "foo",
            id: "foo in /dependencies of package-b",
            actual: "^1.2.3",
            expected: Some("^1.2.3"),
            overridden: None,
        },
    ]);
}

#[test]
fn instance_in_a_same_range_group_satisfies_every_other_but_mismatches_its_semver_group() {
    let packages = vec![
        package("package-a", None, &[("prod", "foo", ">=1.0.0")]),
        package("package-b", None, &[("prod", "foo", "^1.2.3")]),
    ];
    let semver_groups = vec![AnySemverGroup { packages: strings(&["package-b"]), range: Some("~".to_string()), ..semver_group() }];
    let version_groups = vec![AnyVersionGroup { dependency_types: strings(&["local"]), is_ignored: Some(true), ..version_group() }, AnyVersionGroup { dependencies: strings(&["foo"]), policy: Some("sameRange".to_string()), ..version_group() }];
    let ctx = visit(packages, semver_groups, version_groups);
    expect_instances(&ctx, vec![
        ExpectedInstance {
            state: state("Ignored"),
            dependency_name: "package-a",
            id: "package-a in /version of package-a",
            actual: "VERSION_IS_MISSING",
            expected: Some("VERSION_IS_MISSING"),
            overridden: None,
        },
        ExpectedInstance {
            state: state("Ignored"),
            dependency_name: "package-b",
            id: "package-b in /version of package-b",
            actual: "VERSION_IS_MISSING",
            expected: Some("VERSION_IS_MISSING"),
            overridden: None,
        },
        ExpectedInstance {
            state: state("MatchesSameRangeGroup"),
            dependency_name: "foo",
            id: "foo in /dependencies of package-a",
            actual: ">=1.0.0",
            expected: Some(">=1.0.0"),
            overridden: None,
        },
        ExpectedInstance {
            state: state("SemverRangeMismatch"),
            dependency_name: "foo",
            id: "foo in /dependencies of package-b",
            actual: "^1.2.3",
            expected: Some("~1.2.3"),
            overridden: None,
        },
    ]);
}

#[test]
fn instance_in_a_same_range_group_does_not_satisfy_another() {
    let packages = vec![
        package("package-a", None, &[("prod", "foo", ">=1.0.0")]),
        package("package-b", None, &[("prod", "foo", "<1.0.0")]),
    ];
    let semver_groups = vec![];
    let version_groups = vec![AnyVersionGroup { dependency_types: strings(&["local"]), is_ignored: Some(true), ..version_group() }, AnyVersionGroup { dependencies: strings(&["foo"]), policy: Some("sameRange".to_string()), ..version_group() }];
    let ctx = visit(packages, semver_groups, version_groups);
    expect_instances(&ctx, vec![
        ExpectedInstance {
            state: state("Ignored"),
            dependency_name: "package-a",
            id: "package-a in /version of package-a",
            actual: "VERSION_IS_MISSING",
            expected: Some("VERSION_IS_MISSING"),
            overridden: None,
        },
        ExpectedInstance {
            state: state("Ignored"),
            dependency_name: "package-b",
            id: "package-b in /version of package-b",
            actual: "VERSION_IS_MISSING",
            expected: Some("VERSION_IS_MISSING"),
            overridden: None,
        },
        ExpectedInstance {
            state: state("MismatchesSameRangeGroup"),
            dependency_name: "foo",
            id: "foo in /dependencies of package-a",
            actual: ">=1.0.0",
            expected: Some(">=1.0.0"),
            overridden: None,
        },
        ExpectedInstance {
            state: state("MismatchesSameRangeGroup"),
            dependency_name: "foo",
            id: "foo in /dependencies of package-b",
            actual: "<1.0.0",
            expected: Some("<1.0.0"),
            overridden: None,
        },
    ]);
}

#[test]
fn instance_identical_to_snapped_to_and_has_no_semver_group() {
    let packages = vec![
        package("leader", None, &[("prod", "foo", "1.0.0")]),
        package("follower", None, &[("prod", "foo", "1.0.0")]),
    ];
    let semver_groups = vec![];
    let version_groups = vec![AnyVersionGroup { dependencies: strings(&["foo"]), packages: strings(&["follower"]), snap_to: Some(strings(&["leader"])), ..version_group() }];
    let ctx = visit(packages, semver_groups, version_groups);
    expect_instances(&ctx, vec![
        ExpectedInstance {
            state: state("InvalidLocalVersion"),
            dependency_name: "leader",
            id: "leader in /version of leader",
            actual: "VERSION_IS_MISSING",
            expected: Some("VERSION_IS_MISSING"),
            overridden: None,
        },
        ExpectedInstance {
            state: state("InvalidLocalVersion"),
            dependency_name: "follower",
            id: "follower in /version of follower",
            actual: "VERSION_IS_MISSING",
            expected: Some("VERSION_IS_MISSING"),
            overridden: None,
        },
        ExpectedInstance {
            state: state("EqualsPreferVersion"),
            dependency_name: "foo",
            id: "foo in /dependencies of leader",
            actual: "1.0.0",
            expected: Some("1.0.0"),
            overridden: None,
        },
        ExpectedInstance {
            state: state("EqualsSnapToVersion"),
            dependency_name: "foo",
            id: "foo in /dependencies of follower",
            actual: "1.0.0",
            expected: Some("1.0.0"),
            overridden: None,
        },
    ]);
}

#[test]
fn instance_has_different_version_to_snapped_to_and_has_no_semver_group() {
    let packages = vec![
        package("leader", None, &[("prod", "foo", "1.0.0")]),
        package("follower", None, &[("prod", "foo", "1.1.0")]),
    ];
    let semver_groups = vec![];
    let version_groups = vec![AnyVersionGroup { dependencies: strings(&["foo"]), packages: strings(&["follower"]), snap_to: Some(strings(&["leader"])), ..version_group() }];
    let ctx = visit(packages, semver_groups, version_groups);
    expect_instances(&ctx, vec![
        ExpectedInstance {
            state: state("InvalidLocalVersion"),
            dependency_name: "leader",
            id: "leader in /version of leader",
            actual: "VERSION_IS_MISSING",
            expected: Some("VERSION_IS_MISSING"),
            overridden: None,
        },
        ExpectedInstance {
            state: state("InvalidLocalVersion"),
            dependency_name: "follower",
            id: "follower in /version of follower",
            actual: "VERSION_IS_MISSING",
            expected: Some("VERSION_IS_MISSING"),
            overridden: None,
        },
        ExpectedInstance {
            state: state("EqualsPreferVersion"),
            dependency_name: "foo",
            id: "foo in /dependencies of leader",
            actual: "1.0.0",
            expected: Some("1.0.0"),
            overridden: None,
        },
        ExpectedInstance {
            state: state("MismatchesSnapToVersion"),
            dependency_name: "foo",
            id: "foo in /dependencies of follower",
            actual: "1.1.0",
            expected: Some("1.0.0"),
            overridden: None,
        },
    ]);
}

#[test]
fn instance_has_same_version_number_as_snapped_to_but_a_different_range_and_has_no_semver_group() {
    let packages = vec![
        package("leader", None, &[("prod", "foo", "^1.0.0")]),
        package("follower", None, &[("dev", "foo", "~1.0.0")]),
    ];
    let semver_groups = vec![];
    let version_groups = vec![AnyVersionGroup { dependencies: strings(&["foo"]), packages: strings(&["follower"]), snap_to: Some(strings(&["leader"])), ..version_group() }];
    let ctx = visit(packages, semver_groups, version_groups);
    expect_instances(&ctx, vec![
        ExpectedInstance {
            state: state("InvalidLocalVersion"),
            dependency_name: "leader",
            id: "leader in /version of leader",
            actual: "VERSION_IS_MISSING",
            expected: Some("VERSION_IS_MISSING"),
            overridden: None,
        },
        ExpectedInstance {
            state: state("InvalidLocalVersion"),
            dependency_name: "follower",
            id: "follower in /version of follower",
            actual: "VERSION_IS_MISSING",
            expected: Some("VERSION_IS_MISSING"),
            overridden: None,
        },
        ExpectedInstance {
            state: state("EqualsPreferVersion"),
            dependency_name: "foo",
            id: "foo in /dependencies of leader",
            actual: "^1.0.0",
            expected: Some("^1.0.0"),
            overridden: None,
        },
        ExpectedInstance {
            state: state("MismatchesSnapToVersion"),
            dependency_name: "foo",
            id: "foo in /devDependencies of follower",
            actual: "~1.0.0",
            expected: Some("^1.0.0"),
            overridden: None,
        },
    ]);
}

#[test]
fn instance_has_same_version_number_as_snapped_to_but_matches_a_different_but_compatible_semver_group() {
    let packages = vec![
        package("leader", None, &[("prod", "foo", "^1.0.0")]),
        package("follower", None, &[("prod", "foo", "~1.0.0")]),
    ];
    let semver_groups = vec![AnySemverGroup { packages: strings(&["follower"]), range: Some("~".to_string()), ..semver_group() }];
    let version_groups = vec![AnyVersionGroup { dependencies: strings(&["foo"]), packages: strings(&["follower"]), snap_to: Some(strings(&["leader"])), ..version_group() }];
    let ctx = visit(packages, semver_groups, version_groups);
    expect_instances(&ctx, vec![
        ExpectedInstance {
            state: state("InvalidLocalVersion"),
            dependency_name: "leader",
            id: "leader in /version of leader",
            actual: "VERSION_IS_MISSING",
            expected: Some("VERSION_IS_MISSING"),
            overridden: None,
        },
        ExpectedInstance {
            state: state("InvalidLocalVersion"),
            dependency_name: "follower",
            id: "follower in /version of follower",
            actual: "VERSION_IS_MISSING",
            expected: Some("VERSION_IS_MISSING"),
            overridden: None,
        },
        ExpectedInstance {
            state: state("MatchesSnapToVersion"),
            dependency_name: "foo",
            id: "foo in /dependencies of follower",
            actual: "~1.0.0",
            expected: Some("~1.0.0"),
            overridden: None,
        },
        ExpectedInstance {
            state: state("EqualsPreferVersion"),
            dependency_name: "foo",
            id: "foo in /dependencies of leader",
            actual: "^1.0.0",
            expected: Some("^1.0.0"),
            overridden: None,
        },
    ]);
}

#[test]
fn instance_has_same_version_number_as_snapped_to_but_mismatches_a_different_but_compatible_semver_group() {
    let packages = vec![
        package("leader", None, &[("prod", "foo", ">=1.0.0")]),
        package("follower", None, &[("prod", "foo", "~1.0.0")]),
    ];
    let semver_groups = vec![AnySemverGroup { packages: strings(&["follower"]), range: Some("^".to_string()), ..semver_group() }];
    let version_groups = vec![AnyVersionGroup { dependencies: strings(&["foo"]), packages: strings(&["follower"]), snap_to: Some(strings(&["leader"])), ..version_group() }];
    let ctx = visit(packages, semver_groups, version_groups);
    expect_instances(&ctx, vec![
        ExpectedInstance {
            state: state("InvalidLocalVersion"),
            dependency_name: "leader",
            id: "leader in /version of leader",
            actual: "VERSION_IS_MISSING",
            expected: Some("VERSION_IS_MISSING"),
            overridden: None,
        },
        ExpectedInstance {
            state: state("InvalidLocalVersion"),
            dependency_name: "follower",
            id: "follower in /version of follower",
            actual: "VERSION_IS_MISSING",
            expected: Some("VERSION_IS_MISSING"),
            overridden: None,
        },
        ExpectedInstance {
            state: state("EqualsPreferVersion"),
            dependency_name: "foo",
            id: "foo in /dependencies of leader",
            actual: ">=1.0.0",
            expected: Some(">=1.0.0"),
            overridden: None,
        },
        ExpectedInstance {
            state: state("SemverRangeMismatch"),
            dependency_name: "foo",
            id: "foo in /dependencies of follower",
            actual: "~1.0.0",
            expected: Some("^1.0.0"),
            overridden: None,
        },
    ]);
}

#[test]
fn instance_has_same_version_number_as_snapped_to_but_matches_a_different_but_incompatible_semver_group() {
    let packages = vec![
        package("leader", None, &[("prod", "foo", "1.0.0")]),
        package("follower", None, &[("prod", "foo", "<1.0.0")]),
    ];
    let semver_groups = vec![AnySemverGroup { packages: strings(&["follower"]), range: Some("<".to_string()), ..semver_group() }];
    let version_groups = vec![AnyVersionGroup { dependencies: strings(&["foo"]), packages: strings(&["follower"]), snap_to: Some(strings(&["leader"])), ..version_group() }];
    let ctx = visit(packages, semver_groups, version_groups);
    expect_instances(&ctx, vec![
        ExpectedInstance {
            state: state("InvalidLocalVersion"),
            dependency_name: "leader",
            id: "leader in /version of leader",
            actual: "VERSION_IS_MISSING",
            expected: Some("VERSION_IS_MISSING"),
            overridden: None,
        },
        ExpectedInstance {
            state: state("InvalidLocalVersion"),
            dependency_name: "follower",
            id: "follower in /version of follower",
            actual: "VERSION_IS_MISSING",
            expected: Some("VERSION_IS_MISSING"),
            overridden: None,
        },
        ExpectedInstance {
            state: state("EqualsPreferVersion"),
            dependency_name: "foo",
            id: "foo in /dependencies of leader",
            actual: "1.0.0",
            expected: Some("1.0.0"),
            overridden: None,
        },
        ExpectedInstance {
            state: state("SemverRangeMatchConflictsWithSnapToVersion"),
            dependency_name: "foo",
            id: "foo in /dependencies of follower",
            actual: "<1.0.0",
            expected: Some("<1.0.0"),
            overridden: None,
        },
    ]);
}

#[test]
fn instance_has_same_version_number_as_snapped_to_but_mismatches_a_different_but_incompatible_semver_group() {
    let packages = vec![
        package("leader", None, &[("prod", "foo", "~1.0.0")]),
        package("follower", None, &[("prod", "foo", "1.0.0")]),
    ];
    let semver_groups = vec![AnySemverGroup { packages: strings(&["follower"]), range: Some("<".to_string()), ..semver_group() }];
    let version_groups = vec![AnyVersionGroup { dependencies: strings(&["foo"]), packages: strings(&["follower"]), snap_to: Some(strings(&["leader"])), ..version_group() }];
    let ctx = visit(packages, semver_groups, version_groups);
    expect_instances(&ctx, vec![
        ExpectedInstance {
            state: state("InvalidLocalVersion"),
            dependency_name: "leader",
            id: "leader in /version of leader",
            actual: "VERSION_IS_MISSING",
            expected: Some("VERSION_IS_MISSING"),
            overridden: None,
        },
        ExpectedInstance {
            state: state("InvalidLocalVersion"),
            dependency_name: "follower",
            id: "follower in /version of follower",
            actual: "VERSION_IS_MISSING",
            expected: Some("VERSION_IS_MISSING"),
            overridden: None,
        },
        ExpectedInstance {
            state: state("EqualsPreferVersion"),
            dependency_name: "foo",
            id: "foo in /dependencies of leader",
            actual: "~1.0.0",
            expected: Some("~1.0.0"),
            overridden: None,
        },
        ExpectedInstance {
            state: state("SemverRangeMismatchConflictsWithSnapToVersion"),
            dependency_name: "foo",
            id: "foo in /dependencies of follower",
            actual: "1.0.0",
            expected: Some("1.0.0"),
            overridden: None,
        },
    ]);
}

#[test]
fn instance_cannot_find_a_snapped_to_version() {
    let packages = vec![
        package("leader", Some("1.0.0"), &[]),
        package("follower", Some("0.1.0"), &[("prod", "foo", "1.0.0")]),
    ];
    let semver_groups = vec![];
    let version_groups = vec![AnyVersionGroup { dependencies: strings(&["foo"]), packages: strings(&["follower"]), snap_to: Some(strings(&["leader"])), ..version_group() }];
    let ctx = visit(packages, semver_groups, version_groups);
    expect_instances(&ctx, vec![
        ExpectedInstance {
            state: state("ValidLocal"),
            dependency_name: "leader",
            id: "leader in /version of leader",
            actual: "1.0.0",
            expected: Some("1.0.0"),
            overridden: None,
        },
        ExpectedInstance {
            state: state("ValidLocal"),
            dependency_name: "follower",
            id: "follower in /version of follower",
            actual: "0.1.0",
            expected: Some("0.1.0"),
            overridden: None,
        },
        ExpectedInstance {
            state: state("SnapToVersionNotFound"),
            dependency_name: "foo",
            id: "foo in /dependencies of follower",
            actual: "1.0.0",
            expected: Some("1.0.0"),
            overridden: None,
        },
    ]);
}

#[test]
fn instance_is_in_a_snapped_to_group_and_is_itself_a_snapped_to_target() {
    let packages = vec![
        package("leader", None, &[("prod", "foo", "1.0.0")]),
        package("follower", None, &[("prod", "foo", "1.0.0")]),
    ];
    let semver_groups = vec![];
    let version_groups = vec![AnyVersionGroup { dependencies: strings(&["foo"]), snap_to: Some(strings(&["leader"])), ..version_group() }];
    let ctx = visit(packages, semver_groups, version_groups);
    expect_instances(&ctx, vec![
        ExpectedInstance {
            state: state("InvalidLocalVersion"),
            dependency_name: "leader",
            id: "leader in /version of leader",
            actual: "VERSION_IS_MISSING",
            expected: Some("VERSION_IS_MISSING"),
            overridden: None,
        },
        ExpectedInstance {
            state: state("InvalidLocalVersion"),
            dependency_name: "follower",
            id: "follower in /version of follower",
            actual: "VERSION_IS_MISSING",
            expected: Some("VERSION_IS_MISSING"),
            overridden: None,
        },
        ExpectedInstance {
            state: state("EqualsSnapToVersion"),
            dependency_name: "foo",
            id: "foo in /dependencies of leader",
            actual: "1.0.0",
            expected: Some("1.0.0"),
            overridden: None,
        },
        ExpectedInstance {
            state: state("EqualsSnapToVersion"),
            dependency_name: "foo",
            id: "foo in /dependencies of follower",
            actual: "1.0.0",
            expected: Some("1.0.0"),
            overridden: None,
        },
    ]);
}

#[test]
fn refuses_to_snap_local_version_to_another_target() {
    let packages = vec![
        package("package-a", Some("1.1.0"), &[]),
        package("package-b", Some("0.1.0"), &[("prod", "package-a", "0.0.1")]),
    ];
    let semver_groups = vec![];
    let version_groups = vec![AnyVersionGroup { snap_to: Some(strings(&["package-b"])), ..version_group() }];
    let ctx = visit(packages, semver_groups, version_groups);
    expect_instances(&ctx, vec![
        ExpectedInstance {
            state: state("RefuseToSnapLocal"),
            dependency_name: "package-a",
            id: "package-a in /version of package-a",
            actual: "1.1.0",
            expected: Some("1.1.0"),
            overridden: None,
        },
        ExpectedInstance {
            state: state("EqualsSnapToVersion"),
            dependency_name: "package-b",
            id: "package-b in /version of package-b",
            actual: "0.1.0",
            expected: Some("0.1.0"),
            overridden: None,
        },
        ExpectedInstance {
            state: state("EqualsSnapToVersion"),
            dependency_name: "package-a",
            id: "package-a in /dependencies of package-b",
            actual: "0.0.1",
            expected: Some("0.0.1"),
            overridden: None,
        },
    ]);
}

#[test]
fn a_range_node_semver_cannot_read_overlaps_with_no_other_in_a_same_range_group() {
    let packages = vec![
        package("package-a", None, &[("prod", "foo", ">=1.0.0")]),
        package("package-b", None, &[("prod", "foo", "=*")]),
    ];
    let version_groups = vec![
        AnyVersionGroup { dependency_types: strings(&["local"]), is_ignored: Some(true), ..version_group() },
        AnyVersionGroup { dependencies: strings(&["foo"]), policy: Some("sameRange".to_string()), ..version_group() },
    ];
    let ctx = visit(packages, vec![], version_groups);
    for (id, actual) in [("foo in /dependencies of package-a", ">=1.0.0"), ("foo in /dependencies of package-b", "=*")] {
        let instance = ctx.instances.iter().find(|i| i.id == id).unwrap();
        assert_eq!(instance.state.get_name(), state("MismatchesSameRangeGroup").get_name(), "state of {id}");
        assert_eq!(instance.actual.unwrap(), actual);
    }
}
