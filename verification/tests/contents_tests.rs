use syncpack::cli::{checks_to_run, validate_filter, validate_source};
use syncpack::dependency_type::{CustomType, DependencyType};
use syncpack::file_paths::get_source_patterns;
use syncpack::json::Json;
use syncpack::packages::{default_dependency_types, get_all_instances, read_package};
use syncpack::specifier::Specifier;
use syncpack::version_group::{AnyVersionGroup, VersionGroup};

fn s(value: &str) -> Json {
    Json::Str(value.to_string())
}

fn obj(members: Vec<(&str, Json)>) -> Json {
    Json::Object(members.into_iter().map(|(k, v)| (k.to_string(), v)).collect())
}

fn show(value: &Json) -> String {
    match value {
        Json::Null => "null".to_string(),
        Json::Bool(b) => b.to_string(),
        Json::Number(n) => n.clone(),
        Json::Str(s) => format!("{:?}", s),
        Json::Array(items) => format!("[{}]", items.iter().map(show).collect::<Vec<_>>().join(",")),
        Json::Object(members) => format!(
            "{{{}}}",
            members.iter().map(|(k, v)| format!("{:?}:{}", k, show(v))).collect::<Vec<_>>().join(",")
        ),
    }
}

fn custom(name: &str, path: &str, strategy: &str, name_path: Option<&str>) -> DependencyType {
    DependencyType::new(
        &name.to_string(),
        &CustomType { name_path: name_path.map(|n| n.to_string()), path: path.to_string(), strategy: strategy.to_string() },
    )
}

fn entries(p: &syncpack::packages::PackageJson) -> Vec<(String, String, String)> {
    p.dependencies.iter().map(|e| (e.dependency_type.clone(), e.name.clone(), e.specifier.clone())).collect()
}

fn t(kind: &str, name: &str, specifier: &str) -> (String, String, String) {
    (kind.to_string(), name.to_string(), specifier.to_string())
}

#[test]
fn packages_are_read_by_each_strategy() {
    let contents = obj(vec![
        ("name", s("pkg")),
        ("version", s("1.0.0")),
        ("dependencies", obj(vec![("react", s("^18.0.0")), ("odd", Json::Bool(true))])),
        ("packageManager", s("pnpm@8.0.0")),
        ("engines", obj(vec![("node", s(">=18"))])),
        ("tool", obj(vec![("name", s("thing")), ("version", s("2.0.0"))])),
    ]);
    let mut types = default_dependency_types();
    types.push(custom("packageManager", "packageManager", "name@version", None));
    types.push(custom("engines", "engines.node", "version", None));
    types.push(custom("tool", "tool.version", "name~version", Some("tool.name")));
    types.push(custom("broken", "nothing", "wat", None));
    let package = read_package("pkg/package.json".to_string(), &contents, &types).unwrap();
    assert_eq!(package.name, "pkg");
    assert_eq!(package.version, Some("1.0.0".to_string()));
    assert_eq!(package.file_path, "pkg/package.json");
    assert_eq!(
        entries(&package),
        vec![
            t("prod", "react", "^18.0.0"),
            t("packageManager", "pnpm", "8.0.0"),
            t("engines", "engines", ">=18"),
            t("tool", "thing", "2.0.0"),
        ]
    );
    assert!(read_package("x".to_string(), &obj(vec![("version", s("1.0.0"))]), &types).is_none());
}

#[test]
fn scoped_names_keep_their_at_sign() {
    let contents = obj(vec![("name", s("pkg")), ("tool", s("@scope/tool@1.2.3"))]);
    let types = vec![custom("tool", "tool", "name@version", None)];
    let package = read_package("p".to_string(), &contents, &types).unwrap();
    assert_eq!(entries(&package), vec![t("tool", "@scope/tool", "1.2.3")]);
}

#[test]
fn members_can_be_set_and_removed_by_pointer() {
    let mut contents = obj(vec![(
        "dependencies",
        obj(vec![("a", s("1.0.0")), ("b", s("2.0.0")), ("c", s("3.0.0"))]),
    )]);
    contents.set_member("/dependencies", &"b".to_string(), s("2.1.0"));
    assert_eq!(show(&contents), "{\"dependencies\":{\"a\":\"1.0.0\",\"b\":\"2.1.0\",\"c\":\"3.0.0\"}}");
    contents.set_member("/dependencies", &"z".to_string(), s("9.9.9"));
    assert_eq!(show(&contents), "{\"dependencies\":{\"a\":\"1.0.0\",\"b\":\"2.1.0\",\"c\":\"3.0.0\"}}");
    // the last member takes the place of the removed one
    contents.remove_member("/dependencies", &"a".to_string());
    assert_eq!(show(&contents), "{\"dependencies\":{\"c\":\"3.0.0\",\"b\":\"2.1.0\"}}");
    assert!(contents.pointer("/dependencies").unwrap().has_member(&"b".to_string()));
    assert!(!contents.pointer("/dependencies").unwrap().has_member(&"a".to_string()));
}

#[test]
fn specifiers_are_written_as_each_strategy_stores_them() {
    let contents = obj(vec![
        ("name", s("pkg")),
        ("dependencies", obj(vec![("react", s("^17.0.0"))])),
        ("packageManager", s("pnpm@7.0.0")),
    ]);
    let mut types = default_dependency_types();
    types.push(custom("packageManager", "packageManager", "name@version", None));
    let package = read_package("pkg/package.json".to_string(), &contents, &types).unwrap();
    let mut instances = get_all_instances(&vec![package], &types);
    let mut written = contents;
    for instance in instances.iter_mut() {
        if instance.name == "react" {
            instance.set_specifier(&mut written, &Specifier::new("^18.0.0"));
            assert_eq!(instance.expected.unwrap(), "^18.0.0");
        }
        if instance.name == "pnpm" {
            instance.set_specifier(&mut written, &Specifier::new("8.0.0"));
        }
    }
    assert_eq!(show(written.pointer("/dependencies/react").unwrap()), "\"^18.0.0\"");
    assert_eq!(show(written.pointer("/packageManager").unwrap()), "\"pnpm@8.0.0\"");
    for instance in instances.iter() {
        if instance.name == "react" {
            instance.remove_from(&mut written);
        }
    }
    assert!(written.pointer("/dependencies/react").is_none());
}

#[test]
fn fixing_contents_writes_every_fixable_instance_of_the_file() {
    let a = obj(vec![
        ("name", s("a")),
        ("dependencies", obj(vec![("wat", s("1.0.0")), ("bad", s("1.0.0"))])),
        ("devDependencies", obj(vec![("wat", s("2.0.0"))])),
    ]);
    let types = default_dependency_types();
    let package = read_package("a/package.json".to_string(), &a, &types).unwrap();
    let packages = vec![package];
    let names = vec!["a".to_string()];
    let banned = AnyVersionGroup {
        dependencies: vec!["bad".to_string()],
        dependency_types: vec![],
        label: String::new(),
        packages: vec![],
        specifier_types: vec![],
        is_banned: Some(true),
        is_ignored: None,
        pin_version: None,
        policy: None,
        snap_to: None,
        prefer_version: None,
    };
    let groups = vec![VersionGroup::from_config(&banned, &names)];
    let instances = get_all_instances(&packages, &types);
    let mut ctx = syncpack::context::Context::create(instances, vec![], groups);
    syncpack::visit_packages::visit_packages(&mut ctx);
    let mut contents = a;
    syncpack::versions::fix_contents(&ctx, &"a/package.json".to_string(), &mut contents);
    assert_eq!(
        show(&contents),
        "{\"name\":\"a\",\"dependencies\":{\"wat\":\"2.0.0\"},\"devDependencies\":{\"wat\":\"2.0.0\"}}"
    );
    let mut other = obj(vec![("name", s("b")), ("dependencies", obj(vec![("wat", s("1.0.0"))]))]);
    syncpack::versions::fix_contents(&ctx, &"b/package.json".to_string(), &mut other);
    assert_eq!(show(&other), "{\"name\":\"b\",\"dependencies\":{\"wat\":\"1.0.0\"}}");
}

#[test]
fn sources_must_point_at_package_json_files() {
    assert_eq!(validate_source("packages/*/package.json"), Ok("packages/*/package.json".to_string()));
    assert_eq!(validate_source("package.json"), Ok("package.json".to_string()));
    assert_eq!(validate_source("packages/*"), Err("must end with 'package.json'".to_string()));
    assert_eq!(validate_source("json"), Err("must end with 'package.json'".to_string()));
}

#[test]
fn filters_must_be_valid_regexes() {
    assert_eq!(validate_filter("^react"), Ok("^react".to_string()));
    assert_eq!(validate_filter("(unclosed"), Err("not a valid Regex".to_string()));
}

#[test]
fn every_check_runs_unless_some_are_chosen() {
    assert_eq!(checks_to_run(false, false), (true, true));
    assert_eq!(checks_to_run(true, false), (true, false));
    assert_eq!(checks_to_run(false, true), (false, true));
    assert_eq!(checks_to_run(true, true), (true, true));
}

#[test]
fn source_patterns_come_from_the_command_line_then_the_config_then_defaults() {
    let cli = vec!["a/package.json".to_string()];
    let rc = vec!["b/package.json".to_string()];
    assert_eq!(get_source_patterns(&cli, &rc), cli);
    assert_eq!(get_source_patterns(&vec![], &rc), rc);
    assert_eq!(
        get_source_patterns(&vec![], &vec![]),
        vec!["package.json".to_string(), "packages/*/package.json".to_string()]
    );
}
