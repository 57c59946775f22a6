use syncpack::effects::FormatMismatchVariant;
use syncpack::format::{
    fix_formatting, get_format_mismatches, get_formatted_bugs, get_formatted_repository, get_sorted_az,
    get_sorted_exports, get_sorted_first, sort_keys_with_priority, FormatConfig,
};
use syncpack::json::Json;

fn s(value: &str) -> Json {
    Json::Str(value.to_string())
}

fn obj(members: Vec<(&str, Json)>) -> Json {
    Json::Object(members.into_iter().map(|(k, v)| (k.to_string(), v)).collect())
}

fn arr(items: Vec<Json>) -> Json {
    Json::Array(items)
}

fn strings(values: &[&str]) -> Vec<String> {
    values.iter().map(|v| v.to_string()).collect()
}

/// A compact rendering of a value, members in their order.
fn show(value: &Json) -> String {
    match value {
        Json::Null => "null".to_string(),
        Json::Bool(b) => b.to_string(),
        Json::Number(n) => n.clone(),
        Json::Str(s) => format!("{:?}", s),
        Json::Array(items) => format!("[{}]", items.iter().map(show).collect::<Vec<_>>().join(",")),
        Json::Object(members) => format!(
            "{{{}}}",
            members.iter().map(|(k, v)| format!("{:?}:{}", k, show(v))).collect::<Vec<_>>().join(",")
        ),
    }
}

fn config() -> FormatConfig {
    FormatConfig {
        format_bugs: false,
        format_repository: false,
        sort_az: vec![],
        sort_exports: vec![],
        sort_first: vec![],
        sort_packages: false,
    }
}

#[test]
fn pointers_follow_object_keys_and_array_indexes() {
    let value = obj(vec![
        ("a/b", s("slash")),
        ("m~n", s("tilde")),
        ("list", arr(vec![s("zero"), s("one")])),
        ("", s("empty key")),
    ]);
    assert_eq!(show(value.pointer("").unwrap()), show(&value));
    assert_eq!(show(value.pointer("/a~1b").unwrap()), "\"slash\"");
    assert_eq!(show(value.pointer("/m~0n").unwrap()), "\"tilde\"");
    assert_eq!(show(value.pointer("/list/1").unwrap()), "\"one\"");
    assert!(value.pointer("/list/01").is_none());
    assert!(value.pointer("/list/+1").is_none());
    assert!(value.pointer("/list/2").is_none());
    assert!(value.pointer("list").is_none());
    assert_eq!(show(value.pointer("/").unwrap()), "\"empty key\"");
}

#[test]
fn setting_a_property_replaces_only_what_exists() {
    let mut value = obj(vec![("a", obj(vec![("b", s("old"))]))]);
    value.set_prop("/a/b", s("new"));
    assert_eq!(show(&value), "{\"a\":{\"b\":\"new\"}}");
    value.set_prop("/a/c", s("ignored"));
    assert_eq!(show(&value), "{\"a\":{\"b\":\"new\"}}");
    assert_eq!(show(value.pointer("/a/b").unwrap()), "\"new\"");
}

#[test]
fn bugs_use_the_url_of_the_bugs_object() {
    let package = obj(vec![("bugs", obj(vec![("url", s("https://example.com/issues"))]))]);
    assert_eq!(show(&get_formatted_bugs(&package).unwrap()), "\"https://example.com/issues\"");
    let shorthand = obj(vec![("bugs", s("https://example.com/issues"))]);
    assert!(get_formatted_bugs(&shorthand).is_none());
}

#[test]
fn repository_urls_on_github_are_shortened() {
    let package = obj(vec![(
        "repository",
        obj(vec![("type", s("git")), ("url", s("git://github.com/User/repo.git"))]),
    )]);
    assert_eq!(show(&get_formatted_repository(&package).unwrap()), "\"User/repo.git\"");
    let elsewhere = obj(vec![("repository", obj(vec![("url", s("https://gitlab.com/a/b"))]))]);
    assert_eq!(show(&get_formatted_repository(&elsewhere).unwrap()), "\"https://gitlab.com/a/b\"");
    let with_directory = obj(vec![(
        "repository",
        obj(vec![("url", s("git://github.com/User/repo.git")), ("directory", s("packages/a"))]),
    )]);
    assert!(get_formatted_repository(&with_directory).is_none());
}

#[test]
fn properties_are_sorted_alphabetically_by_the_en_collator() {
    let package = obj(vec![
        ("keywords", arr(vec![s("b"), s("B"), s("a"), s("c")])),
        ("scripts", obj(vec![("test", s("jest")), ("build", s("tsc"))])),
        ("sorted", arr(vec![s("a"), s("b")])),
    ]);
    assert_eq!(show(&get_sorted_az(&"keywords".to_string(), &package).unwrap()), "[\"a\",\"b\",\"B\",\"c\"]");
    assert_eq!(show(&get_sorted_az(&"scripts".to_string(), &package).unwrap()), "{\"build\":\"tsc\",\"test\":\"jest\"}");
    assert!(get_sorted_az(&"sorted".to_string(), &package).is_none());
    assert!(get_sorted_az(&"missing".to_string(), &package).is_none());
}

#[test]
fn named_keys_come_first_and_the_rest_are_sorted_when_asked() {
    let members = vec![
        ("version".to_string(), s("1.0.0")),
        ("b".to_string(), Json::Null),
        ("name".to_string(), s("pkg")),
        ("a".to_string(), Json::Null),
    ];
    let order = strings(&["name", "version", "name", "description"]);
    let sorted = sort_keys_with_priority(&order, true, &members);
    let keys: Vec<&str> = sorted.iter().map(|(k, _)| k.as_str()).collect();
    assert_eq!(keys, vec!["name", "version", "a", "b"]);
    let unsorted = sort_keys_with_priority(&order, false, &members);
    let keys: Vec<&str> = unsorted.iter().map(|(k, _)| k.as_str()).collect();
    assert_eq!(keys, vec!["name", "version", "b", "a"]);
}

#[test]
fn package_keys_are_sorted_to_match_the_config() {
    let package = obj(vec![("version", s("1.0.0")), ("name", s("pkg")), ("dependencies", obj(vec![]))]);
    let mut config = config();
    config.sort_first = strings(&["name", "version"]);
    config.sort_packages = true;
    let sorted = get_sorted_first(&config, &package).unwrap();
    assert_eq!(show(&sorted), "{\"name\":\"pkg\",\"version\":\"1.0.0\",\"dependencies\":{}}");
    assert!(get_sorted_first(&config, &sorted).is_none());
    assert!(get_sorted_first(&config, &s("not an object")).is_none());
}

#[test]
fn conditional_exports_are_sorted_at_every_depth() {
    let package = obj(vec![(
        "exports",
        obj(vec![
            ("./sub", obj(vec![("default", s("./d.js")), ("types", s("./t.d.ts"))])),
            (".", obj(vec![("require", s("./r.cjs")), ("import", s("./i.mjs")), ("types", s("./t.d.ts"))])),
        ]),
    )]);
    let mut config = config();
    config.sort_exports = strings(&["types", "import", "require", "default"]);
    let sorted = get_sorted_exports(&config, &package).unwrap();
    assert_eq!(
        show(&sorted),
        "{\"./sub\":{\"types\":\"./t.d.ts\",\"default\":\"./d.js\"},\".\":{\"types\":\"./t.d.ts\",\"import\":\"./i.mjs\",\"require\":\"./r.cjs\"}}"
    );
    let fixed = obj(vec![("exports", sorted)]);
    assert!(get_sorted_exports(&config, &fixed).is_none());
}

#[test]
fn mismatches_are_listed_rule_by_rule_and_fixed_in_place() {
    let mut package = obj(vec![
        ("version", s("1.0.0")),
        ("name", s("pkg")),
        ("bugs", obj(vec![("url", s("https://example.com/issues"))])),
        ("keywords", arr(vec![s("b"), s("a")])),
    ]);
    let mut config = config();
    config.format_bugs = true;
    config.sort_az = strings(&["keywords"]);
    config.sort_first = strings(&["name"]);
    let mismatches = get_format_mismatches(&config, &package);
    let described: Vec<(FormatMismatchVariant, String)> =
        mismatches.iter().map(|m| (m.variant, m.property_path.clone())).collect();
    assert_eq!(
        described,
        vec![
            (FormatMismatchVariant::BugsPropertyIsNotFormatted, "/bugs".to_string()),
            (FormatMismatchVariant::PropertyIsNotSortedAz, "/keywords".to_string()),
            (FormatMismatchVariant::PackagePropertiesAreNotSorted, "/".to_string()),
        ]
    );
    fix_formatting(&mut package, &mismatches);
    assert_eq!(show(package.pointer("/bugs").unwrap()), "\"https://example.com/issues\"");
    assert_eq!(show(package.pointer("/keywords").unwrap()), "[\"a\",\"b\"]");
    // the order of the package's own keys is written at "/", which names no property
    assert_eq!(show(package.pointer("/version").unwrap()), "\"1.0.0\"");
    let again = get_format_mismatches(&config, &package);
    assert_eq!(again.len(), 1);
    assert_eq!(again[0].variant, FormatMismatchVariant::PackagePropertiesAreNotSorted);
}

#[test]
fn a_formatted_package_has_no_mismatches() {
    let package = obj(vec![("name", s("pkg")), ("keywords", arr(vec![s("a"), s("b")]))]);
    let mut config = config();
    config.format_bugs = true;
    config.format_repository = true;
    config.sort_az = strings(&["keywords"]);
    config.sort_first = strings(&["name"]);
    config.sort_exports = strings(&["types"]);
    assert!(get_format_mismatches(&config, &package).is_empty());
}

#[test]
fn repository_shorthand_keeps_what_follows_the_last_github_host() {
    let repository = |url: &str| obj(vec![("repository", obj(vec![("url", s(url))]))]);
    assert_eq!(
        show(&get_formatted_repository(&repository("https://github.com/a/github.com/b")).unwrap()),
        "\"b\""
    );
    assert_eq!(show(&get_formatted_repository(&repository("github.com/User/repo")).unwrap()), "\"github.com/User/repo\"");
    assert_eq!(show(&get_formatted_repository(&repository("xgithub.com/User/repo")).unwrap()), "\"User/repo\"");
}
