use std::cmp::Ordering;
use std::collections::HashMap;

use syncpack::specifier::orderable::{Identifier, Orderable, Version};
use syncpack::specifier::semver_range::SemverRange;
use syncpack::specifier::simple_semver::SimpleSemver;

#[test]
fn creates_a_semver_range_from_a_string() {
    let cases: Vec<(&str, SemverRange)> = vec![
        ("*", SemverRange::Any),
        ("^", SemverRange::Minor),
        ("", SemverRange::Exact),
        (">", SemverRange::Gt),
        (">=", SemverRange::Gte),
        ("<", SemverRange::Lt),
        ("<=", SemverRange::Lte),
        ("~", SemverRange::Patch),
    ];
    for (input, expected) in cases {
        let parsed = SemverRange::new(input).unwrap();
        assert_eq!(parsed, expected, "'{input}' should be '{expected:?}'");
        assert_eq!(parsed.unwrap(), input, "'{parsed:?}' should unwrap to '{input}'");
    }
}

#[test]
fn returns_none_for_unrecognised_ranges() {
    let parsed = SemverRange::new("wat");
    assert_eq!(parsed, None);
}

#[test]
fn compares_ranges_according_to_their_greediness() {
    let cases: Vec<(&str, &str, Ordering)> = vec![
        ("", "", Ordering::Equal),
        ("", "<", Ordering::Greater),
        ("*", "*", Ordering::Equal),
        ("*", ">", Ordering::Greater),
        ("<", "<=", Ordering::Less),
        ("<=", "<", Ordering::Greater),
        (">", ">=", Ordering::Greater),
        (">=", ">", Ordering::Less),
        ("^", "", Ordering::Greater),
        ("^", "~", Ordering::Greater),
    ];
    for (a, b, expected) in cases {
        let parsed = SemverRange::new(a);
        let ordering = parsed.cmp(&SemverRange::new(b));
        assert_eq!(ordering, expected, "'{a}' should be {expected:?} '{b}'");
    }
}

#[test]
fn sorts_ranges_according_to_their_greediness() {
    fn to_ranges(ranges: Vec<&str>) -> Vec<SemverRange> {
        ranges.iter().map(|r| SemverRange::new(r).unwrap()).collect()
    }
    let mut ranges = to_ranges(vec!["", "<", "*", ">", ">=", "<=", "^", "~"]);
    let expected = to_ranges(vec!["<", "<=", "", "~", "^", ">=", ">", "*"]);

    ranges.sort();
    assert_eq!(ranges, expected, "{ranges:?}, {expected:?}");
}

#[test]
fn implements_hash() {
    let semver1 = SemverRange::new("^").unwrap();
    let semver2 = SemverRange::new("~").unwrap();
    let mut map = HashMap::new();

    map.insert(&semver1, "value1");
    map.insert(&semver2, "value2");

    assert_eq!(map.get(&semver1), Some(&"value1"));
    assert_eq!(map.get(&semver2), Some(&"value2"));
}

#[test]
fn returns_err_when_specifier_is_not_simple_semver() {
    assert_eq!(
        SimpleSemver::new(&"<2 || >3".to_string()),
        Err("'<2 || >3' was expected to be a simple semver specifier but was not recognised".to_string())
    );
}

#[test]
fn returns_struct_for_comparison_and_sorting() {
    let cases: Vec<(&str, Orderable)> = vec![
        (
            "0.0.0",
            Orderable {
                range: SemverRange::Exact,
                version: Version {
                    major: 0,
                    minor: 0,
                    patch: 0,
                    build: vec![],
                    pre_release: vec![],
                },
            },
        ),
        (
            "1.2.3-alpha",
            Orderable {
                range: SemverRange::Exact,
                version: Version {
                    major: 1,
                    minor: 2,
                    patch: 3,
                    build: vec![],
                    pre_release: vec![Identifier::AlphaNumeric("alpha".to_string())],
                },
            },
        ),
        (
            "1.2.3-rc.18",
            Orderable {
                range: SemverRange::Exact,
                version: Version {
                    major: 1,
                    minor: 2,
                    patch: 3,
                    build: vec![],
                    pre_release: vec![Identifier::AlphaNumeric("rc".to_string()), Identifier::Numeric(18)],
                },
            },
        ),
    ];
    for (str, expected) in cases {
        let raw = str.to_string();
        let semver = SimpleSemver::new(&raw).unwrap();
        let orderable = semver.get_orderable().unwrap();
        assert_eq!(orderable.range, expected.range, "range");
        assert_eq!(orderable.version.major, expected.version.major, "version.major");
        assert_eq!(orderable.version.minor, expected.version.minor, "version.minor");
        assert_eq!(orderable.version.patch, expected.version.patch, "version.patch");
        assert_eq!(orderable.version.build, expected.version.build, "version.build");
        assert_eq!(orderable.version.pre_release, expected.version.pre_release, "version.pre_release");
    }
}

#[test]
fn replaces_the_semver_range_of_a_specifier() {
    let cases: Vec<(&str, SemverRange, SimpleSemver)> = vec![
        // from exact
        ("0.0.0", SemverRange::Any, SimpleSemver::Latest("*".to_string())),
        ("0.0.0", SemverRange::Minor, SimpleSemver::Range("^0.0.0".to_string())),
        ("0.0.0", SemverRange::Exact, SimpleSemver::Exact("0.0.0".to_string())),
        ("0.0.0", SemverRange::Gt, SimpleSemver::Range(">0.0.0".to_string())),
        ("0.0.0", SemverRange::Gte, SimpleSemver::Range(">=0.0.0".to_string())),
        ("0.0.0", SemverRange::Lt, SimpleSemver::Range("<0.0.0".to_string())),
        ("0.0.0", SemverRange::Lte, SimpleSemver::Range("<=0.0.0".to_string())),
        ("0.0.0", SemverRange::Patch, SimpleSemver::Range("~0.0.0".to_string())),
        // from another range
        ("~0.0.0", SemverRange::Any, SimpleSemver::Latest("*".to_string())),
        ("~0.0.0", SemverRange::Minor, SimpleSemver::Range("^0.0.0".to_string())),
        ("~0.0.0", SemverRange::Exact, SimpleSemver::Exact("0.0.0".to_string())),
        ("~0.0.0", SemverRange::Gt, SimpleSemver::Range(">0.0.0".to_string())),
        ("~0.0.0", SemverRange::Gte, SimpleSemver::Range(">=0.0.0".to_string())),
        ("~0.0.0", SemverRange::Lt, SimpleSemver::Range("<0.0.0".to_string())),
        ("~0.0.0", SemverRange::Lte, SimpleSemver::Range("<=0.0.0".to_string())),
        ("~0.0.0", SemverRange::Patch, SimpleSemver::Range("~0.0.0".to_string())),
        // from major
        ("0", SemverRange::Any, SimpleSemver::Latest("*".to_string())),
        ("0", SemverRange::Minor, SimpleSemver::Major("0".to_string())),
        ("0", SemverRange::Exact, SimpleSemver::Major("0".to_string())),
        ("0", SemverRange::Gt, SimpleSemver::Major("0".to_string())),
        ("0", SemverRange::Gte, SimpleSemver::Major("0".to_string())),
        ("0", SemverRange::Lt, SimpleSemver::Major("0".to_string())),
        ("0", SemverRange::Lte, SimpleSemver::Major("0".to_string())),
        ("0", SemverRange::Patch, SimpleSemver::Major("0".to_string())),
        // from minor
        ("0.0", SemverRange::Any, SimpleSemver::Latest("*".to_string())),
        ("0.0", SemverRange::Minor, SimpleSemver::RangeMinor("^0.0".to_string())),
        ("0.0", SemverRange::Exact, SimpleSemver::Minor("0.0".to_string())),
        ("0.0", SemverRange::Gt, SimpleSemver::RangeMinor(">0.0".to_string())),
        ("0.0", SemverRange::Gte, SimpleSemver::RangeMinor(">=0.0".to_string())),
        ("0.0", SemverRange::Lt, SimpleSemver::RangeMinor("<0.0".to_string())),
        ("0.0", SemverRange::Lte, SimpleSemver::RangeMinor("<=0.0".to_string())),
        ("0.0", SemverRange::Patch, SimpleSemver::RangeMinor("~0.0".to_string())),
        // from another range minor
        ("^0.0", SemverRange::Any, SimpleSemver::Latest("*".to_string())),
        ("^0.0", SemverRange::Minor, SimpleSemver::RangeMinor("^0.0".to_string())),
        ("^0.0", SemverRange::Exact, SimpleSemver::Minor("0.0".to_string())),
        ("^0.0", SemverRange::Gt, SimpleSemver::RangeMinor(">0.0".to_string())),
        ("^0.0", SemverRange::Gte, SimpleSemver::RangeMinor(">=0.0".to_string())),
        ("^0.0", SemverRange::Lt, SimpleSemver::RangeMinor("<0.0".to_string())),
        ("^0.0", SemverRange::Lte, SimpleSemver::RangeMinor("<=0.0".to_string())),
        ("^0.0", SemverRange::Patch, SimpleSemver::RangeMinor("~0.0".to_string())),
    ];
    for (before, range, expected) in cases {
        let semver = SimpleSemver::new(&before.to_string()).unwrap();
        let after = semver.with_range(&range);
        assert_eq!(after, expected);
    }
}

#[test]
fn cannot_replace_the_semver_range_of_latest_since_the_version_is_not_known() {
    let before = SimpleSemver::new(&"*".to_string()).unwrap();
    let after = before.with_range(&SemverRange::Exact);
    assert_eq!(after, SimpleSemver::Latest("*".to_string()));
}

#[test]
fn asserts_whether_two_specifiers_have_same_range() {
    let cases: Vec<(&str, &str, bool)> = vec![
        ("0.0.0", "0.0.1", true),
        ("0.0.0", "^0.0.0", false),
        ("^0.0.0", "^0.0.0", true),
        ("^0.0.0", "~0.0.0", false),
        ("0", "0", true),
        ("0.0", "0.0", true),
        ("0.0", "^0.0", false),
        ("^0.0", "^0.0", true),
        ("^0.0", "~0.0", false),
        ("*", "*", true),
        ("*", "latest", true),
        ("^0.0.0", "^0.0", true),
        ("0.0.0", "^0.0", false),
        ("~0.0.0", "^0.0", false),
        (">=0.0.0", ">=0.0.0", true),
        (">=0.0.0", ">0.0.0", false),
        (">0.0.0", ">=0.0.0", false),
        ("<=0.0.0", "<=0.0.0", true),
        ("<=0.0.0", "<0.0.0", false),
        ("<0.0.0", "<=0.0.0", false),
    ];
    for (str_a, str_b, expected) in cases {
        let a = SimpleSemver::new(&str_a.to_string()).unwrap();
        let b = SimpleSemver::new(&str_b.to_string()).unwrap();
        assert_eq!(
            a.has_same_range(&b),
            expected,
            "{str_a} has same range as {str_b} should be {expected}"
        );
    }
}
