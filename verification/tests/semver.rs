use qpm_cli::ranges::{req_to_range, VersionReq};
use qpm_cli::version::Version;

fn range_contains(req: &str, version: &str) -> bool {
    let range = req_to_range(VersionReq::parse(req).unwrap());
    range.contains(&Version::parse(version).unwrap())
}

/// `=1.2.3` (explicit exact operator) should match only that exact version.
#[test]
fn exact_matches_only_that_version() {
    assert!(range_contains("=1.2.3", "1.2.3"));
    assert!(!range_contains("=1.2.3", "1.2.4"));
    assert!(!range_contains("=1.2.3", "1.2.2"));
}

/// A bare version requirement (no operator) defaults to caret behavior.
#[test]
fn bare_version_defaults_to_caret() {
    assert!(range_contains("1.2.3", "1.2.3"));
    assert!(range_contains("1.2.3", "1.9.9"));
    assert!(!range_contains("1.2.3", "1.2.2"));
    assert!(!range_contains("1.2.3", "2.0.0"));
}

/// `^1.2.3` allows minor/patch bumps within major version 1.
#[test]
fn caret_allows_minor_and_patch_bumps_but_not_major() {
    assert!(range_contains("^1.2.3", "1.2.3"));
    assert!(range_contains("^1.2.3", "1.9.9"));
    assert!(!range_contains("^1.2.3", "1.2.2"));
    assert!(!range_contains("^1.2.3", "2.0.0"));
}

/// `^0.5.0` behaves like `>=0.5.0, <0.6.0`.
#[test]
fn caret_zero_major_only_allows_patch_bumps() {
    assert!(range_contains("^0.5.0", "0.5.0"));
    assert!(range_contains("^0.5.9", "0.5.9"));
    assert!(!range_contains("^0.5.0", "0.6.0"));
    assert!(!range_contains("^0.5.0", "0.4.9"));
}

/// `^0.0.3` matches only 0.0.3.
#[test]
fn caret_zero_zero_major_minor_is_exact() {
    assert!(range_contains("^0.0.3", "0.0.3"));
    assert!(!range_contains("^0.0.3", "0.0.4"));
    assert!(!range_contains("^0.0.3", "0.1.0"));
}

/// `~1.2.3` allows patch bumps only.
#[test]
fn tilde_allows_patch_bumps_only() {
    assert!(range_contains("~1.2.3", "1.2.3"));
    assert!(range_contains("~1.2.3", "1.2.9"));
    assert!(!range_contains("~1.2.3", "1.3.0"));
    assert!(!range_contains("~1.2.3", "1.2.2"));
}

/// `>=`, `>`, `<`, `<=` behave as ordinary inequality comparisons.
#[test]
fn comparison_operators() {
    assert!(range_contains(">=1.2.3", "1.2.3"));
    assert!(range_contains(">=1.2.3", "99.0.0"));
    assert!(!range_contains(">=1.2.3", "1.2.2"));

    assert!(range_contains(">1.2.3", "1.2.4"));
    assert!(!range_contains(">1.2.3", "1.2.3"));

    assert!(range_contains("<2.0.0", "1.9.9"));
    assert!(!range_contains("<2.0.0", "2.0.0"));

    assert!(range_contains("<=2.0.0", "2.0.0"));
    assert!(!range_contains("<=2.0.0", "2.0.1"));
}

/// `1.2.*` behaves like `1.2.x`.
#[test]
fn wildcard() {
    assert!(range_contains("1.2.*", "1.2.5"));
    assert!(!range_contains("1.2.*", "1.3.0"));
}

/// A comma-separated requirement intersects all of its comparators.
#[test]
fn multiple_comparators_intersect() {
    assert!(range_contains(">=1.0.0, <1.5.0", "1.0.0"));
    assert!(range_contains(">=1.0.0, <1.5.0", "1.4.9"));
    assert!(!range_contains(">=1.0.0, <1.5.0", "1.5.0"));
    assert!(!range_contains(">=1.0.0, <1.5.0", "0.9.9"));
}

/// A caret without a patch number below 1.0.0 only allows patch bumps too.
#[test]
fn caret_zero_major_without_patch_only_allows_patch_bumps() {
    assert!(range_contains("^0.5", "0.5.0"));
    assert!(range_contains("^0.5", "0.5.7"));
    assert!(!range_contains("^0.5", "0.6.0"));
    assert!(!range_contains("^0.5", "0.4.9"));
    assert!(range_contains("^1.2", "1.9.0"));
    assert!(!range_contains("^1.2", "2.0.0"));
}

/// Pre-release identifiers reject leading zeros in numbers; build metadata does not, and
/// neither accepts an empty identifier.
#[test]
fn identifier_grammar() {
    assert!(Version::from_parts(1, 0, 0, "alpha.0", "").is_some());
    assert!(Version::from_parts(1, 0, 0, "alpha.0a", "").is_some());
    assert!(Version::from_parts(1, 0, 0, "alpha.01", "").is_none());
    assert!(Version::from_parts(1, 0, 0, "", "build.01").is_some());
    assert!(Version::from_parts(1, 0, 0, "", "a..b").is_none());
    assert!(Version::from_parts(1, 0, 0, "", "a.").is_none());
    assert!(Version::from_parts(1, 0, 0, "é", "").is_none());
}
