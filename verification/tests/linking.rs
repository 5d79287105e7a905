use qpm_cli::package::{Artifact, PackageConfig, PackageDependency, SharedDependencyInfo, SharedPackageConfig};
use qpm_cli::publish::{check_dependencies, qpkg_checksum, PublishError};
use qpm_cli::ranges::VersionReq;
use qpm_cli::version::Version;
use qpm_cli::workspace::{check_restored, collect_files_of_package, file_name_of, join, link_plan, LinkError, PackageFiles};

fn v(text: &str) -> Version {
    Version::parse(text).unwrap()
}

fn dep(id: &str, range: &str) -> PackageDependency {
    PackageDependency { id: id.to_string(), version_range: VersionReq::parse(range).unwrap(), qpkg_url: None }
}

fn config(id: &str, version: &str, deps: Vec<PackageDependency>) -> PackageConfig {
    PackageConfig {
        id: id.to_string(),
        version: v(version),
        shared_directory: "shared".to_string(),
        dependencies_directory: "extern".to_string(),
        dependencies: deps,
        dev_dependencies: vec![],
        out_binaries: None,
        env: None,
    }
}

fn restored(id: &str, version: &str) -> (String, SharedDependencyInfo) {
    (
        id.to_string(),
        SharedDependencyInfo {
            restored_version: v(version),
            qpkg_url: None,
            qpkg_checksum: None,
            restored_binaries: vec![],
            restored_env: vec![],
        },
    )
}

fn strings(items: &[&str]) -> Vec<String> {
    items.iter().map(|s| s.to_string()).collect()
}

#[test]
fn checksum_is_sha256_in_lowercase_hex() {
    assert_eq!(qpkg_checksum(b""), "e3b0c44298fc1c149afbf4c8996fb92427ae41e4649b934ca495991b7852b855");
    assert_eq!(qpkg_checksum(b"abc"), "ba7816bf8f01cfea414140de5dae2223b00361a396177a9cb410ff61f20015ad");
}

#[test]
fn publish_checks_dependencies() {
    let package = config("root", "1.0.0", vec![dep("a", "^1"), dep("b", ">=2")]);
    let shared = SharedPackageConfig {
        config: package.clone(),
        restored_dependencies: vec![restored("a", "1.4.0"), restored("b", "2.1.0")],
        env: vec![],
    };
    assert!(check_dependencies(&package, &shared, &vec![true, true]).is_ok());
    match check_dependencies(&package, &shared, &vec![true, false]) {
        Err(PublishError::Unavailable(id)) => assert_eq!(id, "b"),
        _ => panic!("expected an unavailable dependency"),
    }
    let missing = SharedPackageConfig {
        config: package.clone(),
        restored_dependencies: vec![restored("a", "1.4.0")],
        env: vec![],
    };
    match check_dependencies(&package, &missing, &vec![true]) {
        Err(PublishError::NotRestored(id)) => assert_eq!(id, "b"),
        _ => panic!("expected a dependency that was not restored"),
    }
    let out_of_range = SharedPackageConfig {
        config: package.clone(),
        restored_dependencies: vec![restored("a", "2.0.0"), restored("b", "2.1.0")],
        env: vec![],
    };
    match check_dependencies(&package, &out_of_range, &vec![true, true]) {
        Err(PublishError::OutOfRange(id)) => assert_eq!(id, "a"),
        _ => panic!("expected a dependency out of range"),
    }
}

#[test]
fn paths_join_with_slashes() {
    assert_eq!(join("proj", "extern"), "proj/extern");
    assert_eq!(join("proj", ""), "proj");
    assert_eq!(join("proj", "."), "proj");
    assert_eq!(file_name_of("cache/a/lib/liba.so"), "liba.so");
    assert_eq!(file_name_of("liba.so"), "liba.so");
}

#[test]
fn package_files_are_checked_in_order() {
    let existing = strings(&["src", "lib/a.so", "lib/b.so"]);
    let ok = collect_files_of_package(true, "src".to_string(), strings(&["lib/a.so", "lib/b.so"]), &existing).unwrap();
    assert_eq!(ok.headers, "src");
    assert_eq!(ok.binaries, vec!["lib/a.so", "lib/b.so"]);
    assert!(matches!(
        collect_files_of_package(false, "src".to_string(), vec![], &existing),
        Err(LinkError::MissingCache)
    ));
    assert!(matches!(
        collect_files_of_package(true, "nope".to_string(), vec![], &existing),
        Err(LinkError::MissingSource(p)) if p == "nope"
    ));
    assert!(matches!(
        collect_files_of_package(true, "src".to_string(), strings(&["lib/a.so", "lib/c.so"]), &existing),
        Err(LinkError::MissingBinary(p)) if p == "lib/c.so"
    ));
    assert!(matches!(
        collect_files_of_package(true, "src".to_string(), strings(&["lib/a.so", "lib/a.so"]), &existing),
        Err(LinkError::DuplicateBinary(p)) if p == "lib/a.so"
    ));
}

#[test]
fn restore_must_be_cached_and_extern_not_workspace() {
    let package = config("root", "1.0.0", vec![]);
    let deps = vec![
        Artifact { config: config("a", "1.0.0", vec![]), qpkg_checksum: None },
        Artifact { config: config("b", "2.0.0-rc.1", vec![]), qpkg_checksum: None },
    ];
    match check_restored(&package, &deps, &vec![false, false], "proj") {
        Err(LinkError::MissingDependencies(names)) => assert_eq!(names, vec!["a:1.0.0", "b:2.0.0-rc.1"]),
        _ => panic!("expected missing dependencies"),
    }
    assert_eq!(check_restored(&package, &deps, &vec![true, true], "proj").unwrap(), "proj/extern");
    let mut flat = package.clone();
    flat.dependencies_directory = "".to_string();
    assert!(matches!(check_restored(&flat, &deps, &vec![true, true], "proj"), Err(LinkError::ExternIsWorkspace)));
}

#[test]
fn link_plan_links_binaries_of_direct_dependencies_and_all_headers() {
    let package = config("root", "1.0.0", vec![dep("a", "*")]);
    let ids = strings(&["a", "b"]);
    let files = vec![
        PackageFiles { headers: "cache/a/src".to_string(), binaries: strings(&["cache/a/lib/liba.so"]) },
        PackageFiles { headers: "cache/b/src".to_string(), binaries: strings(&["cache/b/lib/libb.so"]) },
    ];
    let existing = strings(&["cache/a/src", "cache/b/src", "cache/a/lib/liba.so", "cache/b/lib/libb.so"]);
    let links = link_plan(&package, &ids, &files, "proj/extern", &existing).unwrap();
    assert_eq!(
        links,
        vec![
            ("cache/a/lib/liba.so".to_string(), "proj/extern/libs/liba.so".to_string()),
            ("cache/a/src".to_string(), "proj/extern/includes/a".to_string()),
            ("cache/b/src".to_string(), "proj/extern/includes/b".to_string()),
        ]
    );
}

#[test]
fn link_plan_reports_missing_and_colliding_files() {
    let package = config("root", "1.0.0", vec![dep("a", "*"), dep("b", "*")]);
    let ids = strings(&["a", "b"]);
    let files = vec![
        PackageFiles { headers: "cache/a/src".to_string(), binaries: strings(&["cache/a/lib/lib.so"]) },
        PackageFiles { headers: "cache/b/src".to_string(), binaries: strings(&["cache/b/lib/lib.so"]) },
    ];
    let all = strings(&["cache/a/src", "cache/b/src", "cache/a/lib/lib.so", "cache/b/lib/lib.so"]);
    match link_plan(&package, &ids, &files, "proj/extern", &all) {
        Err(LinkError::Collision(d)) => assert_eq!(d, "proj/extern/libs/lib.so"),
        _ => panic!("expected a collision"),
    }
    let no_b_binary = strings(&["cache/a/src", "cache/b/src", "cache/a/lib/lib.so"]);
    match link_plan(&package, &ids, &files, "proj/extern", &no_b_binary) {
        Err(LinkError::MissingBinary(b)) => assert_eq!(b, "cache/b/lib/lib.so"),
        _ => panic!("expected a missing binary"),
    }
    let no_headers = strings(&["cache/a/src", "cache/a/lib/lib.so", "cache/b/lib/lib.so"]);
    match link_plan(&package, &ids, &files, "proj/extern", &no_headers) {
        Err(LinkError::MissingHeaders(h)) => assert_eq!(h, "cache/b/src"),
        _ => panic!("expected missing headers"),
    }
}

#[test]
fn checksum_matching_ignores_ascii_case() {
    assert!(qpm_cli::publish::checksum_matches(b"abc", "BA7816BF8F01CFEA414140DE5DAE2223B00361A396177A9CB410FF61F20015AD"));
    assert!(qpm_cli::publish::checksum_matches(b"abc", "ba7816bf8f01cfea414140de5dae2223b00361a396177a9cb410ff61f20015ad"));
    assert!(!qpm_cli::publish::checksum_matches(b"abd", "ba7816bf8f01cfea414140de5dae2223b00361a396177a9cb410ff61f20015ad"));
    assert!(!qpm_cli::publish::checksum_matches(b"abc", "ba78"));
}

#[test]
fn cache_layout_follows_id_and_version() {
    let version = v("1.2.0");
    assert_eq!(qpm_cli::workspace::package_base_path("cache", "a", &version), "cache/a/1.2.0");
    assert_eq!(qpm_cli::workspace::package_src_path("cache", "a", &version), "cache/a/1.2.0/src");
    assert_eq!(qpm_cli::workspace::package_binaries_path("cache", "a", &version), "cache/a/1.2.0/lib");
    assert_eq!(qpm_cli::workspace::package_binary_path("cache", "a", &version, "build/liba.so"), "cache/a/1.2.0/lib/liba.so");
}

#[test]
fn configs_compare_dependencies_as_maps() {
    let a = config("root", "1.0.0", vec![dep("x", "^1"), dep("y", ">=2")]);
    let b = config("root", "1.0.0", vec![dep("y", ">=2"), dep("x", "^1")]);
    assert!(a.same_as(&b));
    let c = config("root", "1.0.0", vec![dep("x", "^2"), dep("y", ">=2")]);
    assert!(!a.same_as(&c));
    let d = config("root", "1.0.1", vec![dep("x", "^1"), dep("y", ">=2")]);
    assert!(!a.same_as(&d));
    let mut e = a.clone();
    e.env = Some(vec![("K".to_string(), "V".to_string())]);
    assert!(!a.same_as(&e));
    let mut f = e.clone();
    f.env = Some(vec![("K".to_string(), "V".to_string()), ("K".to_string(), "W".to_string())]);
    assert!(e.same_as(&f));
}
