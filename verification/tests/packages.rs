use qpm_cli::package::{Artifact, PackageConfig, PackageDependency, SharedDependencyInfo, SharedPackageConfig};
use qpm_cli::ranges::{req_to_range, VersionReq};
use qpm_cli::repository::{merge_names, FileRepository, FileRepositoryRegistry, RepositoryError};
use qpm_cli::resolver::{
    choose_version, is_root, locked_requests, non_root_selections, package_dependencies, priority,
    restored_dependencies, root_dependencies, PackageRestorer,
};
use qpm_cli::version::{Version, VersionWrapper};
use qpm_cli::versions::{merge_versions, sort_descending};

fn v(text: &str) -> Version {
    Version::parse(text).unwrap()
}

fn texts(vs: &[Version]) -> Vec<String> {
    vs.iter().map(|x| x.to_text()).collect()
}

fn dep(id: &str, range: &str) -> PackageDependency {
    PackageDependency { id: id.to_string(), version_range: VersionReq::parse(range).unwrap(), qpkg_url: None }
}

fn config(id: &str, version: &str, deps: Vec<PackageDependency>) -> PackageConfig {
    PackageConfig {
        id: id.to_string(),
        version: v(version),
        shared_directory: "shared".to_string(),
        dependencies_directory: "extern".to_string(),
        dependencies: deps,
        dev_dependencies: vec![],
        out_binaries: None,
        env: None,
    }
}

fn mock_repository() -> FileRepository {
    let mut repo = FileRepository::new("cache".to_string(), FileRepositoryRegistry::new());
    for id in ["artifact1", "artifact2", "artifact3", "artifact4", "artifact5"] {
        repo.add_artifact_to_map(config(id, "0.1.0", vec![]), None, false);
    }
    repo
}

#[test]
fn get_artifact_names() {
    let repo = mock_repository();
    let names = repo.get_package_names();
    let expected = vec!["artifact1", "artifact2", "artifact3", "artifact4", "artifact5"];
    assert_eq!(names.len(), expected.len());
    assert_eq!(names, expected);
}

#[test]
fn resolve_get_artifact() {
    let repo = mock_repository();
    let p = repo.get_package("artifact1", &Version::new(0, 1, 0));
    assert!(p.is_some());
    let unwrapped_p = p.unwrap();
    assert_eq!(unwrapped_p.config.id, "artifact1");
    assert!(unwrapped_p.config.version.equals(&Version::new(0, 1, 0)));
}

#[test]
fn registry_keeps_existing_unless_overwritten() {
    let mut repo = FileRepository::new("cache".to_string(), FileRepositoryRegistry::new());
    repo.add_artifact_to_map(config("a", "1.0.0", vec![]), Some("one".to_string()), false);
    repo.add_artifact_to_map(config("a", "1.0.0", vec![]), Some("two".to_string()), false);
    assert_eq!(repo.get_artifact("a", &v("1.0.0")).unwrap().qpkg_checksum.as_deref(), Some("one"));
    repo.add_artifact_to_map(config("a", "1.0.0", vec![]), Some("three".to_string()), true);
    assert_eq!(repo.get_artifact("a", &v("1.0.0")).unwrap().qpkg_checksum.as_deref(), Some("three"));
    assert!(repo.get_artifact("a", &v("2.0.0")).is_none());
    assert!(repo.get_artifact("b", &v("1.0.0")).is_none());
    assert_eq!(repo.root(), "cache");
}

#[test]
fn registry_versions_are_highest_first() {
    let mut repo = FileRepository::new("cache".to_string(), FileRepositoryRegistry::new());
    for ver in ["1.0.0", "2.0.0", "1.5.0", "1.0.0-alpha"] {
        repo.add_artifact_to_map(config("a", ver, vec![]), None, false);
    }
    let versions = repo.get_package_versions("a").unwrap();
    assert_eq!(texts(&versions), vec!["2.0.0", "1.5.0", "1.0.0", "1.0.0-alpha"]);
    assert!(repo.get_package_versions("b").is_none());
    assert_eq!(repo.get_artifacts_from_id("a").unwrap().len(), 4);
}

#[test]
fn registry_removes_packages() {
    let mut repo = mock_repository();
    repo.add_artifact_to_map(config("artifact1", "0.2.0", vec![]), None, false);
    assert!(repo.remove_package("artifact1", &v("0.1.0")).is_ok());
    assert!(repo.get_artifact("artifact1", &v("0.1.0")).is_none());
    assert!(repo.get_artifact("artifact1", &v("0.2.0")).is_some());
    assert_eq!(repo.remove_package("missing", &v("0.1.0")), Err(RepositoryError::NotFound));
    repo.remove_package_versions("artifact2");
    assert!(repo.get_package_versions("artifact2").is_none());
    assert_eq!(repo.get_package_names(), vec!["artifact1", "artifact3", "artifact4", "artifact5"]);
    // once its last version is removed, a package has no versions to list
    assert!(repo.remove_package("artifact3", &v("0.1.0")).is_ok());
    assert!(repo.get_package_versions("artifact3").is_none());
}

#[test]
fn db_cache_only_adds_when_permanent() {
    let mut repo = FileRepository::new("cache".to_string(), FileRepositoryRegistry::new());
    repo.add_to_db_cache(config("a", "1.0.0", vec![]), Some("x".to_string()), false);
    assert!(repo.get_artifact("a", &v("1.0.0")).is_none());
    repo.add_to_db_cache(config("a", "1.0.0", vec![]), Some("x".to_string()), true);
    repo.add_to_db_cache(config("a", "1.0.0", vec![]), Some("y".to_string()), true);
    assert_eq!(repo.get_artifact("a", &v("1.0.0")).unwrap().qpkg_checksum.as_deref(), Some("x"));
}

#[test]
fn cache_folders_under_extern() {
    assert_eq!(FileRepository::libs_dir("proj/extern"), "proj/extern/libs");
    assert_eq!(FileRepository::headers_path("proj/extern"), "proj/extern/includes");
    assert_eq!(FileRepository::build_path("proj/extern"), "proj/extern/build");
}

#[test]
fn merged_names_are_unique_in_first_order() {
    let lists = vec![
        vec!["b".to_string(), "a".to_string()],
        vec![],
        vec!["a".to_string(), "c".to_string(), "b".to_string()],
    ];
    assert_eq!(merge_names(&lists), vec!["b", "a", "c"]);
}

#[test]
fn sort_descending_keeps_duplicates() {
    let sorted = sort_descending(&vec![v("1.0.0"), v("2.0.0"), v("1.5.0"), v("2.0.0"), v("1.0.0-rc.1")]);
    assert_eq!(texts(&sorted), vec!["2.0.0", "2.0.0", "1.5.0", "1.0.0", "1.0.0-rc.1"]);
}

#[test]
fn merge_versions_unions_and_sorts() {
    let lists = vec![Some(vec![v("1.0.0"), v("2.0.0")]), None, Some(vec![v("2.0.0"), v("0.5.0")])];
    assert_eq!(texts(&merge_versions(&lists).unwrap()), vec!["2.0.0", "1.0.0", "0.5.0"]);
    assert!(merge_versions(&vec![None, Some(vec![])]).is_none());
    assert!(merge_versions(&vec![]).is_none());
}

#[test]
fn root_dependencies_include_dev_dependencies() {
    let mut root = config("root", "1.0.0", vec![dep("a", "^1.2")]);
    root.dev_dependencies = vec![dep("b", ">=2.0.0")];
    let ranges = root_dependencies(&root);
    assert_eq!(ranges.len(), 2);
    assert_eq!(ranges[0].0, "a");
    assert!(ranges[0].1.contains(&v("1.9.0")));
    assert!(!ranges[0].1.contains(&v("2.0.0")));
    assert_eq!(ranges[1].0, "b");
    assert!(ranges[1].1.contains(&v("3.0.0")));
}

#[test]
fn package_dependencies_skip_the_root() {
    let root = config("root", "1.0.0", vec![]);
    let target = config("a", "1.0.0", vec![dep("root", "*"), dep("b", "=1.0.0")]);
    let ranges = package_dependencies(&root, &target);
    assert_eq!(ranges.len(), 1);
    assert_eq!(ranges[0].0, "b");
    assert!(ranges[0].1.contains(&v("1.0.0")));
    assert!(!ranges[0].1.contains(&v("1.0.1")));
}

fn in_range(range: &qpm_cli::ranges::VersionRange, vs: &[Version]) -> Vec<bool> {
    vs.iter().map(|x| range.contains(x)).collect()
}

#[test]
fn choose_version_takes_first_in_range() {
    let root = config("root", "3.0.0", vec![]);
    let range = req_to_range(VersionReq::parse("^1").unwrap());
    let available = vec![v("2.0.0"), v("1.5.0"), v("1.0.0")];
    let flags = in_range(&range, &available);
    assert_eq!(flags, vec![false, true, true]);
    assert_eq!(choose_version(&root, "a", Some(&available), &flags).unwrap().to_text(), "1.5.0");
    assert_eq!(choose_version(&root, "root", None, &vec![]).unwrap().to_text(), "3.0.0");
    assert!(choose_version(&root, "a", None, &vec![]).is_none());
    let none_fit = vec![v("2.0.0"), v("0.9.0")];
    assert!(choose_version(&root, "a", Some(&none_fit), &in_range(&range, &none_fit)).is_none());
}

#[test]
fn priority_orders_packages() {
    let root = config("root", "1.0.0", vec![]);
    let range = req_to_range(VersionReq::parse("^1").unwrap());
    let available = vec![v("2.0.0"), v("1.5.0"), v("1.0.0")];
    let flags = in_range(&range, &available);
    assert_eq!(priority(&root, "root", Some(&available), &flags, 7), (0, 0));
    assert_eq!(priority(&root, "a", None, &vec![], 7), (7, 0));
    assert_eq!(priority(&root, "a", Some(&vec![v("2.0.0")]), &vec![false], 7), (u32::MAX, 0));
    assert_eq!(priority(&root, "a", Some(&available), &flags, 7), (7, 2));
}

#[test]
fn non_root_selections_drop_the_root() {
    let root = config("root", "1.0.0", vec![]);
    assert!(is_root(&root, "root", &v("1.0.0")));
    assert!(!is_root(&root, "root", &v("1.0.1")));
    let selections = vec![
        ("root".to_string(), v("1.0.0")),
        ("a".to_string(), v("2.0.0")),
        ("root".to_string(), v("2.0.0")),
    ];
    let kept = non_root_selections(&root, &selections);
    assert_eq!(kept.len(), 2);
    assert_eq!(kept[0].0, "a");
    assert_eq!(kept[1].1.to_text(), "2.0.0");
}

#[test]
fn restore_records_each_resolved_dependency() {
    let mut a_dep = dep("a", "^1");
    a_dep.qpkg_url = Some("https://example.com/a.qpkg".to_string());
    let mut root = config("root", "1.0.0", vec![a_dep]);
    root.env = Some(vec![("KEY".to_string(), "VALUE".to_string())]);
    let mut a = config("a", "1.2.0", vec![]);
    a.out_binaries = Some(vec!["liba.so".to_string()]);
    let b = config("b", "0.3.0", vec![]);
    let resolved = vec![
        Artifact { config: a, qpkg_checksum: Some("abc".to_string()) },
        Artifact { config: b, qpkg_checksum: None },
    ];
    let restored = restored_dependencies(&root, &resolved);
    assert_eq!(restored.len(), 2);
    assert_eq!(restored[0].0, "a");
    assert_eq!(restored[0].1.restored_version.to_text(), "1.2.0");
    assert_eq!(restored[0].1.qpkg_url.as_deref(), Some("https://example.com/a.qpkg"));
    assert_eq!(restored[0].1.qpkg_checksum.as_deref(), Some("abc"));
    assert_eq!(restored[0].1.restored_binaries, vec!["liba.so"]);
    assert_eq!(restored[1].1.qpkg_url, None);
    assert!(restored[1].1.restored_binaries.is_empty());

    let restorer = PackageRestorer::resolve(root, resolved);
    assert_eq!(restorer.resolved_deps().len(), 2);
    assert_eq!(restorer.shared_package().env, vec![("KEY".to_string(), "VALUE".to_string())]);
    assert_eq!(restorer.shared_package().restored_dependencies.len(), 2);
    assert_eq!(restorer.take_resolved_deps()[1].config.id, "b");
}

#[test]
fn locked_restore_asks_for_restored_versions() {
    let info = SharedDependencyInfo {
        restored_version: v("1.2.3"),
        qpkg_url: None,
        qpkg_checksum: None,
        restored_binaries: vec![],
        restored_env: vec![],
    };
    let shared = SharedPackageConfig {
        config: config("root", "1.0.0", vec![]),
        restored_dependencies: vec![("a".to_string(), info)],
        env: vec![],
    };
    let requests = locked_requests(&shared);
    assert_eq!(requests.len(), 1);
    assert_eq!(requests[0].0, "a");
    assert_eq!(requests[0].1.to_text(), "1.2.3");
    let restorer = PackageRestorer::locked_resolve(shared, vec![]);
    assert!(restorer.resolved_deps().is_empty());
}

#[test]
fn version_wrapper_bumps_patch() {
    let w = VersionWrapper::from(v("1.2.3-beta+build"));
    assert_eq!(Version::from(w.bump()).to_text(), "1.2.4-beta+build");
    assert_eq!(VersionWrapper::lowest().0.to_text(), "0.0.0");
}

#[test]
fn requirement_fits_checks_room_for_increment() {
    assert!(VersionReq::parse("^1.2").unwrap().fits());
    assert!(!VersionReq::parse(&format!("^{}", u64::MAX)).unwrap().fits());
    assert!(VersionReq::parse(&format!(">={}", u64::MAX)).unwrap().fits());
}

#[test]
fn versions_order_pre_releases_and_build_metadata() {
    let sorted = sort_descending(&vec![v("1.0.0-alpha"), v("1.0.0-beta"), v("1.0.0-alpha.1"), v("1.0.0+a"), v("1.0.0+b")]);
    assert_eq!(texts(&sorted), vec!["1.0.0+b", "1.0.0+a", "1.0.0-beta", "1.0.0-alpha.1", "1.0.0-alpha"]);
    assert!(v("1.0.0-alpha").precedes(&v("1.0.0")));
    assert!(!v("1.0.0").precedes(&v("1.0.0-alpha")));
    assert_eq!(v("1.0.0-alpha").rank(&v("1.0.0-alpha")), 0);
}

#[test]
fn versions_from_parts_are_checked() {
    assert!(Version::from_parts(1, 0, 0, "alpha..1", "").is_none());
    assert!(Version::from_parts(1, 0, 0, "", "build!").is_none());
    let ok = Version::from_parts(1, 2, 3, "rc.1", "build.5").unwrap();
    assert_eq!(ok.to_text(), "1.2.3-rc.1+build.5");
    assert!(Version::parse("1.2").is_none());
    assert_eq!(Version::new(1, 2, 3).to_text(), "1.2.3");
}
