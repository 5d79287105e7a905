use qpm_cli::cache::PackageCache;
use qpm_cli::package::{Artifact, PackageConfig};
use qpm_cli::version::Version;

fn v(text: &str) -> Version {
    Version::parse(text).unwrap()
}

fn artifact(id: &str, version: &str, checksum: &str) -> Artifact {
    Artifact {
        config: PackageConfig {
            id: id.to_string(),
            version: v(version),
            shared_directory: "shared".to_string(),
            dependencies_directory: "extern".to_string(),
            dependencies: vec![],
            dev_dependencies: vec![],
            out_binaries: None,
            env: None,
        },
        qpkg_checksum: Some(checksum.to_string()),
    }
}

#[test]
fn cache_remembers_what_it_was_given() {
    let mut cache = PackageCache::new();
    assert!(cache.cached_names().is_none());
    assert!(cache.cached_versions("a").is_none());
    cache.remember_names(&vec!["a".to_string(), "b".to_string()]);
    assert_eq!(cache.cached_names().unwrap(), vec!["a", "b"]);
    cache.remember_versions("a", &vec![v("2.0.0"), v("1.0.0")]);
    let versions: Vec<String> = cache.cached_versions("a").unwrap().iter().map(|x| x.to_text()).collect();
    assert_eq!(versions, vec!["2.0.0", "1.0.0"]);
    cache.remember_versions("a", &vec![v("3.0.0")]);
    assert_eq!(cache.cached_versions("a").unwrap().len(), 1);
    assert!(cache.cached_versions("b").is_none());
}

#[test]
fn cache_keeps_packages_by_id_and_version() {
    let mut cache = PackageCache::new();
    cache.remember_package(&artifact("a", "1.0.0", "one"));
    cache.remember_package(&artifact("a", "2.0.0", "two"));
    cache.remember_package(&artifact("a", "1.0.0", "three"));
    assert_eq!(cache.cached_package("a", &v("1.0.0")).unwrap().qpkg_checksum.as_deref(), Some("three"));
    assert_eq!(cache.cached_package("a", &v("2.0.0")).unwrap().qpkg_checksum.as_deref(), Some("two"));
    assert!(cache.cached_package("b", &v("1.0.0")).is_none());
}

#[test]
fn cache_remembers_only_answers_that_were_found() {
    let mut cache = PackageCache::new();
    assert!(cache.versions_fetched("a", None).is_none());
    assert!(cache.cached_versions("a").is_none());
    assert_eq!(cache.versions_fetched("a", Some(vec![v("1.0.0")])).unwrap().len(), 1);
    assert_eq!(cache.cached_versions("a").unwrap().len(), 1);
    assert!(cache.package_fetched(None).is_none());
    let fetched = cache.package_fetched(Some(artifact("b", "0.1.0", "x"))).unwrap();
    assert_eq!(fetched.config.id, "b");
    assert!(cache.cached_package("b", &v("0.1.0")).is_some());
}
