use qpm_cli::android::{
    AndroidRepositoryManifest, Archive, ArchivesType, CompleteType, RemotePackage, RevisionType,
};
use qpm_cli::ndk::{
    fuzzy_match_ndk, match_ndk, pin_installed_version, range_match_ndk, resolve_ndk_version,
    NdkError,
};
use qpm_cli::ranges::VersionReq;

const OS: &str = "linux";
const ARCH: &str = "x64";

fn ndk_package(path: &str, major: u64, minor: u64, micro: u64, with_host_archive: bool) -> RemotePackage {
    let archive = Archive {
        host_os: Some(OS.to_string()),
        host_arch: None,
        complete: CompleteType {
            size: Some(1),
            checksum: "deadbeef".to_string(),
            url: format!("{path}.zip"),
        },
    };
    RemotePackage {
        path: path.to_string(),
        archives: ArchivesType {
            archive: if with_host_archive { vec![archive] } else { vec![] },
        },
        revision: RevisionType {
            major: Some(major),
            minor: Some(minor),
            micro: Some(micro),
            preview: None,
        },
        display_name: format!("NDK {major}.{minor}.{micro}"),
        uses_license: None,
        channel: None,
    }
}

fn sample_manifest() -> AndroidRepositoryManifest {
    AndroidRepositoryManifest {
        license: vec![],
        remote_package: vec![
            ndk_package("ndk;24.0.0", 24, 0, 0, true),
            ndk_package("ndk;25.1.0", 25, 1, 0, true),
            ndk_package("ndk;26.0.0", 26, 0, 0, true),
        ],
    }
}

fn names(versions: &[&str]) -> Vec<String> {
    versions.iter().map(|v| v.to_string()).collect()
}

#[test]
fn resolve_ndk_version_picks_highest_installed_satisfying_requirement() {
    let installed = names(&["24.0.0", "25.1.0", "26.0.0"]);
    let req = VersionReq::parse(">=25.0.0, <26.0.0").unwrap();
    let resolved = resolve_ndk_version(Some(&req), &installed);
    assert_eq!(installed[resolved.unwrap()], "25.1.0");
}

#[test]
fn resolve_ndk_version_none_when_no_requirement() {
    let installed = names(&["25.1.0"]);
    assert!(resolve_ndk_version(None, &installed).is_none());
}

#[test]
fn resolve_ndk_version_none_when_nothing_installed_matches() {
    let installed = names(&["24.0.0"]);
    let req = VersionReq::parse("^25").unwrap();
    assert!(resolve_ndk_version(Some(&req), &installed).is_none());
}

#[test]
fn fuzzy_match_ndk_exact_version_string_hits_directly() {
    let manifest = sample_manifest();
    let (matched, ndk) = fuzzy_match_ndk(&manifest, "25.1.0", OS, ARCH).unwrap();
    assert_eq!(matched, "25.1.0");
    assert_eq!(ndk.path, "ndk;25.1.0");
}

#[test]
fn fuzzy_match_ndk_falls_back_to_range_matching() {
    let manifest = sample_manifest();
    let (matched, ndk) = fuzzy_match_ndk(&manifest, ">=25.0.0, <26.0.0", OS, ARCH).unwrap();
    assert_eq!(matched, "25.1.0");
    assert_eq!(ndk.path, "ndk;25.1.0");
}

#[test]
fn range_match_ndk_picks_highest_matching_version() {
    let manifest = sample_manifest();
    let req = VersionReq::parse(">=24.0.0").unwrap();
    let (matched, _ndk) = range_match_ndk(&manifest, &req, OS, ARCH).unwrap();
    assert_eq!(matched, "26.0.0");
}

#[test]
fn range_match_ndk_errors_when_nothing_matches() {
    let manifest = sample_manifest();
    let req = VersionReq::parse(">=100.0.0").unwrap();
    assert!(range_match_ndk(&manifest, &req, OS, ARCH).is_err());
}

#[test]
fn resolve_pin_version_offline_picks_highest_installed_satisfying_version() {
    let installed = names(&["24.0.0", "25.1.0", "26.0.0"]);
    let pinned = pin_installed_version(">=25.0.0, <26.0.0", &installed).unwrap();
    assert_eq!(pinned, "25.1.0");
}

#[test]
fn resolve_pin_version_offline_errors_when_nothing_installed_matches() {
    let installed = names(&["24.0.0"]);
    assert!(pin_installed_version("^25", &installed).is_err());
}

#[test]
fn pin_installed_version_reports_each_error() {
    let installed = names(&["24.0.0"]);
    assert!(matches!(pin_installed_version("not a requirement", &installed), Err(NdkError::InvalidRequirement(_))));
    assert!(matches!(pin_installed_version("^25", &installed), Err(NdkError::NoInstalledVersion(_))));
}

#[test]
fn range_match_ndk_reports_no_matching_version() {
    let manifest = sample_manifest();
    let req = VersionReq::parse(">=100.0.0").unwrap();
    assert!(matches!(range_match_ndk(&manifest, &req, OS, ARCH), Err(NdkError::NoMatchingVersion(_))));
}

#[test]
fn range_match_ndk_skips_packages_without_host_archive() {
    let manifest = AndroidRepositoryManifest {
        license: vec![],
        remote_package: vec![
            ndk_package("ndk;24.0.0", 24, 0, 0, true),
            ndk_package("ndk;26.0.0", 26, 0, 0, false),
        ],
    };
    let req = VersionReq::parse(">=24.0.0").unwrap();
    let (matched, _ndk) = range_match_ndk(&manifest, &req, OS, ARCH).unwrap();
    assert_eq!(matched, "24.0.0");
}

#[test]
fn match_ndk_reports_unparsable_version() {
    let manifest = AndroidRepositoryManifest {
        license: vec![],
        remote_package: vec![ndk_package("ndk;not-a-version", 1, 0, 0, true)],
    };
    assert!(matches!(match_ndk(&manifest, "^1", OS, ARCH), Err(NdkError::UnparsableVersion(_))));
}

#[test]
fn match_ndk_invalid_requirement() {
    let manifest = sample_manifest();
    assert!(matches!(match_ndk(&manifest, "??", OS, ARCH), Err(NdkError::InvalidRequirement(_))));
}

#[test]
fn installed_ndks_are_ranked_by_version_not_by_name() {
    let installed = names(&["9.0.0", "10.0.0", "8.1.0"]);
    let req = VersionReq::parse(">=8.0.0").unwrap();
    let resolved = resolve_ndk_version(Some(&req), &installed);
    assert_eq!(installed[resolved.unwrap()], "10.0.0");
    assert_eq!(pin_installed_version(">=8.0.0", &installed).unwrap(), "10.0.0");
}
