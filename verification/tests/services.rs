use qpm_cli::cmake::{extern_cmake_text, make_defines_string, CompileOptions, ExternDependency};
use qpm_cli::git::{
    authorized_asset_url, clone_url, find_asset, mask_token, release_lookup, replace_text,
    split_slashes, GithubReleaseAsset, GithubReleaseData,
};
use qpm_cli::github::{
    download_github_artifact_url, github_artifact_name, github_branch_url, github_commit_diff_url,
    nightly_github_artifact_url, GithubBranchCommitResponse, GithubBranchResponse,
    GithubCommitDiffCommitDataResponse, GithubCommitDiffCommitResponse, GithubCommitDiffResponse,
};
use qpm_cli::qpackages::{PublishOutcome, QPMRepository, RequestOutcome};
use qpm_cli::toggle::Toggle;
use qpm_cli::update::{
    check_version_finish, check_version_start, resolve_update_bleeding, resolve_update_for_branch,
    UpdateError, UpdateTarget, VersionCheckStep,
};
use qpm_cli::version::Version;

fn branch(sha: &str) -> GithubBranchResponse {
    GithubBranchResponse { name: "main".to_string(), commit: GithubBranchCommitResponse { sha: sha.to_string() } }
}

#[test]
fn toggle_reads_words_ignoring_case() {
    assert_eq!(Toggle::parse("ENABLE"), Toggle::Enable);
    assert_eq!(Toggle::parse("t"), Toggle::Enable);
    assert_eq!(Toggle::parse("1"), Toggle::Enable);
    assert_eq!(Toggle::parse("False"), Toggle::Disable);
    assert_eq!(Toggle::parse("0"), Toggle::Disable);
    assert_eq!(Toggle::parse("maybe"), Toggle::Invalid);
    assert!(Toggle::Enable.is_enabled());
    assert!(!bool::from(Toggle::Disable));
    assert_eq!(Toggle::from(true), Toggle::Enable);
    assert_eq!(bool::from(Toggle::from(false)), false);
    assert_eq!("d".parse::<Toggle>().unwrap(), Toggle::Disable);
}

#[test]
fn github_addresses() {
    assert_eq!(github_branch_url("main"), "https://api.github.com/repos/QuestPackageManager/QPM.CLI/branches/main");
    assert_eq!(
        github_commit_diff_url("abc", "def"),
        "https://api.github.com/repos/QuestPackageManager/QPM.CLI/compare/abc...def"
    );
    assert_eq!(github_artifact_name("linux").as_deref(), Some("linux-qpm"));
    assert_eq!(github_artifact_name("windows").as_deref(), Some("windows-qpm.exe"));
    assert_eq!(github_artifact_name("freebsd"), None);
    assert_eq!(
        download_github_artifact_url("abc", "linux-qpm"),
        "https://nightly.link/QuestPackageManager/QPM.CLI/workflows/cargo-build/abc/linux-qpm.zip"
    );
    assert_eq!(
        nightly_github_artifact_url("macos", "aarch64").as_deref(),
        Some("https://github.com/QuestPackageManager/QPM.CLI/releases/download/bleeding/qpm-macos-arm64.zip")
    );
    assert_eq!(nightly_github_artifact_url("macos", "powerpc"), None);
}

#[test]
fn version_check_steps() {
    match check_version_start("abc", branch("abc")) {
        VersionCheckStep::Done(c) => {
            assert!(c.up_to_date);
            assert_eq!(c.behind_by, 0);
            assert!(c.changelog.is_empty());
        },
        VersionCheckStep::NeedsDiff(_) => panic!("expected a finished check"),
    }
    assert!(matches!(check_version_start("abc", branch("def")), VersionCheckStep::NeedsDiff(s) if s == "def"));
    let diff = |behind_by: i32| GithubCommitDiffResponse {
        ahead_by: 2,
        behind_by,
        total_commits: 2,
        status: "ahead".to_string(),
        commits: vec![
            GithubCommitDiffCommitResponse { commit: GithubCommitDiffCommitDataResponse { message: "one".to_string() } },
            GithubCommitDiffCommitResponse { commit: GithubCommitDiffCommitDataResponse { message: "two".to_string() } },
        ],
    };
    let check = check_version_finish("def".to_string(), diff(0)).ok().unwrap();
    assert!(!check.up_to_date);
    assert_eq!(check.changelog, vec!["one", "two"]);
    assert!(matches!(check_version_finish("def".to_string(), diff(1)), Err(UpdateError::OlderBranch)));
}

#[test]
fn update_targets() {
    assert!(matches!(resolve_update_for_branch("abc", "dev", &branch("abc"), "linux-qpm"), UpdateTarget::AlreadyLatest));
    assert!(matches!(
        resolve_update_for_branch("abc", "dev", &branch("def"), "linux-qpm"),
        UpdateTarget::DownloadUrl(u) if u == "https://nightly.link/QuestPackageManager/QPM.CLI/workflows/cargo-build/dev/linux-qpm.zip"
    ));
    assert!(matches!(
        resolve_update_bleeding("linux", "x86_64"),
        Some(UpdateTarget::DownloadUrl(u)) if u == "https://github.com/QuestPackageManager/QPM.CLI/releases/download/bleeding/qpm-linux-x64.zip"
    ));
    assert!(resolve_update_bleeding("haiku", "x86_64").is_none());
}

#[test]
fn defines_cmake_text() {
    let text = make_defines_string(
        &Version::parse("1.2.3").unwrap(),
        "My Mod",
        "my-mod_1.2.3",
        &vec!["beatsaber-hook".to_string(), "codegen".to_string()],
        "extern",
        "shared",
    );
    assert!(text.starts_with("# YOU SHOULD NOT MANUALLY EDIT THIS FILE, QPM WILL VOID ALL CHANGES\n# Version defines, pretty useful\nset(MOD_VERSION \"1.2.3\")\n"));
    assert!(text.contains("set(MOD_ID \"MyMod\")\n"));
    assert!(text.contains("set(COMPILE_ID \"my-mod_1.2.3\")\n"));
    assert!(text.contains("set(CODEGEN_ID \"codegen\")\n"));
    assert!(text.contains("set(EXTERN_DIR_NAME \"extern\")\nset(SHARED_DIR_NAME \"shared\")\n"));
}

#[test]
fn extern_cmake_text_without_compile_options() {
    let text = extern_cmake_text(&vec![]);
    assert!(text.contains("# Sadly, there were none with extra include dirs\n"));
    assert!(text.ends_with("target_link_libraries(${COMPILE_ID} PRIVATE\n\t${so_list}\n\t${a_list}\n)\n"));
}

#[test]
fn extern_cmake_text_with_compile_options() {
    let dep = ExternDependency {
        id: "bs-hook".to_string(),
        package_id: "beatsaber-hook".to_string(),
        compile_options: Some(CompileOptions {
            include_paths: Some(vec!["inc".to_string()]),
            system_includes: None,
            cpp_features: None,
            cpp_flags: Some(vec!["-Wall".to_string()]),
            c_flags: None,
        }),
        extra_files: None,
    };
    let text = extern_cmake_text(&vec![dep]);
    assert!(text.contains("target_include_directories(${COMPILE_ID} PRIVATE ${EXTERN_DIR}/includes/beatsaber-hook/inc)\n"));
    assert!(text.contains("target_compile_options(${COMPILE_ID} PRIVATE -Wall)\n"));
    assert!(!text.contains("Sadly"));
}

#[test]
fn qpackages_addresses_and_outcomes() {
    assert_eq!(QPMRepository::versions_request("bs-hook"), "https://new.qpackages.com/bs-hook?limit=0");
    assert_eq!(
        QPMRepository::package_request("bs-hook", &Version::parse("1.0.0-rc.1").unwrap()),
        "https://new.qpackages.com/bs-hook/1.0.0-rc.1"
    );
    assert_eq!(QPMRepository::packages_request(), "https://new.qpackages.com/");
    assert_eq!(QPMRepository::request_outcome(404), RequestOutcome::NotFound);
    assert_eq!(QPMRepository::request_outcome(500), RequestOutcome::Failed);
    assert_eq!(QPMRepository::request_outcome(200), RequestOutcome::Success);
    assert_eq!(QPMRepository::publish_outcome(401), PublishOutcome::Unauthorized);
    assert_eq!(QPMRepository::publish_outcome(404), PublishOutcome::Failed);
    assert_eq!(QPMRepository::publish_outcome(204), PublishOutcome::Published);
    let listed = vec![Version::new(1, 0, 0), Version::new(3, 0, 0), Version::new(2, 0, 0)];
    let sorted = QPMRepository::versions_from_listing(Some(&listed)).unwrap();
    let texts: Vec<String> = sorted.iter().map(|v| v.to_text()).collect();
    assert_eq!(texts, vec!["3.0.0", "2.0.0", "1.0.0"]);
    assert!(QPMRepository::versions_from_listing(None).is_none());
}

#[test]
fn release_address_and_asset() {
    let url = "https://github.com/user/repo/releases/download/v1.0.0/libmod.so";
    assert_eq!(split_slashes("a//b/"), vec!["a", "", "b", ""]);
    let (link, file) = release_lookup(url, "TOKEN");
    assert_eq!(link, "https://TOKEN@api.github.com/repos/user/repo/releases/tags/v1.0.0");
    assert_eq!(file, "libmod.so");
    let data = GithubReleaseData {
        assets: vec![
            GithubReleaseAsset { url: "https://api.github.com/x/1".to_string(), name: "other.so".to_string() },
            GithubReleaseAsset { url: "https://api.github.com/x/2".to_string(), name: "libmod.so".to_string() },
        ],
    };
    let asset = find_asset(&data, &file).unwrap();
    assert_eq!(asset.url, "https://api.github.com/x/2");
    assert!(find_asset(&data, "none.so").is_none());
    assert_eq!(authorized_asset_url(&asset.url, "TOKEN"), "https://TOKEN@api.github.com/x/2");
}

#[test]
fn replacing_text() {
    assert_eq!(replace_text("abcabc", "b", "XX"), "aXXcaXXc");
    assert_eq!(replace_text("aaa", "aa", "b"), "ba");
    assert_eq!(replace_text("abc", "", "x"), "xaxbxcx");
    assert_eq!(mask_token("error for secret-token at host", "secret-token"), "error for *** at host");
}

#[test]
fn clone_addresses() {
    assert_eq!(clone_url("https://github.com/user/repo/", Some("TOKEN")), "https://TOKEN@github.com/user/repo.git");
    assert_eq!(clone_url("https://gitlab.com/user/repo", Some("TOKEN")), "https://gitlab.com/user/repo.git");
    assert_eq!(clone_url("https://github.com/user/repo", None), "https://github.com/user/repo.git");
}

#[test]
fn masked_token_leaves_no_occurrence() {
    let masked = mask_token("aabbab", "ab");
    assert_eq!(masked, "a***b***");
    assert!(!masked.contains("ab"));
}

#[test]
fn bleeding_update_address_per_target() {
    let url = |os: &str, arch: &str| match resolve_update_bleeding(os, arch) {
        Some(UpdateTarget::DownloadUrl(u)) => Some(u),
        _ => None,
    };
    let base = "https://github.com/QuestPackageManager/QPM.CLI/releases/download/bleeding/";
    assert_eq!(url("windows", "x86"), Some(format!("{base}qpm-windows-x64.zip")));
    assert_eq!(url("macos", "x86_64"), Some(format!("{base}qpm-macos-x64.zip")));
    assert_eq!(url("macos", "aarch64"), Some(format!("{base}qpm-macos-arm64.zip")));
    assert_eq!(url("linux", "aarch64"), Some(format!("{base}qpm-linux-x64.zip")));
    assert_eq!(url("macos", "powerpc"), None);
}
