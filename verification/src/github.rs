//! Addresses and replies of the GitHub services that qpm updates itself from.
use vstd::prelude::*;
use crate::text::{opt_text, text_equals};

verus! {

/// A branch as the GitHub API describes it.
pub struct GithubBranchResponse {
    pub name: String,
    pub commit: GithubBranchCommitResponse,
}

/// The head commit of a branch.
pub struct GithubBranchCommitResponse {
    pub sha: String,
}

/// The comparison of two commits as the GitHub API describes it.
pub struct GithubCommitDiffResponse {
    pub ahead_by: i32,
    pub behind_by: i32,
    pub total_commits: i32,
    pub status: String,
    pub commits: Vec<GithubCommitDiffCommitResponse>,
}

/// One commit of a comparison.
pub struct GithubCommitDiffCommitResponse {
    pub commit: GithubCommitDiffCommitDataResponse,
}

/// The data of one commit of a comparison.
pub struct GithubCommitDiffCommitDataResponse {
    pub message: String,
}

/// The address of the GitHub API for `branch` of the qpm repository.
pub fn github_branch_url(branch: &str) -> (r: String)
    ensures
        r@ == "https://api.github.com/repos/QuestPackageManager/QPM.CLI/branches/"@ + branch@,
{
    let mut s = String::from_str("https://api.github.com/repos/QuestPackageManager/QPM.CLI/branches/");
    s.append(branch);
    s
}

/// The address of the GitHub API comparing `old` with `new` in the qpm repository.
pub fn github_commit_diff_url(old: &str, new: &str) -> (r: String)
    ensures
        r@ == "https://api.github.com/repos/QuestPackageManager/QPM.CLI/compare/"@ + old@ + "..."@ + new@,
{
    let mut s = String::from_str("https://api.github.com/repos/QuestPackageManager/QPM.CLI/compare/");
    s.append(old);
    s.append("...");
    s.append(new);
    s
}

/// The name of the build artifact for a target OS (`std::env::consts::OS`): `windows-qpm.exe`,
/// `linux-qpm` or `macos-qpm`; `None` for another OS, which has no build.
pub fn github_artifact_name(target_os: &str) -> (r: Option<String>)
    ensures
        target_os@ == "windows"@ ==> (r matches Some(n) && n@ == "windows-qpm.exe"@),
        target_os@ == "linux"@ ==> (r matches Some(n) && n@ == "linux-qpm"@),
        target_os@ == "macos"@ ==> (r matches Some(n) && n@ == "macos-qpm"@),
        target_os@ != "windows"@ && target_os@ != "linux"@ && target_os@ != "macos"@ ==> r is None,
{
    proof {
        reveal_strlit("windows");
        reveal_strlit("linux");
        reveal_strlit("macos");
        reveal_strlit("x86_64");
        reveal_strlit("aarch64");
        assert("linux"@[0] != "macos"@[0]);
    }
    if text_equals(target_os, "windows") {
        Some(String::from_str("windows-qpm.exe"))
    } else if text_equals(target_os, "linux") {
        Some(String::from_str("linux-qpm"))
    } else if text_equals(target_os, "macos") {
        Some(String::from_str("macos-qpm"))
    } else {
        None
    }
}

/// The address of the `cargo-build` workflow artifact built from `sha`.
pub fn download_github_artifact_url(sha: &str, artifact_name: &str) -> (r: String)
    ensures
        r@ == "https://nightly.link/QuestPackageManager/QPM.CLI/workflows/cargo-build/"@ + sha@ + "/"@
            + artifact_name@ + ".zip"@,
{
    let mut s = String::from_str("https://nightly.link/QuestPackageManager/QPM.CLI/workflows/cargo-build/");
    s.append(sha);
    s.append("/");
    s.append(artifact_name);
    s.append(".zip");
    s
}

/// The address of the bleeding release archive for a target OS and architecture (Rust's
/// names); `None` for a target without one.
pub open spec fn bleeding_release_url(target_os: Seq<char>, target_arch: Seq<char>) -> Option<Seq<char>> {
    if target_os == "windows"@ {
        Some("https://github.com/QuestPackageManager/QPM.CLI/releases/download/bleeding/qpm-windows-x64.zip"@)
    } else if target_os == "macos"@ && target_arch == "x86_64"@ {
        Some("https://github.com/QuestPackageManager/QPM.CLI/releases/download/bleeding/qpm-macos-x64.zip"@)
    } else if target_os == "macos"@ && target_arch == "aarch64"@ {
        Some("https://github.com/QuestPackageManager/QPM.CLI/releases/download/bleeding/qpm-macos-arm64.zip"@)
    } else if target_os == "linux"@ {
        Some("https://github.com/QuestPackageManager/QPM.CLI/releases/download/bleeding/qpm-linux-x64.zip"@)
    } else {
        None
    }
}

/// The address of the bleeding release archive for a target (`std::env::consts::OS` and
/// `ARCH`): Windows (any architecture), macOS on x86_64 or aarch64, and Linux (any
/// architecture) have one; `None` for any other target.
pub fn nightly_github_artifact_url(target_os: &str, target_arch: &str) -> (r: Option<String>)
    ensures
        opt_text(r) == bleeding_release_url(target_os@, target_arch@),
        target_os@ == "windows"@ ==> (r matches Some(u) && u@
            == "https://github.com/QuestPackageManager/QPM.CLI/releases/download/bleeding/qpm-windows-x64.zip"@),
        target_os@ == "macos"@ && target_arch@ == "x86_64"@ ==> (r matches Some(u) && u@
            == "https://github.com/QuestPackageManager/QPM.CLI/releases/download/bleeding/qpm-macos-x64.zip"@),
        target_os@ == "macos"@ && target_arch@ == "aarch64"@ ==> (r matches Some(u) && u@
            == "https://github.com/QuestPackageManager/QPM.CLI/releases/download/bleeding/qpm-macos-arm64.zip"@),
        target_os@ == "linux"@ ==> (r matches Some(u) && u@
            == "https://github.com/QuestPackageManager/QPM.CLI/releases/download/bleeding/qpm-linux-x64.zip"@),
        r is None <==> !(target_os@ == "windows"@ || target_os@ == "linux"@ || (target_os@ == "macos"@ && (
            target_arch@ == "x86_64"@ || target_arch@ == "aarch64"@))),
{
    proof {
        reveal_strlit("windows");
        reveal_strlit("linux");
        reveal_strlit("macos");
        reveal_strlit("x86_64");
        reveal_strlit("aarch64");
        assert("linux"@[0] != "macos"@[0]);
        assert("x86_64"@[0] != "aarch64"@[0]);
    }
    if text_equals(target_os, "windows") {
        Some(String::from_str("https://github.com/QuestPackageManager/QPM.CLI/releases/download/bleeding/qpm-windows-x64.zip"))
    } else if text_equals(target_os, "macos") && text_equals(target_arch, "x86_64") {
        Some(String::from_str("https://github.com/QuestPackageManager/QPM.CLI/releases/download/bleeding/qpm-macos-x64.zip"))
    } else if text_equals(target_os, "macos") && text_equals(target_arch, "aarch64") {
        Some(String::from_str("https://github.com/QuestPackageManager/QPM.CLI/releases/download/bleeding/qpm-macos-arm64.zip"))
    } else if text_equals(target_os, "linux") {
        Some(String::from_str("https://github.com/QuestPackageManager/QPM.CLI/releases/download/bleeding/qpm-linux-x64.zip"))
    } else {
        None
    }
}

} // verus!
