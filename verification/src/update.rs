//! Deciding whether and from where qpm updates itself.
use vstd::prelude::*;
use crate::github::{
    bleeding_release_url, download_github_artifact_url, nightly_github_artifact_url, GithubBranchResponse,
    GithubCommitDiffCommitResponse, GithubCommitDiffResponse,
};
use crate::text::text_equals;

verus! {

/// The branch and commit qpm was built from.
pub struct CurrentVersion {
    pub branch: &'static str,
    pub commit: &'static str,
}

/// How the running build compares with the latest commit of a branch.
#[derive(Debug)]
pub struct VersionCheck {
    pub latest_commit: String,
    pub up_to_date: bool,
    pub behind_by: i32,
    pub changelog: Vec<String>,
}

/// Where an update comes from.
#[derive(Debug)]
pub enum UpdateTarget {
    /// The requested branch's commit matches the running build; nothing to do
    AlreadyLatest,
    DownloadUrl(String),
}

/// Why a version check fails.
#[derive(Debug)]
pub enum UpdateError {
    /// The selected branch is behind the running build.
    OlderBranch,
}

/// The next step of a version check after the branch's head is known.
pub enum VersionCheckStep {
    /// The check is complete.
    Done(VersionCheck),
    /// The running build differs from the branch's head (kept here): the comparison of the
    /// two is needed.
    NeedsDiff(String),
}

/// First step of a version check: the running build's commit against the head of the branch.
pub fn check_version_start(current_commit: &str, latest_branch: GithubBranchResponse) -> (r: VersionCheckStep)
    ensures
        latest_branch.commit.sha@ == current_commit@ ==> (r matches VersionCheckStep::Done(c) && c.latest_commit@
            == latest_branch.commit.sha@ && c.up_to_date && c.behind_by == 0 && c.changelog@.len() == 0),
        latest_branch.commit.sha@ != current_commit@ ==> (r matches VersionCheckStep::NeedsDiff(sha) && sha@
            == latest_branch.commit.sha@),
{
    let sha = latest_branch.commit.sha;
    if text_equals(sha.as_str(), current_commit) {
        VersionCheckStep::Done(VersionCheck { latest_commit: sha, up_to_date: true, behind_by: 0, changelog: Vec::new() })
    } else {
        VersionCheckStep::NeedsDiff(sha)
    }
}

/// The messages of the commits of a comparison, in order.
pub open spec fn commit_messages(commits: Seq<GithubCommitDiffCommitResponse>) -> Seq<Seq<char>> {
    commits.map_values(|c: GithubCommitDiffCommitResponse| c.commit.message@)
}

/// Second step of a version check, given the comparison of the running build's commit with the
/// branch: `OlderBranch` when the branch is behind, else an out-of-date result whose changelog
/// is the commit messages.
pub fn check_version_finish(latest_commit: String, diff: GithubCommitDiffResponse) -> (r: Result<VersionCheck, UpdateError>)
    ensures
        diff.behind_by > 0 ==> r is Err,
        diff.behind_by <= 0 ==> (r matches Ok(c) && c.latest_commit@ == latest_commit@ && !c.up_to_date
            && c.behind_by == diff.behind_by && c.changelog@.map_values(|m: String| m@) == commit_messages(diff.commits@)),
{
    if diff.behind_by > 0 {
        return Err(UpdateError::OlderBranch);
    }
    let behind_by = diff.behind_by;
    let commits = diff.commits;
    let mut changelog: Vec<String> = Vec::new();
    let mut i: usize = 0;
    while i < commits.len()
        invariant
            i <= commits.len(),
            changelog.len() == i,
            forall|j: int| 0 <= j < i ==> (#[trigger] changelog@[j])@ == commits@[j].commit.message@,
        decreases commits.len() - i,
    {
        changelog.push(commits[i].commit.message.clone());
        i += 1;
    }
    assert(changelog@.map_values(|m: String| m@) =~= commit_messages(commits@));
    Ok(VersionCheck { latest_commit, up_to_date: false, behind_by, changelog })
}

/// Where to update from when a branch is given: nothing to do when its head is the running
/// build's commit, else the workflow artifact of that branch.
pub fn resolve_update_for_branch(current_commit: &str, input_branch: &str, latest_branch: &GithubBranchResponse, artifact_name: &str) -> (r: UpdateTarget)
    ensures
        current_commit@ == latest_branch.commit.sha@ ==> r is AlreadyLatest,
        current_commit@ != latest_branch.commit.sha@ ==> (r matches UpdateTarget::DownloadUrl(u) && u@
            == "https://nightly.link/QuestPackageManager/QPM.CLI/workflows/cargo-build/"@ + input_branch@ + "/"@
            + artifact_name@ + ".zip"@),
{
    if text_equals(current_commit, latest_branch.commit.sha.as_str()) {
        UpdateTarget::AlreadyLatest
    } else {
        UpdateTarget::DownloadUrl(download_github_artifact_url(input_branch, artifact_name))
    }
}

/// Where to update from when no branch is given: the bleeding release for the target, if the
/// target has one.
pub fn resolve_update_bleeding(target_os: &str, target_arch: &str) -> (r: Option<UpdateTarget>)
    ensures
        r is None <==> !(target_os@ == "windows"@ || target_os@ == "linux"@ || (target_os@ == "macos"@ && (
            target_arch@ == "x86_64"@ || target_arch@ == "aarch64"@))),
        r is None <==> bleeding_release_url(target_os@, target_arch@) is None,
        r matches Some(t) ==> (t matches UpdateTarget::DownloadUrl(u) && bleeding_release_url(target_os@, target_arch@)
            == Some(u@)),
{
    match nightly_github_artifact_url(target_os, target_arch) {
        Some(url) => Some(UpdateTarget::DownloadUrl(url)),
        None => None,
    }
}

} // verus!
