//! Choosing an NDK: from the manifest by a requirement, or among the installed ones.
use vstd::prelude::*;
use crate::android::{
    first_unparsable_ndk, get_ndk_str_versions, get_ndk_str_versions_str, last_with_text,
    last_with_version, listed_versions_parse, AndroidRepositoryManifest, RemotePackage,
};
use crate::keyed::lookup;
use crate::ranges::{parsed_requirement, requirement_matches, VersionReq};
use crate::version::{parsed_version, version_lt, version_rank, version_text, Version, VersionModel};

verus! {

/// Why no NDK could be chosen.
#[derive(Debug)]
pub enum NdkError {
    /// The text is neither an available version nor a valid requirement.
    InvalidRequirement(String),
    /// No NDK satisfies the requirement (its text).
    NoMatchingVersion(String),
    /// No installed NDK satisfies the requirement (its text).
    NoInstalledVersion(String),
    /// The version text of a listed NDK path does not parse.
    UnparsableVersion(String),
}

/// The position of the highest of the flagged versions; `None` when none is flagged.
pub fn highest_flagged_version(versions: &Vec<Version>, flags: &Vec<bool>) -> (r: Option<usize>)
    requires
        versions.len() == flags.len(),
    ensures
        r is None <==> forall|i: int| 0 <= i < flags.len() ==> !flags@[i],
        r matches Some(b) ==> b < versions.len() && flags@[b as int] && forall|j: int|
            0 <= j < versions.len() && flags@[j] ==> !version_lt(versions@[b as int]@, #[trigger] versions@[j]@),
{
    let mut best: Option<usize> = None;
    let mut k: usize = 0;
    while k < versions.len()
        invariant
            k <= versions.len(),
            versions.len() == flags.len(),
            forall|i: int| 0 <= i < k ==> (#[trigger] versions@[i])@.wf(),
            best is None ==> forall|i: int| 0 <= i < k ==> !flags@[i],
            best matches Some(b) ==> b < k && flags@[b as int] && forall|j: int|
                0 <= j < k && flags@[j] ==> !version_lt(versions@[b as int]@, #[trigger] versions@[j]@),
        decreases versions.len() - k,
    {
        let vk = &versions[k];
        proof {
            use_type_invariant(vk);
        }
        if flags[k] {
            match best {
                None => {
                    assert(version_rank(versions@[k as int]@, versions@[k as int]@) == 0);
                    best = Some(k);
                },
                Some(b) => {
                    let r = versions[b].rank(&versions[k]);
                    if r < 0 {
                        assert(version_rank(versions@[k as int]@, versions@[k as int]@) == 0);
                        assert forall|j: int| 0 <= j < k + 1 && flags@[j] implies !version_lt(
                            versions@[k as int]@,
                            #[trigger] versions@[j]@,
                        ) by {
                            if j < k && version_lt(versions@[k as int]@, versions@[j]@) {
                                assert(versions@[j]@.wf());
                                assert(version_lt(versions@[b as int]@, versions@[j]@));
                            }
                        }
                        best = Some(k);
                    }
                },
            }
        }
        k += 1;
    }
    best
}

/// The highest NDK of the manifest (having an archive for the host) that the requirement
/// matches, with its version text; `NoMatchingVersion` when none matches. Every listed path
/// must name a version (`first_unparsable_ndk` tells which one does not).
pub fn range_match_ndk<'a>(manifest: &'a AndroidRepositoryManifest, req: &VersionReq, os: &str, arch: &str) -> (r: Result<(String, &'a RemotePackage), NdkError>)
    requires
        listed_versions_parse(manifest.remote_package@, os@, arch@),
    ensures
        match r {
            Ok((text, p)) => exists|v: VersionModel| {
                &&& last_with_version(manifest.remote_package@, os@, arch@, v) == Some(*p)
                &&& v.wf() && requirement_matches(req.source(), v)
                &&& text@ == version_text(v)
                &&& forall|w: VersionModel| #[trigger] last_with_version(manifest.remote_package@, os@, arch@, w) is Some
                    && w.wf() && requirement_matches(req.source(), w) ==> !version_lt(v, w)
            },
            Err(e) => e is NoMatchingVersion && forall|w: VersionModel|
                #[trigger] last_with_version(manifest.remote_package@, os@, arch@, w) is Some ==> !(w.wf()
                    && requirement_matches(req.source(), w)),
        },
{
    let index = get_ndk_str_versions(manifest, os, arch);
    let n = index.len();
    let mut versions: Vec<Version> = Vec::new();
    let mut flags: Vec<bool> = Vec::new();
    let mut i: usize = 0;
    while i < n
        invariant
            n == index@.len(),
            i <= n,
            versions.len() == i,
            flags.len() == i,
            forall|j: int| 0 <= j < n ==> (#[trigger] index@[j]).0.wf(),
            forall|j: int| 0 <= j < i ==> (#[trigger] versions@[j])@ == index@[j].0,
            forall|j: int| 0 <= j < i ==> #[trigger] flags@[j] == requirement_matches(req.source(), index@[j].0),
        decreases n - i,
    {
        let v = index.version_at(i);
        let m = req.matches(v);
        versions.push(v.clone());
        flags.push(m);
        i += 1;
    }
    match highest_flagged_version(&versions, &flags) {
        Some(b) => {
            let p = index.package_at(b);
            let text = versions[b].to_text();
            proof {
                let v = index@[b as int].0;
                assert(lookup(index@, v) == Some(index@[b as int].1));
                assert forall|w: VersionModel| #[trigger] last_with_version(manifest.remote_package@, os@, arch@, w) is Some
                    && w.wf() && requirement_matches(req.source(), w) implies !version_lt(v, w) by {
                    assert(lookup(index@, w) is Some);
                    crate::keyed::lemma_lookup_present(index@, w);
                    let j = choose|j: int| 0 <= j < index@.len() && index@[j].0 == w && index@[j].1 == lookup(index@, w)->0;
                    assert(flags@[j]);
                    assert(versions@[j]@ == w);
                }
            }
            Ok((text, p))
        },
        None => {
            proof {
                assert forall|w: VersionModel| #[trigger] last_with_version(manifest.remote_package@, os@, arch@, w) is Some
                    implies !(w.wf() && requirement_matches(req.source(), w)) by {
                    assert(lookup(index@, w) is Some);
                    crate::keyed::lemma_lookup_present(index@, w);
                    let j = choose|j: int| 0 <= j < index@.len() && index@[j].0 == w && index@[j].1 == lookup(index@, w)->0;
                    assert(!flags@[j]);
                }
            }
            Err(NdkError::NoMatchingVersion(String::from_str(req.text())))
        },
    }
}


/// What `range_match_ndk` answers for the requirement whose text is `req_src`.
pub open spec fn range_match_outcome<'a>(
    pkgs: Seq<RemotePackage>,
    os: Seq<char>,
    arch: Seq<char>,
    req_src: Seq<char>,
    r: Result<(String, &'a RemotePackage), NdkError>,
) -> bool {
    match r {
        Ok((text, p)) => exists|v: VersionModel| {
            &&& last_with_version(pkgs, os, arch, v) == Some(*p)
            &&& v.wf() && requirement_matches(req_src, v)
            &&& text@ == version_text(v)
            &&& forall|w: VersionModel| #[trigger] last_with_version(pkgs, os, arch, w) is Some
                && w.wf() && requirement_matches(req_src, w) ==> !version_lt(v, w)
        },
        Err(e) => e is NoMatchingVersion && forall|w: VersionModel|
            #[trigger] last_with_version(pkgs, os, arch, w) is Some ==> !(w.wf() && requirement_matches(req_src, w)),
    }
}

/// An NDK for `version`: the package whose path names exactly that text when there is one,
/// else the highest one matching `version` read as a requirement (`InvalidRequirement` when it
/// is not one). Every listed path must name a version (`first_unparsable_ndk` tells which one does not).
pub fn fuzzy_match_ndk<'a>(manifest: &'a AndroidRepositoryManifest, version: &str, os: &str, arch: &str) -> (r: Result<(String, &'a RemotePackage), NdkError>)
    requires
        listed_versions_parse(manifest.remote_package@, os@, arch@),
    ensures
        last_with_text(manifest.remote_package@, os@, arch@, version@) matches Some(p) ==> r matches Ok((t, q))
            && t@ == version@ && *q == p,
        last_with_text(manifest.remote_package@, os@, arch@, version@) is None ==> {
            if parsed_requirement(version@) is None {
                r matches Err(e) && e is InvalidRequirement
            } else {
                range_match_outcome(manifest.remote_package@, os@, arch@, version@, r)
            }
        },
{
    let by_text = get_ndk_str_versions_str(manifest, os, arch);
    match by_text.get(version) {
        Some(p) => Ok((String::from_str(version), p)),
        None => match VersionReq::parse(version) {
            Some(req) => range_match_ndk(manifest, &req, os, arch),
            None => Err(NdkError::InvalidRequirement(String::from_str(version))),
        },
    }
}

/// `fuzzy_match_ndk`, after checking that every listed path names a version:
/// `UnparsableVersion` (with the first text that does not parse) otherwise.
pub fn match_ndk<'a>(manifest: &'a AndroidRepositoryManifest, version: &str, os: &str, arch: &str) -> (r: Result<(String, &'a RemotePackage), NdkError>)
    ensures
        !listed_versions_parse(manifest.remote_package@, os@, arch@) <==> (r matches Err(e) && e is UnparsableVersion),
        listed_versions_parse(manifest.remote_package@, os@, arch@) ==> {
            &&& last_with_text(manifest.remote_package@, os@, arch@, version@) matches Some(p) ==> r matches Ok((t, q))
                && t@ == version@ && *q == p
            &&& last_with_text(manifest.remote_package@, os@, arch@, version@) is None ==> {
                if parsed_requirement(version@) is None {
                    r matches Err(e) && e is InvalidRequirement
                } else {
                    range_match_outcome(manifest.remote_package@, os@, arch@, version@, r)
                }
            }
        },
{
    match first_unparsable_ndk(manifest, os, arch) {
        Some(text) => Err(NdkError::UnparsableVersion(text)),
        None => fuzzy_match_ndk(manifest, version, os, arch),
    }
}

/// The installed NDK directory `name` suits the requirement: it parses as a version that the
/// requirement matches.
pub open spec fn installed_fits(req_src: Seq<char>, name: Seq<char>) -> bool {
    parsed_version(name) matches Some(v) && v.wf() && requirement_matches(req_src, v)
}

/// The version that an installed NDK directory name reads as (meaningful where it parses).
pub open spec fn installed_version(name: Seq<char>) -> VersionModel {
    parsed_version(name)->0
}

/// Among installed NDK directory names, the position of the one of highest version that
/// suits the requirement; `None` when none does.
pub fn select_installed_ndk(req: &VersionReq, names: &Vec<String>) -> (r: Option<usize>)
    ensures
        r is None <==> forall|i: int| 0 <= i < names.len() ==> !installed_fits(req.source(), #[trigger] names@[i]@),
        r matches Some(b) ==> b < names.len() && installed_fits(req.source(), names@[b as int]@) && forall|j: int|
            0 <= j < names.len() && installed_fits(req.source(), #[trigger] names@[j]@) ==> !version_lt(
                installed_version(names@[b as int]@),
                installed_version(names@[j]@),
            ),
{
    let mut versions: Vec<Version> = Vec::new();
    let mut flags: Vec<bool> = Vec::new();
    let mut i: usize = 0;
    while i < names.len()
        invariant
            i <= names.len(),
            versions.len() == i,
            flags.len() == i,
            forall|j: int| 0 <= j < i ==> #[trigger] flags@[j] == installed_fits(req.source(), names@[j]@),
            forall|j: int| 0 <= j < i && #[trigger] flags@[j] ==> versions@[j]@ == installed_version(names@[j]@),
        decreases names.len() - i,
    {
        match Version::parse(names[i].as_str()) {
            Some(v) => {
                let fits = req.matches(&v);
                versions.push(v);
                flags.push(fits);
            },
            None => {
                versions.push(Version::new(0, 0, 0));
                flags.push(false);
            },
        }
        i += 1;
    }
    let r = highest_flagged_version(&versions, &flags);
    proof {
        assert forall|j: int| 0 <= j < names.len() implies flags@[j] == installed_fits(req.source(), #[trigger] names@[j]@) by {}
        if let Some(b) = r {
            assert forall|j: int| 0 <= j < names.len() && installed_fits(req.source(), #[trigger] names@[j]@) implies !version_lt(
                installed_version(names@[b as int]@),
                installed_version(names@[j]@),
            ) by {
                assert(flags@[j]);
                assert(flags@[b as int]);
            }
        }
    }
    r
}

/// The installed NDK that a package's requirement selects: `None` without a requirement or
/// when no installed directory suits it (see `select_installed_ndk`).
pub fn resolve_ndk_version(ndk_requirement: Option<&VersionReq>, installed_names: &Vec<String>) -> (r: Option<usize>)
    ensures
        ndk_requirement is None ==> r is None,
        ndk_requirement matches Some(req) ==> {
            &&& r is None <==> forall|i: int| 0 <= i < installed_names.len() ==> !installed_fits(req.source(), #[trigger] installed_names@[i]@)
            &&& r matches Some(b) ==> b < installed_names.len() && installed_fits(req.source(), installed_names@[b as int]@)
                && forall|j: int| 0 <= j < installed_names.len() && installed_fits(req.source(), #[trigger] installed_names@[j]@)
                ==> !version_lt(installed_version(installed_names@[b as int]@), installed_version(installed_names@[j]@))
        },
{
    match ndk_requirement {
        Some(req) => select_installed_ndk(req, installed_names),
        None => None,
    }
}

/// The installed NDK version to pin for `version` read as a requirement, working offline: the
/// name of the installed directory chosen by `select_installed_ndk`. `InvalidRequirement` when
/// `version` is not a requirement, `NoInstalledVersion` when nothing installed suits it.
pub fn pin_installed_version(version: &str, installed_names: &Vec<String>) -> (r: Result<String, NdkError>)
    ensures
        parsed_requirement(version@) is None ==> (r matches Err(e) && e is InvalidRequirement),
        parsed_requirement(version@) is Some ==> {
            &&& r matches Err(e) ==> e is NoInstalledVersion
            &&& r is Err <==> forall|i: int| 0 <= i < installed_names.len() ==> !installed_fits(version@, #[trigger] installed_names@[i]@)
            &&& r matches Ok(name) ==> exists|b: int| 0 <= b < installed_names.len() && installed_names@[b]@ == name@
                && installed_fits(version@, name@) && forall|j: int| 0 <= j < installed_names.len()
                && installed_fits(version@, #[trigger] installed_names@[j]@) ==> !version_lt(
                    installed_version(name@),
                    installed_version(installed_names@[j]@),
                )
        },
{
    let req = match VersionReq::parse(version) {
        Some(req) => req,
        None => return Err(NdkError::InvalidRequirement(String::from_str(version))),
    };
    match select_installed_ndk(&req, installed_names) {
        Some(b) => Ok(installed_names[b].clone()),
        None => Err(NdkError::NoInstalledVersion(String::from_str(version))),
    }
}

} // verus!
