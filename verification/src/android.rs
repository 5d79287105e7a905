//! The Android SDK repository manifest and the NDK packages it lists.
use vstd::prelude::*;
use crate::identifiers::{build_char, build_valid, check_build, empty_identifier};
use crate::keyed::{keys_distinct, lookup, lemma_lookup_at, lemma_lookup_absent, lemma_lookup_push, lemma_lookup_update};
use crate::text::{decimal, decimal_string, has_prefix, lemma_decimal_digits, starts_with, text_equals};
use crate::version::{parsed_version, Version, VersionModel};

verus! {

/// The download of an archive.
pub struct CompleteType {
    pub size: Option<u64>,
    pub checksum: String,
    pub url: String,
}

/// One downloadable archive of a package, for a host OS and possibly a host architecture.
pub struct Archive {
    pub host_os: Option<String>,
    pub host_arch: Option<String>,
    pub complete: CompleteType,
}

/// The archives of a package.
pub struct ArchivesType {
    pub archive: Vec<Archive>,
}

/// The revision of a package; absent parts count as 0.
pub struct RevisionType {
    pub major: Option<u64>,
    pub minor: Option<u64>,
    pub micro: Option<u64>,
    pub preview: Option<u64>,
}

/// A reference to the license a package uses.
pub struct UsesLicenseType {
    pub reference: String,
}

/// A reference to the release channel of a package.
pub struct ChannelRefType {
    pub reference: String,
}

/// A license text of the manifest.
pub struct LicenseType {
    pub id: String,
    pub text: String,
}

/// A package of the Android SDK repository, such as `ndk;25.1.8937393`.
pub struct RemotePackage {
    pub path: String,
    pub archives: ArchivesType,
    pub revision: RevisionType,
    pub display_name: String,
    pub uses_license: Option<UsesLicenseType>,
    pub channel: Option<ChannelRefType>,
}

/// The Android SDK repository manifest.
pub struct AndroidRepositoryManifest {
    pub license: Vec<LicenseType>,
    pub remote_package: Vec<RemotePackage>,
}

/// `ndk;`, the path prefix of NDK packages.
pub open spec fn ndk_prefix() -> Seq<char> {
    seq!['n', 'd', 'k', ';']
}

/// The package is an NDK.
pub open spec fn is_ndk(p: RemotePackage) -> bool {
    has_prefix(p.path@, ndk_prefix())
}

fn is_ndk_package(p: &RemotePackage) -> (r: bool)
    ensures
        r == is_ndk(*p),
{
    proof {
        reveal_strlit("ndk;");
        assert("ndk;"@ =~= ndk_prefix());
    }
    starts_with(p.path.as_str(), "ndk;")
}

/// The NDK packages of the manifest, in manifest order.
pub fn get_ndk_packages(manifest: &AndroidRepositoryManifest) -> (r: Vec<&RemotePackage>)
    ensures
        r@.map_values(|p: &RemotePackage| *p) == manifest.remote_package@.filter(|p: RemotePackage| is_ndk(p)),
{
    let pkgs = &manifest.remote_package;
    let mut out: Vec<&RemotePackage> = Vec::new();
    let mut i: usize = 0;
    while i < pkgs.len()
        invariant
            i <= pkgs.len(),
            out@.map_values(|p: &RemotePackage| *p) == pkgs@.subrange(0, i as int).filter(|p: RemotePackage| is_ndk(p)),
        decreases pkgs.len() - i,
    {
        let p = &pkgs[i];
        proof {
            reveal_with_fuel(Seq::filter, 2);
            assert(pkgs@.subrange(0, i + 1).drop_last() =~= pkgs@.subrange(0, i as int));
        }
        let ghost before = out@;
        if is_ndk_package(p) {
            out.push(p);
            assert(out@.map_values(|p: &RemotePackage| *p) =~= before.map_values(|p: &RemotePackage| *p).push(*p));
        }
        i += 1;
    }
    assert(pkgs@.subrange(0, pkgs.len() as int) =~= pkgs@);
    out
}


/// `preview-` followed by the decimal preview number.
pub open spec fn preview_build(n: nat) -> Seq<char> {
    seq!['p', 'r', 'e', 'v', 'i', 'e', 'w', '-'] + decimal(n)
}

/// The build metadata `preview-N` (N in decimal), checked with `semver::BuildMetadata::new`,
/// which accepts it: it is one identifier of ASCII letters, digits and `-`.
fn preview_build_metadata(n: u64) -> (r: String)
    ensures
        r@ == preview_build(n as nat),
        build_valid(r@),
{
    let mut text = String::from_str("preview-");
    let digits = decimal_string(n);
    text.append(digits.as_str());
    proof {
        reveal_strlit("preview-");
        assert("preview-"@ =~= seq!['p', 'r', 'e', 'v', 'i', 'e', 'w', '-']);
        assert(text@ =~= preview_build(n as nat));
        lemma_decimal_digits(n as nat);
        let t = text@;
        assert forall|i: int| 0 <= i < t.len() implies build_char(#[trigger] t[i]) || t[i] == '.' by {
            if i >= 8 {
                assert(t[i] == decimal(n as nat)[i - 8]);
            }
        }
        assert forall|i: int| 0 <= i < t.len() - 1 implies !(#[trigger] t[i] == '.' && t[i + 1] == '.') by {
            if i >= 8 {
                assert(t[i] == decimal(n as nat)[i - 8]);
            }
        }
        assert(t[t.len() - 1] == decimal(n as nat)[decimal(n as nat).len() - 1]);
    }
    let valid = check_build(text.as_str());
    assert(valid);
    text
}

/// The number of an optional revision part, 0 when absent.
pub open spec fn part(n: Option<u64>) -> u64 {
    match n {
        Some(v) => v,
        None => 0,
    }
}

/// The version of an NDK package from its revision: `major.minor.micro`, no pre-release, and
/// build metadata `preview-N` (N the preview number, 0 when absent).
pub fn get_ndk_version(ndk: &RemotePackage) -> (r: Version)
    ensures
        r@ == (VersionModel {
            major: part(ndk.revision.major),
            minor: part(ndk.revision.minor),
            patch: part(ndk.revision.micro),
            pre: Seq::empty(),
            build: preview_build(part(ndk.revision.preview) as nat),
        }),
{
    let rev = &ndk.revision;
    let major = match rev.major { Some(v) => v, None => 0 };
    let minor = match rev.minor { Some(v) => v, None => 0 };
    let patch = match rev.micro { Some(v) => v, None => 0 };
    let preview = match rev.preview { Some(v) => v, None => 0 };
    let build = preview_build_metadata(preview);
    Version::from_valid_parts(major, minor, patch, empty_identifier(), build)
}

/// The manifest's name for a host OS, from Rust's name for the target OS
/// (`std::env::consts::OS`); `None` for an OS the manifest has no NDK for.
pub open spec fn manifest_os(target_os: Seq<char>) -> Option<Seq<char>> {
    if target_os == seq!['l', 'i', 'n', 'u', 'x'] {
        Some(seq!['l', 'i', 'n', 'u', 'x'])
    } else if target_os == seq!['m', 'a', 'c', 'o', 's'] {
        Some(seq!['m', 'a', 'c', 'o', 's', 'x'])
    } else if target_os == seq!['w', 'i', 'n', 'd', 'o', 'w', 's'] {
        Some(seq!['w', 'i', 'n', 'd', 'o', 'w', 's'])
    } else {
        None
    }
}

/// The manifest's name for the host OS; `None` for an unsupported OS.
pub fn host_os_name(target_os: &str) -> (r: Option<String>)
    ensures
        r matches Some(s) ==> manifest_os(target_os@) == Some(s@),
        r is None ==> manifest_os(target_os@) is None,
{
    proof {
        reveal_strlit("linux");
        reveal_strlit("macos");
        reveal_strlit("macosx");
        reveal_strlit("windows");
        assert("linux"@ =~= seq!['l', 'i', 'n', 'u', 'x']);
        assert("macos"@ =~= seq!['m', 'a', 'c', 'o', 's']);
        assert("macosx"@ =~= seq!['m', 'a', 'c', 'o', 's', 'x']);
        assert("windows"@ =~= seq!['w', 'i', 'n', 'd', 'o', 'w', 's']);
    }
    if text_equals(target_os, "linux") {
        Some(String::from_str("linux"))
    } else if text_equals(target_os, "macos") {
        Some(String::from_str("macosx"))
    } else if text_equals(target_os, "windows") {
        Some(String::from_str("windows"))
    } else {
        None
    }
}

/// The manifest's name for a host architecture, from Rust's name for the target architecture
/// (`std::env::consts::ARCH`): `x64` for x86 and x86_64, the name itself otherwise.
pub open spec fn manifest_arch(target_arch: Seq<char>) -> Seq<char> {
    if target_arch == seq!['x', '8', '6'] || target_arch == seq!['x', '8', '6', '_', '6', '4'] {
        seq!['x', '6', '4']
    } else {
        target_arch
    }
}

/// The manifest's name for the host architecture.
pub fn host_arch_name(target_arch: &str) -> (r: String)
    ensures
        r@ == manifest_arch(target_arch@),
{
    proof {
        reveal_strlit("x86");
        reveal_strlit("x86_64");
        reveal_strlit("x64");
        assert("x86"@ =~= seq!['x', '8', '6']);
        assert("x86_64"@ =~= seq!['x', '8', '6', '_', '6', '4']);
        assert("x64"@ =~= seq!['x', '6', '4']);
    }
    if text_equals(target_arch, "x86") || text_equals(target_arch, "x86_64") {
        String::from_str("x64")
    } else {
        String::from_str(target_arch)
    }
}

/// The archive is for the host `os` and, if it names an architecture, for `arch`.
pub open spec fn archive_fits(a: Archive, os: Seq<char>, arch: Seq<char>) -> bool {
    &&& a.host_os matches Some(o) && o@ == os
    &&& a.host_arch matches Some(h) ==> h@ == arch
}

/// The first archive that fits the host.
pub open spec fn first_host_archive(archives: Seq<Archive>, os: Seq<char>, arch: Seq<char>) -> Option<Archive>
    decreases archives.len(),
{
    if archives.len() == 0 {
        None
    } else if archive_fits(archives[0], os, arch) {
        Some(archives[0])
    } else {
        first_host_archive(archives.drop_first(), os, arch)
    }
}

proof fn lemma_first_host_archive_step(archives: Seq<Archive>, i: int, os: Seq<char>, arch: Seq<char>)
    requires
        0 <= i < archives.len(),
        forall|j: int| 0 <= j < i ==> !archive_fits(#[trigger] archives[j], os, arch),
    ensures
        first_host_archive(archives, os, arch) == first_host_archive(archives.subrange(i, archives.len() as int), os, arch),
    decreases i,
{
    if i > 0 {
        let rest = archives.drop_first();
        assert forall|j: int| 0 <= j < i - 1 implies !archive_fits(#[trigger] rest[j], os, arch) by {
            assert(rest[j] == archives[j + 1]);
        }
        lemma_first_host_archive_step(rest, i - 1, os, arch);
        assert(rest.subrange(i - 1, rest.len() as int) =~= archives.subrange(i, archives.len() as int));
        assert(!archive_fits(archives[0], os, arch));
    } else {
        assert(archives.subrange(0, archives.len() as int) =~= archives);
    }
}

/// The archive of `ndk` for the host: the first one whose OS is `os` (a manifest name, see
/// `host_os_name`) and whose architecture, if it names one, is `arch` (see `host_arch_name`).
pub fn get_host_archive<'a>(ndk: &'a RemotePackage, os: &str, arch: &str) -> (r: Option<&'a Archive>)
    ensures
        match r {
            Some(a) => first_host_archive(ndk.archives.archive@, os@, arch@) == Some(*a),
            None => first_host_archive(ndk.archives.archive@, os@, arch@) is None,
        },
{
    let archives = &ndk.archives.archive;
    let mut i: usize = 0;
    while i < archives.len()
        invariant
            i <= archives.len(),
            archives@ == ndk.archives.archive@,
            forall|j: int| 0 <= j < i ==> !archive_fits(#[trigger] archives@[j], os@, arch@),
        decreases archives.len() - i,
    {
        let a = &archives[i];
        let os_ok = match &a.host_os {
            Some(o) => text_equals(o.as_str(), os),
            None => false,
        };
        let arch_ok = match &a.host_arch {
            Some(h) => text_equals(h.as_str(), arch),
            None => true,
        };
        if os_ok && arch_ok {
            proof {
                lemma_first_host_archive_step(archives@, i as int, os@, arch@);
                assert(archives@.subrange(i as int, archives.len() as int)[0] == archives@[i as int]);
                assert(archive_fits(archives@[i as int], os@, arch@));
                assert(archives@.subrange(i as int, archives.len() as int).len() > 0);
                assert(first_host_archive(archives@.subrange(i as int, archives.len() as int), os@, arch@) == Some(archives@[i as int]));
                assert(first_host_archive(archives@, os@, arch@) == Some(*a));
            }
            return Some(a);
        }
        i += 1;
    }
    proof {
        lemma_no_host_archive(archives@, os@, arch@);
    }
    None
}

proof fn lemma_no_host_archive(archives: Seq<Archive>, os: Seq<char>, arch: Seq<char>)
    requires
        forall|j: int| 0 <= j < archives.len() ==> !archive_fits(#[trigger] archives[j], os, arch),
    ensures
        first_host_archive(archives, os, arch) is None,
    decreases archives.len(),
{
    if archives.len() > 0 {
        let rest = archives.drop_first();
        assert forall|j: int| 0 <= j < rest.len() implies !archive_fits(#[trigger] rest[j], os, arch) by {
            assert(rest[j] == archives[j + 1]);
        }
        assert(!archive_fits(archives[0], os, arch));
        lemma_no_host_archive(rest, os, arch);
    }
}

/// An NDK package that has an archive for the host.
pub open spec fn is_listed(p: RemotePackage, os: Seq<char>, arch: Seq<char>) -> bool {
    is_ndk(p) && first_host_archive(p.archives.archive@, os, arch) is Some
}

/// The version text of an NDK path: what follows the first `;` (for `ndk;25.1.0`, `25.1.0`).
pub open spec fn path_version_text(path: Seq<char>) -> Seq<char> {
    path.subrange(4, path.len() as int)
}

/// The last listed package (in manifest order) whose version text is `k`: what a map filled
/// in manifest order holds under `k`.
pub open spec fn last_with_text(pkgs: Seq<RemotePackage>, os: Seq<char>, arch: Seq<char>, k: Seq<char>) -> Option<RemotePackage>
    decreases pkgs.len(),
{
    if pkgs.len() == 0 {
        None
    } else if is_listed(pkgs.last(), os, arch) && path_version_text(pkgs.last().path@) == k {
        Some(pkgs.last())
    } else {
        last_with_text(pkgs.drop_last(), os, arch, k)
    }
}

/// The abstract entries of a path index.
pub open spec fn path_entries_view<'a>(e: Seq<(String, &'a RemotePackage)>) -> Seq<(Seq<char>, RemotePackage)> {
    e.map_values(|x: (String, &'a RemotePackage)| (x.0@, *x.1))
}

/// The abstract entries of a version index.
pub open spec fn version_entries_view<'a>(e: Seq<(Version, &'a RemotePackage)>) -> Seq<(VersionModel, RemotePackage)> {
    e.map_values(|x: (Version, &'a RemotePackage)| (x.0@, *x.1))
}

/// The NDK packages that have an archive for the host, by the version text of their path.
pub struct NdkPathIndex<'a> {
    entries: Vec<(String, &'a RemotePackage)>,
}

impl<'a> View for NdkPathIndex<'a> {
    type V = Seq<(Seq<char>, RemotePackage)>;

    closed spec fn view(&self) -> Seq<(Seq<char>, RemotePackage)> {
        path_entries_view(self.entries@)
    }
}

impl<'a> NdkPathIndex<'a> {
    #[verifier::type_invariant]
    spec fn inv(self) -> bool {
        keys_distinct(self@)
    }

    /// The package under `key`.
    pub fn get(&self, key: &str) -> (r: Option<&'a RemotePackage>)
        ensures
            match r {
                Some(p) => lookup(self@, key@) == Some(*p),
                None => lookup(self@, key@) is None,
            },
    {
        proof {
            use_type_invariant(self);
        }
        let mut i: usize = 0;
        while i < self.entries.len()
            invariant
                i <= self.entries.len(),
                keys_distinct(self@),
                forall|j: int| 0 <= j < i ==> self@[j].0 != key@,
            decreases self.entries.len() - i,
        {
            assert(self@[i as int] == (self.entries@[i as int].0@, *self.entries@[i as int].1));
            if text_equals(self.entries[i].0.as_str(), key) {
                proof {
                    lemma_lookup_at(self@, i as int);
                }
                return Some(self.entries[i].1);
            }
            i += 1;
        }
        proof {
            lemma_lookup_absent(self@, key@);
        }
        None
    }

    /// Whether a package is held under `key`.
    pub fn contains_key(&self, key: &str) -> (r: bool)
        ensures
            r == lookup(self@, key@).is_some(),
    {
        self.get(key).is_some()
    }

    /// The number of keys.
    pub fn len(&self) -> (r: usize)
        ensures
            r == self@.len(),
    {
        self.entries.len()
    }

    /// Whether no package is held.
    pub fn is_empty(&self) -> (r: bool)
        ensures
            r == (self@.len() == 0),
    {
        self.entries.len() == 0
    }
}

/// The NDK packages that have an archive for the host (`os`, `arch`: manifest names), by the
/// version text of their path. A later package with the same text replaces an earlier one.
pub fn get_ndk_str_versions_str<'a>(manifest: &'a AndroidRepositoryManifest, os: &str, arch: &str) -> (r: NdkPathIndex<'a>)
    ensures
        keys_distinct(r@),
        forall|k: Seq<char>| #[trigger] lookup(r@, k) == last_with_text(manifest.remote_package@, os@, arch@, k),
{
    let pkgs = &manifest.remote_package;
    let mut entries: Vec<(String, &'a RemotePackage)> = Vec::new();
    let mut i: usize = 0;
    while i < pkgs.len()
        invariant
            i <= pkgs.len(),
            keys_distinct(path_entries_view(entries@)),
            forall|k: Seq<char>| #[trigger] lookup(path_entries_view(entries@), k)
                == last_with_text(pkgs@.subrange(0, i as int), os@, arch@, k),
        decreases pkgs.len() - i,
    {
        let p = &pkgs[i];
        let ghost view_before = path_entries_view(entries@);
        proof {
            assert(pkgs@.subrange(0, i + 1).drop_last() =~= pkgs@.subrange(0, i as int));
            assert(pkgs@.subrange(0, i + 1).last() == *p);
        }
        if is_ndk_package(p) && get_host_archive(p, os, arch).is_some() {
            let n = p.path.unicode_len();
            proof {
                assert(has_prefix(p.path@, ndk_prefix()));
            }
            let key = String::from_str(p.path.as_str().substring_char(4, n));
            let mut j: usize = 0;
            let mut found = false;
            while !found && j < entries.len()
                invariant
                    j <= entries.len(),
                    view_before == path_entries_view(entries@),
                    found ==> j < entries.len() && view_before[j as int].0 == key@,
                    forall|q: int| 0 <= q < j ==> view_before[q].0 != key@,
                decreases entries.len() - j + (if found { 0int } else { 1int }),
            {
                assert(view_before[j as int] == (entries@[j as int].0@, *entries@[j as int].1));
                if text_equals(entries[j].0.as_str(), key.as_str()) {
                    found = true;
                } else {
                    j += 1;
                }
            }
            if found {
                proof {
                    lemma_lookup_update(view_before, j as int, *p);
                }
                entries.set(j, (key, p));
                assert(path_entries_view(entries@)
                    =~= view_before.update(j as int, (view_before[j as int].0, *p)));
            } else {
                proof {
                    lemma_lookup_absent(view_before, key@);
                    lemma_lookup_push(view_before, key@, *p);
                }
                let ghost kv = key@;
                entries.push((key, p));
                assert(path_entries_view(entries@)
                    =~= view_before.push((kv, *p)));
            }
        }
        i += 1;
    }
    assert(pkgs@.subrange(0, pkgs.len() as int) =~= pkgs@);
    NdkPathIndex { entries }
}

/// The last listed package (in manifest order) whose version text parses to `v`.
pub open spec fn last_with_version(pkgs: Seq<RemotePackage>, os: Seq<char>, arch: Seq<char>, v: VersionModel) -> Option<RemotePackage>
    decreases pkgs.len(),
{
    if pkgs.len() == 0 {
        None
    } else if is_listed(pkgs.last(), os, arch) && parsed_version(path_version_text(pkgs.last().path@)) == Some(v) {
        Some(pkgs.last())
    } else {
        last_with_version(pkgs.drop_last(), os, arch, v)
    }
}

/// Every listed package's version text parses as a version.
pub open spec fn listed_versions_parse(pkgs: Seq<RemotePackage>, os: Seq<char>, arch: Seq<char>) -> bool {
    forall|i: int| 0 <= i < pkgs.len() && #[trigger] is_listed(pkgs[i], os, arch)
        ==> parsed_version(path_version_text(pkgs[i].path@)) is Some
}

/// The NDK packages that have an archive for the host, by the version that their path names.
pub struct NdkVersionIndex<'a> {
    entries: Vec<(Version, &'a RemotePackage)>,
}

impl<'a> View for NdkVersionIndex<'a> {
    type V = Seq<(VersionModel, RemotePackage)>;

    closed spec fn view(&self) -> Seq<(VersionModel, RemotePackage)> {
        version_entries_view(self.entries@)
    }
}

impl<'a> NdkVersionIndex<'a> {
    #[verifier::type_invariant]
    spec fn inv(self) -> bool {
        &&& keys_distinct(self@)
        &&& forall|i: int| 0 <= i < self.entries.len() ==> (#[trigger] self.entries@[i]).0@.wf()
    }

    /// The number of versions. Every key is well formed and no key occurs twice.
    pub fn len(&self) -> (r: usize)
        ensures
            r == self@.len(),
            keys_distinct(self@),
            forall|i: int| 0 <= i < self@.len() ==> (#[trigger] self@[i]).0.wf(),
            forall|i: int| 0 <= i < self@.len() ==> lookup(self@, (#[trigger] self@[i]).0) == Some(self@[i].1),
    {
        proof {
            use_type_invariant(self);
            assert forall|i: int| 0 <= i < self@.len() implies (#[trigger] self@[i]).0.wf() by {
                assert(self@[i].0 == self.entries@[i].0@);
            }
            assert forall|i: int| 0 <= i < self@.len() implies lookup(self@, (#[trigger] self@[i]).0) == Some(self@[i].1) by {
                lemma_lookup_at(self@, i);
            }
        }
        self.entries.len()
    }

    /// The version at position `i`.
    pub fn version_at(&self, i: usize) -> (r: &Version)
        requires
            i < self@.len(),
        ensures
            r@ == self@[i as int].0,
            r@.wf(),
    {
        proof {
            use_type_invariant(self);
        }
        &self.entries[i].0
    }

    /// The package at position `i`.
    pub fn package_at(&self, i: usize) -> (r: &'a RemotePackage)
        requires
            i < self@.len(),
        ensures
            *r == self@[i as int].1,
    {
        self.entries[i].1
    }

    /// The package under `v`.
    pub fn get(&self, v: &Version) -> (r: Option<&'a RemotePackage>)
        ensures
            match r {
                Some(p) => lookup(self@, v@) == Some(*p),
                None => lookup(self@, v@) is None,
            },
    {
        proof {
            use_type_invariant(self);
        }
        let mut i: usize = 0;
        while i < self.entries.len()
            invariant
                i <= self.entries.len(),
                keys_distinct(self@),
                forall|j: int| 0 <= j < i ==> self@[j].0 != v@,
            decreases self.entries.len() - i,
        {
            assert(self@[i as int] == (self.entries@[i as int].0@, *self.entries@[i as int].1));
            if self.entries[i].0.equals(v) {
                proof {
                    lemma_lookup_at(self@, i as int);
                }
                return Some(self.entries[i].1);
            }
            i += 1;
        }
        proof {
            lemma_lookup_absent(self@, v@);
        }
        None
    }

    /// Whether a package is held under `v`.
    pub fn contains_key(&self, v: &Version) -> (r: bool)
        ensures
            r == lookup(self@, v@).is_some(),
    {
        self.get(v).is_some()
    }

}

/// The NDK packages that have an archive for the host, by the version that their path names
/// (`25.1.0` for `ndk;25.1.0`). A later package naming the same version replaces an earlier
/// one. Every listed path must name a version; `first_unparsable_ndk` finds one that does not.
pub fn get_ndk_str_versions<'a>(manifest: &'a AndroidRepositoryManifest, os: &str, arch: &str) -> (r: NdkVersionIndex<'a>)
    requires
        listed_versions_parse(manifest.remote_package@, os@, arch@),
    ensures
        keys_distinct(r@),
        forall|v: VersionModel| #[trigger] lookup(r@, v) == last_with_version(manifest.remote_package@, os@, arch@, v),
{
    let pkgs = &manifest.remote_package;
    let mut entries: Vec<(Version, &'a RemotePackage)> = Vec::new();
    let mut i: usize = 0;
    while i < pkgs.len()
        invariant
            i <= pkgs.len(),
            listed_versions_parse(pkgs@, os@, arch@),
            keys_distinct(version_entries_view(entries@)),
            forall|q: int| 0 <= q < entries.len() ==> (#[trigger] entries@[q]).0@.wf(),
            forall|v: VersionModel| #[trigger] lookup(version_entries_view(entries@), v)
                == last_with_version(pkgs@.subrange(0, i as int), os@, arch@, v),
        decreases pkgs.len() - i,
    {
        let p = &pkgs[i];
        let ghost view_before = version_entries_view(entries@);
        proof {
            assert(pkgs@.subrange(0, i + 1).drop_last() =~= pkgs@.subrange(0, i as int));
            assert(pkgs@.subrange(0, i + 1).last() == *p);
        }
        if is_ndk_package(p) && get_host_archive(p, os, arch).is_some() {
            let n = p.path.unicode_len();
            proof {
                assert(has_prefix(p.path@, ndk_prefix()));
                assert(is_listed(pkgs@[i as int], os@, arch@));
            }
            let text = p.path.as_str().substring_char(4, n);
            let parsed = Version::parse(text);
            let key = match parsed {
                Some(v) => v,
                None => {
                    assert(false);
                    return NdkVersionIndex { entries };
                },
            };
            let mut j: usize = 0;
            let mut found = false;
            while !found && j < entries.len()
                invariant
                    j <= entries.len(),
                    view_before == version_entries_view(entries@),
                    found ==> j < entries.len() && view_before[j as int].0 == key@,
                    forall|q: int| 0 <= q < j ==> view_before[q].0 != key@,
                decreases entries.len() - j + (if found { 0int } else { 1int }),
            {
                assert(view_before[j as int] == (entries@[j as int].0@, *entries@[j as int].1));
                if entries[j].0.equals(&key) {
                    found = true;
                } else {
                    j += 1;
                }
            }
            if found {
                proof {
                    lemma_lookup_update(view_before, j as int, *p);
                }
                entries.set(j, (key, p));
                assert(version_entries_view(entries@)
                    =~= view_before.update(j as int, (view_before[j as int].0, *p)));
            } else {
                proof {
                    lemma_lookup_absent(view_before, key@);
                    lemma_lookup_push(view_before, key@, *p);
                }
                let ghost kv = key@;
                entries.push((key, p));
                assert(version_entries_view(entries@)
                    =~= view_before.push((kv, *p)));
            }
        }
        i += 1;
    }
    assert(pkgs@.subrange(0, pkgs.len() as int) =~= pkgs@);
    NdkVersionIndex { entries }
}

/// Whether every listed package's version text parses; `None` when all do, else the first
/// version text that does not.
pub fn first_unparsable_ndk(manifest: &AndroidRepositoryManifest, os: &str, arch: &str) -> (r: Option<String>)
    ensures
        r is None <==> listed_versions_parse(manifest.remote_package@, os@, arch@),
{
    let pkgs = &manifest.remote_package;
    let mut i: usize = 0;
    while i < pkgs.len()
        invariant
            i <= pkgs.len(),
            pkgs@ == manifest.remote_package@,
            forall|q: int| 0 <= q < i && #[trigger] is_listed(pkgs@[q], os@, arch@)
                ==> parsed_version(path_version_text(pkgs@[q].path@)) is Some,
        decreases pkgs.len() - i,
    {
        let p = &pkgs[i];
        if is_ndk_package(p) && get_host_archive(p, os, arch).is_some() {
            let n = p.path.unicode_len();
            proof {
                assert(has_prefix(p.path@, ndk_prefix()));
            }
            let text = p.path.as_str().substring_char(4, n);
            if Version::parse(text).is_none() {
                assert(is_listed(pkgs@[i as int], os@, arch@));
                assert(parsed_version(path_version_text(pkgs@[i as int].path@)) is None);
                assert(!listed_versions_parse(pkgs@, os@, arch@));
                return Some(String::from_str(text));
            }
        }
        i += 1;
    }
    None
}

} // verus!
