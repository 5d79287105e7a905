//! The decisions that the dependency resolver makes for a root package: the dependencies of a
//! package as version ranges, which version to try, which package to decide first, and what a
//! finished resolution records.
use vstd::prelude::*;
use crate::package::{
    Artifact, ArtifactModel, DependencyModel, PackageConfig, PackageConfigModel, PackageDependency,
    SharedDependencyInfo, SharedDependencyModel, SharedPackageConfig, artifacts_view,
    dependencies_view, find_dependency, restored_view,
};
use crate::ranges::{VersionRange, req_admits, req_to_range, requirement_fits};
use crate::text::{clone_opt_text, clone_pairs, clone_texts, text_equals, text_pairs};
use crate::version::{Version, VersionModel};

verus! {

/// The dependencies of `deps` that the resolver is given, in order: all of them, or, with
/// `skip`, all but those on the package `skip`.
pub open spec fn kept_dependencies(deps: Seq<DependencyModel>, skip: Option<Seq<char>>) -> Seq<DependencyModel>
    decreases deps.len(),
{
    if deps.len() == 0 {
        Seq::empty()
    } else {
        let rest = kept_dependencies(deps.drop_last(), skip);
        if skip == Some(deps.last().id) {
            rest
        } else {
            rest.push(deps.last())
        }
    }
}

/// Every requirement of `deps` leaves room for what `req_to_range` adds to its numbers.
pub open spec fn all_fit(deps: Seq<DependencyModel>) -> bool {
    forall|i: int| 0 <= i < deps.len() ==> requirement_fits(#[trigger] deps[i].range)
}

/// `r` lists, in order, the id of each dependency of `deps` with the range of versions that
/// its requirement admits.
pub open spec fn ranges_of(r: Seq<(String, VersionRange)>, deps: Seq<DependencyModel>) -> bool {
    &&& r.len() == deps.len()
    &&& forall|k: int| 0 <= k < deps.len() ==> (#[trigger] r[k]).0@ == deps[k].id
    &&& forall|k: int, v: VersionModel|
        0 <= k < deps.len() ==> (#[trigger] r[k].1.admits(v) <==> req_admits(deps[k].range, v))
}

proof fn lemma_kept_all(deps: Seq<DependencyModel>)
    ensures
        kept_dependencies(deps, None) == deps,
    decreases deps.len(),
{
    if deps.len() > 0 {
        lemma_kept_all(deps.drop_last());
        assert(deps.drop_last().push(deps.last()) =~= deps);
    }
}

/// The ranges of the dependencies of `deps` that the resolver is given.
fn dependency_ranges(deps: &Vec<PackageDependency>, skip: Option<&str>) -> (r: Vec<(String, VersionRange)>)
    requires
        all_fit(dependencies_view(deps@)),
    ensures
        ranges_of(r@, kept_dependencies(dependencies_view(deps@), match skip { Some(s) => Some(s@), None => None })),
{
    let ghost skip_text: Option<Seq<char>> = match skip {
        Some(s) => Some(s@),
        None => None,
    };
    let ghost all = dependencies_view(deps@);
    let mut out: Vec<(String, VersionRange)> = Vec::new();
    let mut i: usize = 0;
    while i < deps.len()
        invariant
            i <= deps.len(),
            all == dependencies_view(deps@),
            all_fit(all),
            skip_text == match skip { Some(s) => Some(s@), None => None },
            ranges_of(out@, kept_dependencies(all.take(i as int), skip_text)),
        decreases deps.len() - i,
    {
        let d = &deps[i];
        assert(all.take(i as int + 1).drop_last() =~= all.take(i as int));
        assert(all.take(i as int + 1).last() == d@);
        let skipped = match skip {
            Some(s) => text_equals(d.id.as_str(), s),
            None => false,
        };
        if !skipped {
            assert(requirement_fits(all[i as int].range));
            let range = req_to_range(d.version_range.clone());
            let ghost before = out@;
            let ghost kept = kept_dependencies(all.take(i as int), skip_text);
            out.push((d.id.clone(), range));
            assert(kept_dependencies(all.take(i as int + 1), skip_text) == kept.push(d@));
            assert forall|k: int, v: VersionModel|
                0 <= k < kept.len() + 1 implies (#[trigger] out@[k].1.admits(v) <==> req_admits(kept.push(d@)[k].range, v)) by {
                if k < kept.len() {
                    assert(out@[k] == before[k]);
                }
            }
        }
        i += 1;
    }
    assert(all.take(deps.len() as int) =~= all);
    out
}

/// The dependencies of the root package, as the resolver is given them: its dependencies then
/// its dev dependencies, each with the range its requirement admits.
pub fn root_dependencies(root: &PackageConfig) -> (r: Vec<(String, VersionRange)>)
    requires
        all_fit(root@.dependencies),
        all_fit(root@.dev_dependencies),
    ensures
        ranges_of(r@, root@.dependencies + root@.dev_dependencies),
{
    let mut first = dependency_ranges(&root.dependencies, None);
    let mut second = dependency_ranges(&root.dev_dependencies, None);
    proof {
        lemma_kept_all(root@.dependencies);
        lemma_kept_all(root@.dev_dependencies);
    }
    let ghost a = first@;
    let ghost b = second@;
    first.append(&mut second);
    let ghost all = root@.dependencies + root@.dev_dependencies;
    assert forall|k: int, v: VersionModel|
        0 <= k < all.len() implies (#[trigger] first@[k].1.admits(v) <==> req_admits(all[k].range, v)) by {
        if k < a.len() {
            assert(first@[k] == a[k]);
        } else {
            assert(first@[k] == b[k - a.len()]);
        }
    }
    assert forall|k: int| 0 <= k < all.len() implies (#[trigger] first@[k]).0@ == all[k].id by {
        if k < a.len() {
            assert(first@[k] == a[k]);
        } else {
            assert(first@[k] == b[k - a.len()]);
        }
    }
    first
}

/// The dependencies of `target`, as the resolver is given them: all but those on the root
/// package (which would make a cycle), each with the range its requirement admits.
pub fn package_dependencies(root: &PackageConfig, target: &PackageConfig) -> (r: Vec<(String, VersionRange)>)
    requires
        all_fit(target@.dependencies),
    ensures
        ranges_of(r@, kept_dependencies(target@.dependencies, Some(root@.id))),
{
    dependency_ranges(&target.dependencies, Some(root.id.as_str()))
}

/// Whether `package` at `version` is the root package.
pub fn is_root(root: &PackageConfig, package: &str, version: &Version) -> (r: bool)
    ensures
        r == (package@ == root@.id && version@ == root@.version),
{
    text_equals(package, root.id.as_str()) && version.equals(&root.version)
}

/// `flags[i]` is the first flag set.
pub open spec fn first_flagged(flags: Seq<bool>, i: int) -> bool {
    &&& 0 <= i < flags.len()
    &&& flags[i]
    &&& forall|j: int| 0 <= j < i ==> !#[trigger] flags[j]
}

/// The version to try for `package`: the root's own version for the root package; otherwise
/// the first version of `available` (the repository's versions, highest first) that the range
/// holds (`in_range[i]` tells whether it holds the `i`-th), or none when the repository does not
/// know the package.
pub fn choose_version(root: &PackageConfig, package: &str, available: Option<&Vec<Version>>, in_range: &Vec<bool>) -> (r: Option<Version>)
    requires
        available matches Some(vs) ==> in_range.len() == vs.len(),
    ensures
        package@ == root@.id ==> (r matches Some(v) && v@ == root@.version),
        package@ != root@.id && available is None ==> r is None,
        package@ != root@.id && available is Some && r is Some ==> exists|i: int|
            #[trigger] first_flagged(in_range@, i) && r->0@ == available->0@[i]@,
        package@ != root@.id && available is Some && r is None ==> forall|i: int|
            0 <= i < in_range.len() ==> !#[trigger] in_range@[i],
{
    if text_equals(package, root.id.as_str()) {
        return Some(root.version.clone());
    }
    match available {
        None => None,
        Some(vs) => {
            let mut i: usize = 0;
            while i < vs.len()
                invariant
                    i <= vs.len(),
                    in_range.len() == vs.len(),
                    package@ != root@.id,
                    available == Some(vs),
                    forall|j: int| 0 <= j < i ==> !#[trigger] in_range@[j],
                decreases vs.len() - i,
            {
                if in_range[i] {
                    let v = vs[i].clone();
                    assert(first_flagged(in_range@, i as int));
                    assert(available->0 == vs);
                    return Some(v);
                }
                i += 1;
            }
            None
        },
    }
}

/// How many flags are set.
pub open spec fn flagged_count(flags: Seq<bool>) -> nat
    decreases flags.len(),
{
    if flags.len() == 0 {
        0
    } else {
        flagged_count(flags.drop_last()) + if flags.last() { 1nat } else { 0nat }
    }
}

proof fn lemma_flagged_count_bound(flags: Seq<bool>)
    ensures
        flagged_count(flags) <= flags.len(),
    decreases flags.len(),
{
    if flags.len() > 0 {
        lemma_flagged_count_bound(flags.drop_last());
    }
}

/// The priority of deciding `package` next, as the pair `(first, second)`: the resolver takes
/// the package with the largest `first`, and among those the one with the smallest `second`.
/// The root comes as `(0, 0)`; a package the repository does not know (`available` is `None`)
/// as `(conflict_count, 0)`; one of which no available version is in the range (`in_range`
/// tells for each) as `(u32::MAX, 0)`; any other as `(conflict_count, n)` where `n` versions
/// are in the range.
pub fn priority(root: &PackageConfig, package: &str, available: Option<&Vec<Version>>, in_range: &Vec<bool>, conflict_count: u32) -> (r: (u32, usize))
    requires
        available matches Some(vs) ==> in_range.len() == vs.len(),
    ensures
        package@ == root@.id ==> r == (0u32, 0usize),
        package@ != root@.id && available is None ==> r == (conflict_count, 0usize),
        package@ != root@.id && available is Some && flagged_count(in_range@) == 0 ==> r == (u32::MAX, 0usize),
        package@ != root@.id && available is Some && flagged_count(in_range@) > 0 ==> r.0 == conflict_count && r.1
            == flagged_count(in_range@),
{
    if text_equals(package, root.id.as_str()) {
        return (0, 0);
    }
    match available {
        None => (conflict_count, 0),
        Some(vs) => {
            let mut count: usize = 0;
            let mut i: usize = 0;
            while i < in_range.len()
                invariant
                    i <= in_range.len(),
                    count == flagged_count(in_range@.take(i as int)),
                decreases in_range.len() - i,
            {
                proof {
                    assert(in_range@.take(i as int + 1).drop_last() =~= in_range@.take(i as int));
                    lemma_flagged_count_bound(in_range@.take(i as int));
                }
                if in_range[i] {
                    count = count + 1;
                }
                i += 1;
            }
            assert(in_range@.take(in_range.len() as int) =~= in_range@);
            if count == 0 {
                (u32::MAX, 0)
            } else {
                (conflict_count, count)
            }
        },
    }
}

/// The pairs of a list of selections.
pub open spec fn selections_view(s: Seq<(String, Version)>) -> Seq<(Seq<char>, VersionModel)> {
    s.map_values(|p: (String, Version)| (p.0@, p.1@))
}

/// The selections that are not `(id, version)`, in order.
pub open spec fn without(s: Seq<(Seq<char>, VersionModel)>, id: Seq<char>, version: VersionModel) -> Seq<(Seq<char>, VersionModel)>
    decreases s.len(),
{
    if s.len() == 0 {
        Seq::empty()
    } else {
        let rest = without(s.drop_last(), id, version);
        if s.last() == (id, version) {
            rest
        } else {
            rest.push(s.last())
        }
    }
}

/// The packages of a solution that the root package needs: every selected package and version
/// but the root itself.
pub fn non_root_selections(root: &PackageConfig, selections: &Vec<(String, Version)>) -> (r: Vec<(String, Version)>)
    ensures
        selections_view(r@) == without(selections_view(selections@), root@.id, root@.version),
{
    let ghost all = selections_view(selections@);
    let mut out: Vec<(String, Version)> = Vec::new();
    let mut i: usize = 0;
    while i < selections.len()
        invariant
            i <= selections.len(),
            all == selections_view(selections@),
            selections_view(out@) == without(all.take(i as int), root@.id, root@.version),
        decreases selections.len() - i,
    {
        let p = &selections[i];
        assert(all.take(i as int + 1).drop_last() =~= all.take(i as int));
        assert(all.take(i as int + 1).last() == (p.0@, p.1@));
        if !is_root(root, p.0.as_str(), &p.1) {
            let ghost before = out@;
            out.push((p.0.clone(), p.1.clone()));
            assert(selections_view(out@) =~= selections_view(before).push((p.0@, p.1@)));
        }
        i += 1;
    }
    assert(all.take(selections.len() as int) =~= all);
    out
}

/// What a restore records of the resolved dependency `a` of the package `config`: the version
/// chosen, the QPKG address that `config` gives for it, the archive's checksum, and the
/// binaries and environment of the dependency's workspace (none when it names none).
pub open spec fn shared_info(config: PackageConfigModel, a: ArtifactModel) -> SharedDependencyModel {
    SharedDependencyModel {
        restored_version: a.config.version,
        qpkg_url: match find_dependency(config.dependencies, a.config.id) {
            Some(d) => d.qpkg_url,
            None => None,
        },
        qpkg_checksum: a.qpkg_checksum,
        restored_binaries: match a.config.out_binaries {
            Some(b) => b,
            None => Seq::empty(),
        },
        restored_env: match a.config.env {
            Some(e) => e,
            None => Seq::empty(),
        },
    }
}

/// The entries that a restore records for the resolved dependencies, in order.
pub open spec fn shared_entries(config: PackageConfigModel, resolved: Seq<ArtifactModel>) -> Seq<(Seq<char>, SharedDependencyModel)> {
    resolved.map_values(|a: ArtifactModel| (a.config.id, shared_info(config, a)))
}

/// What a restore records of one resolved dependency.
fn shared_dependency_info(config: &PackageConfig, a: &Artifact) -> (r: SharedDependencyInfo)
    ensures
        r@ == shared_info(config@, a@),
{
    let qpkg_url = match config.get_dependency(a.config.id.as_str()) {
        Some(d) => clone_opt_text(&d.qpkg_url),
        None => None,
    };
    let restored_binaries = match &a.config.out_binaries {
        Some(b) => clone_texts(b),
        None => Vec::new(),
    };
    let restored_env = match &a.config.env {
        Some(e) => clone_pairs(e),
        None => Vec::new(),
    };
    let r = SharedDependencyInfo {
        restored_version: a.config.version.clone(),
        qpkg_url,
        qpkg_checksum: clone_opt_text(&a.qpkg_checksum),
        restored_binaries,
        restored_env,
    };
    assert(r@.restored_binaries =~= shared_info(config@, a@).restored_binaries);
    assert(r@.restored_env =~= shared_info(config@, a@).restored_env);
    r
}

/// What a restore records for each resolved dependency of `config`, keyed by its id.
pub fn restored_dependencies(config: &PackageConfig, resolved: &Vec<Artifact>) -> (r: Vec<(String, SharedDependencyInfo)>)
    ensures
        restored_view(r@) == shared_entries(config@, artifacts_view(resolved@)),
{
    let mut out: Vec<(String, SharedDependencyInfo)> = Vec::new();
    let mut i: usize = 0;
    while i < resolved.len()
        invariant
            i <= resolved.len(),
            out@.len() == i,
            forall|j: int| 0 <= j < i ==> (#[trigger] restored_view(out@)[j]) == shared_entries(config@, artifacts_view(resolved@))[j],
        decreases resolved.len() - i,
    {
        let a = &resolved[i];
        let info = shared_dependency_info(config, a);
        let ghost before = out@;
        out.push((a.config.id.clone(), info));
        assert forall|j: int| 0 <= j < i + 1 implies (#[trigger] restored_view(out@)[j]) == shared_entries(config@, artifacts_view(resolved@))[j] by {
            if j < i {
                assert(out@[j] == before[j]);
                assert(restored_view(before)[j] == shared_entries(config@, artifacts_view(resolved@))[j]);
            }
        }
        i += 1;
    }
    assert(restored_view(out@) =~= shared_entries(config@, artifacts_view(resolved@)));
    out
}

/// The package config of a restore together with the resolved dependencies: what a restore
/// writes and then installs.
pub struct PackageRestorer {
    shared_package: SharedPackageConfig,
    resolved_deps: Vec<Artifact>,
}

impl PackageRestorer {
    /// The restored package config.
    pub closed spec fn shared(self) -> SharedPackageConfig {
        self.shared_package
    }

    /// The resolved dependencies.
    pub closed spec fn deps(self) -> Seq<Artifact> {
        self.resolved_deps@
    }

    /// The restorer for `config` once the resolver has chosen `resolved` (the root excluded):
    /// the restored dependencies record each of them, and the environment is that of the
    /// package's workspace (none when it names none).
    pub fn resolve(config: PackageConfig, resolved: Vec<Artifact>) -> (r: PackageRestorer)
        ensures
            r.shared().config@ == config@,
            restored_view(r.shared().restored_dependencies@) == shared_entries(config@, artifacts_view(resolved@)),
            text_pairs(r.shared().env@) == match config@.env {
                Some(e) => e,
                None => Seq::empty(),
            },
            artifacts_view(r.deps()) == artifacts_view(resolved@),
    {
        let restored = restored_dependencies(&config, &resolved);
        let env = match &config.env {
            Some(e) => clone_pairs(e),
            None => Vec::new(),
        };
        proof {
            if config.env is None {
                assert(text_pairs(env@) =~= Seq::empty());
            }
        }
        PackageRestorer {
            shared_package: SharedPackageConfig { config, restored_dependencies: restored, env },
            resolved_deps: resolved,
        }
    }

    /// The restorer for an already restored package, whose dependencies the repository gave
    /// back as `packages`.
    pub fn locked_resolve(shared_package: SharedPackageConfig, packages: Vec<Artifact>) -> (r: PackageRestorer)
        ensures
            r.shared() == shared_package,
            r.deps() == packages@,
    {
        PackageRestorer { shared_package, resolved_deps: packages }
    }

    /// The restored package config.
    pub fn shared_package(&self) -> (r: &SharedPackageConfig)
        ensures
            *r == self.shared(),
    {
        &self.shared_package
    }

    /// The resolved dependencies.
    pub fn resolved_deps(&self) -> (r: &Vec<Artifact>)
        ensures
            r@ == self.deps(),
    {
        &self.resolved_deps
    }

    /// The resolved dependencies, giving up the restorer.
    pub fn take_resolved_deps(self) -> (r: Vec<Artifact>)
        ensures
            r@ == self.deps(),
    {
        self.resolved_deps
    }
}

/// The packages to ask the repository for when restoring from a locked package config: each
/// restored dependency at its restored version, in order.
pub fn locked_requests(shared_package: &SharedPackageConfig) -> (r: Vec<(String, Version)>)
    ensures
        selections_view(r@) == restored_view(shared_package.restored_dependencies@).map_values(
            |e: (Seq<char>, SharedDependencyModel)| (e.0, e.1.restored_version),
        ),
{
    let deps = &shared_package.restored_dependencies;
    let mut out: Vec<(String, Version)> = Vec::new();
    let mut i: usize = 0;
    while i < deps.len()
        invariant
            i <= deps.len(),
            out@.len() == i,
            forall|j: int| 0 <= j < i ==> (#[trigger] out@[j]).0@ == deps@[j].0@ && out@[j].1@ == deps@[j].1.restored_version@,
        decreases deps.len() - i,
    {
        out.push((deps[i].0.clone(), deps[i].1.restored_version.clone()));
        i += 1;
    }
    assert(selections_view(out@) =~= restored_view(deps@).map_values(
        |e: (Seq<char>, SharedDependencyModel)| (e.0, e.1.restored_version),
    ));
    out
}

} // verus!
