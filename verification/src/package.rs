//! Package descriptions: the config of a package and its dependencies, what a repository hands
//! out for a package, and what a restore records of each dependency.
use vstd::prelude::*;
use crate::ranges::{ComparatorModel, VersionReq};
use crate::text::{clone_opt_text, clone_pairs, clone_texts, opt_text, text_equals, text_pairs, texts};
use crate::keyed::{lemma_lookup_absent, lemma_lookup_first, lemma_lookup_has, lemma_lookup_present, lookup};
use crate::version::{Version, VersionModel};

verus! {

/// Abstract value of a dependency.
pub ghost struct DependencyModel {
    pub id: Seq<char>,
    pub range: Seq<ComparatorModel>,
    pub range_text: Seq<char>,
    pub qpkg_url: Option<Seq<char>>,
}

/// A dependency of a package: the package depended on and the versions it accepts.
pub struct PackageDependency {
    pub id: String,
    pub version_range: VersionReq,
    /// Where the QPKG archive of the dependency can be downloaded, when the package says.
    pub qpkg_url: Option<String>,
}

impl View for PackageDependency {
    type V = DependencyModel;

    open spec fn view(&self) -> DependencyModel {
        DependencyModel {
            id: self.id@,
            range: self.version_range@,
            range_text: self.version_range.source(),
            qpkg_url: opt_text(self.qpkg_url),
        }
    }
}

impl Clone for PackageDependency {
    fn clone(&self) -> (r: Self)
        ensures
            r@ == self@,
    {
        PackageDependency {
            id: self.id.clone(),
            version_range: self.version_range.clone(),
            qpkg_url: clone_opt_text(&self.qpkg_url),
        }
    }
}

/// The views of a list of dependencies.
pub open spec fn dependencies_view(deps: Seq<PackageDependency>) -> Seq<DependencyModel> {
    deps.map_values(|d: PackageDependency| d@)
}

/// A copy of a list of dependencies.
pub fn clone_dependencies(deps: &Vec<PackageDependency>) -> (r: Vec<PackageDependency>)
    ensures
        dependencies_view(r@) == dependencies_view(deps@),
{
    let mut out: Vec<PackageDependency> = Vec::new();
    let mut i: usize = 0;
    while i < deps.len()
        invariant
            i <= deps.len(),
            out@.len() == i,
            forall|j: int| 0 <= j < i ==> (#[trigger] out@[j])@ == deps@[j]@,
        decreases deps.len() - i,
    {
        out.push(deps[i].clone());
        i += 1;
    }
    assert(dependencies_view(out@) =~= dependencies_view(deps@));
    out
}

/// Abstract value of a package config.
pub ghost struct PackageConfigModel {
    pub id: Seq<char>,
    pub version: VersionModel,
    pub shared_directory: Seq<char>,
    pub dependencies_directory: Seq<char>,
    pub dependencies: Seq<DependencyModel>,
    pub dev_dependencies: Seq<DependencyModel>,
    pub out_binaries: Option<Seq<Seq<char>>>,
    pub env: Option<Seq<(Seq<char>, Seq<char>)>>,
}

/// The config of a package (its `qpm.json`).
pub struct PackageConfig {
    pub id: String,
    pub version: Version,
    /// The folder of the package's headers, relative to the package.
    pub shared_directory: String,
    /// The folder where dependencies are restored, relative to the workspace.
    pub dependencies_directory: String,
    pub dependencies: Vec<PackageDependency>,
    pub dev_dependencies: Vec<PackageDependency>,
    /// The binaries that the workspace builds (`workspace.out_binaries`).
    pub out_binaries: Option<Vec<String>>,
    /// The environment of the workspace (`workspace.env`).
    pub env: Option<Vec<(String, String)>>,
}

impl View for PackageConfig {
    type V = PackageConfigModel;

    open spec fn view(&self) -> PackageConfigModel {
        PackageConfigModel {
            id: self.id@,
            version: self.version@,
            shared_directory: self.shared_directory@,
            dependencies_directory: self.dependencies_directory@,
            dependencies: dependencies_view(self.dependencies@),
            dev_dependencies: dependencies_view(self.dev_dependencies@),
            out_binaries: match self.out_binaries {
                Some(b) => Some(texts(b@)),
                None => None,
            },
            env: match self.env {
                Some(e) => Some(text_pairs(e@)),
                None => None,
            },
        }
    }
}

impl Clone for PackageConfig {
    fn clone(&self) -> (r: Self)
        ensures
            r@ == self@,
    {
        PackageConfig {
            id: self.id.clone(),
            version: self.version.clone(),
            shared_directory: self.shared_directory.clone(),
            dependencies_directory: self.dependencies_directory.clone(),
            dependencies: clone_dependencies(&self.dependencies),
            dev_dependencies: clone_dependencies(&self.dev_dependencies),
            out_binaries: match &self.out_binaries {
                Some(b) => Some(clone_texts(b)),
                None => None,
            },
            env: match &self.env {
                Some(e) => Some(clone_pairs(e)),
                None => None,
            },
        }
    }
}

/// A list of dependencies as entries keyed by id.
pub open spec fn by_id(deps: Seq<DependencyModel>) -> Seq<(Seq<char>, DependencyModel)> {
    deps.map_values(|d: DependencyModel| (d.id, d))
}

/// The first dependency with id `id`.
pub open spec fn find_dependency(deps: Seq<DependencyModel>, id: Seq<char>) -> Option<DependencyModel> {
    lookup(by_id(deps), id)
}

/// The first dependency of `deps` with id `id`, if any.
fn find_in<'a>(deps: &'a Vec<PackageDependency>, id: &str) -> (r: Option<&'a PackageDependency>)
    ensures
        match r {
            Some(d) => find_dependency(dependencies_view(deps@), id@) == Some(d@),
            None => find_dependency(dependencies_view(deps@), id@) is None,
        },
{
    let ghost entries = by_id(dependencies_view(deps@));
    let mut i: usize = 0;
    while i < deps.len()
        invariant
            i <= deps.len(),
            entries == by_id(dependencies_view(deps@)),
            forall|j: int| 0 <= j < i ==> (#[trigger] deps@[j]).id@ != id@,
        decreases deps.len() - i,
    {
        if text_equals(deps[i].id.as_str(), id) {
            proof {
                assert(entries[i as int].0 == id@);
                assert forall|j: int| 0 <= j < i implies (#[trigger] entries[j]).0 != entries[i as int].0 by {
                    assert(entries[j].0 == deps@[j].id@);
                }
                lemma_lookup_first(entries, i as int);
            }
            return Some(&deps[i]);
        }
        i += 1;
    }
    proof {
        assert forall|j: int| 0 <= j < entries.len() implies (#[trigger] entries[j]).0 != id@ by {
            assert(entries[j].0 == deps@[j].id@);
        }
        lemma_lookup_absent(entries, id@);
    }
    None
}

/// Two dependencies name the same package with the same comparators and QPKG address.
pub open spec fn same_dependency(a: DependencyModel, b: DependencyModel) -> bool {
    a.id == b.id && a.range == b.range && a.qpkg_url == b.qpkg_url
}

/// Two lists of dependencies are equal as maps keyed by id.
pub open spec fn same_dependency_maps(a: Seq<DependencyModel>, b: Seq<DependencyModel>) -> bool {
    forall|id: Seq<char>|
        match (#[trigger] find_dependency(a, id), find_dependency(b, id)) {
            (Some(x), Some(y)) => same_dependency(x, y),
            (None, None) => true,
            _ => false,
        }
}

/// Two optional environments are equal as maps keyed by name.
pub open spec fn same_env(a: Option<Seq<(Seq<char>, Seq<char>)>>, b: Option<Seq<(Seq<char>, Seq<char>)>>) -> bool {
    match (a, b) {
        (Some(x), Some(y)) => forall|k: Seq<char>| #[trigger] lookup(x, k) == lookup(y, k),
        (None, None) => true,
        _ => false,
    }
}

/// Two package configs are equal: the same id, version, folders, dependencies and dev
/// dependencies (as maps by id, requirements compared by their comparators), binaries and
/// environment (as a map by name).
pub open spec fn same_config(a: PackageConfigModel, b: PackageConfigModel) -> bool {
    &&& a.id == b.id
    &&& a.version == b.version
    &&& a.shared_directory == b.shared_directory
    &&& a.dependencies_directory == b.dependencies_directory
    &&& same_dependency_maps(a.dependencies, b.dependencies)
    &&& same_dependency_maps(a.dev_dependencies, b.dev_dependencies)
    &&& a.out_binaries == b.out_binaries
    &&& same_env(a.env, b.env)
}

/// Whether every id of `a` is in `b` with the same dependency.
fn dependencies_within(a: &Vec<PackageDependency>, b: &Vec<PackageDependency>) -> (r: bool)
    ensures
        r <==> forall|id: Seq<char>| #[trigger] find_dependency(dependencies_view(a@), id) is Some ==> (
            find_dependency(dependencies_view(b@), id) matches Some(y) && same_dependency(
                find_dependency(dependencies_view(a@), id)->0,
                y,
            )),
{
    let ghost av = dependencies_view(a@);
    let ghost bv = dependencies_view(b@);
    let mut i: usize = 0;
    while i < a.len()
        invariant
            i <= a.len(),
            av == dependencies_view(a@),
            bv == dependencies_view(b@),
            forall|j: int| 0 <= j < i ==> (find_dependency(bv, #[trigger] av[j].id) matches Some(y) && same_dependency(
                find_dependency(av, av[j].id)->0,
                y,
            )),
        decreases a.len() - i,
    {
        let id = a[i].id.as_str();
        let x = find_in(a, id);
        let y = find_in(b, id);
        assert(av[i as int].id == id@);
        match (x, y) {
            (Some(x), Some(y)) => {
                let same = text_equals(x.id.as_str(), y.id.as_str()) && x.version_range.same_comparators(&y.version_range)
                    && match (&x.qpkg_url, &y.qpkg_url) {
                    (Some(p), Some(q)) => text_equals(p.as_str(), q.as_str()),
                    (None, None) => true,
                    _ => false,
                };
                if !same {
                    assert(find_dependency(dependencies_view(a@), id@) is Some);
                    return false;
                }
            },
            _ => {
                proof {
                    assert(by_id(av)[i as int].0 == id@);
                    lemma_lookup_has(by_id(av), i as int);
                    assert(find_dependency(dependencies_view(a@), id@) is Some);
                }
                return false;
            },
        }
        i += 1;
    }
    proof {
        assert forall|id: Seq<char>| #[trigger] find_dependency(av, id) is Some implies (find_dependency(bv, id) matches Some(y)
            && same_dependency(find_dependency(av, id)->0, y)) by {
            lemma_lookup_present(by_id(av), id);
            let k = choose|k: int| 0 <= k < by_id(av).len() && by_id(av)[k].0 == id && by_id(av)[k].1 == lookup(by_id(av), id)->0;
            assert(av[k].id == id);
        }
    }
    true
}

/// The value of the first pair with key `key`, if any.
fn find_pair<'a>(pairs: &'a Vec<(String, String)>, key: &str) -> (r: Option<&'a String>)
    ensures
        match r {
            Some(v) => lookup(text_pairs(pairs@), key@) == Some(v@),
            None => lookup(text_pairs(pairs@), key@) is None,
        },
{
    let ghost entries = text_pairs(pairs@);
    let mut i: usize = 0;
    while i < pairs.len()
        invariant
            i <= pairs.len(),
            entries == text_pairs(pairs@),
            forall|j: int| 0 <= j < i ==> (#[trigger] pairs@[j]).0@ != key@,
        decreases pairs.len() - i,
    {
        if text_equals(pairs[i].0.as_str(), key) {
            proof {
                assert(entries[i as int].0 == key@);
                assert forall|j: int| 0 <= j < i implies (#[trigger] entries[j]).0 != entries[i as int].0 by {
                    assert(entries[j].0 == pairs@[j].0@);
                }
                lemma_lookup_first(entries, i as int);
            }
            return Some(&pairs[i].1);
        }
        i += 1;
    }
    proof {
        assert forall|j: int| 0 <= j < entries.len() implies (#[trigger] entries[j]).0 != key@ by {
            assert(entries[j].0 == pairs@[j].0@);
        }
        lemma_lookup_absent(entries, key@);
    }
    None
}

/// Whether every key of `a` has the same value in `b`.
fn env_within(a: &Vec<(String, String)>, b: &Vec<(String, String)>) -> (r: bool)
    ensures
        r <==> forall|k: Seq<char>| #[trigger] lookup(text_pairs(a@), k) is Some ==> lookup(text_pairs(b@), k) == lookup(
            text_pairs(a@),
            k,
        ),
{
    let ghost av = text_pairs(a@);
    let ghost bv = text_pairs(b@);
    let mut i: usize = 0;
    while i < a.len()
        invariant
            i <= a.len(),
            av == text_pairs(a@),
            bv == text_pairs(b@),
            forall|j: int| 0 <= j < i ==> lookup(bv, #[trigger] av[j].0) == lookup(av, av[j].0),
        decreases a.len() - i,
    {
        let key = a[i].0.as_str();
        assert(av[i as int].0 == key@);
        proof {
            lemma_lookup_has(av, i as int);
        }
        let x = find_pair(a, key);
        let y = find_pair(b, key);
        let same = match (x, y) {
            (Some(p), Some(q)) => text_equals(p.as_str(), q.as_str()),
            _ => false,
        };
        if !same {
            assert(lookup(av, key@) is Some);
            return false;
        }
        i += 1;
    }
    proof {
        assert forall|k: Seq<char>| #[trigger] lookup(av, k) is Some implies lookup(bv, k) == lookup(av, k) by {
            lemma_lookup_present(av, k);
            let j = choose|j: int| 0 <= j < av.len() && av[j].0 == k && av[j].1 == lookup(av, k)->0;
        }
    }
    true
}

/// Whether two lists of texts are equal.
fn same_texts(a: &Vec<String>, b: &Vec<String>) -> (r: bool)
    ensures
        r == (texts(a@) == texts(b@)),
{
    if a.len() != b.len() {
        assert(texts(a@).len() != texts(b@).len());
        return false;
    }
    let mut i: usize = 0;
    while i < a.len()
        invariant
            i <= a.len(),
            a.len() == b.len(),
            forall|j: int| 0 <= j < i ==> (#[trigger] a@[j])@ == b@[j]@,
        decreases a.len() - i,
    {
        if !text_equals(a[i].as_str(), b[i].as_str()) {
            assert(texts(a@)[i as int] != texts(b@)[i as int]);
            return false;
        }
        i += 1;
    }
    assert(texts(a@) =~= texts(b@));
    true
}

impl PackageConfig {
    /// The first of the package's dependencies with id `id`, if any.
    pub fn get_dependency(&self, id: &str) -> (r: Option<&PackageDependency>)
        ensures
            match r {
                Some(d) => find_dependency(self@.dependencies, id@) == Some(d@),
                None => find_dependency(self@.dependencies, id@) is None,
            },
    {
        find_in(&self.dependencies, id)
    }

    /// Whether two configs are equal (see `same_config`).
    pub fn same_as(&self, other: &PackageConfig) -> (r: bool)
        ensures
            r == same_config(self@, other@),
    {
        let a = &self.dependencies;
        let b = &other.dependencies;
        let deps_same = dependencies_within(a, b) && dependencies_within(b, a);
        let dev_same = dependencies_within(&self.dev_dependencies, &other.dev_dependencies)
            && dependencies_within(&other.dev_dependencies, &self.dev_dependencies);
        let binaries_same = match (&self.out_binaries, &other.out_binaries) {
            (Some(x), Some(y)) => same_texts(x, y),
            (None, None) => true,
            _ => false,
        };
        let env_same = match (&self.env, &other.env) {
            (Some(x), Some(y)) => env_within(x, y) && env_within(y, x),
            (None, None) => true,
            _ => false,
        };
        proof {
            if deps_same {
                assert forall|id: Seq<char>| match (#[trigger] find_dependency(self@.dependencies, id), find_dependency(other@.dependencies, id)) {
                    (Some(x), Some(y)) => same_dependency(x, y),
                    (None, None) => true,
                    _ => false,
                } by {
                    if find_dependency(other@.dependencies, id) is Some {
                        assert(find_dependency(self@.dependencies, id) is Some);
                    }
                }
            }
            if dev_same {
                assert forall|id: Seq<char>| match (#[trigger] find_dependency(self@.dev_dependencies, id), find_dependency(other@.dev_dependencies, id)) {
                    (Some(x), Some(y)) => same_dependency(x, y),
                    (None, None) => true,
                    _ => false,
                } by {
                    if find_dependency(other@.dev_dependencies, id) is Some {
                        assert(find_dependency(self@.dev_dependencies, id) is Some);
                    }
                }
            }
            if same_dependency_maps(self@.dependencies, other@.dependencies) {
                assert forall|id: Seq<char>| #[trigger] find_dependency(dependencies_view(b@), id) is Some implies (find_dependency(dependencies_view(a@), id) matches Some(y)
                    && same_dependency(find_dependency(dependencies_view(b@), id)->0, y)) by {
                    assert(match (find_dependency(self@.dependencies, id), find_dependency(other@.dependencies, id)) {
                        (Some(x), Some(y)) => same_dependency(x, y),
                        (None, None) => true,
                        _ => false,
                    });
                }
                assert forall|id: Seq<char>| #[trigger] find_dependency(dependencies_view(a@), id) is Some implies (find_dependency(dependencies_view(b@), id) matches Some(y)
                    && same_dependency(find_dependency(dependencies_view(a@), id)->0, y)) by {
                    assert(match (find_dependency(self@.dependencies, id), find_dependency(other@.dependencies, id)) {
                        (Some(x), Some(y)) => same_dependency(x, y),
                        (None, None) => true,
                        _ => false,
                    });
                }
            }
            if same_dependency_maps(self@.dev_dependencies, other@.dev_dependencies) {
                assert forall|id: Seq<char>| #[trigger] find_dependency(other@.dev_dependencies, id) is Some implies (find_dependency(self@.dev_dependencies, id) matches Some(y)
                    && same_dependency(find_dependency(other@.dev_dependencies, id)->0, y)) by {
                    assert(match (find_dependency(self@.dev_dependencies, id), find_dependency(other@.dev_dependencies, id)) {
                        (Some(x), Some(y)) => same_dependency(x, y),
                        (None, None) => true,
                        _ => false,
                    });
                }
                assert forall|id: Seq<char>| #[trigger] find_dependency(self@.dev_dependencies, id) is Some implies (find_dependency(other@.dev_dependencies, id) matches Some(y)
                    && same_dependency(find_dependency(self@.dev_dependencies, id)->0, y)) by {
                    assert(match (find_dependency(self@.dev_dependencies, id), find_dependency(other@.dev_dependencies, id)) {
                        (Some(x), Some(y)) => same_dependency(x, y),
                        (None, None) => true,
                        _ => false,
                    });
                }
            }
            if let (Some(x), Some(y)) = (self@.env, other@.env) {
                if env_same {
                    assert forall|k: Seq<char>| #[trigger] lookup(x, k) == lookup(y, k) by {
                        if lookup(y, k) is Some {
                            assert(lookup(x, k) == lookup(y, k));
                        }
                    }
                }
            }
        }
        text_equals(self.id.as_str(), other.id.as_str()) && self.version.equals(&other.version)
            && text_equals(self.shared_directory.as_str(), other.shared_directory.as_str())
            && text_equals(self.dependencies_directory.as_str(), other.dependencies_directory.as_str())
            && deps_same && dev_same && binaries_same && env_same
    }
}

/// Abstract value of an artifact.
pub ghost struct ArtifactModel {
    pub config: PackageConfigModel,
    pub qpkg_checksum: Option<Seq<char>>,
}

/// A package as a repository hands it out: its config, and the sha256 checksum of the QPKG
/// archive it came from when the repository knows one.
pub struct Artifact {
    pub config: PackageConfig,
    pub qpkg_checksum: Option<String>,
}

impl View for Artifact {
    type V = ArtifactModel;

    open spec fn view(&self) -> ArtifactModel {
        ArtifactModel { config: self.config@, qpkg_checksum: opt_text(self.qpkg_checksum) }
    }
}

impl Clone for Artifact {
    fn clone(&self) -> (r: Self)
        ensures
            r@ == self@,
    {
        Artifact { config: self.config.clone(), qpkg_checksum: clone_opt_text(&self.qpkg_checksum) }
    }
}

/// The views of a list of artifacts.
pub open spec fn artifacts_view(items: Seq<Artifact>) -> Seq<ArtifactModel> {
    items.map_values(|a: Artifact| a@)
}

/// Abstract value of what a restore records of a dependency.
pub ghost struct SharedDependencyModel {
    pub restored_version: VersionModel,
    pub qpkg_url: Option<Seq<char>>,
    pub qpkg_checksum: Option<Seq<char>>,
    pub restored_binaries: Seq<Seq<char>>,
    pub restored_env: Seq<(Seq<char>, Seq<char>)>,
}

/// What a restore records of one dependency: the version chosen, where its QPKG came from and
/// its checksum, the binaries it provides and the environment it sets.
pub struct SharedDependencyInfo {
    pub restored_version: Version,
    pub qpkg_url: Option<String>,
    pub qpkg_checksum: Option<String>,
    pub restored_binaries: Vec<String>,
    pub restored_env: Vec<(String, String)>,
}

impl View for SharedDependencyInfo {
    type V = SharedDependencyModel;

    open spec fn view(&self) -> SharedDependencyModel {
        SharedDependencyModel {
            restored_version: self.restored_version@,
            qpkg_url: opt_text(self.qpkg_url),
            qpkg_checksum: opt_text(self.qpkg_checksum),
            restored_binaries: texts(self.restored_binaries@),
            restored_env: text_pairs(self.restored_env@),
        }
    }
}

/// The restored dependencies as (id, record) entries.
pub open spec fn restored_view(items: Seq<(String, SharedDependencyInfo)>) -> Seq<(Seq<char>, SharedDependencyModel)> {
    items.map_values(|e: (String, SharedDependencyInfo)| (e.0@, e.1@))
}

/// A package config together with what a restore chose for its dependencies (its
/// `qpm.shared.json`).
pub struct SharedPackageConfig {
    pub config: PackageConfig,
    pub restored_dependencies: Vec<(String, SharedDependencyInfo)>,
    pub env: Vec<(String, String)>,
}

} // verus!
