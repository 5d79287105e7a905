//! The registry of the local file repository: for each package id, the artifacts of the
//! versions that are installed in the cache.
use vstd::prelude::*;
use crate::keyed::{
    keys_distinct, lemma_lookup_absent, lemma_lookup_at, lemma_lookup_has, lemma_lookup_present, lemma_lookup_push,
    lemma_lookup_remove, lemma_lookup_update, lookup,
};
use crate::package::{Artifact, ArtifactModel, PackageConfig, artifacts_view};
use crate::text::{opt_text, text_equals, texts};
use crate::version::{Version, VersionModel};
use crate::versions::{all_wf, insert_unique, strictly_descending, versions_view};
use crate::workspace::{join, join_path};

verus! {

/// The artifacts of a package as entries keyed by version.
pub open spec fn by_version(arts: Seq<ArtifactModel>) -> Seq<(VersionModel, ArtifactModel)> {
    arts.map_values(|a: ArtifactModel| (a.config.version, a))
}

/// No id occurs twice, and no version twice under one id.
pub open spec fn registry_wf(reg: Seq<(Seq<char>, Seq<ArtifactModel>)>) -> bool {
    &&& keys_distinct(reg)
    &&& forall|i: int| 0 <= i < reg.len() ==> keys_distinct(by_version(#[trigger] reg[i].1))
}

/// The artifact registered for `id` at version `v`.
pub open spec fn find_artifact(reg: Seq<(Seq<char>, Seq<ArtifactModel>)>, id: Seq<char>, v: VersionModel) -> Option<ArtifactModel> {
    match lookup(reg, id) {
        Some(arts) => lookup(by_version(arts), v),
        None => None,
    }
}

/// The package ids of the registry, in order.
pub open spec fn registry_ids(reg: Seq<(Seq<char>, Seq<ArtifactModel>)>) -> Seq<Seq<char>> {
    reg.map_values(|e: (Seq<char>, Seq<ArtifactModel>)| e.0)
}

/// The views of the entries of a registry.
pub open spec fn entries_view(entries: Seq<(String, Vec<Artifact>)>) -> Seq<(Seq<char>, Seq<ArtifactModel>)> {
    entries.map_values(|e: (String, Vec<Artifact>)| (e.0@, artifacts_view(e.1@)))
}

/// For each package id, the artifacts of its registered versions.
pub struct FileRepositoryRegistry {
    entries: Vec<(String, Vec<Artifact>)>,
}

impl View for FileRepositoryRegistry {
    type V = Seq<(Seq<char>, Seq<ArtifactModel>)>;

    closed spec fn view(&self) -> Seq<(Seq<char>, Seq<ArtifactModel>)> {
        entries_view(self.entries@)
    }
}

impl FileRepositoryRegistry {
    /// No id occurs twice, and no version twice under one id.
    #[verifier::type_invariant]
    pub open spec fn inv(self) -> bool {
        registry_wf(self@)
    }

    /// The empty registry.
    pub fn new() -> (r: FileRepositoryRegistry)
        ensures
            r@ == Seq::<(Seq<char>, Seq<ArtifactModel>)>::empty(),
    {
        let r = FileRepositoryRegistry { entries: Vec::new() };
        assert(r@ =~= Seq::<(Seq<char>, Seq<ArtifactModel>)>::empty());
        r
    }
}

/// The index of the entry for `id`.
fn id_position(entries: &Vec<(String, Vec<Artifact>)>, id: &str) -> (r: Option<usize>)
    ensures
        match r {
            Some(i) => i < entries.len() && entries@[i as int].0@ == id@,
            None => forall|i: int| 0 <= i < entries.len() ==> (#[trigger] entries@[i]).0@ != id@,
        },
{
    let mut i: usize = 0;
    while i < entries.len()
        invariant
            i <= entries.len(),
            forall|j: int| 0 <= j < i ==> (#[trigger] entries@[j]).0@ != id@,
        decreases entries.len() - i,
    {
        if text_equals(entries[i].0.as_str(), id) {
            return Some(i);
        }
        i += 1;
    }
    None
}

/// The index of the artifact of version `v`.
fn version_position(arts: &Vec<Artifact>, v: &Version) -> (r: Option<usize>)
    ensures
        match r {
            Some(j) => j < arts.len() && arts@[j as int].config.version@ == v@,
            None => forall|j: int| 0 <= j < arts.len() ==> (#[trigger] arts@[j]).config.version@ != v@,
        },
{
    let mut j: usize = 0;
    while j < arts.len()
        invariant
            j <= arts.len(),
            forall|k: int| 0 <= k < j ==> (#[trigger] arts@[k]).config.version@ != v@,
        decreases arts.len() - j,
    {
        if arts[j].config.version.equals(v) {
            return Some(j);
        }
        j += 1;
    }
    None
}

/// The entry at `i`, found for `id`, is what `lookup` gives for `id`.
proof fn lemma_found(reg: Seq<(Seq<char>, Seq<ArtifactModel>)>, i: int)
    requires
        registry_wf(reg),
        0 <= i < reg.len(),
    ensures
        lookup(reg, reg[i].0) == Some(reg[i].1),
{
    lemma_lookup_at(reg, i);
}

/// No entry has `id`, so `lookup` finds nothing.
proof fn lemma_not_found(reg: Seq<(Seq<char>, Seq<ArtifactModel>)>, id: Seq<char>)
    requires
        forall|i: int| 0 <= i < reg.len() ==> (#[trigger] reg[i]).0 != id,
    ensures
        lookup(reg, id) is None,
{
    lemma_lookup_absent(reg, id);
}

/// A version is registered under a list of artifacts exactly when one of them has it.
proof fn lemma_versions_listed(arts: Seq<ArtifactModel>, v: VersionModel)
    ensures
        lookup(by_version(arts), v) is Some <==> exists|j: int| 0 <= j < arts.len() && (#[trigger] arts[j]).config.version == v,
{
    let e = by_version(arts);
    if lookup(e, v) is Some {
        lemma_lookup_present(e, v);
        let j = choose|j: int| 0 <= j < e.len() && e[j].0 == v && e[j].1 == lookup(e, v)->0;
        assert(arts[j].config.version == v);
    }
    if exists|j: int| 0 <= j < arts.len() && (#[trigger] arts[j]).config.version == v {
        let j = choose|j: int| 0 <= j < arts.len() && (#[trigger] arts[j]).config.version == v;
        assert(e[j].0 == v);
        lemma_lookup_has(e, j);
    }
}

/// Replacing the artifacts of the entry at `i` keeps the registry well formed and changes only
/// what its id gives.
proof fn lemma_set_artifacts(reg: Seq<(Seq<char>, Seq<ArtifactModel>)>, i: int, arts: Seq<ArtifactModel>)
    requires
        registry_wf(reg),
        0 <= i < reg.len(),
        keys_distinct(by_version(arts)),
    ensures
        registry_wf(reg.update(i, (reg[i].0, arts))),
        forall|k: Seq<char>| #[trigger] lookup(reg.update(i, (reg[i].0, arts)), k) == if k == reg[i].0 {
            Some(arts)
        } else {
            lookup(reg, k)
        },
        registry_ids(reg.update(i, (reg[i].0, arts))) == registry_ids(reg),
{
    lemma_lookup_update(reg, i, arts);
    let r2 = reg.update(i, (reg[i].0, arts));
    assert forall|k: int| 0 <= k < r2.len() implies keys_distinct(by_version(#[trigger] r2[k].1)) by {
        if k != i {
            assert(r2[k] == reg[k]);
        }
    }
    assert(registry_ids(r2) =~= registry_ids(reg));
}

/// Adding an entry for a new id keeps the registry well formed and changes only what that id
/// gives.
proof fn lemma_push_id(reg: Seq<(Seq<char>, Seq<ArtifactModel>)>, id: Seq<char>, arts: Seq<ArtifactModel>)
    requires
        registry_wf(reg),
        lookup(reg, id) is None,
        keys_distinct(by_version(arts)),
    ensures
        registry_wf(reg.push((id, arts))),
        forall|k: Seq<char>| #[trigger] lookup(reg.push((id, arts)), k) == if k == id {
            Some(arts)
        } else {
            lookup(reg, k)
        },
        registry_ids(reg.push((id, arts))) == registry_ids(reg).push(id),
{
    lemma_lookup_push(reg, id, arts);
    let r2 = reg.push((id, arts));
    assert forall|k: int| 0 <= k < r2.len() implies keys_distinct(by_version(#[trigger] r2[k].1)) by {
        if k < reg.len() {
            assert(r2[k] == reg[k]);
        }
    }
    assert(registry_ids(r2) =~= registry_ids(reg).push(id));
}

/// Removing the entry at `i` keeps the registry well formed and drops only its id.
proof fn lemma_remove_id(reg: Seq<(Seq<char>, Seq<ArtifactModel>)>, i: int)
    requires
        registry_wf(reg),
        0 <= i < reg.len(),
    ensures
        registry_wf(reg.remove(i)),
        forall|k: Seq<char>| #[trigger] lookup(reg.remove(i), k) == if k == reg[i].0 {
            None
        } else {
            lookup(reg, k)
        },
{
    lemma_lookup_remove(reg, i);
    let r2 = reg.remove(i);
    assert forall|k: int| 0 <= k < r2.len() implies keys_distinct(by_version(#[trigger] r2[k].1)) by {
        if k < i {
            assert(r2[k] == reg[k]);
        } else {
            assert(r2[k] == reg[k + 1]);
        }
    }
}

/// Replacing the artifact at `j` by one of the same version.
proof fn lemma_replace_artifact(arts: Seq<ArtifactModel>, j: int, a: ArtifactModel)
    requires
        keys_distinct(by_version(arts)),
        0 <= j < arts.len(),
        arts[j].config.version == a.config.version,
    ensures
        keys_distinct(by_version(arts.update(j, a))),
        forall|v: VersionModel| #[trigger] lookup(by_version(arts.update(j, a)), v) == if v == a.config.version {
            Some(a)
        } else {
            lookup(by_version(arts), v)
        },
{
    let e = by_version(arts);
    assert(by_version(arts.update(j, a)) =~= e.update(j, (e[j].0, a)));
    lemma_lookup_update(e, j, a);
}

/// Adding an artifact of a version not yet there.
proof fn lemma_add_artifact(arts: Seq<ArtifactModel>, a: ArtifactModel)
    requires
        keys_distinct(by_version(arts)),
        lookup(by_version(arts), a.config.version) is None,
    ensures
        keys_distinct(by_version(arts.push(a))),
        forall|v: VersionModel| #[trigger] lookup(by_version(arts.push(a)), v) == if v == a.config.version {
            Some(a)
        } else {
            lookup(by_version(arts), v)
        },
{
    let e = by_version(arts);
    assert(by_version(arts.push(a)) =~= e.push((a.config.version, a)));
    lemma_lookup_push(e, a.config.version, a);
}

/// Removing the artifact at `j`.
proof fn lemma_drop_artifact(arts: Seq<ArtifactModel>, j: int)
    requires
        keys_distinct(by_version(arts)),
        0 <= j < arts.len(),
    ensures
        keys_distinct(by_version(arts.remove(j))),
        forall|v: VersionModel| #[trigger] lookup(by_version(arts.remove(j)), v) == if v == arts[j].config.version {
            None
        } else {
            lookup(by_version(arts), v)
        },
{
    let e = by_version(arts);
    assert(by_version(arts.remove(j)) =~= e.remove(j));
    lemma_lookup_remove(e, j);
}

/// Why the repository refused a request.
#[derive(Clone, Copy, Debug, PartialEq, Eq, Structural)]
pub enum RepositoryError {
    /// No package of that id is registered.
    NotFound,
}

/// The repository of the packages installed in the local cache: where the cache is, and the
/// registry of its packages.
pub struct FileRepository {
    root: String,
    registry: FileRepositoryRegistry,
}

impl View for FileRepository {
    type V = Seq<(Seq<char>, Seq<ArtifactModel>)>;

    closed spec fn view(&self) -> Seq<(Seq<char>, Seq<ArtifactModel>)> {
        self.registry@
    }
}

/// The artifact for `config`, with `qpkg_checksum`.
pub open spec fn artifact_of(config: PackageConfig, qpkg_checksum: Option<String>) -> ArtifactModel {
    ArtifactModel { config: config@, qpkg_checksum: opt_text(qpkg_checksum) }
}

impl FileRepository {
    /// The root folder of the cache.
    pub closed spec fn root_text(self) -> Seq<char> {
        self.root@
    }

    /// The repository of the cache at `root`, with `registry`.
    pub fn new(root: String, registry: FileRepositoryRegistry) -> (r: FileRepository)
        ensures
            r.root_text() == root@,
            r@ == registry@,
    {
        FileRepository { root, registry }
    }

    /// The root folder of the cache, under which packages are installed.
    pub fn root(&self) -> (r: &str)
        ensures
            r@ == self.root_text(),
    {
        self.root.as_str()
    }

    /// The registry of the repository.
    pub fn artifacts(&self) -> (r: &FileRepositoryRegistry)
        ensures
            r@ == self@,
            registry_wf(self@),
    {
        proof {
            use_type_invariant(&self.registry);
        }
        &self.registry
    }

    /// The folder of the binaries under a dependencies folder.
    pub fn libs_dir(extern_dir: &str) -> (r: String)
        ensures
            r@ == join_path(extern_dir@, "libs"@),
    {
        join(extern_dir, "libs")
    }

    /// The folder of the headers under a dependencies folder.
    pub fn headers_path(extern_dir: &str) -> (r: String)
        ensures
            r@ == join_path(extern_dir@, "includes"@),
    {
        join(extern_dir, "includes")
    }

    /// The build folder under a dependencies folder.
    pub fn build_path(extern_dir: &str) -> (r: String)
        ensures
            r@ == join_path(extern_dir@, "build"@),
    {
        join(extern_dir, "build")
    }

    /// The artifacts registered for `id`, if any.
    pub fn get_artifacts_from_id(&self, id: &str) -> (r: Option<&Vec<Artifact>>)
        ensures
            match r {
                Some(a) => lookup(self@, id@) == Some(artifacts_view(a@)),
                None => lookup(self@, id@) is None,
            },
    {
        proof {
            use_type_invariant(&self.registry);
        }
        let entries = &self.registry.entries;
        match id_position(entries, id) {
            Some(i) => {
                proof {
                    assert(self@[i as int] == (entries@[i as int].0@, artifacts_view(entries@[i as int].1@)));
                    lemma_found(self@, i as int);
                }
                Some(&entries[i].1)
            },
            None => {
                proof {
                    assert forall|k: int| 0 <= k < self@.len() implies (#[trigger] self@[k]).0 != id@ by {
                        assert(self@[k].0 == entries@[k].0@);
                    }
                    lemma_not_found(self@, id@);
                }
                None
            },
        }
    }

    /// The artifact registered for `id` at `version`, if any.
    pub fn get_artifact(&self, id: &str, version: &Version) -> (r: Option<&Artifact>)
        ensures
            match r {
                Some(a) => find_artifact(self@, id@, version@) == Some(a@),
                None => find_artifact(self@, id@, version@) is None,
            },
    {
        proof {
            use_type_invariant(&self.registry);
        }
        match self.get_artifacts_from_id(id) {
            Some(arts) => {
                let ghost av = artifacts_view(arts@);
                assert(keys_distinct(by_version(av))) by {
                    lemma_lookup_present(self@, id@);
                }
                match version_position(arts, version) {
                    Some(j) => {
                        proof {
                            assert(by_version(av)[j as int] == (version@, arts@[j as int]@));
                            lemma_lookup_at(by_version(av), j as int);
                        }
                        Some(&arts[j])
                    },
                    None => {
                        proof {
                            assert forall|k: int| 0 <= k < by_version(av).len() implies (#[trigger] by_version(av)[k]).0 != version@ by {
                                assert(by_version(av)[k].0 == arts@[k].config.version@);
                            }
                            lemma_lookup_absent(by_version(av), version@);
                        }
                        None
                    },
                }
            },
            None => None,
        }
    }

    /// A copy of the artifact registered for `id` at `version`, if any.
    pub fn get_package(&self, id: &str, version: &Version) -> (r: Option<Artifact>)
        ensures
            match r {
                Some(a) => find_artifact(self@, id@, version@) == Some(a@),
                None => find_artifact(self@, id@, version@) is None,
            },
    {
        match self.get_artifact(id, version) {
            Some(a) => Some(a.clone()),
            None => None,
        }
    }

    /// The ids of the registered packages.
    pub fn get_package_names(&self) -> (r: Vec<String>)
        ensures
            texts(r@) == registry_ids(self@),
    {
        let entries = &self.registry.entries;
        let mut out: Vec<String> = Vec::new();
        let mut i: usize = 0;
        while i < entries.len()
            invariant
                i <= entries.len(),
                out@.len() == i,
                self@ == entries_view(entries@),
                forall|j: int| 0 <= j < i ==> (#[trigger] out@[j])@ == entries@[j].0@,
            decreases entries.len() - i,
        {
            out.push(entries[i].0.clone());
            i += 1;
        }
        assert(texts(out@) =~= registry_ids(self@));
        out
    }

    /// The versions registered for `id`, highest first; `None` when no version of `id` is
    /// registered (whether `id` is unknown or has lost its last version).
    pub fn get_package_versions(&self, id: &str) -> (r: Option<Vec<Version>>)
        ensures
            r is None <==> forall|v: VersionModel| #[trigger] find_artifact(self@, id@, v) is None,
            r matches Some(vs) ==> vs.len() > 0 && strictly_descending(versions_view(vs@)) && forall|v: VersionModel|
                #[trigger] versions_view(vs@).contains(v) <==> find_artifact(self@, id@, v) is Some,
    {
        match self.get_artifacts_from_id(id) {
            Some(arts) => {
                let mut out: Vec<Version> = Vec::new();
                let mut j: usize = 0;
                assert(versions_view(out@) =~= Seq::<VersionModel>::empty());
                while j < arts.len()
                    invariant
                        j <= arts.len(),
                        strictly_descending(versions_view(out@)),
                        all_wf(versions_view(out@)),
                        forall|v: VersionModel| #[trigger] versions_view(out@).contains(v)
                            <==> exists|k: int| 0 <= k < j && (#[trigger] arts@[k]).config.version@ == v,
                    decreases arts.len() - j,
                {
                    let ghost before = versions_view(out@);
                    insert_unique(&mut out, &arts[j].config.version);
                    assert forall|v: VersionModel| #[trigger] versions_view(out@).contains(v)
                        <==> exists|k: int| 0 <= k < j + 1 && (#[trigger] arts@[k]).config.version@ == v by {
                        if exists|k: int| 0 <= k < j + 1 && (#[trigger] arts@[k]).config.version@ == v {
                            let k = choose|k: int| 0 <= k < j + 1 && (#[trigger] arts@[k]).config.version@ == v;
                            if k < j {
                                assert(before.contains(v));
                            }
                        }
                        if v == arts@[j as int].config.version@ {
                            assert(arts@[j as int].config.version@ == v);
                        }
                    }
                    j += 1;
                }
                proof {
                    let av = artifacts_view(arts@);
                    assert forall|v: VersionModel| #[trigger] versions_view(out@).contains(v) <==> find_artifact(self@, id@, v) is Some by {
                        lemma_versions_listed(av, v);
                        if exists|k: int| 0 <= k < arts.len() && (#[trigger] arts@[k]).config.version@ == v {
                            let k = choose|k: int| 0 <= k < arts.len() && (#[trigger] arts@[k]).config.version@ == v;
                            assert(av[k].config.version == v);
                        }
                        if exists|k: int| 0 <= k < av.len() && (#[trigger] av[k]).config.version == v {
                            let k = choose|k: int| 0 <= k < av.len() && (#[trigger] av[k]).config.version == v;
                            assert(arts@[k].config.version@ == v);
                        }
                    }
                }
                if out.len() == 0 {
                    proof {
                        assert forall|v: VersionModel| #[trigger] find_artifact(self@, id@, v) is None by {
                            assert(!versions_view(out@).contains(v));
                        }
                    }
                    None
                } else {
                    proof {
                        let w = versions_view(out@)[0];
                        assert(versions_view(out@).contains(w));
                        assert(find_artifact(self@, id@, w) is Some);
                    }
                    Some(out)
                }
            },
            None => None,
        }
    }

    /// Registers `package` (with the checksum of its archive) under its id and version. Where
    /// that version is registered already, the old artifact stays unless `overwrite_existing`.
    /// A new id goes after the others.
    pub fn add_artifact_to_map(&mut self, package: PackageConfig, qpkg_checksum: Option<String>, overwrite_existing: bool)
        ensures
            forall|k: Seq<char>| k != package@.id ==> #[trigger] lookup(final(self)@, k) == lookup(old(self)@, k),
            lookup(final(self)@, package@.id) is Some,
            forall|v: VersionModel| v != package@.version ==> #[trigger] find_artifact(final(self)@, package@.id, v)
                == find_artifact(old(self)@, package@.id, v),
            find_artifact(final(self)@, package@.id, package@.version) == if find_artifact(
                old(self)@,
                package@.id,
                package@.version,
            ) is Some && !overwrite_existing {
                find_artifact(old(self)@, package@.id, package@.version)
            } else {
                Some(artifact_of(package, qpkg_checksum))
            },
            registry_ids(final(self)@) == if lookup(old(self)@, package@.id) is Some {
                registry_ids(old(self)@)
            } else {
                registry_ids(old(self)@).push(package@.id)
            },
            final(self).root_text() == old(self).root_text(),
    {
        proof {
            use_type_invariant(&self.registry);
        }
        let ghost reg = self@;
        let ghost id = package@.id;
        let ghost ver = package@.version;
        let ghost a = artifact_of(package, qpkg_checksum);
        let mut entries: Vec<(String, Vec<Artifact>)> = Vec::new();
        std::mem::swap(&mut entries, &mut self.registry.entries);
        assert(entries_view(entries@) == reg);
        let artifact = Artifact { config: package, qpkg_checksum };
        assert(artifact@ == a);
        match id_position(&entries, artifact.config.id.as_str()) {
            Some(i) => {
                proof {
                    assert(reg[i as int].0 == id);
                    lemma_found(reg, i as int);
                }
                let (key, mut arts) = entries.remove(i);
                let ghost av = artifacts_view(arts@);
                assert(av == reg[i as int].1);
                match version_position(&arts, &artifact.config.version) {
                    Some(j) => {
                        proof {
                            assert(by_version(av)[j as int] == (ver, av[j as int]));
                            lemma_lookup_at(by_version(av), j as int);
                        }
                        if overwrite_existing {
                            arts.set(j, artifact);
                            proof {
                                assert(artifacts_view(arts@) =~= av.update(j as int, a));
                                lemma_replace_artifact(av, j as int, a);
                            }
                        }
                    },
                    None => {
                        proof {
                            assert forall|k: int| 0 <= k < by_version(av).len() implies (#[trigger] by_version(av)[k]).0 != ver by {
                                assert(by_version(av)[k].0 == arts@[k].config.version@);
                            }
                            lemma_lookup_absent(by_version(av), ver);
                        }
                        arts.push(artifact);
                        proof {
                            assert(artifacts_view(arts@) =~= av.push(a));
                            lemma_add_artifact(av, a);
                        }
                    },
                }
                let ghost new_av = artifacts_view(arts@);
                entries.insert(i, (key, arts));
                proof {
                    assert(entries_view(entries@) =~= reg.update(i as int, (reg[i as int].0, new_av)));
                    lemma_set_artifacts(reg, i as int, new_av);
                }
            },
            None => {
                proof {
                    assert forall|k: int| 0 <= k < reg.len() implies (#[trigger] reg[k]).0 != id by {
                        assert(reg[k].0 == entries@[k].0@);
                    }
                    lemma_not_found(reg, id);
                }
                let key = artifact.config.id.clone();
                let mut arts: Vec<Artifact> = Vec::new();
                arts.push(artifact);
                proof {
                    assert(artifacts_view(arts@) =~= Seq::<ArtifactModel>::empty().push(a));
                    assert(by_version(Seq::<ArtifactModel>::empty()) =~= Seq::empty());
                    lemma_lookup_absent(by_version(Seq::<ArtifactModel>::empty()), ver);
                    lemma_add_artifact(Seq::<ArtifactModel>::empty(), a);
                    assert(lookup(by_version(Seq::<ArtifactModel>::empty()), ver) is None);
                }
                let ghost new_av = artifacts_view(arts@);
                entries.push((key, arts));
                proof {
                    assert(entries_view(entries@) =~= reg.push((id, new_av)));
                    lemma_push_id(reg, id, new_av);
                }
            },
        }
        self.registry.entries = entries;
    }

    /// Registers `package`, as `add_artifact_to_map` does.
    pub fn add_artifact_and_cache(&mut self, package: PackageConfig, qpkg_checksum: Option<String>, overwrite_existing: bool)
        ensures
            forall|k: Seq<char>| k != package@.id ==> #[trigger] lookup(final(self)@, k) == lookup(old(self)@, k),
            lookup(final(self)@, package@.id) is Some,
            forall|v: VersionModel| v != package@.version ==> #[trigger] find_artifact(final(self)@, package@.id, v)
                == find_artifact(old(self)@, package@.id, v),
            find_artifact(final(self)@, package@.id, package@.version) == if find_artifact(
                old(self)@,
                package@.id,
                package@.version,
            ) is Some && !overwrite_existing {
                find_artifact(old(self)@, package@.id, package@.version)
            } else {
                Some(artifact_of(package, qpkg_checksum))
            },
            final(self).root_text() == old(self).root_text(),
    {
        self.add_artifact_to_map(package, qpkg_checksum, overwrite_existing);
    }

    /// Records a package that another repository handed out: nothing unless `permanent`, and
    /// then only where that version is not registered yet.
    pub fn add_to_db_cache(&mut self, config: PackageConfig, qpkg_checksum: Option<String>, permanent: bool)
        ensures
            !permanent ==> final(self)@ == old(self)@,
            permanent ==> forall|k: Seq<char>, v: VersionModel| #[trigger] find_artifact(final(self)@, k, v) == if k == config@.id
                && v == config@.version && find_artifact(old(self)@, k, v) is None {
                Some(artifact_of(config, qpkg_checksum))
            } else {
                find_artifact(old(self)@, k, v)
            },
            final(self).root_text() == old(self).root_text(),
    {
        if !permanent {
            return;
        }
        self.add_artifact_to_map(config, qpkg_checksum, false);
    }

    /// Forgets every version of `id`.
    pub fn remove_package_versions(&mut self, id: &str)
        ensures
            lookup(final(self)@, id@) is None,
            forall|k: Seq<char>| k != id@ ==> #[trigger] lookup(final(self)@, k) == lookup(old(self)@, k),
            final(self).root_text() == old(self).root_text(),
    {
        proof {
            use_type_invariant(&self.registry);
        }
        let ghost reg = self@;
        let mut entries: Vec<(String, Vec<Artifact>)> = Vec::new();
        std::mem::swap(&mut entries, &mut self.registry.entries);
        assert(entries_view(entries@) == reg);
        match id_position(&entries, id) {
            Some(i) => {
                entries.remove(i);
                proof {
                    assert(entries_view(entries@) =~= reg.remove(i as int));
                    lemma_remove_id(reg, i as int);
                }
            },
            None => {
                proof {
                    assert forall|k: int| 0 <= k < reg.len() implies (#[trigger] reg[k]).0 != id@ by {
                        assert(reg[k].0 == entries@[k].0@);
                    }
                    lemma_not_found(reg, id@);
                }
            },
        }
        self.registry.entries = entries;
    }

    /// Forgets version `version` of `id`; `NotFound` when `id` is not registered, and then
    /// nothing changes. The id stays registered, possibly with no version left.
    pub fn remove_package(&mut self, id: &str, version: &Version) -> (r: Result<(), RepositoryError>)
        ensures
            r is Err <==> lookup(old(self)@, id@) is None,
            r is Err ==> final(self)@ == old(self)@ && r == Err::<(), RepositoryError>(RepositoryError::NotFound),
            r is Ok ==> lookup(final(self)@, id@) is Some && find_artifact(final(self)@, id@, version@) is None,
            r is Ok ==> forall|v: VersionModel| v != version@ ==> #[trigger] find_artifact(final(self)@, id@, v)
                == find_artifact(old(self)@, id@, v),
            forall|k: Seq<char>| k != id@ ==> #[trigger] lookup(final(self)@, k) == lookup(old(self)@, k),
            registry_ids(final(self)@) == registry_ids(old(self)@),
            final(self).root_text() == old(self).root_text(),
    {
        proof {
            use_type_invariant(&self.registry);
        }
        let ghost reg = self@;
        match id_position(&self.registry.entries, id) {
            None => {
                proof {
                    assert forall|k: int| 0 <= k < reg.len() implies (#[trigger] reg[k]).0 != id@ by {
                        assert(reg[k].0 == self.registry.entries@[k].0@);
                    }
                    lemma_not_found(reg, id@);
                }
                Err(RepositoryError::NotFound)
            },
            Some(i) => {
                let mut entries: Vec<(String, Vec<Artifact>)> = Vec::new();
                std::mem::swap(&mut entries, &mut self.registry.entries);
                assert(entries_view(entries@) == reg);
                proof {
                    assert(reg[i as int].0 == id@);
                    lemma_found(reg, i as int);
                }
                let (key, mut arts) = entries.remove(i);
                let ghost av = artifacts_view(arts@);
                assert(av == reg[i as int].1);
                match version_position(&arts, version) {
                    Some(j) => {
                        arts.remove(j);
                        proof {
                            assert(artifacts_view(arts@) =~= av.remove(j as int));
                            lemma_drop_artifact(av, j as int);
                        }
                    },
                    None => {
                        proof {
                            assert forall|k: int| 0 <= k < by_version(av).len() implies (#[trigger] by_version(av)[k]).0 != version@ by {
                                assert(by_version(av)[k].0 == arts@[k].config.version@);
                            }
                            lemma_lookup_absent(by_version(av), version@);
                        }
                    },
                }
                let ghost new_av = artifacts_view(arts@);
                entries.insert(i, (key, arts));
                proof {
                    assert(entries_view(entries@) =~= reg.update(i as int, (reg[i as int].0, new_av)));
                    lemma_set_artifacts(reg, i as int, new_av);
                }
                self.registry.entries = entries;
                Ok(())
            },
        }
    }
}

/// `x` is a name of one of the lists.
pub open spec fn named(lists: Seq<Vec<String>>, x: Seq<char>) -> bool {
    exists|i: int, j: int| 0 <= i < lists.len() && 0 <= j < lists[i].len() && (#[trigger] lists[i]@[j])@ == x
}

/// The names of all the lists together, each once, in the order of their first occurrence.
pub fn merge_names(lists: &Vec<Vec<String>>) -> (r: Vec<String>)
    ensures
        forall|a: int, b: int| 0 <= a < b < r.len() ==> (#[trigger] r@[a])@ != (#[trigger] r@[b])@,
        forall|x: Seq<char>| #[trigger] texts(r@).contains(x) <==> named(lists@, x),
{
    let mut out: Vec<String> = Vec::new();
    let mut i: usize = 0;
    while i < lists.len()
        invariant
            i <= lists.len(),
            forall|a: int, b: int| 0 <= a < b < out.len() ==> (#[trigger] out@[a])@ != (#[trigger] out@[b])@,
            forall|x: Seq<char>| #[trigger] texts(out@).contains(x) <==> named(lists@.take(i as int), x),
        decreases lists.len() - i,
    {
        let names = &lists[i];
        let mut j: usize = 0;
        while j < names.len()
            invariant
                i < lists.len(),
                names == lists@[i as int],
                j <= names.len(),
                forall|a: int, b: int| 0 <= a < b < out.len() ==> (#[trigger] out@[a])@ != (#[trigger] out@[b])@,
                forall|x: Seq<char>| #[trigger] texts(out@).contains(x) <==> named(lists@.take(i as int), x)
                    || exists|k: int| 0 <= k < j && (#[trigger] names@[k])@ == x,
            decreases names.len() - j,
        {
            let name = &names[j];
            let mut seen = false;
            let mut k: usize = 0;
            while k < out.len()
                invariant
                    k <= out.len(),
                    seen ==> texts(out@).contains(name@),
                    !seen ==> forall|m: int| 0 <= m < k ==> (#[trigger] out@[m])@ != name@,
                decreases out.len() - k,
            {
                if text_equals(out[k].as_str(), name.as_str()) {
                    assert(texts(out@)[k as int] == name@);
                    seen = true;
                }
                k += 1;
            }
            let ghost before = out@;
            if !seen {
                out.push(name.clone());
                assert forall|a: int, b: int| 0 <= a < b < out.len() implies (#[trigger] out@[a])@ != (#[trigger] out@[b])@ by {
                    if b < before.len() {
                        assert(out@[a] == before[a] && out@[b] == before[b]);
                    } else {
                        assert(out@[a] == before[a]);
                    }
                }
            }
            assert forall|x: Seq<char>| #[trigger] texts(out@).contains(x) <==> named(lists@.take(i as int), x)
                || exists|k: int| 0 <= k < j + 1 && (#[trigger] names@[k])@ == x by {
                if texts(out@).contains(x) {
                    let m = choose|m: int| 0 <= m < texts(out@).len() && texts(out@)[m] == x;
                    if m < before.len() {
                        assert(texts(before)[m] == x);
                        assert(texts(before).contains(x));
                    } else {
                        assert(names@[j as int]@ == x);
                    }
                }
                if exists|k: int| 0 <= k < j + 1 && (#[trigger] names@[k])@ == x {
                    let k = choose|k: int| 0 <= k < j + 1 && (#[trigger] names@[k])@ == x;
                    if k < j {
                        assert(texts(before).contains(x));
                        let m = choose|m: int| 0 <= m < texts(before).len() && texts(before)[m] == x;
                        assert(texts(out@)[m] == x);
                    } else if !seen {
                        assert(texts(out@)[before.len() as int] == x);
                    }
                }
                if named(lists@.take(i as int), x) {
                    assert(texts(before).contains(x));
                    let m = choose|m: int| 0 <= m < texts(before).len() && texts(before)[m] == x;
                    assert(texts(out@)[m] == x);
                }
            }
            j += 1;
        }
        assert forall|x: Seq<char>| #[trigger] texts(out@).contains(x) <==> named(lists@.take(i as int + 1), x) by {
            let next = lists@.take(i as int + 1);
            let prev = lists@.take(i as int);
            if named(next, x) {
                let (a, b) = choose|a: int, b: int| 0 <= a < next.len() && 0 <= b < next[a].len() && (#[trigger] next[a]@[b])@ == x;
                if a < i {
                    assert(prev[a] == next[a]);
                    assert(named(prev, x));
                } else {
                    assert(names@[b]@ == x);
                }
            }
            if named(prev, x) {
                let (a, b) = choose|a: int, b: int| 0 <= a < prev.len() && 0 <= b < prev[a].len() && (#[trigger] prev[a]@[b])@ == x;
                assert(next[a] == prev[a]);
                assert(named(next, x));
            }
            if exists|k: int| 0 <= k < names.len() && (#[trigger] names@[k])@ == x {
                let k = choose|k: int| 0 <= k < names.len() && (#[trigger] names@[k])@ == x;
                assert(next[i as int]@[k]@ == x);
                assert(named(next, x));
            }
        }
        i += 1;
    }
    assert(lists@.take(lists.len() as int) =~= lists@);
    out
}

} // verus!
