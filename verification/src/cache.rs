//! What a memoizing repository remembers of the answers of the repository behind it: the list
//! of packages, the versions of each package, and each package handed out.
use vstd::prelude::*;
use crate::keyed::{keys_distinct, lemma_lookup_absent, lemma_lookup_at, lemma_lookup_push, lemma_lookup_update, lookup};
use crate::package::{Artifact, ArtifactModel};
use crate::text::{clone_texts, text_equals, texts};
use crate::version::{Version, VersionModel};
use crate::versions::versions_view;

verus! {

/// A copy of a list of versions.
fn clone_versions(vs: &Vec<Version>) -> (r: Vec<Version>)
    ensures
        versions_view(r@) == versions_view(vs@),
{
    let mut out: Vec<Version> = Vec::new();
    let mut i: usize = 0;
    while i < vs.len()
        invariant
            i <= vs.len(),
            out@.len() == i,
            forall|j: int| 0 <= j < i ==> (#[trigger] out@[j])@ == vs@[j]@,
        decreases vs.len() - i,
    {
        out.push(vs[i].clone());
        i += 1;
    }
    assert(versions_view(out@) =~= versions_view(vs@));
    out
}

/// The remembered versions as entries keyed by package id.
pub open spec fn versions_entries(e: Seq<(String, Vec<Version>)>) -> Seq<(Seq<char>, Seq<VersionModel>)> {
    e.map_values(|x: (String, Vec<Version>)| (x.0@, versions_view(x.1@)))
}

/// The remembered packages as entries keyed by id and version.
pub open spec fn package_entries(e: Seq<Artifact>) -> Seq<((Seq<char>, VersionModel), ArtifactModel)> {
    e.map_values(|a: Artifact| ((a.config.id@, a.config.version@), a@))
}

/// What a memoizing repository remembers.
pub struct PackageCache {
    versions: Vec<(String, Vec<Version>)>,
    packages: Vec<Artifact>,
    names: Option<Vec<String>>,
}

impl PackageCache {
    #[verifier::type_invariant]
    spec fn inv(self) -> bool {
        &&& keys_distinct(versions_entries(self.versions@))
        &&& keys_distinct(package_entries(self.packages@))
    }

    /// The versions remembered for a package.
    pub closed spec fn versions_of(self, id: Seq<char>) -> Option<Seq<VersionModel>> {
        lookup(versions_entries(self.versions@), id)
    }

    /// The package remembered for an id and version.
    pub closed spec fn package_of(self, id: Seq<char>, v: VersionModel) -> Option<ArtifactModel> {
        lookup(package_entries(self.packages@), (id, v))
    }

    /// The remembered list of packages.
    pub closed spec fn names(self) -> Option<Seq<Seq<char>>> {
        match self.names {
            Some(n) => Some(texts(n@)),
            None => None,
        }
    }

    /// A cache that remembers nothing.
    pub fn new() -> (r: PackageCache)
        ensures
            forall|id: Seq<char>| #[trigger] r.versions_of(id) is None,
            forall|id: Seq<char>, v: VersionModel| #[trigger] r.package_of(id, v) is None,
            r.names() is None,
    {
        let r = PackageCache { versions: Vec::new(), packages: Vec::new(), names: None };
        assert(versions_entries(r.versions@) =~= Seq::empty());
        assert(package_entries(r.packages@) =~= Seq::empty());
        r
    }

    /// The remembered list of packages, if any.
    pub fn cached_names(&self) -> (r: Option<Vec<String>>)
        ensures
            match r {
                Some(n) => self.names() == Some(texts(n@)),
                None => self.names() is None,
            },
    {
        match &self.names {
            Some(n) => Some(clone_texts(n)),
            None => None,
        }
    }

    /// Remembers the list of packages.
    pub fn remember_names(&mut self, names: &Vec<String>)
        ensures
            final(self).names() == Some(texts(names@)),
            forall|id: Seq<char>| #[trigger] final(self).versions_of(id) == old(self).versions_of(id),
            forall|id: Seq<char>, v: VersionModel| #[trigger] final(self).package_of(id, v) == old(self).package_of(id, v),
    {
        proof {
            use_type_invariant(&*self);
        }
        self.names = Some(clone_texts(names));
    }

    /// The versions remembered for `id`, if any.
    pub fn cached_versions(&self, id: &str) -> (r: Option<Vec<Version>>)
        ensures
            match r {
                Some(vs) => self.versions_of(id@) == Some(versions_view(vs@)),
                None => self.versions_of(id@) is None,
            },
    {
        proof {
            use_type_invariant(self);
        }
        let ghost e = versions_entries(self.versions@);
        let mut i: usize = 0;
        while i < self.versions.len()
            invariant
                i <= self.versions.len(),
                e == versions_entries(self.versions@),
                keys_distinct(e),
                forall|j: int| 0 <= j < i ==> (#[trigger] e[j]).0 != id@,
            decreases self.versions.len() - i,
        {
            if text_equals(self.versions[i].0.as_str(), id) {
                proof {
                    assert(e[i as int].0 == id@);
                    lemma_lookup_at(e, i as int);
                }
                return Some(clone_versions(&self.versions[i].1));
            }
            i += 1;
        }
        proof {
            lemma_lookup_absent(e, id@);
        }
        None
    }

    /// Remembers the versions of `id`, in place of any remembered before.
    pub fn remember_versions(&mut self, id: &str, versions: &Vec<Version>)
        ensures
            final(self).versions_of(id@) == Some(versions_view(versions@)),
            forall|k: Seq<char>| k != id@ ==> #[trigger] final(self).versions_of(k) == old(self).versions_of(k),
            forall|k: Seq<char>, v: VersionModel| #[trigger] final(self).package_of(k, v) == old(self).package_of(k, v),
            final(self).names() == old(self).names(),
    {
        proof {
            use_type_invariant(&*self);
        }
        let ghost e = versions_entries(self.versions@);
        let mut entries: Vec<(String, Vec<Version>)> = Vec::new();
        std::mem::swap(&mut entries, &mut self.versions);
        let mut i: usize = 0;
        let mut found = false;
        while i < entries.len() && !found
            invariant
                i <= entries.len(),
                e == versions_entries(entries@),
                !found ==> forall|j: int| 0 <= j < i ==> (#[trigger] e[j]).0 != id@,
                found ==> i < entries.len() && e[i as int].0 == id@,
            decreases entries.len() - i + if found { 0int } else { 1int },
        {
            if text_equals(entries[i].0.as_str(), id) {
                found = true;
            } else {
                i += 1;
            }
        }
        let copy = clone_versions(versions);
        if found {
            entries.set(i, (String::from_str(id), copy));
            proof {
                assert(versions_entries(entries@) =~= e.update(i as int, (e[i as int].0, versions_view(versions@))));
                lemma_lookup_update(e, i as int, versions_view(versions@));
            }
        } else {
            entries.push((String::from_str(id), copy));
            proof {
                lemma_lookup_absent(e, id@);
                assert(versions_entries(entries@) =~= e.push((id@, versions_view(versions@))));
                lemma_lookup_push(e, id@, versions_view(versions@));
            }
        }
        self.versions = entries;
    }

    /// The package remembered for `id` at `version`, if any.
    pub fn cached_package(&self, id: &str, version: &Version) -> (r: Option<Artifact>)
        ensures
            match r {
                Some(a) => self.package_of(id@, version@) == Some(a@),
                None => self.package_of(id@, version@) is None,
            },
    {
        proof {
            use_type_invariant(self);
        }
        let ghost e = package_entries(self.packages@);
        let mut i: usize = 0;
        while i < self.packages.len()
            invariant
                i <= self.packages.len(),
                e == package_entries(self.packages@),
                keys_distinct(e),
                forall|j: int| 0 <= j < i ==> (#[trigger] e[j]).0 != (id@, version@),
            decreases self.packages.len() - i,
        {
            let a = &self.packages[i];
            assert(e[i as int].0 == (a.config.id@, a.config.version@));
            if text_equals(a.config.id.as_str(), id) && a.config.version.equals(version) {
                proof {
                    lemma_lookup_at(e, i as int);
                }
                return Some(a.clone());
            }
            i += 1;
        }
        proof {
            lemma_lookup_absent(e, (id@, version@));
        }
        None
    }

    /// Remembers a package under its own id and version, in place of any remembered before.
    pub fn remember_package(&mut self, artifact: &Artifact)
        ensures
            final(self).package_of(artifact@.config.id, artifact@.config.version) == Some(artifact@),
            forall|k: Seq<char>, v: VersionModel|
                (k, v) != (artifact@.config.id, artifact@.config.version) ==> #[trigger] final(self).package_of(k, v)
                    == old(self).package_of(k, v),
            forall|k: Seq<char>| #[trigger] final(self).versions_of(k) == old(self).versions_of(k),
            final(self).names() == old(self).names(),
    {
        proof {
            use_type_invariant(&*self);
        }
        let ghost key = (artifact@.config.id, artifact@.config.version);
        let ghost e = package_entries(self.packages@);
        let mut entries: Vec<Artifact> = Vec::new();
        std::mem::swap(&mut entries, &mut self.packages);
        let mut i: usize = 0;
        let mut found = false;
        while i < entries.len() && !found
            invariant
                i <= entries.len(),
                e == package_entries(entries@),
                key == (artifact@.config.id, artifact@.config.version),
                !found ==> forall|j: int| 0 <= j < i ==> (#[trigger] e[j]).0 != key,
                found ==> i < entries.len() && e[i as int].0 == key,
            decreases entries.len() - i + if found { 0int } else { 1int },
        {
            let a = &entries[i];
            assert(e[i as int].0 == (a.config.id@, a.config.version@));
            if text_equals(a.config.id.as_str(), artifact.config.id.as_str()) && a.config.version.equals(&artifact.config.version) {
                found = true;
            } else {
                i += 1;
            }
        }
        let copy = artifact.clone();
        if found {
            entries.set(i, copy);
            proof {
                assert(package_entries(entries@) =~= e.update(i as int, (e[i as int].0, artifact@)));
                lemma_lookup_update(e, i as int, artifact@);
            }
        } else {
            entries.push(copy);
            proof {
                lemma_lookup_absent(e, key);
                assert(package_entries(entries@) =~= e.push((key, artifact@)));
                lemma_lookup_push(e, key, artifact@);
            }
        }
        self.packages = entries;
    }

    /// The versions that the repository behind answered for `id`, remembered when it knew the
    /// package.
    pub fn versions_fetched(&mut self, id: &str, fetched: Option<Vec<Version>>) -> (r: Option<Vec<Version>>)
        ensures
            r == fetched,
            fetched matches Some(vs) ==> final(self).versions_of(id@) == Some(versions_view(vs@)),
            fetched is None ==> forall|k: Seq<char>| #[trigger] final(self).versions_of(k) == old(self).versions_of(k),
            forall|k: Seq<char>| k != id@ ==> #[trigger] final(self).versions_of(k) == old(self).versions_of(k),
            forall|k: Seq<char>, v: VersionModel| #[trigger] final(self).package_of(k, v) == old(self).package_of(k, v),
    {
        if let Some(vs) = &fetched {
            self.remember_versions(id, vs);
        }
        fetched
    }

    /// The package that the repository behind answered, remembered under its own id and
    /// version when there was one.
    pub fn package_fetched(&mut self, fetched: Option<Artifact>) -> (r: Option<Artifact>)
        ensures
            r == fetched,
            fetched matches Some(a) ==> final(self).package_of(a@.config.id, a@.config.version) == Some(a@),
            fetched is None ==> forall|k: Seq<char>, v: VersionModel| #[trigger] final(self).package_of(k, v) == old(self).package_of(k, v),
            forall|k: Seq<char>| #[trigger] final(self).versions_of(k) == old(self).versions_of(k),
    {
        if let Some(a) = &fetched {
            self.remember_package(a);
        }
        fetched
    }
}

} // verus!
