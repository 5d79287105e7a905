//! Linking a restore into a workspace: the files of each package in the cache, and which
//! cached file or folder goes where under the workspace's dependencies folder. Paths are
//! `/`-separated texts.
use vstd::prelude::*;
use crate::git::{slash_pieces, split_slashes};
use crate::keyed::{
    keys_distinct, lemma_lookup_absent, lemma_lookup_at, lemma_lookup_has, lemma_lookup_present, lemma_lookup_push,
    lemma_lookup_update, lookup,
};
use crate::package::{Artifact, ArtifactModel, PackageConfig, PackageConfigModel, artifacts_view, by_id};
use crate::text::{text_equals, text_pairs, texts};
use crate::version::{Version, VersionModel, version_text};

verus! {

/// `name` under `base`; an empty name or `.` names `base` itself.
pub open spec fn join_path(base: Seq<char>, name: Seq<char>) -> Seq<char> {
    if name.len() == 0 || name == seq!['.'] {
        base
    } else {
        base + seq!['/'] + name
    }
}

/// `name` under `base`.
pub fn join(base: &str, name: &str) -> (r: String)
    ensures
        r@ == join_path(base@, name@),
{
    let n = name.unicode_len();
    if n == 0 || (n == 1 && name.get_char(0) == '.') {
        proof {
            if n == 1 {
                assert(name@ =~= seq!['.']);
            }
        }
        String::from_str(base)
    } else {
        proof {
            if name@ == seq!['.'] {
                assert(name@[0] == '.');
            }
        }
        let mut s = String::from_str(base);
        s.append("/");
        s.append(name);
        proof {
            reveal_strlit("/");
            assert(s@ =~= base@ + seq!['/'] + name@);
        }
        s
    }
}

/// The last piece of a path: the text after its last `/`.
pub open spec fn file_name(p: Seq<char>) -> Seq<char> {
    slash_pieces(p).last()
}

/// The last piece of a path.
pub fn file_name_of(p: &str) -> (r: String)
    ensures
        r@ == file_name(p@),
{
    let pieces = split_slashes(p);
    proof {
        crate::git::lemma_pieces_nonempty(p@);
    }
    let k = pieces.len() - 1;
    assert(pieces@.map_values(|q: String| q@)[k as int] == pieces@[k as int]@);
    pieces[k].clone()
}

/// Abstract value of the files of a package.
pub ghost struct FilesModel {
    pub headers: Seq<char>,
    pub binaries: Seq<Seq<char>>,
}

/// The files of a package in the cache: its headers folder and its binaries.
pub struct PackageFiles {
    pub headers: String,
    pub binaries: Vec<String>,
}

impl View for PackageFiles {
    type V = FilesModel;

    open spec fn view(&self) -> FilesModel {
        FilesModel { headers: self.headers@, binaries: texts(self.binaries@) }
    }
}

/// The views of a list of package files.
pub open spec fn files_view(fs: Seq<PackageFiles>) -> Seq<FilesModel> {
    fs.map_values(|f: PackageFiles| f@)
}

/// `p` is one of the paths of `existing`.
pub open spec fn listed(existing: Seq<String>, p: Seq<char>) -> bool {
    exists|i: int| 0 <= i < existing.len() && (#[trigger] existing[i])@ == p
}

/// Whether `p` is one of the paths of `existing`.
fn is_listed(existing: &Vec<String>, p: &str) -> (r: bool)
    ensures
        r == listed(existing@, p@),
{
    let mut i: usize = 0;
    while i < existing.len()
        invariant
            i <= existing.len(),
            forall|j: int| 0 <= j < i ==> (#[trigger] existing@[j])@ != p@,
        decreases existing.len() - i,
    {
        if text_equals(existing[i].as_str(), p) {
            return true;
        }
        i += 1;
    }
    false
}

/// Why the files of a package or of a restore cannot be linked.
#[derive(Debug)]
pub enum LinkError {
    /// The package is not in the cache.
    MissingCache,
    /// The package's headers folder is missing.
    MissingSource(String),
    /// This binary is missing.
    MissingBinary(String),
    /// This binary is listed twice.
    DuplicateBinary(String),
    /// These restored dependencies (`id:version`) are not in the cache.
    MissingDependencies(Vec<String>),
    /// The dependencies folder is the workspace itself.
    ExternIsWorkspace,
    /// This headers folder is missing.
    MissingHeaders(String),
    /// Two files would be linked to this path.
    Collision(String),
}

/// The binary at `i` exists and none before it is the same path.
pub open spec fn binary_ok(bs: Seq<Seq<char>>, existing: Seq<String>, i: int) -> bool {
    listed(existing, bs[i]) && forall|j: int| 0 <= j < i ==> bs[j] != bs[i]
}

/// The files of a package in the cache, checked: the package must be in the cache (`cached`),
/// its headers folder must exist, and each of its binaries must exist and be listed once. The
/// first failure, in that order, is the error.
pub fn collect_files_of_package(cached: bool, headers: String, binaries: Vec<String>, existing: &Vec<String>) -> (r: Result<PackageFiles, LinkError>)
    ensures
        r is Ok <==> cached && listed(existing@, headers@) && forall|i: int|
            0 <= i < binaries.len() ==> #[trigger] binary_ok(texts(binaries@), existing@, i),
        r matches Ok(f) ==> f@ == (FilesModel { headers: headers@, binaries: texts(binaries@) }),
        !cached ==> r matches Err(LinkError::MissingCache),
        cached && !listed(existing@, headers@) ==> (r matches Err(LinkError::MissingSource(p)) && p@ == headers@),
        r matches Err(LinkError::MissingBinary(p)) ==> cached && listed(existing@, headers@) && exists|i: int|
            0 <= i < binaries.len() && !listed(existing@, binaries@[i]@) && p@ == binaries@[i]@ && forall|m: int|
                0 <= m < i ==> #[trigger] binary_ok(texts(binaries@), existing@, m),
        r matches Err(LinkError::DuplicateBinary(p)) ==> cached && listed(existing@, headers@) && exists|i: int|
            0 <= i < binaries.len() && listed(existing@, binaries@[i]@) && !binary_ok(texts(binaries@), existing@, i)
                && p@ == binaries@[i]@ && forall|m: int| 0 <= m < i ==> #[trigger] binary_ok(texts(binaries@), existing@, m),
        r matches Err(e) ==> (e matches LinkError::MissingCache || e matches LinkError::MissingSource(_)
            || e matches LinkError::MissingBinary(_) || e matches LinkError::DuplicateBinary(_)),
{
    if !cached {
        return Err(LinkError::MissingCache);
    }
    if !is_listed(existing, headers.as_str()) {
        return Err(LinkError::MissingSource(headers));
    }
    let ghost bs = texts(binaries@);
    assert(bs.len() == binaries.len());
    assert(forall|m: int| 0 <= m < binaries.len() ==> bs[m] == (#[trigger] binaries@[m])@);
    let mut i: usize = 0;
    while i < binaries.len()
        invariant
            i <= binaries.len(),
            bs == texts(binaries@),
            cached,
            listed(existing@, headers@),
            bs.len() == binaries.len(),
            forall|m: int| 0 <= m < binaries.len() ==> bs[m] == (#[trigger] binaries@[m])@,
            forall|m: int| 0 <= m < i ==> #[trigger] binary_ok(bs, existing@, m),
        decreases binaries.len() - i,
    {
        let b = &binaries[i];
        if !is_listed(existing, b.as_str()) {
            assert(!binary_ok(bs, existing@, i as int));
            return Err(LinkError::MissingBinary(b.clone()));
        }
        let mut j: usize = 0;
        while j < i
            invariant
                j <= i,
                i < binaries.len(),
                bs == texts(binaries@),
                cached,
                listed(existing@, headers@),
                bs.len() == binaries.len(),
                forall|m: int| 0 <= m < binaries.len() ==> bs[m] == (#[trigger] binaries@[m])@,
                forall|m: int| 0 <= m < j ==> bs[m] != bs[i as int],
                b@ == bs[i as int],
                listed(existing@, bs[i as int]),
                forall|m: int| 0 <= m < i ==> #[trigger] binary_ok(bs, existing@, m),
            decreases i - j,
        {
            if text_equals(binaries[j].as_str(), b.as_str()) {
                assert(bs[j as int] == bs[i as int]);
                assert(!binary_ok(bs, existing@, i as int));
                return Err(LinkError::DuplicateBinary(b.clone()));
            }
            j += 1;
        }
        assert(binary_ok(bs, existing@, i as int));
        i += 1;
    }
    let files = PackageFiles { headers, binaries };
    assert(files@.binaries == bs);
    Ok(files)
}

/// `id:version` of each restored dependency that is not in the cache, in order.
pub open spec fn missing_names(arts: Seq<ArtifactModel>, cached: Seq<bool>) -> Seq<Seq<char>>
    decreases arts.len(),
{
    if arts.len() == 0 || cached.len() == 0 {
        Seq::empty()
    } else {
        missing_names(arts.drop_last(), cached.drop_last()) + if !cached.last() {
            seq![arts.last().config.id + seq![':'] + version_text(arts.last().config.version)]
        } else {
            Seq::empty()
        }
    }
}

/// Checks a restore before linking it into the workspace at `workspace_dir`: every restored
/// dependency must be in the cache (`cached[i]` tells for the `i`-th), and the dependencies
/// folder must not be the workspace itself. Gives the dependencies folder.
pub fn check_restored(package: &PackageConfig, restored: &Vec<Artifact>, cached: &Vec<bool>, workspace_dir: &str) -> (r: Result<String, LinkError>)
    requires
        cached.len() == restored.len(),
    ensures
        missing_names(artifacts_view(restored@), cached@).len() > 0 ==> (r matches Err(
            LinkError::MissingDependencies(v),
        ) && texts(v@) == missing_names(artifacts_view(restored@), cached@)),
        missing_names(artifacts_view(restored@), cached@).len() == 0 && join_path(
            workspace_dir@,
            package@.dependencies_directory,
        ) == workspace_dir@ ==> r matches Err(LinkError::ExternIsWorkspace),
        missing_names(artifacts_view(restored@), cached@).len() == 0 && join_path(
            workspace_dir@,
            package@.dependencies_directory,
        ) != workspace_dir@ ==> (r matches Ok(e) && e@ == join_path(workspace_dir@, package@.dependencies_directory)),
{
    let ghost arts = artifacts_view(restored@);
    let mut missing: Vec<String> = Vec::new();
    let mut i: usize = 0;
    while i < restored.len()
        invariant
            i <= restored.len(),
            cached.len() == restored.len(),
            arts == artifacts_view(restored@),
            texts(missing@) == missing_names(arts.take(i as int), cached@.take(i as int)),
        decreases restored.len() - i,
    {
        proof {
            assert(arts.take(i + 1).drop_last() =~= arts.take(i as int));
            assert(cached@.take(i + 1).drop_last() =~= cached@.take(i as int));
            assert(arts.take(i + 1).last() == restored@[i as int]@);
        }
        if !cached[i] {
            let a = &restored[i];
            let mut name = a.config.id.clone();
            name.append(":");
            let v = a.config.version.to_text();
            name.append(v.as_str());
            proof {
                reveal_strlit(":");
                assert(name@ =~= a.config.id@ + seq![':'] + version_text(a.config.version@));
            }
            let ghost before = missing@;
            let ghost nv = name@;
            missing.push(name);
            proof {
                assert(texts(missing@) =~= texts(before).push(nv));
            }
        } else {
            proof {
                assert(missing_names(arts.take(i + 1), cached@.take(i + 1)) =~= missing_names(arts.take(i as int), cached@.take(i as int)));
            }
        }
        i += 1;
    }
    assert(arts.take(restored.len() as int) =~= arts);
    assert(cached@.take(restored.len() as int) =~= cached@);
    if missing.len() > 0 {
        return Err(LinkError::MissingDependencies(missing));
    }
    let extern_dir = join(workspace_dir, package.dependencies_directory.as_str());
    if text_equals(extern_dir.as_str(), workspace_dir) {
        return Err(LinkError::ExternIsWorkspace);
    }
    Ok(extern_dir)
}

/// The package depends directly on `id`.
pub open spec fn is_direct(package: PackageConfigModel, id: Seq<char>) -> bool {
    exists|k: int| 0 <= k < package.dependencies.len() && (#[trigger] package.dependencies[k]).id == id
}

/// Whether the package depends directly on `id`.
fn depends_on(package: &PackageConfig, id: &str) -> (r: bool)
    ensures
        r == is_direct(package@, id@),
{
    let found = package.get_dependency(id);
    proof {
        let e = by_id(package@.dependencies);
        if found is Some {
            lemma_lookup_present(e, id@);
            let k = choose|k: int| 0 <= k < e.len() && e[k].0 == id@ && e[k].1 == lookup(e, id@)->0;
            assert(package@.dependencies[k].id == id@);
        } else {
            if is_direct(package@, id@) {
                let k = choose|k: int| 0 <= k < package@.dependencies.len() && (#[trigger] package@.dependencies[k]).id == id@;
                assert(e[k].0 == id@);
                lemma_lookup_has(e, k);
            }
        }
    }
    found.is_some()
}

/// The binaries of the direct dependencies, in order, each with where it goes: under `libs`
/// by its file name.
pub open spec fn binary_links(package: PackageConfigModel, ids: Seq<Seq<char>>, files: Seq<FilesModel>, libs: Seq<char>) -> Seq<(Seq<char>, Seq<char>)>
    decreases ids.len(),
{
    if ids.len() == 0 || files.len() == 0 {
        Seq::empty()
    } else {
        binary_links(package, ids.drop_last(), files.drop_last(), libs) + if is_direct(package, ids.last()) {
            files.last().binaries.map_values(|b: Seq<char>| (b, join_path(libs, file_name(b))))
        } else {
            Seq::empty()
        }
    }
}

/// The headers folders of the dependencies that are direct (with `direct`) or not (without),
/// in order, each with where it goes: under `includes` by the dependency's id.
pub open spec fn header_links(package: PackageConfigModel, ids: Seq<Seq<char>>, files: Seq<FilesModel>, includes: Seq<char>, direct: bool) -> Seq<(Seq<char>, Seq<char>)>
    decreases ids.len(),
{
    if ids.len() == 0 || files.len() == 0 {
        Seq::empty()
    } else {
        header_links(package, ids.drop_last(), files.drop_last(), includes, direct) + if is_direct(package, ids.last()) == direct {
            seq![(files.last().headers, join_path(includes, ids.last()))]
        } else {
            Seq::empty()
        }
    }
}

/// Every link of a restore, in the order they are made: the binaries of the direct
/// dependencies, then the headers of the direct dependencies, then those of the others.
pub open spec fn link_inserts(package: PackageConfigModel, ids: Seq<Seq<char>>, files: Seq<FilesModel>, extern_dir: Seq<char>) -> Seq<(Seq<char>, Seq<char>)> {
    binary_links(package, ids, files, join_path(extern_dir, "libs"@)) + header_links(
        package,
        ids,
        files,
        join_path(extern_dir, "includes"@),
        true,
    ) + header_links(package, ids, files, join_path(extern_dir, "includes"@), false)
}

/// The destination last given to `k` among the links.
pub open spec fn last_value(s: Seq<(Seq<char>, Seq<char>)>, k: Seq<char>) -> Option<Seq<char>>
    decreases s.len(),
{
    if s.len() == 0 {
        None
    } else if s.last().0 == k {
        Some(s.last().1)
    } else {
        last_value(s.drop_last(), k)
    }
}

/// The link at `i` is the first whose source does not exist.
pub open spec fn first_unlisted(links: Seq<(Seq<char>, Seq<char>)>, existing: Seq<String>, i: int) -> bool {
    &&& 0 <= i < links.len()
    &&& !listed(existing, links[i].0)
    &&& forall|j: int| 0 <= j < i ==> listed(existing, #[trigger] links[j].0)
}

/// Two sources are linked to the same destination `d`.
pub open spec fn collides(links: Seq<(Seq<char>, Seq<char>)>, d: Seq<char>) -> bool {
    exists|s1: Seq<char>, s2: Seq<char>|
        s1 != s2 && #[trigger] last_value(links, s1) == Some(d) && #[trigger] last_value(links, s2) == Some(d)
}

/// Appends the links of the binaries of `files` (the files of a direct dependency).
fn push_binary_links(out: &mut Vec<(String, String)>, f: &PackageFiles, libs: &str)
    ensures
        text_pairs(final(out)@) == text_pairs(old(out)@) + f@.binaries.map_values(
            |b: Seq<char>| (b, join_path(libs@, file_name(b))),
        ),
{
    let ghost start = text_pairs(out@);
    let ghost bs = f@.binaries;
    let mut j: usize = 0;
    while j < f.binaries.len()
        invariant
            j <= f.binaries.len(),
            bs == texts(f.binaries@),
            text_pairs(out@) == start + bs.take(j as int).map_values(|b: Seq<char>| (b, join_path(libs@, file_name(b)))),
        decreases f.binaries.len() - j,
    {
        let b = &f.binaries[j];
        let dst = join(libs, file_name_of(b.as_str()).as_str());
        let ghost before = text_pairs(out@);
        out.push((b.clone(), dst));
        proof {
            assert(bs[j as int] == b@);
            assert(bs.take(j + 1).map_values(|b: Seq<char>| (b, join_path(libs@, file_name(b)))) =~= bs.take(j as int).map_values(
                |b: Seq<char>| (b, join_path(libs@, file_name(b))),
            ).push((b@, join_path(libs@, file_name(b@)))));
            assert(text_pairs(out@) =~= before.push((b@, join_path(libs@, file_name(b@)))));
        }
        j += 1;
    }
    assert(bs.take(f.binaries.len() as int) =~= bs);
}

/// Where each cached file or folder of a restore goes under the dependencies folder
/// `extern_dir`: the binaries of the direct dependencies into `libs` by file name, the headers
/// of every dependency into `includes` by id (`ids[i]` and `files[i]` belong to the `i`-th
/// restored dependency). A source linked twice keeps its last destination. Every source must
/// exist (be listed in `existing`; the first that is not is the error), and no two sources may
/// go to the same place.
pub fn link_plan(package: &PackageConfig, ids: &Vec<String>, files: &Vec<PackageFiles>, extern_dir: &str, existing: &Vec<String>) -> (r: Result<Vec<(String, String)>, LinkError>)
    requires
        ids.len() == files.len(),
    ensures
        r matches Err(LinkError::MissingBinary(b)) ==> exists|i: int|
            first_unlisted(link_inserts(package@, texts(ids@), files_view(files@), extern_dir@), existing@, i)
                && i < binary_links(package@, texts(ids@), files_view(files@), join_path(extern_dir@, "libs"@)).len()
                && b@ == link_inserts(package@, texts(ids@), files_view(files@), extern_dir@)[i].0,
        r matches Err(LinkError::MissingHeaders(h)) ==> exists|i: int|
            first_unlisted(link_inserts(package@, texts(ids@), files_view(files@), extern_dir@), existing@, i)
                && i >= binary_links(package@, texts(ids@), files_view(files@), join_path(extern_dir@, "libs"@)).len()
                && h@ == link_inserts(package@, texts(ids@), files_view(files@), extern_dir@)[i].0,
        (r matches Err(LinkError::MissingBinary(_)) || r matches Err(LinkError::MissingHeaders(_)))
            <==> exists|i: int| first_unlisted(link_inserts(package@, texts(ids@), files_view(files@), extern_dir@), existing@, i),
        r matches Err(LinkError::Collision(d)) ==> collides(link_inserts(package@, texts(ids@), files_view(files@), extern_dir@), d@),
        r is Ok <==> (forall|i: int|
            0 <= i < link_inserts(package@, texts(ids@), files_view(files@), extern_dir@).len() ==> listed(
                existing@,
                #[trigger] link_inserts(package@, texts(ids@), files_view(files@), extern_dir@)[i].0,
            )) && forall|d: Seq<char>| !collides(link_inserts(package@, texts(ids@), files_view(files@), extern_dir@), d),
        r matches Ok(m) ==> keys_distinct(text_pairs(m@)) && forall|k: Seq<char>|
            #[trigger] lookup(text_pairs(m@), k) == last_value(link_inserts(package@, texts(ids@), files_view(files@), extern_dir@), k),
        r matches Err(e) ==> (e matches LinkError::MissingBinary(_) || e matches LinkError::MissingHeaders(_)
            || e matches LinkError::Collision(_)),
{
    let libs = join(extern_dir, "libs");
    let includes = join(extern_dir, "includes");
    let ghost ids_v = texts(ids@);
    let ghost files_v = files_view(files@);
    let ghost pk = package@;
    // the binaries of the direct dependencies
    let mut ins: Vec<(String, String)> = Vec::new();
    let mut i: usize = 0;
    while i < ids.len()
        invariant
            i <= ids.len(),
            ids.len() == files.len(),
            ids_v == texts(ids@),
            files_v == files_view(files@),
            pk == package@,
            text_pairs(ins@) == binary_links(pk, ids_v.take(i as int), files_v.take(i as int), libs@),
        decreases ids.len() - i,
    {
        proof {
            assert(ids_v.take(i + 1).drop_last() =~= ids_v.take(i as int));
            assert(files_v.take(i + 1).drop_last() =~= files_v.take(i as int));
            assert(ids_v.take(i + 1).last() == ids@[i as int]@);
            assert(files_v.take(i + 1).last() == files@[i as int]@);
        }
        if depends_on(package, ids[i].as_str()) {
            push_binary_links(&mut ins, &files[i], libs.as_str());
        } else {
            proof {
                assert(text_pairs(ins@) =~= binary_links(pk, ids_v.take(i + 1), files_v.take(i + 1), libs@));
            }
        }
        i += 1;
    }
    proof {
        assert(ids_v.take(ids.len() as int) =~= ids_v);
        assert(files_v.take(ids.len() as int) =~= files_v);
    }
    let binary_count = ins.len();
    let ghost bl = text_pairs(ins@);
    // the headers, direct dependencies first
    let mut pass: usize = 0;
    while pass < 2
        invariant
            pass <= 2,
            ids.len() == files.len(),
            ids_v == texts(ids@),
            files_v == files_view(files@),
            pk == package@,
            binary_count == bl.len(),
            bl == binary_links(pk, ids_v, files_v, libs@),
            pass == 0 ==> text_pairs(ins@) == bl,
            pass == 1 ==> text_pairs(ins@) == bl + header_links(pk, ids_v, files_v, includes@, true),
            pass == 2 ==> text_pairs(ins@) == bl + header_links(pk, ids_v, files_v, includes@, true)
                + header_links(pk, ids_v, files_v, includes@, false),
        decreases 2 - pass,
    {
        let want_direct = pass == 0;
        let ghost start = text_pairs(ins@);
        let mut k: usize = 0;
        while k < ids.len()
            invariant
                k <= ids.len(),
                ids.len() == files.len(),
                ids_v == texts(ids@),
                files_v == files_view(files@),
                pk == package@,
                text_pairs(ins@) == start + header_links(pk, ids_v.take(k as int), files_v.take(k as int), includes@, want_direct),
            decreases ids.len() - k,
        {
            proof {
                assert(ids_v.take(k + 1).drop_last() =~= ids_v.take(k as int));
                assert(files_v.take(k + 1).drop_last() =~= files_v.take(k as int));
                assert(ids_v.take(k + 1).last() == ids@[k as int]@);
                assert(files_v.take(k + 1).last() == files@[k as int]@);
            }
            let ghost before = text_pairs(ins@);
            if depends_on(package, ids[k].as_str()) == want_direct {
                let dst = join(includes.as_str(), ids[k].as_str());
                ins.push((files[k].headers.clone(), dst));
                proof {
                    assert(text_pairs(ins@) =~= before.push((files@[k as int].headers@, join_path(includes@, ids@[k as int]@))));
                }
            }
            assert(text_pairs(ins@) =~= start + header_links(pk, ids_v.take(k + 1), files_v.take(k + 1), includes@, want_direct));
            k += 1;
        }
        proof {
            assert(ids_v.take(ids.len() as int) =~= ids_v);
            assert(files_v.take(ids.len() as int) =~= files_v);
        }
        pass += 1;
    }
    let ghost all = text_pairs(ins@);
    assert(all == link_inserts(pk, ids_v, files_v, extern_dir@));
    // every source must exist
    let mut n: usize = 0;
    while n < ins.len()
        invariant
            n <= ins.len(),
            all == text_pairs(ins@),
            all == link_inserts(package@, texts(ids@), files_view(files@), extern_dir@),
            binary_count == binary_links(package@, texts(ids@), files_view(files@), join_path(extern_dir@, "libs"@)).len(),
            forall|j: int| 0 <= j < n ==> listed(existing@, #[trigger] all[j].0),
        decreases ins.len() - n,
    {
        if !is_listed(existing, ins[n].0.as_str()) {
            assert(first_unlisted(all, existing@, n as int));
            if n < binary_count {
                return Err(LinkError::MissingBinary(ins[n].0.clone()));
            } else {
                return Err(LinkError::MissingHeaders(ins[n].0.clone()));
            }
        }
        n += 1;
    }
    assert forall|i: int| !first_unlisted(all, existing@, i) by {}
    // a source linked twice keeps its last destination
    let mut map: Vec<(String, String)> = Vec::new();
    let mut q: usize = 0;
    while q < ins.len()
        invariant
            q <= ins.len(),
            all == text_pairs(ins@),
            all == link_inserts(package@, texts(ids@), files_view(files@), extern_dir@),
            forall|j: int| 0 <= j < all.len() ==> listed(existing@, #[trigger] all[j].0),
            keys_distinct(text_pairs(map@)),
            forall|k: Seq<char>| #[trigger] lookup(text_pairs(map@), k) == last_value(all.take(q as int), k),
        decreases ins.len() - q,
    {
        let src = &ins[q].0;
        let dst = &ins[q].1;
        proof {
            assert(all.take(q + 1).drop_last() =~= all.take(q as int));
            assert(all.take(q + 1).last() == (src@, dst@));
        }
        let ghost before = text_pairs(map@);
        let mut p: usize = 0;
        let mut found = false;
        while p < map.len() && !found
            invariant
                p <= map.len(),
                before == text_pairs(map@),
                !found ==> forall|t: int| 0 <= t < p ==> (#[trigger] before[t]).0 != src@,
                found ==> p < map.len() && before[p as int].0 == src@,
            decreases map.len() - p + if found { 0int } else { 1int },
        {
            if text_equals(map[p].0.as_str(), src.as_str()) {
                found = true;
            } else {
                p += 1;
            }
        }
        if found {
            map.set(p, (src.clone(), dst.clone()));
            proof {
                assert(text_pairs(map@) =~= before.update(p as int, (before[p as int].0, dst@)));
                lemma_lookup_update(before, p as int, dst@);
            }
        } else {
            map.push((src.clone(), dst.clone()));
            proof {
                lemma_lookup_absent(before, src@);
                assert(text_pairs(map@) =~= before.push((src@, dst@)));
                lemma_lookup_push(before, src@, dst@);
            }
        }
        q += 1;
    }
    assert(all.take(ins.len() as int) =~= all);
    let ghost mv = text_pairs(map@);
    // no two sources may go to the same place
    let mut a: usize = 0;
    while a < map.len()
        invariant
            a <= map.len(),
            mv == text_pairs(map@),
            all == link_inserts(package@, texts(ids@), files_view(files@), extern_dir@),
            forall|j: int| 0 <= j < all.len() ==> listed(existing@, #[trigger] all[j].0),
            keys_distinct(mv),
            forall|k: Seq<char>| #[trigger] lookup(mv, k) == last_value(all, k),
            forall|x: int, y: int| 0 <= x < a && x < y < mv.len() ==> (#[trigger] mv[x]).1 != (#[trigger] mv[y]).1,
        decreases map.len() - a,
    {
        let mut b: usize = a + 1;
        while b < map.len()
            invariant
                a < map.len(),
                a + 1 <= b <= map.len(),
                mv == text_pairs(map@),
                all == link_inserts(package@, texts(ids@), files_view(files@), extern_dir@),
                forall|j: int| 0 <= j < all.len() ==> listed(existing@, #[trigger] all[j].0),
                keys_distinct(mv),
                forall|k: Seq<char>| #[trigger] lookup(mv, k) == last_value(all, k),
                forall|x: int, y: int| 0 <= x < a && x < y < mv.len() ==> (#[trigger] mv[x]).1 != (#[trigger] mv[y]).1,
                forall|y: int| a < y < b ==> mv[a as int].1 != (#[trigger] mv[y]).1,
            decreases map.len() - b,
        {
            if text_equals(map[a].1.as_str(), map[b].1.as_str()) {
                proof {
                    lemma_lookup_at(mv, a as int);
                    lemma_lookup_at(mv, b as int);
                    assert(last_value(all, mv[a as int].0) == Some(mv[a as int].1));
                    assert(last_value(all, mv[b as int].0) == Some(mv[b as int].1));
                    assert(collides(all, map[a as int].1@));
                }
                return Err(LinkError::Collision(map[a].1.clone()));
            }
            b += 1;
        }
        a += 1;
    }
    proof {
        assert forall|d: Seq<char>| !collides(all, d) by {
            if collides(all, d) {
                let (s1, s2) = choose|s1: Seq<char>, s2: Seq<char>|
                    s1 != s2 && #[trigger] last_value(all, s1) == Some(d) && #[trigger] last_value(all, s2) == Some(d);
                assert(lookup(mv, s1) == Some(d));
                assert(lookup(mv, s2) == Some(d));
                lemma_lookup_present(mv, s1);
                lemma_lookup_present(mv, s2);
                let x = choose|x: int| 0 <= x < mv.len() && mv[x].0 == s1 && mv[x].1 == lookup(mv, s1)->0;
                let y = choose|y: int| 0 <= y < mv.len() && mv[y].0 == s2 && mv[y].1 == lookup(mv, s2)->0;
                if x < y {
                    assert(mv[x].1 != mv[y].1);
                } else {
                    assert(mv[y].1 != mv[x].1);
                }
            }
        }
    }
    Ok(map)
}

/// The folder of a package version in the cache: `{root}/{id}/{version}`.
pub open spec fn package_base(root: Seq<char>, id: Seq<char>, version: VersionModel) -> Seq<char> {
    join_path(join_path(root, id), version_text(version))
}

/// The folder of a package version in the cache.
pub fn package_base_path(root: &str, id: &str, version: &Version) -> (r: String)
    ensures
        r@ == package_base(root@, id@, version@),
{
    let dir = join(root, id);
    let v = version.to_text();
    join(dir.as_str(), v.as_str())
}

/// The headers folder of a package version in the cache: `src` under its folder.
pub fn package_src_path(root: &str, id: &str, version: &Version) -> (r: String)
    ensures
        r@ == join_path(package_base(root@, id@, version@), "src"@),
{
    let base = package_base_path(root, id, version);
    join(base.as_str(), "src")
}

/// The binaries folder of a package version in the cache: `lib` under its folder.
pub fn package_binaries_path(root: &str, id: &str, version: &Version) -> (r: String)
    ensures
        r@ == join_path(package_base(root@, id@, version@), "lib"@),
{
    let base = package_base_path(root, id, version);
    join(base.as_str(), "lib")
}

/// Where a binary of a package version is in the cache: its file name under the binaries
/// folder.
pub fn package_binary_path(root: &str, id: &str, version: &Version, binary: &str) -> (r: String)
    ensures
        r@ == join_path(join_path(package_base(root@, id@, version@), "lib"@), file_name(binary@)),
{
    let lib = package_binaries_path(root, id, version);
    let name = file_name_of(binary);
    join(lib.as_str(), name.as_str())
}

/// What installing a QPKG does with the package's folder in the cache.
#[derive(Clone, Copy, Debug, PartialEq, Eq, Structural)]
pub enum InstallStep {
    /// The folder is not there: create it.
    Create,
    /// The folder is there and overwriting was asked for: delete it first.
    Replace,
    /// The folder is there and overwriting was not asked for: fail.
    Refuse,
}

/// The step for a package folder that `exists` or not, when overwriting is `overwrite_existing`.
pub fn install_step(exists: bool, overwrite_existing: bool) -> (r: InstallStep)
    ensures
        !exists ==> r == InstallStep::Create,
        exists && overwrite_existing ==> r == InstallStep::Replace,
        exists && !overwrite_existing ==> r == InstallStep::Refuse,
{
    if !exists {
        InstallStep::Create
    } else if overwrite_existing {
        InstallStep::Replace
    } else {
        InstallStep::Refuse
    }
}

/// The first of a package's out binaries that its installed binaries folder lacks
/// (`present[i]`: whether the i-th is there); `None` when all are there.
pub fn first_missing_binary(present: &Vec<bool>) -> (r: Option<usize>)
    ensures
        r is None <==> forall|i: int| 0 <= i < present.len() ==> present@[i],
        r matches Some(i) ==> i < present.len() && !present@[i as int] && forall|j: int| 0 <= j < i ==> present@[j],
{
    let mut i: usize = 0;
    while i < present.len()
        invariant
            i <= present.len(),
            forall|j: int| 0 <= j < i ==> present@[j],
        decreases present.len() - i,
    {
        if !present[i] {
            return Some(i);
        }
        i += 1;
    }
    None
}

} // verus!
