//! What publishing a package checks: that its dependencies were restored in versions that
//! their ranges accept and that the repository still has, and the checksum of its archive.
use vstd::prelude::*;
use crate::keyed::{lemma_lookup_absent, lemma_lookup_first, lookup};
use crate::package::{
    DependencyModel, PackageConfig, SharedDependencyModel, SharedPackageConfig, dependencies_view, restored_view,
};
use crate::ranges::requirement_matches;
use crate::text::text_equals;

verus! {

/// What `sha2::Sha256::digest` returns for `data`.
pub uninterp spec fn sha256_digest(data: Seq<u8>) -> Seq<u8>;

/// The lowercase hexadecimal digit of `n` (below 16).
pub open spec fn hex_digit(n: nat) -> char {
    if n < 10 {
        ('0' as nat + n) as char
    } else {
        ('a' as nat + (n - 10)) as char
    }
}

/// Each byte as two lowercase hexadecimal digits, the high half first.
pub open spec fn hex_text(bytes: Seq<u8>) -> Seq<char>
    decreases bytes.len(),
{
    if bytes.len() == 0 {
        Seq::empty()
    } else {
        hex_text(bytes.drop_last()) + seq![hex_digit(bytes.last() as nat / 16), hex_digit(bytes.last() as nat % 16)]
    }
}

proof fn lemma_hex_len(bytes: Seq<u8>)
    ensures
        hex_text(bytes).len() == 2 * bytes.len(),
    decreases bytes.len(),
{
    if bytes.len() > 0 {
        lemma_hex_len(bytes.drop_last());
    }
}

/// Calls `sha2::Sha256::digest`: the SHA-256 digest of `data`, 32 bytes long (the output size
/// of `Sha256`).
#[verifier::external_body]
fn sha256(data: &[u8]) -> (r: Vec<u8>)
    ensures
        r@ == sha256_digest(data@),
        r@.len() == 32,
{
    <sha2::Sha256 as sha2::Digest>::digest(data).to_vec()
}

/// Calls `hex::encode`: each byte as two lowercase hexadecimal digits, high half first.
#[verifier::external_body]
fn hex_encode(data: &[u8]) -> (r: String)
    ensures
        r@ == hex_text(data@),
{
    hex::encode(data)
}

/// The checksum recorded for a QPKG archive: its SHA-256 digest in lowercase hexadecimal.
pub fn qpkg_checksum(data: &[u8]) -> (r: String)
    ensures
        r@ == hex_text(sha256_digest(data@)),
        r@.len() == 64,
{
    let digest = sha256(data);
    let r = hex_encode(digest.as_slice());
    proof {
        lemma_hex_len(digest@);
    }
    r
}

/// A character with ASCII upper case turned to lower case.
pub open spec fn ascii_lower(c: char) -> char {
    if 'A' <= c <= 'Z' {
        ((c as u32) + 32) as char
    } else {
        c
    }
}

/// The texts are equal up to ASCII case (as `str::eq_ignore_ascii_case` compares them).
pub open spec fn same_ignoring_ascii_case(a: Seq<char>, b: Seq<char>) -> bool {
    a.len() == b.len() && forall|i: int| 0 <= i < a.len() ==> ascii_lower(#[trigger] a[i]) == ascii_lower(b[i])
}

/// The code of a character with ASCII upper case turned to lower case.
fn lower_code(c: char) -> (r: u32)
    ensures
        r == ascii_lower(c) as u32,
{
    if 'A' <= c && c <= 'Z' {
        (c as u32) + 32
    } else {
        c as u32
    }
}

/// Whether the checksum of a downloaded archive is the expected one, ignoring ASCII case.
pub fn checksum_matches(data: &[u8], expected: &str) -> (r: bool)
    ensures
        r == same_ignoring_ascii_case(hex_text(sha256_digest(data@)), expected@),
{
    let actual = qpkg_checksum(data);
    let n = actual.unicode_len();
    if n != expected.unicode_len() {
        return false;
    }
    let mut i: usize = 0;
    while i < n
        invariant
            n == actual@.len(),
            n == expected@.len(),
            actual@ == hex_text(sha256_digest(data@)),
            i <= n,
            forall|j: int| 0 <= j < i ==> ascii_lower(#[trigger] actual@[j]) == ascii_lower(expected@[j]),
        decreases n - i,
    {
        let a = actual.as_str().get_char(i);
        let b = expected.get_char(i);
        if lower_code(a) != lower_code(b) {
            assert(ascii_lower(actual@[i as int]) != ascii_lower(expected@[i as int]));
            return false;
        }
        i += 1;
    }
    true
}

/// Why a package cannot be published, with the id of the dependency concerned.
#[derive(Debug)]
pub enum PublishError {
    /// The repository does not have the restored version of this dependency.
    Unavailable(String),
    /// The package depends on this id, but no version of it was restored.
    NotRestored(String),
    /// The restored version of this dependency is outside the range the package states.
    OutOfRange(String),
}

/// The dependency `d` was restored in a version that its range accepts.
pub open spec fn dependency_satisfied(restored: Seq<(Seq<char>, SharedDependencyModel)>, d: DependencyModel) -> bool {
    match lookup(restored, d.id) {
        Some(info) => requirement_matches(d.range_text, info.restored_version),
        None => false,
    }
}

/// Checks a package before publishing: every restored dependency must still be available
/// (`available[i]` tells whether the repository has the `i`-th restored dependency in its
/// restored version), and every dependency of the package must have been restored in a version
/// that its range accepts. The first failure, in that order, is the error.
pub fn check_dependencies(package: &PackageConfig, shared_package: &SharedPackageConfig, available: &Vec<bool>) -> (r: Result<(), PublishError>)
    requires
        available.len() == shared_package.restored_dependencies.len(),
    ensures
        r is Ok <==> (forall|i: int| 0 <= i < available.len() ==> available@[i]) && forall|k: int|
            0 <= k < package@.dependencies.len() ==> dependency_satisfied(
                restored_view(shared_package.restored_dependencies@),
                #[trigger] package@.dependencies[k],
            ),
        r matches Err(PublishError::Unavailable(id)) ==> exists|i: int|
            0 <= i < available.len() && !available@[i] && shared_package.restored_dependencies@[i].0@ == id@
                && forall|j: int| 0 <= j < i ==> #[trigger] available@[j],
        r matches Err(PublishError::NotRestored(id)) ==> (forall|i: int| 0 <= i < available.len() ==> available@[i])
            && lookup(restored_view(shared_package.restored_dependencies@), id@) is None && exists|k: int|
            0 <= k < package@.dependencies.len() && package@.dependencies[k].id == id@ && forall|m: int|
                0 <= m < k ==> dependency_satisfied(
                    restored_view(shared_package.restored_dependencies@),
                    #[trigger] package@.dependencies[m],
                ),
        r matches Err(PublishError::OutOfRange(id)) ==> (forall|i: int| 0 <= i < available.len() ==> available@[i])
            && exists|k: int|
            0 <= k < package@.dependencies.len() && package@.dependencies[k].id == id@ && lookup(
                restored_view(shared_package.restored_dependencies@),
                id@,
            ) is Some && !dependency_satisfied(restored_view(shared_package.restored_dependencies@), package@.dependencies[k])
                && forall|m: int|
                0 <= m < k ==> dependency_satisfied(
                    restored_view(shared_package.restored_dependencies@),
                    #[trigger] package@.dependencies[m],
                ),
{
    let restored = &shared_package.restored_dependencies;
    let ghost rv = restored_view(restored@);
    let mut i: usize = 0;
    while i < available.len()
        invariant
            i <= available.len(),
            available.len() == restored.len(),
            restored@ == shared_package.restored_dependencies@,
            forall|j: int| 0 <= j < i ==> #[trigger] available@[j],
        decreases available.len() - i,
    {
        if !available[i] {
            assert(!available@[i as int] && shared_package.restored_dependencies@[i as int].0@ == restored[i as int].0@);
            return Err(PublishError::Unavailable(restored[i].0.clone()));
        }
        i += 1;
    }
    let deps = &package.dependencies;
    let mut k: usize = 0;
    while k < deps.len()
        invariant
            k <= deps.len(),
            rv == restored_view(restored@),
            rv == restored_view(shared_package.restored_dependencies@),
            package@.dependencies == dependencies_view(deps@),
            forall|j: int| 0 <= j < available.len() ==> #[trigger] available@[j],
            forall|m: int| 0 <= m < k ==> dependency_satisfied(rv, #[trigger] package@.dependencies[m]),
        decreases deps.len() - k,
    {
        let d = &deps[k];
        assert(package@.dependencies[k as int] == d@);
        let mut found: Option<usize> = None;
        let mut n: usize = 0;
        while n < restored.len() && found.is_none()
            invariant
                n <= restored.len(),
                rv == restored_view(restored@),
                found.is_none() ==> forall|q: int| 0 <= q < n ==> (#[trigger] rv[q]).0 != d@.id,
                found matches Some(p) ==> p < restored.len() && rv[p as int].0 == d@.id && forall|q: int|
                    0 <= q < p ==> (#[trigger] rv[q]).0 != d@.id,
            decreases restored.len() - n + if found.is_none() { 1int } else { 0int },
        {
            if text_equals(restored[n].0.as_str(), d.id.as_str()) {
                found = Some(n);
            } else {
                n += 1;
            }
        }
        match found {
            None => {
                proof {
                    lemma_lookup_absent(rv, d@.id);
                }
                return Err(PublishError::NotRestored(d.id.clone()));
            },
            Some(p) => {
                proof {
                    lemma_lookup_first(rv, p as int);
                }
                let info = &restored[p].1;
                if !d.version_range.matches(&info.restored_version) {
                    return Err(PublishError::OutOfRange(d.id.clone()));
                }
            },
        }
        k += 1;
    }
    Ok(())
}

} // verus!
