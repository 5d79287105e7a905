//! Pre-release and build-metadata identifiers of semantic versions.
//!
//! Their validity and their precedence are those of the `semver` crate, reached through the
//! trusted items below; the grammar of both is stated here.
use vstd::prelude::*;

verus! {

/// An ASCII digit.
pub open spec fn digit(c: char) -> bool {
    '0' <= c && c <= '9'
}

/// The identifier that starts at `i` is a number of two or more digits whose first digit is
/// `0`: every character from `i` up to the next dot (or the end) is a digit.
pub open spec fn leading_zero_at(text: Seq<char>, i: int) -> bool {
    &&& text[i] == '0'
    &&& i == 0 || text[i - 1] == '.'
    &&& i + 1 < text.len() && digit(text[i + 1])
    &&& forall|k: int| i <= k < text.len() && (forall|m: int| i <= m <= k ==> #[trigger] text[m] != '.')
        ==> digit(#[trigger] text[k])
}

/// Whether `semver::Prerelease::new` accepts `text`: valid build metadata in which no numeric
/// identifier has a leading zero.
pub open spec fn prerelease_valid(text: Seq<char>) -> bool {
    &&& build_valid(text)
    &&& forall|i: int| 0 <= i < text.len() ==> !leading_zero_at(text, i)
}

/// A character that may stand in a build-metadata identifier: an ASCII letter, digit or `-`.
pub open spec fn build_char(c: char) -> bool {
    ('a' <= c && c <= 'z') || ('A' <= c && c <= 'Z') || ('0' <= c && c <= '9') || c == '-'
}

/// Whether `semver::BuildMetadata::new` accepts `text`: the empty text, or dot-separated
/// identifiers, none of them empty, made of ASCII letters, digits and `-`.
pub open spec fn build_valid(text: Seq<char>) -> bool {
    text.len() == 0 || {
        &&& forall|i: int| 0 <= i < text.len() ==> build_char(#[trigger] text[i]) || text[i] == '.'
        &&& text[0] != '.'
        &&& text[text.len() - 1] != '.'
        &&& forall|i: int| 0 <= i < text.len() - 1 ==> !(#[trigger] text[i] == '.' && text[i + 1] == '.')
    }
}

/// The precedence of two valid pre-release texts under `semver::Prerelease`'s `Ord`:
/// negative, zero or positive as the first is lower, equal or higher.
pub uninterp spec fn prerelease_rank(a: Seq<char>, b: Seq<char>) -> int;

/// The order of two valid build-metadata texts under `semver::BuildMetadata`'s `Ord`.
pub uninterp spec fn build_rank(a: Seq<char>, b: Seq<char>) -> int;

/// Calls `semver::Prerelease::new` and reports whether it succeeded.
#[verifier::external_body]
pub(crate) fn check_prerelease(text: &str) -> (r: bool)
    ensures
        r == prerelease_valid(text@),
{
    semver::Prerelease::new(text).is_ok()
}

/// Calls `semver::BuildMetadata::new` and reports whether it succeeded.
#[verifier::external_body]
pub(crate) fn check_build(text: &str) -> (r: bool)
    ensures
        r == build_valid(text@),
{
    semver::BuildMetadata::new(text).is_ok()
}

/// The text of `semver::Prerelease::EMPTY`: the empty string, which is a valid pre-release and
/// a valid build metadata (both parsers accept the empty string).
#[verifier::external_body]
pub(crate) fn empty_identifier() -> (r: String)
    ensures
        r@ == Seq::<char>::empty(),
        prerelease_valid(r@),
        build_valid(r@),
{
    semver::Prerelease::EMPTY.as_str().to_string()
}

/// Compares two valid pre-release texts with `semver::Prerelease`'s `Ord` (written by hand in
/// the `semver` crate). The contract states what `Ord` promises of any implementation: a total
/// order, antisymmetric and transitive, whose equality is equality of the texts (the `Eq` of
/// `Prerelease` compares the texts).
#[verifier::external_body]
pub(crate) fn compare_prerelease(a: &str, b: &str) -> (r: i8)
    requires
        prerelease_valid(a@),
        prerelease_valid(b@),
    ensures
        r == prerelease_rank(a@, b@),
        -1 <= r <= 1,
        (r == 0) == (a@ == b@),
        prerelease_rank(b@, a@) == -r,
        r < 0 ==> forall|c: Seq<char>|
            prerelease_valid(c) && #[trigger] prerelease_rank(b@, c) < 0 ==> prerelease_rank(a@, c) < 0,
        r > 0 ==> forall|c: Seq<char>|
            prerelease_valid(c) && #[trigger] prerelease_rank(b@, c) > 0 ==> prerelease_rank(a@, c) > 0,
        r < 0 ==> forall|c: Seq<char>|
            prerelease_valid(c) && #[trigger] prerelease_rank(c, a@) < 0 ==> prerelease_rank(c, b@) < 0,
        r > 0 ==> forall|c: Seq<char>|
            prerelease_valid(c) && #[trigger] prerelease_rank(c, a@) > 0 ==> prerelease_rank(c, b@) > 0,
{
    let x = semver::Prerelease::new(a).unwrap();
    let y = semver::Prerelease::new(b).unwrap();
    match x.cmp(&y) {
        std::cmp::Ordering::Less => -1,
        std::cmp::Ordering::Equal => 0,
        std::cmp::Ordering::Greater => 1,
    }
}

/// Compares two valid build-metadata texts with `semver::BuildMetadata`'s `Ord`, under the
/// same promises as `compare_prerelease`.
#[verifier::external_body]
pub(crate) fn compare_build(a: &str, b: &str) -> (r: i8)
    requires
        build_valid(a@),
        build_valid(b@),
    ensures
        r == build_rank(a@, b@),
        -1 <= r <= 1,
        (r == 0) == (a@ == b@),
        build_rank(b@, a@) == -r,
        r < 0 ==> forall|c: Seq<char>|
            build_valid(c) && #[trigger] build_rank(b@, c) < 0 ==> build_rank(a@, c) < 0,
        r > 0 ==> forall|c: Seq<char>|
            build_valid(c) && #[trigger] build_rank(b@, c) > 0 ==> build_rank(a@, c) > 0,
        r < 0 ==> forall|c: Seq<char>|
            build_valid(c) && #[trigger] build_rank(c, a@) < 0 ==> build_rank(c, b@) < 0,
        r > 0 ==> forall|c: Seq<char>|
            build_valid(c) && #[trigger] build_rank(c, a@) > 0 ==> build_rank(c, b@) > 0,
{
    let x = semver::BuildMetadata::new(a).unwrap();
    let y = semver::BuildMetadata::new(b).unwrap();
    match x.cmp(&y) {
        std::cmp::Ordering::Less => -1,
        std::cmp::Ordering::Equal => 0,
        std::cmp::Ordering::Greater => 1,
    }
}

} // verus!
