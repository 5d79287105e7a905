//! Properties that hold for every input: of requirements, of the resolver's choices and what a
//! restore records, of the CMake files, of config comparison and of on/off switches.
use vstd::prelude::*;
use crate::cmake::{
    codegen_id, defines_footer, defines_text, compile_options_text, dependency_text, extern_text, extra_file_text, lemma_compile_options_in_dependency,
    lemma_dependencies_text_has, lemma_extern_text_has, lemma_extra_files_in_dependency, lemma_extra_files_text_has,
    lemma_opt_lines_has, opt_lines, ExternDependency,
};
use crate::android::{is_listed, last_with_text, last_with_version, path_version_text, RemotePackage};
use crate::ranges::{comparator_admits, ComparatorModel, Op};
use crate::package::{find_dependency, same_config, ArtifactModel, PackageConfigModel};
use crate::keyed::lookup;
use crate::resolver::{first_flagged, flagged_count, shared_entries};
use crate::git::{occurs, replaced};
use crate::text::{has_infix, lemma_infix_between, lemma_infix_widen};
use crate::toggle::Toggle;
use crate::version::{parsed_version, version_lt, Version, VersionModel, VersionWrapper};
use crate::versions::{above, descending, versions_view};

verus! {

/// A comparator with the given parts.
pub open spec fn comparator(op: Op, major: u64, minor: Option<u64>, patch: Option<u64>, pre: Seq<char>) -> ComparatorModel {
    ComparatorModel { op, major, minor, patch, pre }
}

/// Below 1.0.0 a caret only allows patch bumps: for a non-zero minor, `^0.y.z-pre` admits
/// exactly what `>=0.y.z-pre` and `<0.(y+1).0` admit together.
pub proof fn law_caret_zero_major_is_minor_bounded(y: u64, z: u64, pre: Seq<char>, v: VersionModel)
    requires
        y != 0,
        y < u64::MAX,
    ensures
        comparator_admits(comparator(Op::Caret, 0, Some(y), Some(z), pre), v) <==> comparator_admits(
            comparator(Op::GreaterEq, 0, Some(y), Some(z), pre),
            v,
        ) && comparator_admits(comparator(Op::Less, 0, Some((y + 1) as u64), Some(0), Seq::empty()), v),
{
}

/// Below 1.0.0 a caret without a patch number only allows patch bumps as well: for a non-zero
/// minor, `^0.y` admits exactly what `>=0.y.0` and `<0.(y+1).0` admit together.
pub proof fn law_caret_zero_major_without_patch_is_minor_bounded(y: u64, v: VersionModel)
    requires
        y != 0,
        y < u64::MAX,
    ensures
        comparator_admits(comparator(Op::Caret, 0, Some(y), None, Seq::empty()), v) <==> comparator_admits(
            comparator(Op::GreaterEq, 0, Some(y), Some(0), Seq::empty()),
            v,
        ) && comparator_admits(comparator(Op::Less, 0, Some((y + 1) as u64), Some(0), Seq::empty()), v),
{
}

/// Below 0.1.0 a caret is exact: `^0.0.z-pre` admits exactly what `=0.0.z-pre` admits.
pub proof fn law_caret_zero_zero_is_exact(z: u64, pre: Seq<char>, v: VersionModel)
    ensures
        comparator_admits(comparator(Op::Caret, 0, Some(0), Some(z), pre), v) <==> comparator_admits(
            comparator(Op::Exact, 0, Some(0), Some(z), pre),
            v,
        ),
{
}

/// From 1.0.0 on, `^x.y.z-pre` admits what `>=x.y.z-pre` and `<(x+1).0.0` admit together.
pub proof fn law_caret_is_major_bounded(x: u64, y: u64, z: u64, pre: Seq<char>, v: VersionModel)
    requires
        x != 0,
        x < u64::MAX,
    ensures
        comparator_admits(comparator(Op::Caret, x, Some(y), Some(z), pre), v) <==> comparator_admits(
            comparator(Op::GreaterEq, x, Some(y), Some(z), pre),
            v,
        ) && comparator_admits(comparator(Op::Less, (x + 1) as u64, Some(0), Some(0), Seq::empty()), v),
{
}

/// `~x.y.z-pre` admits what `>=x.y.z-pre` and `<x.(y+1).0` admit together.
pub proof fn law_tilde_is_minor_bounded(x: u64, y: u64, z: u64, pre: Seq<char>, v: VersionModel)
    requires
        y < u64::MAX,
    ensures
        comparator_admits(comparator(Op::Tilde, x, Some(y), Some(z), pre), v) <==> comparator_admits(
            comparator(Op::GreaterEq, x, Some(y), Some(z), pre),
            v,
        ) && comparator_admits(comparator(Op::Less, x, Some((y + 1) as u64), Some(0), Seq::empty()), v),
{
}

/// A wildcard `x.y.*` admits what the partial exact requirement `=x.y` admits.
pub proof fn law_wildcard_is_partial_exact(x: u64, y: u64, patch: Option<u64>, pre: Seq<char>, v: VersionModel)
    ensures
        comparator_admits(comparator(Op::Wildcard, x, Some(y), patch, pre), v) <==> comparator_admits(
            comparator(Op::Exact, x, Some(y), None, pre),
            v,
        ),
{
}

/// `<=x.y.z-pre` admits exactly the union of what `<x.y.z-pre` and `=x.y.z-pre` admit.
pub proof fn law_less_eq_is_union(x: u64, y: u64, z: u64, pre: Seq<char>, v: VersionModel)
    ensures
        comparator_admits(comparator(Op::LessEq, x, Some(y), Some(z), pre), v) <==> (comparator_admits(
            comparator(Op::Less, x, Some(y), Some(z), pre),
            v,
        ) || comparator_admits(comparator(Op::Exact, x, Some(y), Some(z), pre), v)),
{
}

/// Among releases (no pre-release, no build metadata) the order is the numeric order of
/// major, then minor, then patch.
pub proof fn law_release_order(a: (u64, u64, u64), b: (u64, u64, u64))
    ensures
        version_lt(crate::ranges::release(a.0, a.1, a.2), crate::ranges::release(b.0, b.1, b.2)) <==> (a.0
            < b.0 || (a.0 == b.0 && a.1 < b.1) || (a.0 == b.0 && a.1 == b.1 && a.2 < b.2)),
{
}

/// When the repository lists versions highest first, the version that `choose_version` takes
/// (the first that the range holds) is the highest one that the range holds.
pub proof fn law_chosen_is_highest(vs: Seq<Version>, in_range: Seq<bool>, i: int)
    requires
        in_range.len() == vs.len(),
        descending(versions_view(vs)),
        first_flagged(in_range, i),
    ensures
        forall|j: int| 0 <= j < vs.len() && #[trigger] in_range[j] ==> vs[j]@ == vs[i]@ || above(vs[i]@, vs[j]@),
{
    assert forall|j: int| 0 <= j < vs.len() && #[trigger] in_range[j] implies vs[j]@ == vs[i]@ || above(vs[i]@, vs[j]@) by {
        if j > i {
            assert(versions_view(vs)[i] == vs[i]@ && versions_view(vs)[j] == vs[j]@);
        }
    }
}

/// A package that the repository knows gets the maximal priority exactly when none of its
/// versions is in the range, which is when `choose_version` finds none.
pub proof fn law_no_candidate_iff_max_priority(in_range: Seq<bool>)
    ensures
        flagged_count(in_range) == 0 <==> forall|i: int| 0 <= i < in_range.len() ==> !#[trigger] in_range[i],
    decreases in_range.len(),
{
    if in_range.len() > 0 {
        let rest = in_range.drop_last();
        law_no_candidate_iff_max_priority(rest);
        if flagged_count(in_range) == 0 {
            assert forall|i: int| 0 <= i < in_range.len() implies !#[trigger] in_range[i] by {
                if i < in_range.len() - 1 {
                    assert(rest[i] == in_range[i]);
                }
            }
        }
        if forall|i: int| 0 <= i < in_range.len() ==> !#[trigger] in_range[i] {
            assert(!in_range[in_range.len() - 1]);
            assert forall|i: int| 0 <= i < rest.len() implies !#[trigger] rest[i] by {
                assert(rest[i] == in_range[i]);
            }
        }
    }
}

/// Turning a flag into a toggle and back gives the flag.
pub proof fn law_toggle_round_trip(b: bool)
    ensures
        <bool as vstd::std_specs::convert::FromSpec<Toggle>>::from_spec(
            <Toggle as vstd::std_specs::convert::FromSpec<bool>>::from_spec(b),
        ) == b,
{
}

/// Wrapping a version for the resolver and unwrapping it gives the version back.
pub proof fn law_version_wrapper_round_trip(v: Version)
    ensures
        <Version as vstd::std_specs::convert::FromSpec<VersionWrapper>>::from_spec(
            <VersionWrapper as vstd::std_specs::convert::FromSpec<Version>>::from_spec(v),
        ) == v,
{
}

/// The three stars that hide a token.
pub open spec fn stars() -> Seq<char> {
    seq!['*', '*', '*']
}

/// Where the first `k` characters of a masked text hold no star, they are the first `k`
/// characters of the text itself.
proof fn lemma_unmasked_prefix(x: Seq<char>, p: Seq<char>, k: int)
    requires
        p.len() > 0,
        0 <= k <= replaced(x, p, stars()).len(),
        forall|j: int| 0 <= j < k ==> replaced(x, p, stars())[j] != '*',
    ensures
        k <= x.len(),
        replaced(x, p, stars()).subrange(0, k) == x.subrange(0, k),
    decreases x.len(),
{
    let r = replaced(x, p, stars());
    if k == 0 {
        assert(r.subrange(0, 0) =~= x.subrange(0, 0));
    } else if x.len() < p.len() {
    } else if x.subrange(0, p.len() as int) == p {
        assert(r[0] == '*');
    } else {
        let rest = replaced(x.drop_first(), p, stars());
        assert(r == seq![x[0]] + rest);
        assert forall|j: int| 0 <= j < k - 1 implies rest[j] != '*' by {
            assert(r[j + 1] == rest[j]);
        }
        lemma_unmasked_prefix(x.drop_first(), p, k - 1);
        assert(r.subrange(0, k) =~= seq![x[0]] + rest.subrange(0, k - 1));
        assert(x.subrange(0, k) =~= seq![x[0]] + x.drop_first().subrange(0, k - 1));
    }
}

/// Hiding a token that holds no star leaves no occurrence of it in the message.
pub proof fn law_masked_token_does_not_occur(message: Seq<char>, token: Seq<char>)
    requires
        token.len() > 0,
        forall|i: int| 0 <= i < token.len() ==> token[i] != '*',
    ensures
        forall|i: int| !occurs(replaced(message, token, "***"@), token, i),
    decreases message.len(),
{
    reveal_strlit("***");
    assert("***"@ =~= stars());
    let r = replaced(message, token, stars());
    let m = token.len() as int;
    if message.len() < m {
    } else if message.subrange(0, m) == token {
        let rest = message.subrange(m, message.len() as int);
        law_masked_token_does_not_occur(rest, token);
        let rr = replaced(rest, token, stars());
        assert(r == stars() + rr);
        assert forall|i: int| !occurs(r, token, i) by {
            if occurs(r, token, i) {
                if i < 3 {
                    assert(r.subrange(i, i + m)[0] == r[i]);
                    assert(token[0] == '*');
                } else {
                    assert(rr.subrange(i - 3, i - 3 + m) =~= r.subrange(i, i + m));
                    assert(occurs(rr, token, i - 3));
                }
            }
        }
    } else {
        let rest = message.drop_first();
        law_masked_token_does_not_occur(rest, token);
        let rr = replaced(rest, token, stars());
        assert(r == seq![message[0]] + rr);
        assert forall|i: int| !occurs(r, token, i) by {
            if occurs(r, token, i) {
                if i == 0 {
                    assert(r.subrange(0, m) == token);
                    assert forall|j: int| 0 <= j < m - 1 implies rr[j] != '*' by {
                        assert(r.subrange(0, m)[j + 1] == rr[j]);
                    }
                    lemma_unmasked_prefix(rest, token, m - 1);
                    assert(message.subrange(0, m) =~= seq![message[0]] + rest.subrange(0, m - 1));
                    assert(r.subrange(0, m) =~= seq![message[0]] + rr.subrange(0, m - 1));
                } else {
                    assert(rr.subrange(i - 1, i - 1 + m) =~= r.subrange(i, i + m));
                    assert(occurs(rr, token, i - 1));
                }
            }
        }
    }
}

/// The NDK index by version agrees with the index by version text: when `k` reads as `v` and
/// no other listed text reads as `v`, both hold the same package (the last one listed under `k`),
/// or neither holds one.
pub proof fn law_version_index_follows_text_index(
    pkgs: Seq<RemotePackage>,
    os: Seq<char>,
    arch: Seq<char>,
    k: Seq<char>,
    v: VersionModel,
)
    requires
        parsed_version(k) == Some(v),
        forall|k2: Seq<char>| k2 != k && (#[trigger] last_with_text(pkgs, os, arch, k2)) is Some
            ==> parsed_version(k2) != Some(v),
    ensures
        last_with_version(pkgs, os, arch, v) == last_with_text(pkgs, os, arch, k),
    decreases pkgs.len(),
{
    if pkgs.len() > 0 {
        let rest = pkgs.drop_last();
        assert forall|k2: Seq<char>| k2 != k && (#[trigger] last_with_text(rest, os, arch, k2)) is Some
            implies parsed_version(k2) != Some(v) by {
            assert(last_with_text(pkgs, os, arch, k2) is Some);
        }
        law_version_index_follows_text_index(rest, os, arch, k, v);
        let k2 = path_version_text(pkgs.last().path@);
        if is_listed(pkgs.last(), os, arch) && k2 != k {
            assert(last_with_text(pkgs, os, arch, k2) is Some);
        }
    }
}

/// The NDK index by version holds a version exactly when the index by version text holds a text
/// that reads as it.
pub proof fn law_version_index_keys(pkgs: Seq<RemotePackage>, os: Seq<char>, arch: Seq<char>, v: VersionModel)
    ensures
        last_with_version(pkgs, os, arch, v) is Some <==> exists|k: Seq<char>|
            (#[trigger] last_with_text(pkgs, os, arch, k)) is Some && parsed_version(k) == Some(v),
    decreases pkgs.len(),
{
    if pkgs.len() > 0 {
        let rest = pkgs.drop_last();
        law_version_index_keys(rest, os, arch, v);
        if last_with_version(pkgs, os, arch, v) is Some {
            if last_with_version(rest, os, arch, v) is Some {
                let k = choose|k: Seq<char>| (#[trigger] last_with_text(rest, os, arch, k)) is Some && parsed_version(k) == Some(v);
                assert(last_with_text(pkgs, os, arch, k) is Some);
            } else {
                let k = path_version_text(pkgs.last().path@);
                assert(last_with_text(pkgs, os, arch, k) is Some);
            }
        }
        if exists|k: Seq<char>| (#[trigger] last_with_text(pkgs, os, arch, k)) is Some && parsed_version(k) == Some(v) {
            let k = choose|k: Seq<char>| (#[trigger] last_with_text(pkgs, os, arch, k)) is Some && parsed_version(k) == Some(v);
            if !(is_listed(pkgs.last(), os, arch) && path_version_text(pkgs.last().path@) == k) {
                assert(last_with_text(rest, os, arch, k) is Some);
            }
        }
    }
}

/// From 1.0.0 on, a caret without a patch number, `^x.y`, admits what `>=x.y.0` and
/// `<(x+1).0.0` admit together.
pub proof fn law_caret_without_patch_is_major_bounded(x: u64, y: u64, v: VersionModel)
    requires
        x != 0,
        x < u64::MAX,
    ensures
        comparator_admits(comparator(Op::Caret, x, Some(y), None, Seq::empty()), v) <==> comparator_admits(
            comparator(Op::GreaterEq, x, Some(y), Some(0), Seq::empty()),
            v,
        ) && comparator_admits(comparator(Op::Less, (x + 1) as u64, Some(0), Some(0), Seq::empty()), v),
{
}

/// A release: no pre-release and no build metadata.
pub open spec fn is_release(v: VersionModel) -> bool {
    v.pre == Seq::<char>::empty() && v.build == Seq::<char>::empty()
}

/// `major.minor.patch` of `v` is numerically below `a.b.c` (major first, then minor, then patch).
pub open spec fn numbers_below(v: VersionModel, a: u64, b: u64, c: u64) -> bool {
    v.major < a || (v.major == a && (v.minor < b || (v.minor == b && v.patch < c)))
}

/// On releases, the caret forms keep the left-most non-zero number and admit nothing below the
/// requirement: `^x.y.z` and `^x.y` (x > 0) allow minor and patch bumps, `^0.y.z` (y > 0) patch
/// bumps, `^0.0.z` nothing else, `^0.y` keeps the minor, `^x` keeps the major.
pub proof fn law_caret_on_releases(x: u64, y: u64, z: u64, v: VersionModel)
    requires
        is_release(v),
        x < u64::MAX,
        y < u64::MAX,
    ensures
        x > 0 ==> (comparator_admits(comparator(Op::Caret, x, Some(y), Some(z), Seq::empty()), v) <==> v.major == x
            && !numbers_below(v, x, y, z)),
        y > 0 ==> (comparator_admits(comparator(Op::Caret, 0, Some(y), Some(z), Seq::empty()), v) <==> v.major == 0
            && v.minor == y && v.patch >= z),
        comparator_admits(comparator(Op::Caret, 0, Some(0), Some(z), Seq::empty()), v) <==> v.major == 0 && v.minor == 0
            && v.patch == z,
        x > 0 ==> (comparator_admits(comparator(Op::Caret, x, Some(y), None, Seq::empty()), v) <==> v.major == x
            && v.minor >= y),
        comparator_admits(comparator(Op::Caret, 0, Some(y), None, Seq::empty()), v) <==> v.major == 0 && v.minor == y,
        comparator_admits(comparator(Op::Caret, x, None, None, Seq::empty()), v) <==> v.major == x,
{
}

/// On releases, a tilde allows patch bumps when a minor is given (`~x.y.z`, `~x.y`) and minor
/// bumps otherwise (`~x`).
pub proof fn law_tilde_on_releases(x: u64, y: u64, z: u64, v: VersionModel)
    requires
        is_release(v),
        x < u64::MAX,
        y < u64::MAX,
    ensures
        comparator_admits(comparator(Op::Tilde, x, Some(y), Some(z), Seq::empty()), v) <==> v.major == x && v.minor == y
            && v.patch >= z,
        comparator_admits(comparator(Op::Tilde, x, Some(y), None, Seq::empty()), v) <==> v.major == x && v.minor == y,
        comparator_admits(comparator(Op::Tilde, x, None, None, Seq::empty()), v) <==> v.major == x,
{
}

/// On releases, `=` and the wildcard fix the numbers they give and leave the others free.
pub proof fn law_exact_on_releases(x: u64, y: u64, z: u64, v: VersionModel)
    requires
        is_release(v),
        x < u64::MAX,
        y < u64::MAX,
    ensures
        comparator_admits(comparator(Op::Exact, x, Some(y), Some(z), Seq::empty()), v) <==> v.major == x && v.minor == y
            && v.patch == z,
        comparator_admits(comparator(Op::Exact, x, Some(y), None, Seq::empty()), v) <==> v.major == x && v.minor == y,
        comparator_admits(comparator(Op::Exact, x, None, None, Seq::empty()), v) <==> v.major == x,
        comparator_admits(comparator(Op::Wildcard, x, Some(y), None, Seq::empty()), v) <==> v.major == x && v.minor == y,
        comparator_admits(comparator(Op::Wildcard, x, None, None, Seq::empty()), v) <==> v.major == x,
{
    assert(v.pre =~= Seq::<char>::empty());
}

/// On releases, the comparisons order by the numbers; a missing number makes `>` and `<=` skip
/// or take the whole of the given prefix, and `>=` and `<` start from its zero.
pub proof fn law_comparisons_on_releases(x: u64, y: u64, z: u64, v: VersionModel)
    requires
        is_release(v),
        x < u64::MAX,
        y < u64::MAX,
    ensures
        comparator_admits(comparator(Op::Greater, x, Some(y), Some(z), Seq::empty()), v) <==> numbers_below(
            crate::ranges::release(x, y, z),
            v.major,
            v.minor,
            v.patch,
        ),
        comparator_admits(comparator(Op::Greater, x, Some(y), None, Seq::empty()), v) <==> v.major > x || (v.major == x
            && v.minor > y),
        comparator_admits(comparator(Op::Greater, x, None, None, Seq::empty()), v) <==> v.major > x,
        comparator_admits(comparator(Op::GreaterEq, x, Some(y), Some(z), Seq::empty()), v) <==> !numbers_below(v, x, y, z),
        comparator_admits(comparator(Op::GreaterEq, x, Some(y), None, Seq::empty()), v) <==> !numbers_below(v, x, y, 0),
        comparator_admits(comparator(Op::GreaterEq, x, None, None, Seq::empty()), v) <==> v.major >= x,
        comparator_admits(comparator(Op::Less, x, Some(y), Some(z), Seq::empty()), v) <==> numbers_below(v, x, y, z),
        comparator_admits(comparator(Op::Less, x, Some(y), None, Seq::empty()), v) <==> numbers_below(v, x, y, 0),
        comparator_admits(comparator(Op::Less, x, None, None, Seq::empty()), v) <==> v.major < x,
        comparator_admits(comparator(Op::LessEq, x, Some(y), Some(z), Seq::empty()), v) <==> !numbers_below(
            crate::ranges::release(x, y, z),
            v.major,
            v.minor,
            v.patch,
        ),
        comparator_admits(comparator(Op::LessEq, x, Some(y), None, Seq::empty()), v) <==> v.major < x || (v.major == x
            && v.minor <= y),
        comparator_admits(comparator(Op::LessEq, x, None, None, Seq::empty()), v) <==> v.major <= x,
{
    assert(v.pre =~= Seq::<char>::empty());
}

/// What a restore records of the i-th resolved dependency is read off that dependency: its id,
/// its version, its QPKG checksum, its out binaries and its environment (none recorded where it
/// has none), and the QPKG address that the project's own entry for it gives.
pub proof fn law_restore_records_the_dependency(config: PackageConfigModel, resolved: Seq<ArtifactModel>, i: int)
    requires
        0 <= i < resolved.len(),
    ensures
        shared_entries(config, resolved).len() == resolved.len(),
        shared_entries(config, resolved)[i].0 == resolved[i].config.id,
        shared_entries(config, resolved)[i].1.restored_version == resolved[i].config.version,
        shared_entries(config, resolved)[i].1.qpkg_checksum == resolved[i].qpkg_checksum,
        resolved[i].config.out_binaries matches Some(b) ==> shared_entries(config, resolved)[i].1.restored_binaries == b,
        resolved[i].config.out_binaries is None ==> shared_entries(config, resolved)[i].1.restored_binaries.len() == 0,
        resolved[i].config.env matches Some(e) ==> shared_entries(config, resolved)[i].1.restored_env == e,
        resolved[i].config.env is None ==> shared_entries(config, resolved)[i].1.restored_env.len() == 0,
        find_dependency(config.dependencies, resolved[i].config.id) matches Some(d)
            ==> shared_entries(config, resolved)[i].1.qpkg_url == d.qpkg_url,
        find_dependency(config.dependencies, resolved[i].config.id) is None
            ==> shared_entries(config, resolved)[i].1.qpkg_url is None,
{
}

/// A part of a dependency's compile-option lines reaches `extern.cmake`.
proof fn lemma_options_part(deps: Seq<ExternDependency>, i: int, before: Seq<char>, part: Seq<char>, after: Seq<char>, needle: Seq<char>)
    requires
        0 <= i < deps.len(),
        deps[i].compile_options is Some,
        compile_options_text(deps[i].package_id@, deps[i].compile_options->0) == before + part + after,
        has_infix(part, needle),
    ensures
        has_infix(extern_text(deps), needle),
{
    lemma_infix_widen(before, part, after, needle);
    lemma_compile_options_in_dependency(deps[i], needle);
    lemma_dependencies_text_has(deps, i, needle);
    lemma_extern_text_has(deps, needle);
}

/// The lines of a dependency's compile options, one group per option.
proof fn lemma_options_groups(pid: Seq<char>, co: crate::cmake::CompileOptions)
    ensures
        compile_options_text(pid, co) == opt_lines(co.include_paths, "target_include_directories(${COMPILE_ID} PRIVATE ${EXTERN_DIR}/includes/"@ + pid + "/"@, ")\n"@)
            + opt_lines(co.system_includes, "target_include_directories(${COMPILE_ID} SYSTEM PRIVATE ${EXTERN_DIR}/includes/"@ + pid + "/"@, ")\n"@)
            + opt_lines(co.cpp_features, "target_compile_features(${COMPILE_ID} PRIVATE "@, ")\n"@)
            + opt_lines(co.cpp_flags, "target_compile_options(${COMPILE_ID} PRIVATE "@, ")\n"@)
            + opt_lines(co.c_flags, "target_compile_options(${COMPILE_ID} PRIVATE "@, ")\n"@),
{
}

/// `extern.cmake` has a line for every include path, system include, C++ feature, C++ flag and
/// C flag of every restored dependency that has compile options: the include directories under
/// `${EXTERN_DIR}/includes/` and the dependency's package id, the features and the flags as
/// they are.
pub proof fn law_extern_cmake_lists_compile_options(deps: Seq<ExternDependency>, i: int, k: int)
    requires
        0 <= i < deps.len(),
        deps[i].compile_options is Some,
    ensures
        deps[i].compile_options->0.include_paths is Some && 0 <= k < deps[i].compile_options->0.include_paths->0.len() ==> has_infix(
            extern_text(deps),
            "target_include_directories(${COMPILE_ID} PRIVATE ${EXTERN_DIR}/includes/"@ + deps[i].package_id@ + "/"@ + deps[i].compile_options->0.include_paths->0@[k]@
                + ")\n"@,
        ),
        deps[i].compile_options->0.system_includes is Some && 0 <= k < deps[i].compile_options->0.system_includes->0.len() ==> has_infix(
            extern_text(deps),
            "target_include_directories(${COMPILE_ID} SYSTEM PRIVATE ${EXTERN_DIR}/includes/"@ + deps[i].package_id@ + "/"@
                + deps[i].compile_options->0.system_includes->0@[k]@ + ")\n"@,
        ),
        deps[i].compile_options->0.cpp_features is Some && 0 <= k < deps[i].compile_options->0.cpp_features->0.len() ==> has_infix(
            extern_text(deps),
            "target_compile_features(${COMPILE_ID} PRIVATE "@ + deps[i].compile_options->0.cpp_features->0@[k]@ + ")\n"@,
        ),
        deps[i].compile_options->0.cpp_flags is Some && 0 <= k < deps[i].compile_options->0.cpp_flags->0.len() ==> has_infix(
            extern_text(deps),
            "target_compile_options(${COMPILE_ID} PRIVATE "@ + deps[i].compile_options->0.cpp_flags->0@[k]@ + ")\n"@,
        ),
        deps[i].compile_options->0.c_flags is Some && 0 <= k < deps[i].compile_options->0.c_flags->0.len() ==> has_infix(
            extern_text(deps),
            "target_compile_options(${COMPILE_ID} PRIVATE "@ + deps[i].compile_options->0.c_flags->0@[k]@ + ")\n"@,
        ),
{
    let co = deps[i].compile_options->0;
    let pid = deps[i].package_id@;
    lemma_options_groups(pid, co);
    let inc = "target_include_directories(${COMPILE_ID} PRIVATE ${EXTERN_DIR}/includes/"@ + pid + "/"@;
    let sys = "target_include_directories(${COMPILE_ID} SYSTEM PRIVATE ${EXTERN_DIR}/includes/"@ + pid + "/"@;
    let feat = "target_compile_features(${COMPILE_ID} PRIVATE "@;
    let opt = "target_compile_options(${COMPILE_ID} PRIVATE "@;
    let end = ")\n"@;
    let o = seq![
        opt_lines(co.include_paths, inc, end),
        opt_lines(co.system_includes, sys, end),
        opt_lines(co.cpp_features, feat, end),
        opt_lines(co.cpp_flags, opt, end),
        opt_lines(co.c_flags, opt, end),
    ];
    assert(compile_options_text(pid, co) == o[0] + o[1] + o[2] + o[3] + o[4]);
    if co.include_paths is Some && 0 <= k < co.include_paths->0.len() {
        lemma_opt_lines_has(co.include_paths, inc, end, k);
        lemma_group_reaches(deps, i, o, 0, inc + co.include_paths->0@[k]@ + end);
    }
    if co.system_includes is Some && 0 <= k < co.system_includes->0.len() {
        lemma_opt_lines_has(co.system_includes, sys, end, k);
        lemma_group_reaches(deps, i, o, 1, sys + co.system_includes->0@[k]@ + end);
    }
    if co.cpp_features is Some && 0 <= k < co.cpp_features->0.len() {
        lemma_opt_lines_has(co.cpp_features, feat, end, k);
        lemma_group_reaches(deps, i, o, 2, feat + co.cpp_features->0@[k]@ + end);
    }
    if co.cpp_flags is Some && 0 <= k < co.cpp_flags->0.len() {
        lemma_opt_lines_has(co.cpp_flags, opt, end, k);
        lemma_group_reaches(deps, i, o, 3, opt + co.cpp_flags->0@[k]@ + end);
    }
    if co.c_flags is Some && 0 <= k < co.c_flags->0.len() {
        lemma_opt_lines_has(co.c_flags, opt, end, k);
        lemma_group_reaches(deps, i, o, 4, opt + co.c_flags->0@[k]@ + end);
    }
}

/// What occurs in one of the five groups of a dependency's compile-option lines reaches
/// `extern.cmake`.
proof fn lemma_group_reaches(deps: Seq<ExternDependency>, i: int, o: Seq<Seq<char>>, g: int, needle: Seq<char>)
    requires
        0 <= i < deps.len(),
        deps[i].compile_options is Some,
        o.len() == 5,
        0 <= g < 5,
        compile_options_text(deps[i].package_id@, deps[i].compile_options->0) == o[0] + o[1] + o[2] + o[3] + o[4],
        has_infix(o[g], needle),
    ensures
        has_infix(extern_text(deps), needle),
{
    let all = o[0] + o[1] + o[2] + o[3] + o[4];
    let e = Seq::<char>::empty();
    if g == 0 {
        assert(all =~= e + o[0] + (o[1] + o[2] + o[3] + o[4]));
        lemma_options_part(deps, i, e, o[0], o[1] + o[2] + o[3] + o[4], needle);
    } else if g == 1 {
        assert(all =~= o[0] + o[1] + (o[2] + o[3] + o[4]));
        lemma_options_part(deps, i, o[0], o[1], o[2] + o[3] + o[4], needle);
    } else if g == 2 {
        assert(all =~= (o[0] + o[1]) + o[2] + (o[3] + o[4]));
        lemma_options_part(deps, i, o[0] + o[1], o[2], o[3] + o[4], needle);
    } else if g == 3 {
        assert(all =~= (o[0] + o[1] + o[2]) + o[3] + o[4]);
        lemma_options_part(deps, i, o[0] + o[1] + o[2], o[3], o[4], needle);
    } else {
        assert(all =~= (o[0] + o[1] + o[2] + o[3]) + o[4] + e);
        lemma_options_part(deps, i, o[0] + o[1] + o[2] + o[3], o[4], e, needle);
    }
}

/// `extern.cmake` adds every extra file of a restored dependency that is a file as a shared
/// library, and compiles the C and C++ sources under every extra directory; both are found at
/// `includes/`, the dependency's id and the extra file's path under `${EXTERN_DIR}`.
pub proof fn law_extern_cmake_lists_extra_files(deps: Seq<ExternDependency>, i: int, k: int)
    requires
        0 <= i < deps.len(),
        deps[i].extra_files is Some,
        0 <= k < deps[i].extra_files->0.len(),
    ensures
        deps[i].extra_files->0@[k].is_file ==> has_infix(
            extern_text(deps),
            "add_library(${COMPILE_ID} SHARED ${EXTERN_DIR}/"@ + ("includes/"@ + deps[i].id@ + "/"@
                + deps[i].extra_files->0@[k].path@) + ")"@,
        ),
        !deps[i].extra_files->0@[k].is_file ==> has_infix(
            extern_text(deps),
            "includes/"@ + deps[i].id@ + "/"@ + deps[i].extra_files->0@[k].path@ + "/*.c)\n"@,
        ) && has_infix(
            extern_text(deps),
            "includes/"@ + deps[i].id@ + "/"@ + deps[i].extra_files->0@[k].path@ + "/*.cpp)\n"@,
        ),
{
    let d = deps[i];
    let f = d.extra_files->0@[k];
    let t = extra_file_text(d.id@, f);
    let ep = "includes/"@ + d.id@ + "/"@ + f.path@;
    let e = Seq::<char>::empty();
    if f.is_file {
        let needle = "add_library(${COMPILE_ID} SHARED ${EXTERN_DIR}/"@ + ep + ")"@;
        assert(t =~= e + needle + e);
        lemma_infix_between(e, needle, e);
        lemma_extra_line_in_extern(deps, i, k, needle);
    } else {
        let list = crate::cmake::extra_list_name(d.id@, f.path@);
        let l1a = "RECURSE_FILES("@ + list + "_c ${EXTERN_DIR}/"@;
        let n1 = ep + "/*.c)\n"@;
        let l2a = "RECURSE_FILES("@ + list + "_cpp ${EXTERN_DIR}/"@;
        let n2 = ep + "/*.cpp)\n"@;
        let rest = "target_sources(${COMPILE_ID} PRIVATE ${"@ + list + "_c})\n"@
            + "target_sources(${COMPILE_ID} PRIVATE ${"@ + list + "_cpp})\n"@;
        assert(t =~= l1a + n1 + (l2a + n2 + rest));
        lemma_infix_between(l1a, n1, l2a + n2 + rest);
        lemma_extra_line_in_extern(deps, i, k, n1);
        assert(t =~= (l1a + n1 + l2a) + n2 + rest);
        lemma_infix_between(l1a + n1 + l2a, n2, rest);
        lemma_extra_line_in_extern(deps, i, k, n2);
    }
}

/// A line of a dependency's extra file reaches `extern.cmake`.
proof fn lemma_extra_line_in_extern(deps: Seq<ExternDependency>, i: int, k: int, needle: Seq<char>)
    requires
        0 <= i < deps.len(),
        deps[i].extra_files is Some,
        0 <= k < deps[i].extra_files->0.len(),
        has_infix(extra_file_text(deps[i].id@, deps[i].extra_files->0@[k]), needle),
    ensures
        has_infix(extern_text(deps), needle),
{
    lemma_extra_files_text_has(deps[i].id@, deps[i].extra_files->0@, k, needle);
    lemma_extra_files_in_dependency(deps[i], needle);
    lemma_dependencies_text_has(deps, i, needle);
    lemma_extern_text_has(deps, needle);
}

/// Every config is the same as itself, and sameness does not depend on the order of the two.
pub proof fn law_same_config_reflexive_symmetric(a: PackageConfigModel, b: PackageConfigModel)
    ensures
        same_config(a, a),
        same_config(a, b) == same_config(b, a),
{
}

/// Two configs that are the same agree on every field: id, version, both folders, out binaries,
/// each dependency and dev dependency looked up by id (its requirement compared by comparators,
/// its QPKG address), and each environment variable (or both have no environment).
pub proof fn law_same_config_agrees_on_every_field(a: PackageConfigModel, b: PackageConfigModel, id: Seq<char>, key: Seq<char>)
    requires
        same_config(a, b),
    ensures
        a.id == b.id,
        a.version == b.version,
        a.shared_directory == b.shared_directory,
        a.dependencies_directory == b.dependencies_directory,
        a.out_binaries == b.out_binaries,
        find_dependency(a.dependencies, id) is Some <==> find_dependency(b.dependencies, id) is Some,
        find_dependency(a.dependencies, id) matches Some(x) ==> (find_dependency(b.dependencies, id) matches Some(y)
            && x.id == y.id && x.range == y.range && x.qpkg_url == y.qpkg_url),
        find_dependency(a.dev_dependencies, id) is Some <==> find_dependency(b.dev_dependencies, id) is Some,
        find_dependency(a.dev_dependencies, id) matches Some(x) ==> (find_dependency(b.dev_dependencies, id) matches Some(y)
            && x.id == y.id && x.range == y.range && x.qpkg_url == y.qpkg_url),
        a.env is None <==> b.env is None,
        a.env matches Some(x) ==> (b.env matches Some(y) && lookup(x, key) == lookup(y, key)),
{
    assert(match (find_dependency(a.dependencies, id), find_dependency(b.dependencies, id)) {
        (Some(x), Some(y)) => crate::package::same_dependency(x, y),
        (None, None) => true,
        _ => false,
    });
    assert(match (find_dependency(a.dev_dependencies, id), find_dependency(b.dev_dependencies, id)) {
        (Some(x), Some(y)) => crate::package::same_dependency(x, y),
        (None, None) => true,
        _ => false,
    });
}

/// The words that switch something on are exactly `enable`, `e`, `true`, `t` and `1`; those that
/// switch it off are exactly `disable`, `d`, `false`, `f` and `0`; every other (lower-case) word
/// is invalid.
pub proof fn law_toggle_words(w: Seq<char>)
    ensures
        crate::toggle::toggle_of_word(w) == Toggle::Enable <==> (w == "enable"@ || w == "e"@ || w == "true"@ || w == "t"@
            || w == "1"@),
        crate::toggle::toggle_of_word(w) == Toggle::Disable <==> (w == "disable"@ || w == "d"@ || w == "false"@ || w
            == "f"@ || w == "0"@),
        crate::toggle::toggle_of_word(w) == Toggle::Invalid <==> !(w == "enable"@ || w == "e"@ || w == "true"@ || w
            == "t"@ || w == "1"@ || w == "disable"@ || w == "d"@ || w == "false"@ || w == "f"@ || w == "0"@),
{
    reveal_strlit("enable");
    reveal_strlit("e");
    reveal_strlit("true");
    reveal_strlit("t");
    reveal_strlit("1");
    reveal_strlit("disable");
    reveal_strlit("d");
    reveal_strlit("false");
    reveal_strlit("f");
    reveal_strlit("0");
    assert("enable"@ =~= seq!['e', 'n', 'a', 'b', 'l', 'e']);
    assert("e"@ =~= seq!['e']);
    assert("true"@ =~= seq!['t', 'r', 'u', 'e']);
    assert("t"@ =~= seq!['t']);
    assert("1"@ =~= seq!['1']);
    assert("disable"@ =~= seq!['d', 'i', 's', 'a', 'b', 'l', 'e']);
    assert("d"@ =~= seq!['d']);
    assert("false"@ =~= seq!['f', 'a', 'l', 's', 'e']);
    assert("f"@ =~= seq!['f']);
    assert("0"@ =~= seq!['0']);
    let ones = seq![seq!['e'], seq!['t'], seq!['1'], seq!['d'], seq!['f'], seq!['0']];
    assert forall|p: int, q: int| 0 <= p < q < 6 implies ones[p] != ones[q] by {
        assert(ones[p][0] != ones[q][0]);
    }
    assert(seq!['t', 'r', 'u', 'e'].len() != seq!['f', 'a', 'l', 's', 'e'].len());
}

/// The codegen id is the first restored id that contains `codegen`; with none, it is `codegen`.
pub proof fn law_codegen_id_is_first_codegen_dependency(ids: Seq<Seq<char>>)
    ensures
        (forall|j: int| 0 <= j < ids.len() ==> !has_infix(#[trigger] ids[j], "codegen"@)) ==> codegen_id(ids) == "codegen"@,
        forall|j: int| 0 <= j < ids.len() && has_infix(#[trigger] ids[j], "codegen"@) && (forall|k: int| 0 <= k < j
            ==> !has_infix(#[trigger] ids[k], "codegen"@)) ==> codegen_id(ids) == ids[j],
    decreases ids.len(),
{
    if ids.len() > 0 {
        law_codegen_id_is_first_codegen_dependency(ids.drop_first());
        assert forall|j: int| 0 <= j < ids.len() && has_infix(#[trigger] ids[j], "codegen"@) && (forall|k: int| 0 <= k < j
            ==> !has_infix(#[trigger] ids[k], "codegen"@)) implies codegen_id(ids) == ids[j] by {
            if j > 0 {
                assert(!has_infix(ids[0], "codegen"@));
                assert(ids.drop_first()[j - 1] == ids[j]);
                assert forall|k: int| 0 <= k < j - 1 implies !has_infix(#[trigger] ids.drop_first()[k], "codegen"@) by {
                    assert(ids.drop_first()[k] == ids[k + 1]);
                }
            }
        }
        if forall|j: int| 0 <= j < ids.len() ==> !has_infix(#[trigger] ids[j], "codegen"@) {
            assert(!has_infix(ids[0], "codegen"@));
            assert forall|j: int| 0 <= j < ids.len() - 1 implies !has_infix(#[trigger] ids.drop_first()[j], "codegen"@) by {
                assert(ids.drop_first()[j] == ids[j + 1]);
            }
        }
    }
}

/// The mod id written in `qpm_defines.cmake` has no space, and keeps every other character of
/// the name.
pub proof fn law_mod_id_drops_only_spaces(name: Seq<char>, i: int)
    requires
        0 <= i < name.len(),
    ensures
        !crate::text::without_spaces(name).contains(' '),
        name[i] != ' ' ==> crate::text::without_spaces(name).contains(name[i]),
        crate::text::without_spaces(name).len() <= name.len(),
{
    broadcast use vstd::seq_lib::group_filter_ensures;
    let f = |c: char| c != ' ';
    if crate::text::without_spaces(name).contains(' ') {
        let j = choose|j: int| 0 <= j < name.filter(f).len() && name.filter(f)[j] == ' ';
        name.lemma_filter_pred(f, j);
    }
    if name[i] != ' ' {
        name.lemma_filter_contains(f, i);
    }
    name.lemma_filter_len(f);
}

/// `qpm_defines.cmake` sets each of its variables from the inputs: `MOD_VERSION` to the version
/// text, `MOD_ID` to the name without spaces, `COMPILE_ID` to the module id, `CODEGEN_ID` to the
/// codegen id of the restored ids, and the two folder names to the dependency and shared folders.
pub proof fn law_defines_set_each_variable(
    version: Seq<char>,
    name: Seq<char>,
    module_id: Seq<char>,
    ids: Seq<Seq<char>>,
    dependencies_dir: Seq<char>,
    shared_dir: Seq<char>,
)
    ensures
        has_infix(defines_text(version, name, module_id, ids, dependencies_dir, shared_dir), "\nset(MOD_VERSION \""@ + version + "\")\n"@),
        has_infix(defines_text(version, name, module_id, ids, dependencies_dir, shared_dir), "set(MOD_ID \""@ + crate::text::without_spaces(name) + "\")\n\n"@),
        has_infix(defines_text(version, name, module_id, ids, dependencies_dir, shared_dir), "set(COMPILE_ID \""@ + module_id + "\")\n"@),
        has_infix(defines_text(version, name, module_id, ids, dependencies_dir, shared_dir), "set(CODEGEN_ID \""@ + codegen_id(ids) + "\")\n\n"@),
        has_infix(defines_text(version, name, module_id, ids, dependencies_dir, shared_dir), "set(EXTERN_DIR_NAME \""@ + dependencies_dir + "\")\n"@),
        has_infix(defines_text(version, name, module_id, ids, dependencies_dir, shared_dir), "set(SHARED_DIR_NAME \""@ + shared_dir + "\")\n\n"@),
{
    let p = seq![
        "# YOU SHOULD NOT MANUALLY EDIT THIS FILE, QPM WILL VOID ALL CHANGES\n# Version defines, pretty useful"@,
        "\nset(MOD_VERSION \""@ + version + "\")\n"@,
        "# take the mod name and just remove spaces, that will be MOD_ID, if you don't like it change it after the include of this file\n"@,
        "set(MOD_ID \""@ + crate::text::without_spaces(name) + "\")\n\n"@,
        "# derived from override .so name or just id_version\n"@,
        "set(COMPILE_ID \""@ + module_id + "\")\n"@,
        "# derived from whichever codegen package is installed, will default to just codegen\n"@,
        "set(CODEGEN_ID \""@ + codegen_id(ids) + "\")\n\n"@,
        "# given from qpm, automatically updated from qpm.json\n"@,
        "set(EXTERN_DIR_NAME \""@ + dependencies_dir + "\")\n"@,
        "set(SHARED_DIR_NAME \""@ + shared_dir + "\")\n\n"@,
        defines_footer(),
    ];
    assert(defines_text(version, name, module_id, ids, dependencies_dir, shared_dir) =~= p[0] + p[1] + p[2] + p[3] + p[4]
        + p[5] + p[6] + p[7] + p[8] + p[9] + p[10] + p[11]);
    lemma_part_of_twelve(p, 1);
    lemma_part_of_twelve(p, 3);
    lemma_part_of_twelve(p, 5);
    lemma_part_of_twelve(p, 7);
    lemma_part_of_twelve(p, 9);
    lemma_part_of_twelve(p, 10);
}

/// The sum of the first `n` parts.
spec fn joined(p: Seq<Seq<char>>, n: int) -> Seq<char>
    decreases n,
{
    if n <= 0 { Seq::empty() } else { joined(p, n - 1) + p[n - 1] }
}

/// Each of twelve parts occurs in their concatenation.
proof fn lemma_part_of_twelve(p: Seq<Seq<char>>, j: int)
    requires
        p.len() == 12,
        0 <= j < 12,
    ensures
        has_infix(p[0] + p[1] + p[2] + p[3] + p[4] + p[5] + p[6] + p[7] + p[8] + p[9] + p[10] + p[11], p[j]),
{
    reveal_with_fuel(joined, 13);
    assert(joined(p, 12) == p[0] + p[1] + p[2] + p[3] + p[4] + p[5] + p[6] + p[7] + p[8] + p[9] + p[10] + p[11]);
    lemma_joined_has(p, 12, j);
}

/// Each of the first `n` parts occurs in their concatenation.
proof fn lemma_joined_has(p: Seq<Seq<char>>, n: int, j: int)
    requires
        0 <= j < n <= p.len(),
    ensures
        has_infix(joined(p, n), p[j]),
    decreases n,
{
    if j == n - 1 {
        lemma_infix_between(joined(p, n - 1), p[j], Seq::<char>::empty());
        assert(joined(p, n - 1) + p[j] + Seq::<char>::empty() =~= joined(p, n));
    } else {
        lemma_joined_has(p, n - 1, j);
        lemma_infix_widen(Seq::<char>::empty(), joined(p, n - 1), p[n - 1], p[j]);
        assert(Seq::<char>::empty() + joined(p, n - 1) + p[n - 1] =~= joined(p, n));
    }
}

} // verus!
