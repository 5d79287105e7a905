//! Text work for fetching packages from GitHub: splitting a release download address, finding
//! a release asset, putting an access token into an address, hiding it in messages, and the
//! address that `git clone` is given.
use vstd::prelude::*;
use crate::text::text_equals;

verus! {

/// One asset of a GitHub release.
pub struct GithubReleaseAsset {
    pub url: String,
    pub name: String,
}

/// A GitHub release as the API describes it.
pub struct GithubReleaseData {
    pub assets: Vec<GithubReleaseAsset>,
}

/// The pieces of `s` between the `/` characters (as `str::split('/')` yields them).
pub open spec fn slash_pieces(s: Seq<char>) -> Seq<Seq<char>>
    decreases s.len(),
{
    if s.len() == 0 {
        seq![Seq::empty()]
    } else {
        let rest = slash_pieces(s.drop_last());
        if s.last() == '/' {
            rest.push(Seq::empty())
        } else {
            rest.update(rest.len() - 1, rest.last().push(s.last()))
        }
    }
}

pub proof fn lemma_pieces_nonempty(s: Seq<char>)
    ensures
        slash_pieces(s).len() >= 1,
    decreases s.len(),
{
    if s.len() > 0 {
        lemma_pieces_nonempty(s.drop_last());
    }
}

/// The pieces of `s` between the `/` characters.
pub fn split_slashes(s: &str) -> (r: Vec<String>)
    ensures
        r@.map_values(|p: String| p@) == slash_pieces(s@),
{
    let n = s.unicode_len();
    let mut out: Vec<String> = Vec::new();
    let mut cur = String::new();
    let mut i: usize = 0;
    proof {
        assert(s@.subrange(0, 0) =~= Seq::<char>::empty());
    }
    while i < n
        invariant
            n == s@.len(),
            i <= n,
            out@.map_values(|p: String| p@).push(cur@) == slash_pieces(s@.subrange(0, i as int)),
        decreases n - i,
    {
        let ghost prefix = s@.subrange(0, i as int);
        let c = s.get_char(i);
        proof {
            lemma_pieces_nonempty(prefix);
            assert(s@.subrange(0, i + 1).drop_last() =~= prefix);
            assert(s@.subrange(0, i + 1).last() == c);
        }
        if c == '/' {
            let ghost before = out@;
            out.push(cur);
            cur = String::new();
            proof {
                assert(out@.map_values(|p: String| p@) =~= before.map_values(|p: String| p@).push(
                    slash_pieces(prefix).last(),
                ));
                assert(out@.map_values(|p: String| p@).push(cur@) =~= slash_pieces(s@.subrange(0, i + 1)));
            }
        } else {
            let ghost old_cur = cur@;
            cur.append(s.substring_char(i, i + 1));
            proof {
                assert(cur@ =~= old_cur.push(c));
                assert(out@.map_values(|p: String| p@).push(cur@) =~= slash_pieces(s@.subrange(0, i + 1)));
            }
        }
        i += 1;
    }
    assert(s@.subrange(0, n as int) =~= s@);
    let ghost before = out@;
    out.push(cur);
    assert(out@.map_values(|p: String| p@) =~= before.map_values(|p: String| p@).push(cur@));
    out
}

/// The address of the API description of the release that the download address `url`
/// (`https://github.com/USER/REPO/releases/download/TAG/FILE`) belongs to, asked with
/// `token`, and the name of the file: pieces 3, 4, 7 and 8 of the address.
pub fn release_lookup(url: &str, token: &str) -> (r: (String, String))
    requires
        slash_pieces(url@).len() >= 9,
    ensures
        r.0@ == "https://"@ + token@ + "@api.github.com/repos/"@ + slash_pieces(url@)[3] + "/"@
            + slash_pieces(url@)[4] + "/releases/tags/"@ + slash_pieces(url@)[7],
        r.1@ == slash_pieces(url@)[8],
{
    let pieces = split_slashes(url);
    assert(pieces@.map_values(|p: String| p@)[3] == pieces@[3]@);
    assert(pieces@.map_values(|p: String| p@)[4] == pieces@[4]@);
    assert(pieces@.map_values(|p: String| p@)[7] == pieces@[7]@);
    assert(pieces@.map_values(|p: String| p@)[8] == pieces@[8]@);
    let mut link = String::from_str("https://");
    link.append(token);
    link.append("@api.github.com/repos/");
    link.append(pieces[3].as_str());
    link.append("/");
    link.append(pieces[4].as_str());
    link.append("/releases/tags/");
    link.append(pieces[7].as_str());
    (link, pieces[8].clone())
}

/// The first asset of the release named `name`.
pub fn find_asset<'a>(data: &'a GithubReleaseData, name: &str) -> (r: Option<&'a GithubReleaseAsset>)
    ensures
        match r {
            Some(a) => exists|i: int|
                0 <= i < data.assets.len() && data.assets@[i] == *a && a.name@ == name@ && forall|j: int|
                    0 <= j < i ==> (#[trigger] data.assets@[j]).name@ != name@,
            None => forall|i: int| 0 <= i < data.assets.len() ==> (#[trigger] data.assets@[i]).name@ != name@,
        },
{
    let mut i: usize = 0;
    while i < data.assets.len()
        invariant
            i <= data.assets.len(),
            forall|j: int| 0 <= j < i ==> (#[trigger] data.assets@[j]).name@ != name@,
        decreases data.assets.len() - i,
    {
        if text_equals(data.assets[i].name.as_str(), name) {
            let a = &data.assets[i];
            assert(data.assets@[i as int] == *a);
            return Some(a);
        }
        i += 1;
    }
    None
}

/// `s` with every occurrence of `p` replaced by `t`, from left to right and without overlap
/// (as `str::replace` does); an empty `p` occurs before every character and at the end.
pub open spec fn replaced(s: Seq<char>, p: Seq<char>, t: Seq<char>) -> Seq<char>
    decreases s.len(),
{
    if p.len() == 0 {
        if s.len() == 0 {
            t
        } else {
            t + seq![s[0]] + replaced(s.drop_first(), p, t)
        }
    } else if s.len() < p.len() {
        s
    } else if s.subrange(0, p.len() as int) == p {
        t + replaced(s.subrange(p.len() as int, s.len() as int), p, t)
    } else {
        seq![s[0]] + replaced(s.drop_first(), p, t)
    }
}

/// Whether `p` occurs in `s` at `i`.
fn occurs_at(s: &str, p: &str, i: usize) -> (r: bool)
    requires
        i <= s@.len(),
    ensures
        r == (i + p@.len() <= s@.len() && s@.subrange(i as int, i + p@.len()) == p@),
{
    let n = s.unicode_len();
    let m = p.unicode_len();
    if m > n - i {
        return false;
    }
    let mut j: usize = 0;
    while j < m
        invariant
            n == s@.len(),
            m == p@.len(),
            i + m <= n,
            j <= m,
            forall|l: int| 0 <= l < j ==> s@[i + l] == p@[l],
        decreases m - j,
    {
        if s.get_char(i + j) != p.get_char(j) {
            assert(s@.subrange(i as int, i + m)[j as int] != p@[j as int]);
            return false;
        }
        j += 1;
    }
    assert(s@.subrange(i as int, i + m) =~= p@);
    true
}

/// `s` with every occurrence of `p` replaced by `t`.
pub fn replace_text(s: &str, p: &str, t: &str) -> (r: String)
    ensures
        r@ == replaced(s@, p@, t@),
{
    let n = s.unicode_len();
    let m = p.unicode_len();
    let mut out = String::new();
    let mut i: usize = 0;
    assert(s@.subrange(0, n as int) =~= s@);
    while i < n
        invariant
            n == s@.len(),
            m == p@.len(),
            i <= n,
            out@ + replaced(s@.subrange(i as int, n as int), p@, t@) == replaced(s@, p@, t@),
        decreases n - i,
    {
        let ghost rest = s@.subrange(i as int, n as int);
        let ghost old_out = out@;
        if m == 0 {
            out.append(t);
            out.append(s.substring_char(i, i + 1));
            proof {
                assert(rest.drop_first() =~= s@.subrange(i + 1, n as int));
                assert(out@ =~= old_out + t@ + seq![rest[0]]);
            }
            i += 1;
        } else if occurs_at(s, p, i) {
            out.append(t);
            proof {
                assert(rest.subrange(0, m as int) =~= s@.subrange(i as int, i + m));
                assert(rest.subrange(m as int, rest.len() as int) =~= s@.subrange(i + m, n as int));
            }
            i += m;
        } else {
            out.append(s.substring_char(i, i + 1));
            proof {
                if rest.len() >= m {
                    assert(rest.subrange(0, m as int) =~= s@.subrange(i as int, i + m));
                }
                if rest.len() < m {
                    assert(rest.drop_first().len() < m);
                }
                assert(rest.drop_first() =~= s@.subrange(i + 1, n as int));
                assert(out@ =~= old_out + seq![rest[0]]);
            }
            i += 1;
        }
    }
    if m == 0 {
        out.append(t);
    }
    proof {
        assert(s@.subrange(n as int, n as int) =~= Seq::<char>::empty());
    }
    out
}

/// The download address of a private asset: the asset's API address with `token@` before
/// `api.github.com`.
pub fn authorized_asset_url(asset_url: &str, token: &str) -> (r: String)
    ensures
        r@ == replaced(asset_url@, "api.github.com"@, token@ + "@api.github.com"@),
{
    let mut with_token = String::from_str(token);
    with_token.append("@api.github.com");
    replace_text(asset_url, "api.github.com", with_token.as_str())
}

/// A message with every occurrence of the access token hidden as `***`.
pub fn mask_token(message: &str, token: &str) -> (r: String)
    ensures
        r@ == replaced(message@, token@, "***"@),
{
    replace_text(message, token, "***")
}

/// `p` occurs in `s` at `i`.
pub open spec fn occurs(s: Seq<char>, p: Seq<char>, i: int) -> bool {
    0 <= i && i + p.len() <= s.len() && s.subrange(i, i + p.len()) == p
}

/// Where `p` first occurs in `s`.
pub open spec fn first_occurrence(s: Seq<char>, p: Seq<char>) -> Option<int> {
    if exists|i: int| #[trigger] occurs(s, p, i) {
        Some(choose|i: int| #[trigger] occurs(s, p, i) && forall|j: int| 0 <= j < i ==> !occurs(s, p, j))
    } else {
        None
    }
}

/// The address with `token@` put before its first `github.com`, when there is a token and the
/// address has one.
pub open spec fn with_token(url: Seq<char>, token: Option<Seq<char>>) -> Seq<char> {
    match token {
        Some(t) => match first_occurrence(url, "github.com"@) {
            Some(i) => url.subrange(0, i) + t + "@"@ + url.subrange(i, url.len() as int),
            None => url,
        },
        None => url,
    }
}

/// The address without one trailing `/`.
pub open spec fn without_trailing_slash(s: Seq<char>) -> Seq<char> {
    if s.len() > 0 && s.last() == '/' {
        s.drop_last()
    } else {
        s
    }
}

/// Where `p` first occurs in `s`.
fn find_text(s: &str, p: &str) -> (r: Option<usize>)
    ensures
        r matches Some(i) ==> first_occurrence(s@, p@) == Some(i as int) && i + p@.len() <= s@.len(),
        r is None ==> first_occurrence(s@, p@) is None,
{
    let n = s.unicode_len();
    let mut i: usize = 0;
    while i < n
        invariant
            n == s@.len(),
            i <= n,
            forall|j: int| 0 <= j < i ==> !occurs(s@, p@, j),
        decreases n - i,
    {
        if occurs_at(s, p, i) {
            proof {
                assert(occurs(s@, p@, i as int));
                let k = choose|k: int| #[trigger] occurs(s@, p@, k) && forall|j: int| 0 <= j < k ==> !occurs(s@, p@, j);
                assert(k == i);
            }
            return Some(i);
        }
        i += 1;
    }
    if occurs_at(s, p, n) {
        proof {
            assert(occurs(s@, p@, n as int));
            let k = choose|k: int| #[trigger] occurs(s@, p@, k) && forall|j: int| 0 <= j < k ==> !occurs(s@, p@, j);
            assert(k == n);
        }
        return Some(n);
    }
    proof {
        assert forall|k: int| !#[trigger] occurs(s@, p@, k) by {
            if occurs(s@, p@, k) {
                assert(k <= n);
            }
        }
    }
    None
}

/// The address with `token@` put before its first `github.com`, if it has one.
fn insert_token(url: &str, token: &str) -> (r: String)
    ensures
        r@ == with_token(url@, Some(token@)),
{
    match find_text(url, "github.com") {
        Some(i) => {
            let n = url.unicode_len();
            let mut v = String::from_str(url.substring_char(0, i));
            v.append(token);
            v.append("@");
            v.append(url.substring_char(i, n));
            v
        },
        None => String::from_str(url),
    }
}

/// `s` without one trailing `/`.
fn strip_trailing_slash(s: String) -> (r: String)
    ensures
        r@ == without_trailing_slash(s@),
{
    let len = s.unicode_len();
    if len > 0 && s.as_str().get_char(len - 1) == '/' {
        let t = String::from_str(s.as_str().substring_char(0, len - 1));
        assert(t@ =~= s@.drop_last());
        t
    } else {
        s
    }
}

/// The address that `git clone` is given for `url`: with the access token put before
/// `github.com` when there is one, without a trailing `/`, and with `.git` appended.
pub fn clone_url(url: &str, token: Option<&str>) -> (r: String)
    ensures
        r@ == without_trailing_slash(with_token(url@, match token { Some(t) => Some(t@), None => None })) + ".git"@,
{
    let u = match token {
        Some(t) => insert_token(url, t),
        None => String::from_str(url),
    };
    let mut r = strip_trailing_slash(u);
    r.append(".git");
    r
}

} // verus!
