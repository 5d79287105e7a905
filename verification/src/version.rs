//! Semantic versions, their precedence and their text form.
use vstd::prelude::*;
use crate::identifiers::{
    build_rank, build_valid, check_build, check_prerelease, compare_build, compare_prerelease,
    empty_identifier, prerelease_rank, prerelease_valid,
};
use crate::text::{decimal, decimal_string};

verus! {

/// Abstract value of a semantic version.
pub ghost struct VersionModel {
    pub major: u64,
    pub minor: u64,
    pub patch: u64,
    pub pre: Seq<char>,
    pub build: Seq<char>,
}

impl VersionModel {
    /// The pre-release and build texts are ones that `semver` accepts.
    pub open spec fn wf(self) -> bool {
        prerelease_valid(self.pre) && build_valid(self.build)
    }
}

/// Three-way comparison of two numbers: -1, 0 or 1.
pub open spec fn num_rank(a: u64, b: u64) -> int {
    if a < b {
        -1
    } else if a > b {
        1
    } else {
        0
    }
}

/// The precedence of `semver::Version` (its derived `Ord`): major, minor and patch numerically,
/// then the pre-release (a release ranks above its pre-releases), then the build metadata.
pub open spec fn version_rank(a: VersionModel, b: VersionModel) -> int {
    if a.major != b.major {
        num_rank(a.major, b.major)
    } else if a.minor != b.minor {
        num_rank(a.minor, b.minor)
    } else if a.patch != b.patch {
        num_rank(a.patch, b.patch)
    } else if a.pre != b.pre {
        prerelease_rank(a.pre, b.pre)
    } else if a.build != b.build {
        build_rank(a.build, b.build)
    } else {
        0
    }
}

/// `a` precedes `b`.
pub open spec fn version_lt(a: VersionModel, b: VersionModel) -> bool {
    version_rank(a, b) < 0
}

/// The version `major.minor.patch` with the given pre-release and no build metadata.
pub open spec fn point(major: u64, minor: u64, patch: u64, pre: Seq<char>) -> VersionModel {
    VersionModel { major, minor, patch, pre, build: Seq::empty() }
}

/// What `semver::Version::parse` makes of a text: `None` where it fails.
pub uninterp spec fn parsed_version(text: Seq<char>) -> Option<VersionModel>;

/// The text that `semver::Version`'s `Display` writes.
pub open spec fn version_text(v: VersionModel) -> Seq<char> {
    decimal(v.major as nat) + seq!['.'] + decimal(v.minor as nat) + seq!['.'] + decimal(
        v.patch as nat,
    ) + (if v.pre.len() == 0 {
        Seq::empty()
    } else {
        seq!['-'] + v.pre
    }) + (if v.build.len() == 0 {
        Seq::empty()
    } else {
        seq!['+'] + v.build
    })
}

/// A semantic version: `major.minor.patch[-pre][+build]`, whose pre-release and build texts
/// are ones that `semver` accepts.
pub struct Version {
    pub(crate) major: u64,
    pub(crate) minor: u64,
    pub(crate) patch: u64,
    pub(crate) pre: String,
    pub(crate) build: String,
}

impl View for Version {
    type V = VersionModel;

    closed spec fn view(&self) -> VersionModel {
        VersionModel {
            major: self.major,
            minor: self.minor,
            patch: self.patch,
            pre: self.pre@,
            build: self.build@,
        }
    }
}

/// Calls `semver::Version::parse` and moves the parts of the result into a `Version`.
#[verifier::external_body]
fn parse_semver(text: &str) -> (r: Option<Version>)
    ensures
        match r {
            Some(v) => parsed_version(text@) == Some(v@) && prerelease_valid(v@.pre) && build_valid(
                v@.build,
            ),
            None => parsed_version(text@) is None,
        },
{
    let v = semver::Version::parse(text).ok()?;
    Some(Version {
        major: v.major,
        minor: v.minor,
        patch: v.patch,
        pre: v.pre.as_str().to_string(),
        build: v.build.as_str().to_string(),
    })
}

impl Clone for Version {
    fn clone(&self) -> (r: Self)
        ensures
            r@ == self@,
    {
        proof {
            use_type_invariant(self);
        }
        Version {
            major: self.major,
            minor: self.minor,
            patch: self.patch,
            pre: self.pre.clone(),
            build: self.build.clone(),
        }
    }
}

impl Version {
    /// The pre-release and build texts are ones that `semver` accepts.
    #[verifier::type_invariant]
    pub open spec fn inv(self) -> bool {
        self@.wf()
    }

    /// The major number.
    pub fn major(&self) -> (r: u64)
        ensures
            r == self@.major,
    {
        self.major
    }

    /// The minor number.
    pub fn minor(&self) -> (r: u64)
        ensures
            r == self@.minor,
    {
        self.minor
    }

    /// The patch number.
    pub fn patch(&self) -> (r: u64)
        ensures
            r == self@.patch,
    {
        self.patch
    }

    /// The pre-release text (empty for a release).
    pub fn pre(&self) -> (r: &str)
        ensures
            r@ == self@.pre,
    {
        self.pre.as_str()
    }

    /// The build-metadata text (often empty).
    pub fn build(&self) -> (r: &str)
        ensures
            r@ == self@.build,
    {
        self.build.as_str()
    }

    /// The version from its parts; `None` when `semver` would refuse the pre-release or the
    /// build text.
    pub fn from_parts(major: u64, minor: u64, patch: u64, pre: &str, build: &str) -> (r: Option<Version>)
        ensures
            r is Some <==> prerelease_valid(pre@) && build_valid(build@),
            r matches Some(v) ==> v@ == (VersionModel { major, minor, patch, pre: pre@, build: build@ }),
    {
        if check_prerelease(pre) && check_build(build) {
            Some(Version { major, minor, patch, pre: String::from_str(pre), build: String::from_str(build) })
        } else {
            None
        }
    }

    /// The version from parts already known to be valid.
    pub(crate) fn from_valid_parts(major: u64, minor: u64, patch: u64, pre: String, build: String) -> (r: Version)
        requires
            prerelease_valid(pre@),
            build_valid(build@),
        ensures
            r@ == (VersionModel { major, minor, patch, pre: pre@, build: build@ }),
    {
        Version { major, minor, patch, pre, build }
    }

    /// The release `major.minor.patch`, with no pre-release and no build metadata.
    pub fn new(major: u64, minor: u64, patch: u64) -> (r: Version)
        ensures
            r@ == point(major, minor, patch, Seq::empty()),
            r@.wf(),
    {
        Version { major, minor, patch, pre: empty_identifier(), build: empty_identifier() }
    }

    /// `major.minor.patch-pre`, with no build metadata; `pre` must be a valid pre-release.
    pub(crate) fn with_pre(major: u64, minor: u64, patch: u64, pre: &String) -> (r: Version)
        requires
            prerelease_valid(pre@),
        ensures
            r@ == point(major, minor, patch, pre@),
            r@.wf(),
    {
        Version { major, minor, patch, pre: pre.clone(), build: empty_identifier() }
    }

    /// Parses a version as `semver::Version::parse` does.
    pub fn parse(text: &str) -> (r: Option<Version>)
        ensures
            r matches Some(v) ==> v@.wf(),
            r.is_some() == parsed_version(text@).is_some(),
            r matches Some(v) ==> parsed_version(text@) == Some(v@),
    {
        parse_semver(text)
    }

    /// Equality of all five parts.
    pub fn equals(&self, other: &Version) -> (r: bool)
        ensures
            r == (self@ == other@),
            self@.wf(),
            other@.wf(),
    {
        proof {
            use_type_invariant(self);
            use_type_invariant(other);
        }
        self.major == other.major && self.minor == other.minor && self.patch == other.patch
            && self.pre == other.pre && self.build == other.build
    }

    /// Precedence of two well-formed versions: -1, 0 or 1 as `self` is lower, equal or higher.
    /// Besides the value, it states the facts of a total order that concern the two versions.
    pub fn rank(&self, other: &Version) -> (r: i8)
        ensures
            self@.wf(),
            other@.wf(),
            r == version_rank(self@, other@),
            -1 <= r <= 1,
            (r == 0) == (self@ == other@),
            version_rank(other@, self@) == -r,
            r < 0 ==> forall|z: VersionModel|
                z.wf() && #[trigger] version_rank(other@, z) < 0 ==> version_rank(self@, z) < 0,
            r > 0 ==> forall|z: VersionModel|
                z.wf() && #[trigger] version_rank(other@, z) > 0 ==> version_rank(self@, z) > 0,
            r < 0 ==> forall|z: VersionModel|
                z.wf() && #[trigger] version_rank(z, self@) < 0 ==> version_rank(z, other@) < 0,
            r > 0 ==> forall|z: VersionModel|
                z.wf() && #[trigger] version_rank(z, self@) > 0 ==> version_rank(z, other@) > 0,
    {
        proof {
            use_type_invariant(self);
            use_type_invariant(other);
        }
        if self.major != other.major {
            if self.major < other.major { -1 } else { 1 }
        } else if self.minor != other.minor {
            if self.minor < other.minor { -1 } else { 1 }
        } else if self.patch != other.patch {
            if self.patch < other.patch { -1 } else { 1 }
        } else if self.pre != other.pre {
            let r = compare_prerelease(self.pre.as_str(), other.pre.as_str());
            assert(r != 0);
            r
        } else if self.build != other.build {
            let r = compare_build(self.build.as_str(), other.build.as_str());
            r
        } else {
            0
        }
    }

    /// Whether `self` precedes `other`.
    pub fn precedes(&self, other: &Version) -> (r: bool)
        ensures
            r == version_lt(self@, other@),
    {
        self.rank(other) < 0
    }

    /// The text that `semver::Version`'s `Display` writes.
    pub fn to_text(&self) -> (r: String)
        ensures
            r@ == version_text(self@),
            self@.wf(),
    {
        proof {
            use_type_invariant(self);
        }
        let mut s = decimal_string(self.major);
        s.append(".");
        let m = decimal_string(self.minor);
        s.append(m.as_str());
        s.append(".");
        let p = decimal_string(self.patch);
        s.append(p.as_str());
        if self.pre.unicode_len() != 0 {
            s.append("-");
            s.append(self.pre.as_str());
        }
        if self.build.unicode_len() != 0 {
            s.append("+");
            s.append(self.build.as_str());
        }
        proof {
            reveal_strlit(".");
            reveal_strlit("-");
            reveal_strlit("+");
        }
        s
    }
}

/// A version as the dependency resolver handles it.
pub struct VersionWrapper(pub Version);

impl From<Version> for VersionWrapper {
    fn from(v: Version) -> (r: VersionWrapper) {
        VersionWrapper(v)
    }
}

impl vstd::std_specs::convert::FromSpecImpl<Version> for VersionWrapper {
    open spec fn obeys_from_spec() -> bool {
        true
    }

    open spec fn from_spec(v: Version) -> VersionWrapper {
        VersionWrapper(v)
    }
}

impl From<VersionWrapper> for Version {
    fn from(w: VersionWrapper) -> (r: Version) {
        w.0
    }
}

impl vstd::std_specs::convert::FromSpecImpl<VersionWrapper> for Version {
    open spec fn obeys_from_spec() -> bool {
        true
    }

    open spec fn from_spec(w: VersionWrapper) -> Version {
        w.0
    }
}

impl VersionWrapper {
    /// The lowest version, `0.0.0`.
    pub fn lowest() -> (r: VersionWrapper)
        ensures
            r.0@ == point(0, 0, 0, Seq::empty()),
    {
        VersionWrapper(Version::new(0, 0, 0))
    }

    /// The same version with a patch number one higher; the pre-release and build metadata
    /// stay.
    pub fn bump(&self) -> (r: VersionWrapper)
        requires
            self.0@.patch < u64::MAX,
        ensures
            r.0@ == (VersionModel { patch: (self.0@.patch + 1) as u64, ..self.0@ }),
    {
        proof {
            use_type_invariant(&self.0);
        }
        let v = &self.0;
        VersionWrapper(Version {
            major: v.major,
            minor: v.minor,
            patch: v.patch + 1,
            pre: v.pre.clone(),
            build: v.build.clone(),
        })
    }
}

} // verus!
