//! Version requirements and the sets of versions that they admit.
//!
//! A requirement such as `>=1.0.0, <1.5.0` is a list of comparators; `req_to_range` turns it
//! into a `VersionRange`, the set of well-formed versions that every comparator admits.
use vstd::prelude::*;
use crate::identifiers::{empty_identifier, prerelease_valid};
use crate::version::{point, version_lt, Version, VersionModel};

verus! {

/// The operator of a comparator.
#[derive(Clone, Copy, Debug, PartialEq, Eq, Structural)]
pub enum Op {
    Exact,
    Greater,
    GreaterEq,
    Less,
    LessEq,
    Tilde,
    Caret,
    Wildcard,
}

/// One comparator of a requirement, such as `^1.2` (major 1, minor 2, no patch).
pub struct Comparator {
    pub op: Op,
    pub major: u64,
    pub minor: Option<u64>,
    pub patch: Option<u64>,
    pub pre: String,
}

impl Clone for Comparator {
    fn clone(&self) -> (r: Self)
        ensures
            r@ == self@,
    {
        Comparator {
            op: self.op,
            major: self.major,
            minor: self.minor,
            patch: self.patch,
            pre: self.pre.clone(),
        }
    }
}

/// Abstract value of a comparator.
pub ghost struct ComparatorModel {
    pub op: Op,
    pub major: u64,
    pub minor: Option<u64>,
    pub patch: Option<u64>,
    pub pre: Seq<char>,
}

impl View for Comparator {
    type V = ComparatorModel;

    open spec fn view(&self) -> ComparatorModel {
        ComparatorModel {
            op: self.op,
            major: self.major,
            minor: self.minor,
            patch: self.patch,
            pre: self.pre@,
        }
    }
}

/// The views of a sequence of comparators.
pub open spec fn comparators_view(cs: Seq<Comparator>) -> Seq<ComparatorModel> {
    cs.map_values(|c: Comparator| c@)
}

/// What `semver::VersionReq::parse` makes of a text, comparator by comparator; `None` where it
/// fails.
pub uninterp spec fn parsed_requirement(text: Seq<char>) -> Option<Seq<ComparatorModel>>;

/// What `semver::VersionReq::matches` answers for the requirement parsed from `text` and the
/// version `v` (Cargo's rules, pre-releases included).
pub uninterp spec fn requirement_matches(text: Seq<char>, v: VersionModel) -> bool;

/// Calls `semver::VersionReq::parse` and moves each comparator into a `Comparator`. The
/// operators of `semver` 1.0 are the eight of `Op`; one it might add later makes the result
/// `None`.
#[verifier::external_body]
fn parse_semver_req(text: &str) -> (r: Option<Vec<Comparator>>)
    ensures
        match r {
            Some(cs) => parsed_requirement(text@) == Some(comparators_view(cs@)) && forall|i: int|
                0 <= i < cs.len() ==> prerelease_valid(#[trigger] cs@[i].pre@),
            None => parsed_requirement(text@) is None,
        },
{
    let req = semver::VersionReq::parse(text).ok()?;
    req.comparators.iter().map(|c| Some(Comparator {
        op: match c.op {
            semver::Op::Exact => Op::Exact, semver::Op::Greater => Op::Greater, semver::Op::GreaterEq => Op::GreaterEq,
            semver::Op::Less => Op::Less, semver::Op::LessEq => Op::LessEq, semver::Op::Tilde => Op::Tilde,
            semver::Op::Caret => Op::Caret, semver::Op::Wildcard => Op::Wildcard, _ => return None,
        },
        major: c.major, minor: c.minor, patch: c.patch, pre: c.pre.as_str().to_string(),
    })).collect()
}

/// Calls `semver::VersionReq::matches` on the requirement parsed from `text` and on `v`, rebuilt
/// as a `semver::Version` from its parts (valid ones, by the `requires`).
#[verifier::external_body]
fn semver_req_matches(text: &str, v: &Version) -> (r: bool)
    requires
        parsed_requirement(text@) is Some,
        v@.wf(),
    ensures
        r == requirement_matches(text@, v@),
{
    let version = semver::Version {
        major: v.major, minor: v.minor, patch: v.patch,
        pre: semver::Prerelease::new(&v.pre).unwrap(),
        build: semver::BuildMetadata::new(&v.build).unwrap(),
    };
    semver::VersionReq::parse(text).unwrap().matches(&version)
}

/// A version requirement: the text it was parsed from and its comparators.
pub struct VersionReq {
    text: String,
    comparators: Vec<Comparator>,
}

impl View for VersionReq {
    type V = Seq<ComparatorModel>;

    closed spec fn view(&self) -> Seq<ComparatorModel> {
        comparators_view(self.comparators@)
    }
}

impl Clone for VersionReq {
    fn clone(&self) -> (r: Self)
        ensures
            r@ == self@,
            r.source() == self.source(),
    {
        proof {
            use_type_invariant(self);
        }
        let mut cs: Vec<Comparator> = Vec::new();
        let mut i: usize = 0;
        while i < self.comparators.len()
            invariant
                i <= self.comparators.len(),
                cs@.len() == i,
                forall|j: int| 0 <= j < i ==> (#[trigger] cs@[j])@ == self.comparators@[j]@,
                forall|j: int| 0 <= j < self.comparators.len() ==> prerelease_valid(#[trigger] self.comparators@[j].pre@),
            decreases self.comparators.len() - i,
        {
            cs.push(self.comparators[i].clone());
            i += 1;
        }
        assert(comparators_view(cs@) =~= comparators_view(self.comparators@));
        VersionReq { text: self.text.clone(), comparators: cs }
    }
}

impl VersionReq {
    #[verifier::type_invariant]
    spec fn inv(self) -> bool {
        &&& parsed_requirement(self.text@) == Some(comparators_view(self.comparators@))
        &&& forall|i: int|
            0 <= i < self.comparators.len() ==> prerelease_valid(#[trigger] self.comparators@[i].pre@)
    }

    /// The text the requirement was parsed from.
    pub closed spec fn source(self) -> Seq<char> {
        self.text@
    }

    /// Parses a requirement as `semver::VersionReq::parse` does.
    pub fn parse(text: &str) -> (r: Option<VersionReq>)
        ensures
            r.is_some() == parsed_requirement(text@).is_some(),
            r matches Some(req) ==> parsed_requirement(text@) == Some(req@) && req.source() == text@,
    {
        match parse_semver_req(text) {
            Some(cs) => Some(VersionReq { text: String::from_str(text), comparators: cs }),
            None => None,
        }
    }

    /// The text the requirement was parsed from.
    pub fn text(&self) -> (r: &str)
        ensures
            r@ == self.source(),
    {
        self.text.as_str()
    }

    /// The comparators, in the order written.
    pub fn comparators(&self) -> (r: &Vec<Comparator>)
        ensures
            comparators_view(r@) == self@,
            forall|i: int| 0 <= i < r.len() ==> prerelease_valid(#[trigger] r@[i].pre@),
    {
        proof {
            use_type_invariant(self);
        }
        &self.comparators
    }

    /// Whether every comparator leaves room for the `+ 1` that `req_to_range` adds (see
    /// `comparator_fits`).
    pub fn fits(&self) -> (r: bool)
        ensures
            r == requirement_fits(self@),
    {
        let cs = self.comparators();
        let mut i: usize = 0;
        while i < cs.len()
            invariant
                i <= cs.len(),
                comparators_view(cs@) == self@,
                forall|j: int| 0 <= j < i ==> comparator_fits(#[trigger] self@[j]),
            decreases cs.len() - i,
        {
            let c = &cs[i];
            assert(self@[i as int] == c@);
            let major_ok = c.major < u64::MAX;
            let minor_ok = match c.minor {
                Some(y) => y < u64::MAX,
                None => false,
            };
            let ok = match (c.op, c.minor, c.patch) {
                (Op::Exact, Some(_), Some(_)) => true,
                (Op::Exact, Some(_), None) => minor_ok,
                (Op::Exact, None, _) => major_ok,
                (Op::Greater, Some(_), Some(_)) => true,
                (Op::Greater, Some(_), None) => minor_ok,
                (Op::Greater, None, _) => major_ok,
                (Op::GreaterEq, _, _) => true,
                (Op::Less, _, _) => true,
                (Op::LessEq, Some(_), Some(_)) => true,
                (Op::LessEq, Some(_), None) => minor_ok,
                (Op::LessEq, None, _) => major_ok,
                (Op::Tilde, Some(_), _) => minor_ok,
                (Op::Tilde, None, _) => major_ok,
                (Op::Caret, Some(y), Some(_)) => if c.major == 0 && y == 0 { true } else if c.major == 0 { minor_ok } else { major_ok },
                (Op::Caret, Some(y), None) => if c.major == 0 && y == 0 { true } else if c.major == 0 { minor_ok } else { major_ok },
                (Op::Caret, None, _) => major_ok,
                (Op::Wildcard, Some(_), _) => minor_ok,
                (Op::Wildcard, None, _) => major_ok,
            };
            if !ok {
                return false;
            }
            i += 1;
        }
        true
    }

    /// Whether the two requirements have the same comparators (their texts may differ).
    pub fn same_comparators(&self, other: &VersionReq) -> (r: bool)
        ensures
            r == (self@ == other@),
    {
        let a = self.comparators();
        let b = other.comparators();
        if a.len() != b.len() {
            assert(comparators_view(a@).len() != comparators_view(b@).len());
            return false;
        }
        let mut i: usize = 0;
        while i < a.len()
            invariant
                i <= a.len(),
                a.len() == b.len(),
                comparators_view(a@) == self@,
                comparators_view(b@) == other@,
                forall|j: int| 0 <= j < i ==> (#[trigger] a@[j])@ == b@[j]@,
            decreases a.len() - i,
        {
            let x = &a[i];
            let y = &b[i];
            let same_minor = match (x.minor, y.minor) {
                (Some(p), Some(q)) => p == q,
                (None, None) => true,
                _ => false,
            };
            let same_patch = match (x.patch, y.patch) {
                (Some(p), Some(q)) => p == q,
                (None, None) => true,
                _ => false,
            };
            if !(x.op == y.op && x.major == y.major && same_minor && same_patch && x.pre == y.pre) {
                assert(self@[i as int] == x@ && other@[i as int] == y@);
                return false;
            }
            i += 1;
        }
        assert(self@ =~= other@);
        true
    }

    /// Whether `semver` says that the requirement matches `v`.
    pub fn matches(&self, v: &Version) -> (r: bool)
        ensures
            r == requirement_matches(self.source(), v@),
            v@.wf(),
    {
        proof {
            use_type_invariant(self);
            use_type_invariant(v);
        }
        semver_req_matches(self.text.as_str(), v)
    }
}

/// How a bound limits versions.
#[derive(Clone, Copy, Debug, PartialEq, Eq)]
pub enum BoundKind {
    /// strictly higher than the bound's version
    Above,
    /// the bound's version or higher
    AtLeast,
    /// strictly lower than the bound's version
    Below,
    /// the bound's version or lower
    AtMost,
    /// exactly the bound's version
    Exactly,
}

/// A limit on versions.
pub struct Bound {
    pub kind: BoundKind,
    pub version: Version,
}

/// Abstract value of a bound.
pub ghost struct BoundModel {
    pub kind: BoundKind,
    pub version: VersionModel,
}

impl View for Bound {
    type V = BoundModel;

    open spec fn view(&self) -> BoundModel {
        BoundModel { kind: self.kind, version: self.version@ }
    }
}

/// Whether the bound lets `v` through.
pub open spec fn bound_admits(b: BoundModel, v: VersionModel) -> bool {
    match b.kind {
        BoundKind::Above => version_lt(b.version, v),
        BoundKind::AtLeast => !version_lt(v, b.version),
        BoundKind::Below => version_lt(v, b.version),
        BoundKind::AtMost => version_lt(v, b.version) || v == b.version,
        BoundKind::Exactly => v == b.version,
    }
}

/// Whether every bound lets `v` through.
pub open spec fn bounds_admit(bs: Seq<BoundModel>, v: VersionModel) -> bool {
    forall|i: int| 0 <= i < bs.len() ==> bound_admits(#[trigger] bs[i], v)
}

/// A set of versions: the well-formed versions that all of its bounds let through. With no
/// bound it holds every well-formed version.
pub struct VersionRange {
    bounds: Vec<Bound>,
}

impl View for VersionRange {
    type V = Seq<BoundModel>;

    closed spec fn view(&self) -> Seq<BoundModel> {
        self.bounds@.map_values(|b: Bound| b@)
    }
}

impl VersionRange {
    #[verifier::type_invariant]
    spec fn inv(self) -> bool {
        forall|i: int| 0 <= i < self.bounds.len() ==> (#[trigger] self.bounds@[i]).version@.wf()
    }

    /// Whether the range holds `v`.
    pub open spec fn admits(self, v: VersionModel) -> bool {
        v.wf() && bounds_admit(self@, v)
    }

    /// The bounds of the range: it holds the well-formed versions that all of them let
    /// through.
    pub fn bounds(&self) -> (r: &Vec<Bound>)
        ensures
            r@.map_values(|b: Bound| b@) == self@,
    {
        &self.bounds
    }

    /// The range of all versions.
    pub fn full() -> (r: VersionRange)
        ensures
            r@ == Seq::<BoundModel>::empty(),
            forall|v: VersionModel| #[trigger] r.admits(v) <==> v.wf(),
    {
        let r = VersionRange { bounds: Vec::new() };
        assert(r@ =~= Seq::<BoundModel>::empty());
        r
    }

    /// The range of one bound.
    fn single(kind: BoundKind, version: Version) -> (r: VersionRange)
        requires
            version@.wf(),
        ensures
            forall|v: VersionModel| #[trigger] r.admits(v) <==> v.wf() && bound_admits(
                BoundModel { kind, version: version@ },
                v,
            ),
    {
        let ghost m = version@;
        let mut bounds = Vec::new();
        bounds.push(Bound { kind, version });
        let r = VersionRange { bounds };
        assert(r@ =~= seq![BoundModel { kind, version: m }]);
        assert forall|v: VersionModel| #[trigger] r.admits(v) <==> v.wf() && bound_admits(
            BoundModel { kind, version: m },
            v,
        ) by {
            if v.wf() && bound_admits(BoundModel { kind, version: m }, v) {
                assert(bounds_admit(r@, v));
            }
            if r.admits(v) {
                assert(bound_admits(r@[0], v));
            }
        }
        r
    }

    /// The versions that both ranges hold.
    pub fn intersection(&self, other: &VersionRange) -> (r: VersionRange)
        ensures
            forall|v: VersionModel| #[trigger] r.admits(v) <==> self.admits(v) && other.admits(v),
    {
        proof {
            use_type_invariant(self);
            use_type_invariant(other);
        }
        let mut bounds: Vec<Bound> = Vec::new();
        let mut i: usize = 0;
        while i < self.bounds.len()
            invariant
                i <= self.bounds.len(),
                bounds.len() == i,
                forall|j: int| 0 <= j < i ==> (#[trigger] bounds@[j])@ == self.bounds@[j]@,
                forall|j: int| 0 <= j < self.bounds.len() ==> (#[trigger] self.bounds@[j]).version@.wf(),
            decreases self.bounds.len() - i,
        {
            let b = &self.bounds[i];
            bounds.push(Bound { kind: b.kind, version: b.version.clone() });
            i += 1;
        }
        let mut k: usize = 0;
        while k < other.bounds.len()
            invariant
                k <= other.bounds.len(),
                bounds.len() == self.bounds.len() + k,
                forall|j: int| 0 <= j < self.bounds.len() ==> (#[trigger] bounds@[j])@ == self.bounds@[j]@,
                forall|j: int|
                    0 <= j < k ==> (#[trigger] bounds@[self.bounds.len() + j])@ == other.bounds@[j]@,
                forall|j: int| 0 <= j < other.bounds.len() ==> (#[trigger] other.bounds@[j]).version@.wf(),
                forall|j: int| 0 <= j < self.bounds.len() ==> (#[trigger] self.bounds@[j]).version@.wf(),
            decreases other.bounds.len() - k,
        {
            let b = &other.bounds[k];
            bounds.push(Bound { kind: b.kind, version: b.version.clone() });
            k += 1;
        }
        assert forall|j: int| 0 <= j < bounds.len() implies (#[trigger] bounds@[j]).version@.wf() by {
            if j < self.bounds.len() {
                assert(bounds@[j]@ == self.bounds@[j]@);
            } else {
                let jj = j - self.bounds.len();
                assert(bounds@[self.bounds.len() + jj]@ == other.bounds@[jj]@);
            }
        }
        let r = VersionRange { bounds };
        assert forall|j: int| 0 <= j < r@.len() implies #[trigger] r@[j] == (self@ + other@)[j] by {
            if j < self.bounds.len() {
                assert(bounds@[j]@ == self.bounds@[j]@);
            } else {
                let jj = j - self.bounds.len();
                assert(bounds@[self.bounds.len() + jj]@ == other.bounds@[jj]@);
            }
        }
        assert(r@ =~= self@ + other@);
        assert forall|v: VersionModel| #[trigger] r.admits(v) <==> self.admits(v) && other.admits(v) by {
            let n = self@.len();
            if self.admits(v) && other.admits(v) {
                assert forall|j: int| 0 <= j < r@.len() implies bound_admits(#[trigger] r@[j], v) by {
                    if j < n {
                        assert(r@[j] == self@[j]);
                    } else {
                        assert(r@[j] == other@[j - n]);
                    }
                }
            }
            if r.admits(v) {
                assert forall|j: int| 0 <= j < self@.len() implies bound_admits(#[trigger] self@[j], v) by {
                    assert(r@[j] == self@[j]);
                }
                assert forall|j: int| 0 <= j < other@.len() implies bound_admits(#[trigger] other@[j], v) by {
                    assert(r@[n + j] == other@[j]);
                }
            }
        }
        r
    }

    /// Whether the range holds `v`.
    pub fn contains(&self, v: &Version) -> (r: bool)
        ensures
            r == self.admits(v@),
            v@.wf(),
    {
        proof {
            use_type_invariant(self);
            use_type_invariant(v);
        }
        let mut i: usize = 0;
        while i < self.bounds.len()
            invariant
                i <= self.bounds.len(),
                v@.wf(),
                forall|j: int| 0 <= j < self.bounds.len() ==> (#[trigger] self.bounds@[j]).version@.wf(),
                forall|j: int| 0 <= j < i ==> bound_admits(#[trigger] self@[j], v@),
            decreases self.bounds.len() - i,
        {
            let b = &self.bounds[i];
            assert(self@[i as int] == b@);
            let ok = match b.kind {
                BoundKind::Above => b.version.precedes(v),
                BoundKind::AtLeast => !v.precedes(&b.version),
                BoundKind::Below => v.precedes(&b.version),
                BoundKind::AtMost => v.precedes(&b.version) || v.equals(&b.version),
                BoundKind::Exactly => v.equals(&b.version),
            };
            if !ok {
                return false;
            }
            i += 1;
        }
        true
    }
}


/// `v` is not lower than `p`.
pub open spec fn at_least(v: VersionModel, p: VersionModel) -> bool {
    !version_lt(v, p)
}

/// The release `major.minor.patch` (no pre-release).
pub open spec fn release(major: u64, minor: u64, patch: u64) -> VersionModel {
    point(major, minor, patch, Seq::empty())
}

/// The versions that `comparator` admits, as `req_to_range` reads each operator.
pub open spec fn comparator_admits(c: ComparatorModel, v: VersionModel) -> bool {
    let x = c.major;
    match (c.op, c.minor, c.patch) {
        (Op::Exact, Some(y), Some(z)) => v == point(x, y, z, c.pre),
        (Op::Exact, Some(y), None) => at_least(v, release(x, y, 0)) && version_lt(v, release(x, (y + 1) as u64, 0)),
        (Op::Exact, None, _) => at_least(v, release(x, 0, 0)) && version_lt(v, release((x + 1) as u64, 0, 0)),
        (Op::Greater, Some(y), Some(z)) => version_lt(point(x, y, z, c.pre), v),
        (Op::Greater, Some(y), None) => at_least(v, release(x, (y + 1) as u64, 0)),
        (Op::Greater, None, _) => at_least(v, release((x + 1) as u64, 0, 0)),
        (Op::GreaterEq, Some(y), Some(z)) => at_least(v, point(x, y, z, c.pre)),
        (Op::GreaterEq, Some(y), None) => at_least(v, release(x, y, 0)),
        (Op::GreaterEq, None, _) => at_least(v, release(x, 0, 0)),
        (Op::Less, Some(y), Some(z)) => version_lt(v, point(x, y, z, c.pre)),
        (Op::Less, Some(y), None) => version_lt(v, release(x, y, 0)),
        (Op::Less, None, _) => version_lt(v, release(x, 0, 0)),
        (Op::LessEq, Some(y), Some(z)) => version_lt(v, point(x, y, z, c.pre)) || v == point(x, y, z, c.pre),
        (Op::LessEq, Some(y), None) => version_lt(v, release(x, (y + 1) as u64, 0)),
        (Op::LessEq, None, _) => version_lt(v, release((x + 1) as u64, 0, 0)),
        (Op::Tilde, Some(y), Some(z)) => at_least(v, point(x, y, z, c.pre)) && version_lt(v, release(x, (y + 1) as u64, 0)),
        (Op::Tilde, Some(y), None) => at_least(v, release(x, y, 0)) && version_lt(v, release(x, (y + 1) as u64, 0)),
        (Op::Tilde, None, _) => at_least(v, release(x, 0, 0)) && version_lt(v, release((x + 1) as u64, 0, 0)),
        (Op::Caret, Some(y), Some(z)) => if x == 0 && y == 0 {
            v == point(0, 0, z, c.pre)
        } else if x == 0 {
            at_least(v, point(0, y, z, c.pre)) && version_lt(v, release(0, (y + 1) as u64, 0))
        } else {
            at_least(v, point(x, y, z, c.pre)) && version_lt(v, release((x + 1) as u64, 0, 0))
        },
        (Op::Caret, Some(y), None) => if x == 0 && y == 0 {
            at_least(v, release(0, 0, 0)) && version_lt(v, release(0, 1, 0))
        } else if x == 0 {
            at_least(v, release(0, y, 0)) && version_lt(v, release(0, (y + 1) as u64, 0))
        } else {
            at_least(v, release(x, y, 0)) && version_lt(v, release((x + 1) as u64, 0, 0))
        },
        (Op::Caret, None, _) => at_least(v, release(x, 0, 0)) && version_lt(v, release((x + 1) as u64, 0, 0)),
        (Op::Wildcard, Some(y), _) => at_least(v, release(x, y, 0)) && version_lt(v, release(x, (y + 1) as u64, 0)),
        (Op::Wildcard, None, _) => at_least(v, release(x, 0, 0)) && version_lt(v, release((x + 1) as u64, 0, 0)),
    }
}

/// The numbers of `c` leave room for the `+ 1` that its operator needs (`req_to_range` adds
/// one to the major or minor number for these forms, which overflows at `u64::MAX`).
pub open spec fn comparator_fits(c: ComparatorModel) -> bool {
    let major_ok = c.major < u64::MAX;
    let minor_ok = c.minor matches Some(y) && y < u64::MAX;
    match (c.op, c.minor, c.patch) {
        (Op::Exact, Some(_), Some(_)) => true,
        (Op::Exact, Some(_), None) => minor_ok,
        (Op::Exact, None, _) => major_ok,
        (Op::Greater, Some(_), Some(_)) => true,
        (Op::Greater, Some(_), None) => minor_ok,
        (Op::Greater, None, _) => major_ok,
        (Op::GreaterEq, _, _) => true,
        (Op::Less, _, _) => true,
        (Op::LessEq, Some(_), Some(_)) => true,
        (Op::LessEq, Some(_), None) => minor_ok,
        (Op::LessEq, None, _) => major_ok,
        (Op::Tilde, Some(_), _) => minor_ok,
        (Op::Tilde, None, _) => major_ok,
        (Op::Caret, Some(y), Some(_)) => if c.major == 0 && y == 0 {
            true
        } else if c.major == 0 {
            minor_ok
        } else {
            major_ok
        },
        (Op::Caret, Some(y), None) => if c.major == 0 && y == 0 {
            true
        } else if c.major == 0 {
            minor_ok
        } else {
            major_ok
        },
        (Op::Caret, None, _) => major_ok,
        (Op::Wildcard, Some(_), _) => minor_ok,
        (Op::Wildcard, None, _) => major_ok,
    }
}

/// Exactly `major.minor.patch-pre`.
fn exact_xyz(major: u64, minor: u64, patch: u64, pre: &String) -> (r: VersionRange)
    requires
        prerelease_valid(pre@),
    ensures
        forall|v: VersionModel| #[trigger] r.admits(v) <==> v.wf() && v == point(major, minor, patch, pre@),
{
    VersionRange::single(BoundKind::Exactly, Version::with_pre(major, minor, patch, pre))
}

/// `major.minor.0` up to (not including) `major.(minor+1).0`.
fn exact_xy(major: u64, minor: u64) -> (r: VersionRange)
    requires
        minor < u64::MAX,
    ensures
        forall|v: VersionModel| #[trigger] r.admits(v) <==> v.wf() && at_least(v, release(major, minor, 0))
            && version_lt(v, release(major, (minor + 1) as u64, 0)),
{
    let e = empty_identifier();
    greater_eq_xyz(major, minor, 0, &e).intersection(&less_xyz(major, minor + 1, 0, &e))
}

/// `major.0.0` up to (not including) `(major+1).0.0`.
fn exact_x(major: u64) -> (r: VersionRange)
    requires
        major < u64::MAX,
    ensures
        forall|v: VersionModel| #[trigger] r.admits(v) <==> v.wf() && at_least(v, release(major, 0, 0))
            && version_lt(v, release((major + 1) as u64, 0, 0)),
{
    let e = empty_identifier();
    greater_eq_xyz(major, 0, 0, &e).intersection(&less_xyz(major + 1, 0, 0, &e))
}

/// Strictly higher than `major.minor.patch-pre`.
fn greater_xyz(major: u64, minor: u64, patch: u64, pre: &String) -> (r: VersionRange)
    requires
        prerelease_valid(pre@),
    ensures
        forall|v: VersionModel| #[trigger] r.admits(v) <==> v.wf() && version_lt(point(major, minor, patch, pre@), v),
{
    VersionRange::single(BoundKind::Above, Version::with_pre(major, minor, patch, pre))
}

/// `major.(minor+1).0` or higher.
fn greater_xy(major: u64, minor: u64) -> (r: VersionRange)
    requires
        minor < u64::MAX,
    ensures
        forall|v: VersionModel| #[trigger] r.admits(v) <==> v.wf() && at_least(v, release(major, (minor + 1) as u64, 0)),
{
    greater_eq_xyz(major, minor + 1, 0, &empty_identifier())
}

/// `(major+1).0.0` or higher.
fn greater_x(major: u64) -> (r: VersionRange)
    requires
        major < u64::MAX,
    ensures
        forall|v: VersionModel| #[trigger] r.admits(v) <==> v.wf() && at_least(v, release((major + 1) as u64, 0, 0)),
{
    greater_eq_xyz(major + 1, 0, 0, &empty_identifier())
}

/// `major.minor.patch-pre` or higher.
fn greater_eq_xyz(major: u64, minor: u64, patch: u64, pre: &String) -> (r: VersionRange)
    requires
        prerelease_valid(pre@),
    ensures
        forall|v: VersionModel| #[trigger] r.admits(v) <==> v.wf() && at_least(v, point(major, minor, patch, pre@)),
{
    VersionRange::single(BoundKind::AtLeast, Version::with_pre(major, minor, patch, pre))
}

/// `major.minor.0` or higher.
fn greater_eq_xy(major: u64, minor: u64) -> (r: VersionRange)
    ensures
        forall|v: VersionModel| #[trigger] r.admits(v) <==> v.wf() && at_least(v, release(major, minor, 0)),
{
    greater_eq_xyz(major, minor, 0, &empty_identifier())
}

/// `major.0.0` or higher.
fn greater_eq_x(major: u64) -> (r: VersionRange)
    ensures
        forall|v: VersionModel| #[trigger] r.admits(v) <==> v.wf() && at_least(v, release(major, 0, 0)),
{
    greater_eq_xyz(major, 0, 0, &empty_identifier())
}

/// Strictly lower than `major.minor.patch-pre`.
fn less_xyz(major: u64, minor: u64, patch: u64, pre: &String) -> (r: VersionRange)
    requires
        prerelease_valid(pre@),
    ensures
        forall|v: VersionModel| #[trigger] r.admits(v) <==> v.wf() && version_lt(v, point(major, minor, patch, pre@)),
{
    VersionRange::single(BoundKind::Below, Version::with_pre(major, minor, patch, pre))
}

/// Strictly lower than `major.minor.0`.
fn less_xy(major: u64, minor: u64) -> (r: VersionRange)
    ensures
        forall|v: VersionModel| #[trigger] r.admits(v) <==> v.wf() && version_lt(v, release(major, minor, 0)),
{
    less_xyz(major, minor, 0, &empty_identifier())
}

/// Strictly lower than `major.0.0`.
fn less_x(major: u64) -> (r: VersionRange)
    ensures
        forall|v: VersionModel| #[trigger] r.admits(v) <==> v.wf() && version_lt(v, release(major, 0, 0)),
{
    less_xyz(major, 0, 0, &empty_identifier())
}

/// Lower than `major.minor.patch-pre`, or that version itself: the union of `less_xyz` and
/// `exact_xyz`.
fn less_eq_xyz(major: u64, minor: u64, patch: u64, pre: &String) -> (r: VersionRange)
    requires
        prerelease_valid(pre@),
    ensures
        forall|v: VersionModel| #[trigger] r.admits(v) <==> v.wf() && (version_lt(v, point(major, minor, patch, pre@))
            || v == point(major, minor, patch, pre@)),
{
    VersionRange::single(BoundKind::AtMost, Version::with_pre(major, minor, patch, pre))
}

/// Strictly lower than `major.(minor+1).0`.
fn less_eq_xy(major: u64, minor: u64) -> (r: VersionRange)
    requires
        minor < u64::MAX,
    ensures
        forall|v: VersionModel| #[trigger] r.admits(v) <==> v.wf() && version_lt(v, release(major, (minor + 1) as u64, 0)),
{
    less_xyz(major, minor + 1, 0, &empty_identifier())
}

/// Strictly lower than `(major+1).0.0`.
fn less_eq_x(major: u64) -> (r: VersionRange)
    requires
        major < u64::MAX,
    ensures
        forall|v: VersionModel| #[trigger] r.admits(v) <==> v.wf() && version_lt(v, release((major + 1) as u64, 0, 0)),
{
    less_xyz(major + 1, 0, 0, &empty_identifier())
}

/// `major.minor.patch-pre` or higher, below `major.(minor+1).0`.
fn tilde_xyz(major: u64, minor: u64, patch: u64, pre: &String) -> (r: VersionRange)
    requires
        prerelease_valid(pre@),
        minor < u64::MAX,
    ensures
        forall|v: VersionModel| #[trigger] r.admits(v) <==> v.wf() && at_least(v, point(major, minor, patch, pre@))
            && version_lt(v, release(major, (minor + 1) as u64, 0)),
{
    greater_eq_xyz(major, minor, patch, pre).intersection(&less_xyz(major, minor + 1, 0, &empty_identifier()))
}

/// `~major.minor`: the same as `exact_xy`.
fn tilde_xy(major: u64, minor: u64) -> (r: VersionRange)
    requires
        minor < u64::MAX,
    ensures
        forall|v: VersionModel| #[trigger] r.admits(v) <==> v.wf() && at_least(v, release(major, minor, 0))
            && version_lt(v, release(major, (minor + 1) as u64, 0)),
{
    exact_xy(major, minor)
}

/// `~major`: the same as `exact_x`.
fn tilde_x(major: u64) -> (r: VersionRange)
    requires
        major < u64::MAX,
    ensures
        forall|v: VersionModel| #[trigger] r.admits(v) <==> v.wf() && at_least(v, release(major, 0, 0))
            && version_lt(v, release((major + 1) as u64, 0, 0)),
{
    exact_x(major)
}

/// `^0.0.patch-pre`: exactly that version.
fn caret_00z(patch: u64, pre: &String) -> (r: VersionRange)
    requires
        prerelease_valid(pre@),
    ensures
        forall|v: VersionModel| #[trigger] r.admits(v) <==> v.wf() && v == point(0, 0, patch, pre@),
{
    exact_xyz(0, 0, patch, pre)
}

/// `^0.minor.patch-pre`: from that version, below `0.(minor+1).0`.
fn caret_0yz(minor: u64, patch: u64, pre: &String) -> (r: VersionRange)
    requires
        prerelease_valid(pre@),
        minor < u64::MAX,
    ensures
        forall|v: VersionModel| #[trigger] r.admits(v) <==> v.wf() && at_least(v, point(0, minor, patch, pre@))
            && version_lt(v, release(0, (minor + 1) as u64, 0)),
{
    greater_eq_xyz(0, minor, patch, pre).intersection(&less_xyz(0, minor + 1, 0, &empty_identifier()))
}

/// `^major.minor.patch-pre`: from that version, below `(major+1).0.0`.
fn caret_xyz(major: u64, minor: u64, patch: u64, pre: &String) -> (r: VersionRange)
    requires
        prerelease_valid(pre@),
        major < u64::MAX,
    ensures
        forall|v: VersionModel| #[trigger] r.admits(v) <==> v.wf() && at_least(v, point(major, minor, patch, pre@))
            && version_lt(v, release((major + 1) as u64, 0, 0)),
{
    greater_eq_xyz(major, minor, patch, pre).intersection(&less_xyz(major + 1, 0, 0, &empty_identifier()))
}

/// `^0.0`: the same as `exact_xy(0, 0)`.
fn caret_00() -> (r: VersionRange)
    ensures
        forall|v: VersionModel| #[trigger] r.admits(v) <==> v.wf() && at_least(v, release(0, 0, 0))
            && version_lt(v, release(0, 1, 0)),
{
    exact_xy(0, 0)
}

/// `^0.minor` (minor above 0): only patch bumps, the same as `caret_0yz(minor, 0)`.
fn caret_0y(minor: u64) -> (r: VersionRange)
    requires
        minor < u64::MAX,
    ensures
        forall|v: VersionModel| #[trigger] r.admits(v) <==> v.wf() && at_least(v, release(0, minor, 0))
            && version_lt(v, release(0, (minor + 1) as u64, 0)),
{
    caret_0yz(minor, 0, &empty_identifier())
}

/// `^major.minor` (major above 0): the same as `caret_xyz(major, minor, 0)`.
fn caret_xy(major: u64, minor: u64) -> (r: VersionRange)
    requires
        major < u64::MAX,
    ensures
        forall|v: VersionModel| #[trigger] r.admits(v) <==> v.wf() && at_least(v, release(major, minor, 0))
            && version_lt(v, release((major + 1) as u64, 0, 0)),
{
    caret_xyz(major, minor, 0, &empty_identifier())
}

/// `^major`: the same as `exact_x`.
fn caret_x(major: u64) -> (r: VersionRange)
    requires
        major < u64::MAX,
    ensures
        forall|v: VersionModel| #[trigger] r.admits(v) <==> v.wf() && at_least(v, release(major, 0, 0))
            && version_lt(v, release((major + 1) as u64, 0, 0)),
{
    exact_x(major)
}

/// `major.minor.*`: the same as `exact_xy`.
fn wildcard_xy(major: u64, minor: u64) -> (r: VersionRange)
    requires
        minor < u64::MAX,
    ensures
        forall|v: VersionModel| #[trigger] r.admits(v) <==> v.wf() && at_least(v, release(major, minor, 0))
            && version_lt(v, release(major, (minor + 1) as u64, 0)),
{
    exact_xy(major, minor)
}

/// `major.*`: the same as `exact_x`.
fn wildcard_x(major: u64) -> (r: VersionRange)
    requires
        major < u64::MAX,
    ensures
        forall|v: VersionModel| #[trigger] r.admits(v) <==> v.wf() && at_least(v, release(major, 0, 0))
            && version_lt(v, release((major + 1) as u64, 0, 0)),
{
    exact_x(major)
}

/// The range of one comparator.
fn comparator_range(c: &Comparator) -> (r: VersionRange)
    requires
        prerelease_valid(c.pre@),
        comparator_fits(c@),
    ensures
        forall|v: VersionModel| #[trigger] r.admits(v) <==> v.wf() && comparator_admits(c@, v),
{
    let x = c.major;
    match (c.op, c.minor, c.patch) {
        (Op::Exact, Some(y), Some(z)) => exact_xyz(x, y, z, &c.pre),
        (Op::Exact, Some(y), None) => exact_xy(x, y),
        (Op::Exact, None, _) => exact_x(x),
        (Op::Greater, Some(y), Some(z)) => greater_xyz(x, y, z, &c.pre),
        (Op::Greater, Some(y), None) => greater_xy(x, y),
        (Op::Greater, None, _) => greater_x(x),
        (Op::GreaterEq, Some(y), Some(z)) => greater_eq_xyz(x, y, z, &c.pre),
        (Op::GreaterEq, Some(y), None) => greater_eq_xy(x, y),
        (Op::GreaterEq, None, _) => greater_eq_x(x),
        (Op::Less, Some(y), Some(z)) => less_xyz(x, y, z, &c.pre),
        (Op::Less, Some(y), None) => less_xy(x, y),
        (Op::Less, None, _) => less_x(x),
        (Op::LessEq, Some(y), Some(z)) => less_eq_xyz(x, y, z, &c.pre),
        (Op::LessEq, Some(y), None) => less_eq_xy(x, y),
        (Op::LessEq, None, _) => less_eq_x(x),
        (Op::Tilde, Some(y), Some(z)) => tilde_xyz(x, y, z, &c.pre),
        (Op::Tilde, Some(y), None) => tilde_xy(x, y),
        (Op::Tilde, None, _) => tilde_x(x),
        (Op::Caret, Some(y), Some(z)) => {
            if x == 0 && y == 0 {
                caret_00z(z, &c.pre)
            } else if x == 0 {
                caret_0yz(y, z, &c.pre)
            } else {
                caret_xyz(x, y, z, &c.pre)
            }
        },
        (Op::Caret, Some(y), None) => {
            if x == 0 && y == 0 {
                caret_00()
            } else if x == 0 {
                caret_0y(y)
            } else {
                caret_xy(x, y)
            }
        },
        (Op::Caret, None, _) => caret_x(x),
        (Op::Wildcard, Some(y), _) => wildcard_xy(x, y),
        (Op::Wildcard, None, _) => wildcard_x(x),
    }
}

/// Every comparator of `req` fits (see `comparator_fits`).
pub open spec fn requirement_fits(req: Seq<ComparatorModel>) -> bool {
    forall|i: int| 0 <= i < req.len() ==> comparator_fits(#[trigger] req[i])
}

/// The versions that a requirement admits: the well-formed ones that every comparator admits.
pub open spec fn req_admits(req: Seq<ComparatorModel>, v: VersionModel) -> bool {
    v.wf() && forall|i: int| 0 <= i < req.len() ==> comparator_admits(#[trigger] req[i], v)
}

/// The range of a requirement: the versions that every one of its comparators admits.
pub fn req_to_range(req: VersionReq) -> (r: VersionRange)
    requires
        requirement_fits(req@),
    ensures
        forall|v: VersionModel| #[trigger] r.admits(v) <==> v.wf() && forall|i: int|
            0 <= i < req@.len() ==> comparator_admits(#[trigger] req@[i], v),
{
    let cs = req.comparators();
    let mut range = VersionRange::full();
    let mut i: usize = 0;
    while i < cs.len()
        invariant
            i <= cs.len(),
            comparators_view(cs@) == req@,
            requirement_fits(req@),
            forall|j: int| 0 <= j < cs.len() ==> prerelease_valid(#[trigger] cs@[j].pre@),
            forall|v: VersionModel| #[trigger] range.admits(v) <==> v.wf() && forall|j: int|
                0 <= j < i ==> comparator_admits(#[trigger] req@[j], v),
        decreases cs.len() - i,
    {
        let c = &cs[i];
        assert(req@[i as int] == c@);
        assert(comparator_fits(req@[i as int]));
        let next = comparator_range(c);
        let ghost old_range = range;
        range = range.intersection(&next);
        assert forall|v: VersionModel| #[trigger] range.admits(v) <==> v.wf() && forall|j: int|
            0 <= j < i + 1 ==> comparator_admits(#[trigger] req@[j], v) by {
            if range.admits(v) {
                assert(old_range.admits(v));
                assert(next.admits(v));
            }
            if v.wf() && forall|j: int| 0 <= j < i + 1 ==> comparator_admits(#[trigger] req@[j], v) {
                assert(comparator_admits(req@[i as int], v));
                assert(next.admits(v));
                assert(old_range.admits(v));
            }
        }
        i += 1;
    }
    range
}

} // verus!
