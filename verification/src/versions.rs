//! Lists of versions ordered from the highest precedence down, as repositories hand them out.
use vstd::prelude::*;
use crate::version::{Version, VersionModel, version_rank};

verus! {

/// The views of a list of versions.
pub open spec fn versions_view(vs: Seq<Version>) -> Seq<VersionModel> {
    vs.map_values(|v: Version| v@)
}

/// `a` has higher precedence than `b`.
pub open spec fn above(a: VersionModel, b: VersionModel) -> bool {
    version_rank(a, b) > 0
}

/// Each version is above or equal to every later one.
pub open spec fn descending(vs: Seq<VersionModel>) -> bool {
    forall|i: int, j: int| 0 <= i < j < vs.len() ==> above(#[trigger] vs[i], #[trigger] vs[j]) || vs[i] == vs[j]
}

/// Each version is above every later one (so none occurs twice).
pub open spec fn strictly_descending(vs: Seq<VersionModel>) -> bool {
    forall|i: int, j: int| 0 <= i < j < vs.len() ==> above(#[trigger] vs[i], #[trigger] vs[j])
}

/// Every version of the list is well formed.
pub open spec fn all_wf(vs: Seq<VersionModel>) -> bool {
    forall|i: int| 0 <= i < vs.len() ==> (#[trigger] vs[i]).wf()
}

/// Where `v` goes in a list ordered from the highest down: after every version above it, at
/// the first that it is above or equal to.
fn insertion_point(out: &Vec<Version>, v: &Version) -> (p: usize)
    requires
        all_wf(versions_view(out@)),
    ensures
        p <= out.len(),
        v@.wf(),
        forall|k: int| 0 <= k < p ==> above(#[trigger] out@[k]@, v@),
        p < out.len() ==> above(v@, out@[p as int]@) || v@ == out@[p as int]@,
        p < out.len() && above(v@, out@[p as int]@) ==> forall|z: VersionModel|
            z.wf() && #[trigger] above(out@[p as int]@, z) ==> above(v@, z),
{
    proof {
        use_type_invariant(v);
    }
    let mut p: usize = 0;
    let mut stop = false;
    while p < out.len() && !stop
        invariant
            p <= out.len(),
            v@.wf(),
            all_wf(versions_view(out@)),
            forall|k: int| 0 <= k < p ==> above(#[trigger] out@[k]@, v@),
            stop ==> p < out.len() && (above(v@, out@[p as int]@) || v@ == out@[p as int]@),
            stop && above(v@, out@[p as int]@) ==> forall|z: VersionModel|
                z.wf() && #[trigger] above(out@[p as int]@, z) ==> above(v@, z),
        decreases out.len() - p + if stop { 0int } else { 1int },
    {
        let r = v.rank(&out[p]);
        if r >= 0 {
            stop = true;
        } else {
            p += 1;
        }
    }
    p
}

/// Adds `v` to a list ordered strictly from the highest down, unless it is there already.
pub(crate) fn insert_unique(out: &mut Vec<Version>, v: &Version)
    requires
        strictly_descending(versions_view(old(out)@)),
        all_wf(versions_view(old(out)@)),
    ensures
        strictly_descending(versions_view(final(out)@)),
        all_wf(versions_view(final(out)@)),
        forall|x: VersionModel| #[trigger] versions_view(final(out)@).contains(x)
            <==> versions_view(old(out)@).contains(x) || x == v@,
{
    let ghost before = versions_view(out@);
    let p = insertion_point(out, v);
    if p < out.len() && v.equals(&out[p]) {
        assert(before[p as int] == v@);
        return;
    }
    let c = v.clone();
    out.insert(p, c);
    let ghost after = versions_view(out@);
    assert(after =~= before.insert(p as int, v@));
    assert forall|i: int, j: int| 0 <= i < j < after.len() implies above(#[trigger] after[i], #[trigger] after[j]) by {
        if j < p {
            assert(after[i] == before[i] && after[j] == before[j]);
        } else if j == p {
            assert(after[i] == before[i]);
        } else if i < p {
            assert(after[i] == before[i] && after[j] == before[j - 1]);
        } else if i == p {
            assert(after[j] == before[j - 1]);
            if j - 1 > p {
                assert(above(before[p as int], before[j - 1]));
            }
        } else {
            assert(after[i] == before[i - 1] && after[j] == before[j - 1]);
        }
    }
    assert forall|x: VersionModel| #[trigger] after.contains(x) <==> before.contains(x) || x == v@ by {
        if after.contains(x) {
            let k = choose|k: int| 0 <= k < after.len() && after[k] == x;
            if k < p {
                assert(before[k] == x);
            } else if k > p {
                assert(before[k - 1] == x);
            }
        }
        if before.contains(x) {
            let k = choose|k: int| 0 <= k < before.len() && before[k] == x;
            if k < p {
                assert(after[k] == x);
            } else {
                assert(after[k + 1] == x);
            }
        }
        if x == v@ {
            assert(after[p as int] == x);
        }
    }
}

/// The versions ordered from the highest down: the same versions, each as often as in `vs`.
pub fn sort_descending(vs: &Vec<Version>) -> (r: Vec<Version>)
    ensures
        descending(versions_view(r@)),
        versions_view(r@).to_multiset() == versions_view(vs@).to_multiset(),
{
    broadcast use vstd::seq_lib::group_to_multiset_ensures;
    let ghost all = versions_view(vs@);
    let mut out: Vec<Version> = Vec::new();
    let mut i: usize = 0;
    while i < vs.len()
        invariant
            i <= vs.len(),
            all == versions_view(vs@),
            descending(versions_view(out@)),
            all_wf(versions_view(out@)),
            versions_view(out@).to_multiset() == all.take(i as int).to_multiset(),
        decreases vs.len() - i,
    {
        let v = &vs[i];
        let ghost before = versions_view(out@);
        let p = insertion_point(&out, v);
        let c = v.clone();
        out.insert(p, c);
        let ghost after = versions_view(out@);
        assert(after =~= before.insert(p as int, v@));
        assert forall|a: int, b: int| 0 <= a < b < after.len() implies above(#[trigger] after[a], #[trigger] after[b]) || after[a] == after[b] by {
            if b < p {
                assert(after[a] == before[a] && after[b] == before[b]);
            } else if b == p {
                assert(after[a] == before[a]);
            } else if a < p {
                assert(after[a] == before[a] && after[b] == before[b - 1]);
            } else if a == p {
                assert(after[b] == before[b - 1]);
                if b - 1 > p {
                    assert(above(before[p as int], before[b - 1]) || before[p as int] == before[b - 1]);
                }
            } else {
                assert(after[a] == before[a - 1] && after[b] == before[b - 1]);
            }
        }
        assert forall|k: int| 0 <= k < after.len() implies (#[trigger] after[k]).wf() by {
            if k < p {
                assert(after[k] == before[k]);
            } else if k > p {
                assert(after[k] == before[k - 1]);
            }
        }
        proof {
            vstd::seq_lib::to_multiset_insert(before, p as int, v@);
            assert(all[i as int] == v@);
            assert(all.take(i as int + 1) =~= all.take(i as int).push(v@));
            vstd::seq_lib::to_multiset_build(all.take(i as int), v@);
            assert(after.to_multiset() == all.take(i as int + 1).to_multiset());
        }
        i += 1;
    }
    assert(all.take(vs.len() as int) =~= all);
    out
}

/// `x` is one of the versions of the lists that are present.
pub open spec fn listed(lists: Seq<Option<Vec<Version>>>, x: VersionModel) -> bool {
    exists|i: int, j: int|
        0 <= i < lists.len() && lists[i] is Some && 0 <= j < lists[i]->0.len() && (#[trigger] lists[i]->0@[j])@ == x
}

/// The versions of all the lists together, each once, from the highest down; `None` when no
/// list holds any.
pub fn merge_versions(lists: &Vec<Option<Vec<Version>>>) -> (r: Option<Vec<Version>>)
    ensures
        r is None <==> forall|x: VersionModel| !listed(lists@, x),
        r matches Some(vs) ==> strictly_descending(versions_view(vs@)) && forall|x: VersionModel|
            #[trigger] versions_view(vs@).contains(x) <==> listed(lists@, x),
{
    let mut out: Vec<Version> = Vec::new();
    let mut i: usize = 0;
    while i < lists.len()
        invariant
            i <= lists.len(),
            strictly_descending(versions_view(out@)),
            all_wf(versions_view(out@)),
            forall|x: VersionModel| #[trigger] versions_view(out@).contains(x) <==> listed(lists@.take(i as int), x),
        decreases lists.len() - i,
    {
        match &lists[i] {
            Some(vs) => {
                let mut j: usize = 0;
                while j < vs.len()
                    invariant
                        i < lists.len(),
                        lists@[i as int] == Some(*vs),
                        j <= vs.len(),
                        strictly_descending(versions_view(out@)),
                        all_wf(versions_view(out@)),
                        forall|x: VersionModel| #[trigger] versions_view(out@).contains(x) <==> listed(lists@.take(i as int), x)
                            || exists|k: int| 0 <= k < j && (#[trigger] vs@[k])@ == x,
                    decreases vs.len() - j,
                {
                    let ghost old_view = versions_view(out@);
                    insert_unique(&mut out, &vs[j]);
                    assert forall|x: VersionModel| #[trigger] versions_view(out@).contains(x) <==> listed(lists@.take(i as int), x)
                        || exists|k: int| 0 <= k < j + 1 && (#[trigger] vs@[k])@ == x by {
                        if x == vs@[j as int]@ {
                            assert(exists|k: int| 0 <= k < j + 1 && (#[trigger] vs@[k])@ == x);
                        }
                        if exists|k: int| 0 <= k < j + 1 && (#[trigger] vs@[k])@ == x {
                            let k = choose|k: int| 0 <= k < j + 1 && (#[trigger] vs@[k])@ == x;
                            if k < j {
                                assert(old_view.contains(x));
                            }
                        }
                    }
                    j += 1;
                }
                assert forall|x: VersionModel| #[trigger] versions_view(out@).contains(x) <==> listed(lists@.take(i as int + 1), x) by {
                    let next = lists@.take(i as int + 1);
                    if listed(next, x) {
                        let (a, b) = choose|a: int, b: int|
                            0 <= a < next.len() && next[a] is Some && 0 <= b < next[a]->0.len() && (#[trigger] next[a]->0@[b])@ == x;
                        if a < i {
                            assert(lists@.take(i as int)[a] == next[a]);
                            assert(listed(lists@.take(i as int), x));
                        } else {
                            assert(vs@[b]@ == x);
                        }
                    }
                    if listed(lists@.take(i as int), x) {
                        let (a, b) = choose|a: int, b: int|
                            0 <= a < i && lists@.take(i as int)[a] is Some && 0 <= b < lists@.take(i as int)[a]->0.len()
                                && (#[trigger] lists@.take(i as int)[a]->0@[b])@ == x;
                        assert(next[a] == lists@.take(i as int)[a]);
                        assert(listed(next, x));
                    }
                    if exists|k: int| 0 <= k < vs.len() && (#[trigger] vs@[k])@ == x {
                        let k = choose|k: int| 0 <= k < vs.len() && (#[trigger] vs@[k])@ == x;
                        assert(next[i as int] == Some(*vs));
                        assert(next[i as int]->0@[k]@ == x);
                        assert(listed(next, x));
                    }
                }
            },
            None => {
                assert forall|x: VersionModel| #[trigger] versions_view(out@).contains(x) <==> listed(lists@.take(i as int + 1), x) by {
                    let next = lists@.take(i as int + 1);
                    if listed(next, x) {
                        let (a, b) = choose|a: int, b: int|
                            0 <= a < next.len() && next[a] is Some && 0 <= b < next[a]->0.len() && (#[trigger] next[a]->0@[b])@ == x;
                        assert(a != i);
                        assert(lists@.take(i as int)[a] == next[a]);
                        assert(listed(lists@.take(i as int), x));
                    }
                    if listed(lists@.take(i as int), x) {
                        let (a, b) = choose|a: int, b: int|
                            0 <= a < i && lists@.take(i as int)[a] is Some && 0 <= b < lists@.take(i as int)[a]->0.len()
                                && (#[trigger] lists@.take(i as int)[a]->0@[b])@ == x;
                        assert(next[a] == lists@.take(i as int)[a]);
                        assert(listed(next, x));
                    }
                }
            },
        }
        i += 1;
    }
    assert(lists@.take(lists.len() as int) =~= lists@);
    if out.len() == 0 {
        assert forall|x: VersionModel| !listed(lists@, x) by {
            if listed(lists@, x) {
                assert(!versions_view(out@).contains(x));
            }
        }
        None
    } else {
        assert(versions_view(out@).contains(versions_view(out@)[0]));
        Some(out)
    }
}

} // verus!
