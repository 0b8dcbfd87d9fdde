//! The compatibility resolver: partitioning installed package names by
//! whether any catalog version admits a target OS version, and selecting
//! the best compatible version of a package.

use vstd::prelude::*;

use crate::chars::str_eq;
use crate::index::{has_os_constraint, os_compatible, Package, PackageModel};
use crate::version::{version_cmp, compare_versions};
use core::cmp::Ordering;

verus! {

/// Some catalog entry carries this name.
pub open spec fn name_in_catalog(cat: Seq<PackageModel>, n: Seq<char>) -> bool {
    exists|i: int| 0 <= i < cat.len() && cat[i].name == n
}

/// Some catalog entry of this name declares an OS constraint.
pub open spec fn name_has_constraint(cat: Seq<PackageModel>, n: Seq<char>) -> bool {
    exists|i: int| 0 <= i < cat.len() && cat[i].name == n && has_os_constraint(cat[i].depends)
}

/// Some catalog entry of this name admits the target version: the
/// existential reading of compatibility.
pub open spec fn name_any_compatible(cat: Seq<PackageModel>, n: Seq<char>, t: Seq<char>) -> bool {
    exists|i: int| 0 <= i < cat.len() && cat[i].name == n && os_compatible(cat[i].depends, t)
}

/// A name the partition reports as compatible: constrained somewhere in
/// the catalog, and admitted by at least one of its versions.
pub open spec fn reported_compatible(cat: Seq<PackageModel>, n: Seq<char>, t: Seq<char>) -> bool {
    name_has_constraint(cat, n) && name_any_compatible(cat, n, t)
}

/// A name the partition reports as incompatible: constrained somewhere,
/// and admitted by none of its versions.
pub open spec fn reported_incompatible(cat: Seq<PackageModel>, n: Seq<char>, t: Seq<char>) -> bool {
    name_has_constraint(cat, n) && !name_any_compatible(cat, n, t)
}

/// A name present in the catalog with no OS constraint on any version: the
/// partition leaves it out of both lists, and the three-way classification
/// reports it separately.
pub open spec fn unconstrained_in_catalog(cat: Seq<PackageModel>, n: Seq<char>) -> bool {
    name_in_catalog(cat, n) && !name_has_constraint(cat, n)
}

/// What partitioning yields: the installed names reported compatible and
/// those reported incompatible, each in input order. Names absent from the
/// catalog or never constrained appear in neither.
pub open spec fn partition_spec(
    target: Seq<char>,
    installed: Seq<Seq<char>>,
    cat: Seq<PackageModel>,
) -> (Seq<Seq<char>>, Seq<Seq<char>>) {
    (
        installed.filter(|n: Seq<char>| reported_compatible(cat, n, target)),
        installed.filter(|n: Seq<char>| reported_incompatible(cat, n, target)),
    )
}

/// The partition of a list of installed package names relative to a target
/// OS version.
#[derive(Debug)]
pub struct CompatResult {
    pub compatible: Vec<String>,
    pub incompatible: Vec<String>,
}

impl Default for CompatResult {
    /// An empty partition.
    fn default() -> (r: CompatResult)
        ensures
            r.compatible@.len() == 0,
            r.incompatible@.len() == 0,
    {
        CompatResult { compatible: Vec::new(), incompatible: Vec::new() }
    }
}

pub proof fn lemma_filter_push<A>(s: Seq<A>, pred: spec_fn(A) -> bool, x: A)
    ensures
        s.push(x).filter(pred) == if pred(x) {
            s.filter(pred).push(x)
        } else {
            s.filter(pred)
        },
{
    reveal(Seq::filter);
    assert(s.push(x).drop_last() =~= s);
    assert(s.push(x).last() == x);
}

/// How the catalog speaks about one name: whether it appears, whether it
/// is ever constrained, and whether any of its versions admits the target.
pub(crate) fn scan_name(index: &[Package], name: &str, target_os: &str) -> (r: (bool, bool, bool))
    ensures
        r.0 == name_in_catalog(index.deep_view(), name@),
        r.1 == name_has_constraint(index.deep_view(), name@),
        r.2 == name_any_compatible(index.deep_view(), name@, target_os@),
{
    let ghost cat = index.deep_view();
    let n = index.len();
    let mut found = false;
    let mut constrained = false;
    let mut admitted = false;
    let mut j: usize = 0;
    proof {
        assert(cat.take(0) =~= Seq::<PackageModel>::empty());
    }
    while j < n
        invariant
            0 <= j <= n,
            n == index.len(),
            cat == index.deep_view(),
            found == name_in_catalog(cat.take(j as int), name@),
            constrained == name_has_constraint(cat.take(j as int), name@),
            admitted == name_any_compatible(cat.take(j as int), name@, target_os@),
        decreases n - j,
    {
        let pkg = &index[j];
        proof {
            assert(cat.take(j + 1).drop_last() =~= cat.take(j as int));
            assert(cat.take(j + 1)[j as int] == pkg@);
            assert(forall|k: int| 0 <= k <= j ==> cat.take(j + 1)[k] == cat[k]);
        }
        if str_eq(pkg.name.as_str(), name) {
            found = true;
            let (mn, mx) = pkg.get_os_constraints();
            if mn.is_some() || mx.is_some() {
                constrained = true;
            }
            if pkg.is_compatible_with_os(target_os) {
                admitted = true;
            }
        }
        proof {
            let c1 = cat.take(j + 1);
            if found {
                assert(name_in_catalog(c1, name@)) by {
                    if pkg.name@ == name@ {
                        assert(c1[j as int].name == name@);
                    } else {
                        let w = choose|i: int|
                            0 <= i < cat.take(j as int).len() && cat.take(j as int)[i].name
                                == name@;
                        assert(c1[w].name == name@);
                    }
                }
            } else {
                assert(!name_in_catalog(c1, name@)) by {
                    assert(forall|i: int|
                        0 <= i < c1.len() && c1[i].name == name@ ==> 0 <= i < j && cat.take(
                            j as int,
                        )[i].name == name@);
                }
            }
            if constrained {
                assert(name_has_constraint(c1, name@)) by {
                    if pkg.name@ == name@ && has_os_constraint(pkg@.depends) {
                        assert(c1[j as int].name == name@ && has_os_constraint(
                            c1[j as int].depends,
                        ));
                    } else {
                        let w = choose|i: int|
                            0 <= i < cat.take(j as int).len() && cat.take(j as int)[i].name == name@
                                && has_os_constraint(cat.take(j as int)[i].depends);
                        assert(c1[w].name == name@ && has_os_constraint(c1[w].depends));
                    }
                }
            } else {
                assert(!name_has_constraint(c1, name@)) by {
                    assert(forall|i: int|
                        0 <= i < c1.len() && c1[i].name == name@ && has_os_constraint(
                            c1[i].depends,
                        ) ==> 0 <= i < j && cat.take(j as int)[i].name == name@
                            && has_os_constraint(cat.take(j as int)[i].depends));
                }
            }
            if admitted {
                assert(name_any_compatible(c1, name@, target_os@)) by {
                    if pkg.name@ == name@ && os_compatible(pkg@.depends, target_os@) {
                        assert(c1[j as int].name == name@ && os_compatible(
                            c1[j as int].depends,
                            target_os@,
                        ));
                    } else {
                        let w = choose|i: int|
                            0 <= i < cat.take(j as int).len() && cat.take(j as int)[i].name == name@
                                && os_compatible(cat.take(j as int)[i].depends, target_os@);
                        assert(c1[w].name == name@ && os_compatible(c1[w].depends, target_os@));
                    }
                }
            } else {
                assert(!name_any_compatible(c1, name@, target_os@)) by {
                    assert(forall|i: int|
                        0 <= i < c1.len() && c1[i].name == name@ && os_compatible(
                            c1[i].depends,
                            target_os@,
                        ) ==> 0 <= i < j && cat.take(j as int)[i].name == name@ && os_compatible(
                            cat.take(j as int)[i].depends,
                            target_os@,
                        ));
                }
            }
        }
        j += 1;
    }
    proof {
        assert(cat.take(n as int) =~= cat);
    }
    (found, constrained, admitted)
}

/// Partitions the installed package names: a name some catalog version of
/// which is constrained is reported compatible when any of its versions
/// admits `target_os` and incompatible otherwise; a name absent from the
/// catalog, or never constrained, is reported in neither list.
pub fn check_os_compatibility(target_os: &str, installed_pkgs: &[String], index: &[Package]) -> (r:
    CompatResult)
    ensures
        (r.compatible.deep_view(), r.incompatible.deep_view()) == partition_spec(
            target_os@,
            installed_pkgs.deep_view(),
            index.deep_view(),
        ),
{
    let ghost cat = index.deep_view();
    let ghost inst = installed_pkgs.deep_view();
    let ghost cp = |n: Seq<char>| reported_compatible(cat, n, target_os@);
    let ghost ip = |n: Seq<char>| reported_incompatible(cat, n, target_os@);
    let mut result = CompatResult::default();
    let n = installed_pkgs.len();
    let mut i: usize = 0;
    proof {
        assert(inst.take(0) =~= Seq::<Seq<char>>::empty());
        reveal(Seq::filter);
        assert(result.compatible.deep_view() =~= inst.take(0).filter(cp));
        assert(result.incompatible.deep_view() =~= inst.take(0).filter(ip));
    }
    while i < n
        invariant
            0 <= i <= n,
            n == installed_pkgs.len(),
            cat == index.deep_view(),
            inst == installed_pkgs.deep_view(),
            cp == (|n: Seq<char>| reported_compatible(cat, n, target_os@)),
            ip == (|n: Seq<char>| reported_incompatible(cat, n, target_os@)),
            result.compatible.deep_view() == inst.take(i as int).filter(cp),
            result.incompatible.deep_view() == inst.take(i as int).filter(ip),
        decreases n - i,
    {
        let installed = &installed_pkgs[i];
        let (_found, constrained, admitted) = scan_name(index, installed.as_str(), target_os);
        proof {
            assert(inst.take(i + 1).drop_last() =~= inst.take(i as int));
            assert(inst.take(i + 1) =~= inst.take(i as int).push(installed@));
            lemma_filter_push(inst.take(i as int), cp, installed@);
            lemma_filter_push(inst.take(i as int), ip, installed@);
        }
        if constrained {
            if admitted {
                let ghost prev = result.compatible.deep_view();
                result.compatible.push(installed.clone());
                proof {
                    assert(result.compatible.deep_view() =~= prev.push(installed@));
                }
            } else {
                let ghost prev = result.incompatible.deep_view();
                result.incompatible.push(installed.clone());
                proof {
                    assert(result.incompatible.deep_view() =~= prev.push(installed@));
                }
            }
        }
        i += 1;
    }
    proof {
        assert(inst.take(n as int) =~= inst);
    }
    result
}

/// The three-way report behind the compatibility check command, which
/// distinguishes compatible names from those with no constraint at all.
#[derive(Debug)]
pub struct OsCheckReport {
    pub compatible: Vec<String>,
    pub no_constraint: Vec<String>,
    pub incompatible: Vec<String>,
}

/// Classifies the installed names for the caller-visible report: the
/// partition's two lists, plus the names that are in the catalog but never
/// constrained, each in input order. Names absent from the catalog appear
/// nowhere.
pub fn classify_os_compatibility(
    target_os: &str,
    installed_pkgs: &[String],
    index: &[Package],
) -> (r: OsCheckReport)
    ensures
        r.compatible.deep_view() == installed_pkgs.deep_view().filter(
            |n: Seq<char>| reported_compatible(index.deep_view(), n, target_os@),
        ),
        r.no_constraint.deep_view() == installed_pkgs.deep_view().filter(
            |n: Seq<char>| unconstrained_in_catalog(index.deep_view(), n),
        ),
        r.incompatible.deep_view() == installed_pkgs.deep_view().filter(
            |n: Seq<char>| reported_incompatible(index.deep_view(), n, target_os@),
        ),
{
    let ghost cat = index.deep_view();
    let ghost inst = installed_pkgs.deep_view();
    let ghost cp = |n: Seq<char>| reported_compatible(cat, n, target_os@);
    let ghost up = |n: Seq<char>| unconstrained_in_catalog(cat, n);
    let ghost ip = |n: Seq<char>| reported_incompatible(cat, n, target_os@);
    let mut r = OsCheckReport {
        compatible: Vec::new(),
        no_constraint: Vec::new(),
        incompatible: Vec::new(),
    };
    let n = installed_pkgs.len();
    let mut i: usize = 0;
    proof {
        assert(inst.take(0) =~= Seq::<Seq<char>>::empty());
        reveal(Seq::filter);
        assert(r.compatible.deep_view() =~= inst.take(0).filter(cp));
        assert(r.no_constraint.deep_view() =~= inst.take(0).filter(up));
        assert(r.incompatible.deep_view() =~= inst.take(0).filter(ip));
    }
    while i < n
        invariant
            0 <= i <= n,
            n == installed_pkgs.len(),
            cat == index.deep_view(),
            inst == installed_pkgs.deep_view(),
            cp == (|n: Seq<char>| reported_compatible(cat, n, target_os@)),
            up == (|n: Seq<char>| unconstrained_in_catalog(cat, n)),
            ip == (|n: Seq<char>| reported_incompatible(cat, n, target_os@)),
            r.compatible.deep_view() == inst.take(i as int).filter(cp),
            r.no_constraint.deep_view() == inst.take(i as int).filter(up),
            r.incompatible.deep_view() == inst.take(i as int).filter(ip),
        decreases n - i,
    {
        let installed = &installed_pkgs[i];
        let (found, constrained, admitted) = scan_name(index, installed.as_str(), target_os);
        proof {
            assert(inst.take(i + 1).drop_last() =~= inst.take(i as int));
            assert(inst.take(i + 1) =~= inst.take(i as int).push(installed@));
            lemma_filter_push(inst.take(i as int), cp, installed@);
            lemma_filter_push(inst.take(i as int), up, installed@);
            lemma_filter_push(inst.take(i as int), ip, installed@);
        }
        if found {
            if !constrained {
                let ghost prev = r.no_constraint.deep_view();
                r.no_constraint.push(installed.clone());
                proof {
                    assert(r.no_constraint.deep_view() =~= prev.push(installed@));
                }
            } else if admitted {
                let ghost prev = r.compatible.deep_view();
                r.compatible.push(installed.clone());
                proof {
                    assert(r.compatible.deep_view() =~= prev.push(installed@));
                }
            } else {
                let ghost prev = r.incompatible.deep_view();
                r.incompatible.push(installed.clone());
                proof {
                    assert(r.incompatible.deep_view() =~= prev.push(installed@));
                }
            }
        }
        i += 1;
    }
    proof {
        assert(inst.take(n as int) =~= inst);
    }
    r
}

/// Partitioning is a pure function of its inputs: results of two runs on
/// the same target, installed list and catalog are identical.
pub proof fn lemma_partition_idempotent(
    target: Seq<char>,
    installed: Seq<Seq<char>>,
    cat: Seq<PackageModel>,
    r1: (Seq<Seq<char>>, Seq<Seq<char>>),
    r2: (Seq<Seq<char>>, Seq<Seq<char>>),
)
    requires
        r1 == partition_spec(target, installed, cat),
        r2 == partition_spec(target, installed, cat),
    ensures
        r1 == r2,
{
}

/// The entry at `j` carries the wanted name and admits the target.
pub open spec fn is_candidate(
    cat: Seq<PackageModel>,
    n: Seq<char>,
    t: Seq<char>,
    j: int,
) -> bool {
    0 <= j < cat.len() && cat[j].name == n && os_compatible(cat[j].depends, t)
}

/// The index of the best compatible version of `n`: among the candidate
/// entries, the one with the greatest version by the comparator, the
/// earliest such entry winning a tie.
pub open spec fn best_candidate(cat: Seq<PackageModel>, n: Seq<char>, t: Seq<char>) -> Option<int>
    decreases cat.len(),
{
    if cat.len() == 0 {
        None
    } else {
        let prev = best_candidate(cat.drop_last(), n, t);
        let j = cat.len() - 1;
        if cat[j].name == n && os_compatible(cat[j].depends, t) {
            match prev {
                None => Some(j as int),
                Some(b) => if version_cmp(cat[j].version, cat[b].version) == Ordering::Greater {
                    Some(j as int)
                } else {
                    Some(b)
                },
            }
        } else {
            prev
        }
    }
}

/// Among all catalog entries of the given name that admit `target_os`,
/// the one with the greatest version, the first winning a tie; `None`
/// when no version of that name is compatible.
pub fn find_best_compatible_version(name: &str, target_os: &str, index: &[Package]) -> (r: Option<
    usize,
>)
    ensures
        match r {
            Some(i) => i < index.len() && best_candidate(index.deep_view(), name@, target_os@)
                == Some(i as int),
            None => best_candidate(index.deep_view(), name@, target_os@) is None,
        },
{
    let ghost cat = index.deep_view();
    let n = index.len();
    let mut best: Option<usize> = None;
    let mut j: usize = 0;
    proof {
        assert(cat.take(0) =~= Seq::<PackageModel>::empty());
    }
    while j < n
        invariant
            0 <= j <= n,
            n == index.len(),
            cat == index.deep_view(),
            match best {
                Some(b) => b < j && best_candidate(cat.take(j as int), name@, target_os@) == Some(
                    b as int,
                ),
                None => best_candidate(cat.take(j as int), name@, target_os@) is None,
            },
        decreases n - j,
    {
        let pkg = &index[j];
        proof {
            assert(cat.take(j + 1).drop_last() =~= cat.take(j as int));
            assert(cat.take(j + 1)[j as int] == pkg@);
            assert(forall|k: int| 0 <= k <= j ==> cat.take(j + 1)[k] == cat[k]);
        }
        if str_eq(pkg.name.as_str(), name) && pkg.is_compatible_with_os(target_os) {
            match best {
                None => {
                    best = Some(j);
                },
                Some(b) => {
                    let c = compare_versions(pkg.version.as_str(), index[b].version.as_str());
                    if matches!(c, Ordering::Greater) {
                        best = Some(j);
                    }
                },
            }
        }
        j += 1;
    }
    proof {
        assert(cat.take(n as int) =~= cat);
    }
    best
}

/// What `best_candidate` selects is a candidate, no candidate has a
/// strictly greater version, and every earlier candidate has a strictly
/// smaller one — the greatest version with ties broken by catalog order.
pub proof fn lemma_best_candidate_props(cat: Seq<PackageModel>, n: Seq<char>, t: Seq<char>)
    ensures
        match best_candidate(cat, n, t) {
            Some(b) => is_candidate(cat, n, t, b) && (forall|j: int|
                is_candidate(cat, n, t, j) ==> version_cmp(cat[j].version, cat[b].version)
                    != Ordering::Greater) && (forall|j: int|
                j < b && is_candidate(cat, n, t, j) ==> version_cmp(
                    cat[b].version,
                    cat[j].version,
                ) == Ordering::Greater),
            None => forall|j: int| !is_candidate(cat, n, t, j),
        },
    decreases cat.len(),
{
    if cat.len() == 0 {
    } else {
        let d = cat.drop_last();
        let last = cat.len() - 1;
        lemma_best_candidate_props(d, n, t);
        assert(forall|k: int| 0 <= k < d.len() ==> d[k] == cat[k]);
        assert(forall|j: int|
            is_candidate(cat, n, t, j) && j < last ==> is_candidate(d, n, t, j));
        assert(forall|j: int| is_candidate(d, n, t, j) ==> is_candidate(cat, n, t, j));
        match best_candidate(d, n, t) {
            None => {
            },
            Some(b) => {
                if cat[last].name == n && os_compatible(cat[last].depends, t) {
                    if version_cmp(cat[last].version, cat[b].version) == Ordering::Greater {
                        assert forall|j: int| is_candidate(cat, n, t, j) implies version_cmp(
                            cat[j].version,
                            cat[last].version,
                        ) != Ordering::Greater by {
                            if j < last {
                                if version_cmp(cat[j].version, cat[last].version)
                                    == Ordering::Greater {
                                    lemma_version_gt_transitive(
                                        cat[j].version,
                                        cat[last].version,
                                        cat[b].version,
                                    );
                                }
                            } else {
                                crate::version::lemma_version_cmp_reflexive(cat[last].version);
                            }
                        }
                        assert forall|j: int|
                            j < last && is_candidate(cat, n, t, j) implies version_cmp(
                            cat[last].version,
                            cat[j].version,
                        ) == Ordering::Greater by {
                            assert(version_cmp(cat[j].version, cat[b].version)
                                != Ordering::Greater);
                            lemma_version_ge_gt_greater(
                                cat[last].version,
                                cat[b].version,
                                cat[j].version,
                            );
                        }
                    } else {
                        assert(best_candidate(cat, n, t) == Some(b));
                        assert forall|j: int| is_candidate(cat, n, t, j) implies version_cmp(
                            cat[j].version,
                            cat[b].version,
                        ) != Ordering::Greater by {
                            if j == last {
                            } else {
                                assert(is_candidate(d, n, t, j));
                            }
                        }
                    }
                } else {
                    assert forall|j: int| is_candidate(cat, n, t, j) implies version_cmp(
                        cat[j].version,
                        cat[b].version,
                    ) != Ordering::Greater by {
                        assert(j != last);
                        assert(is_candidate(d, n, t, j));
                    }
                }
            },
        }
        if best_candidate(d, n, t) is None && cat[last].name == n && os_compatible(
            cat[last].depends,
            t,
        ) {
            crate::version::lemma_version_cmp_reflexive(cat[last].version);
            assert forall|j: int| is_candidate(cat, n, t, j) implies version_cmp(
                cat[j].version,
                cat[last].version,
            ) != Ordering::Greater by {
                if j < last {
                    assert(is_candidate(d, n, t, j));
                    assert(false);
                }
            }
        }
    }
}

/// Strict version order is transitive.
proof fn lemma_version_gt_transitive(a: Seq<char>, b: Seq<char>, c: Seq<char>)
    requires
        version_cmp(a, b) == Ordering::Greater,
        version_cmp(b, c) == Ordering::Greater,
    ensures
        version_cmp(a, c) == Ordering::Greater,
{
    crate::version::lemma_version_cmp_antisymmetric(a, b);
    crate::version::lemma_version_cmp_antisymmetric(b, c);
    crate::version::lemma_version_cmp_antisymmetric(a, c);
    crate::version::lemma_version_cmp_transitive(c, b, a);
}

/// Strictly above something that a third does not exceed: strictly above
/// the third too.
proof fn lemma_version_ge_gt_greater(a: Seq<char>, b: Seq<char>, c: Seq<char>)
    requires
        version_cmp(a, b) == Ordering::Greater,
        version_cmp(c, b) != Ordering::Greater,
    ensures
        version_cmp(a, c) == Ordering::Greater,
{
    crate::version::lemma_version_cmp_antisymmetric(a, b);
    crate::version::lemma_version_cmp_antisymmetric(a, c);
    crate::version::lemma_version_cmp_le_lt_transitive(c, b, a);
}

} // verus!
