//! Updating a project manifest's dependency table from discovered
//! packages, and the ordered package listing.
//!
//! Only dependencies whose name matches a discovered package change, and
//! only their version text; every other entry stays exactly as it was.

use vstd::prelude::*;

use crate::lex::lemma_lex_le_antisym;
use crate::lex::lemma_lex_le_total;
use crate::lex::lemma_lex_le_trans;
use crate::lex::lex_le;
use crate::lex::str_le;
use crate::scan::Package;
use crate::scan::PackageView;
use crate::semver::Version;
use crate::semver::spec_display;

verus! {

/// Index of the first package at or after `j` whose name is `name`.
pub open spec fn package_name_match(ps: Seq<PackageView>, name: Seq<char>, j: int) -> Option<int>
    decreases ps.len() - j,
{
    if j < 0 || j >= ps.len() {
        None
    } else if ps[j].name == name {
        Some(j)
    } else {
        package_name_match(ps, name, j + 1)
    }
}

/// The dependency entries with every matched name's version replaced by
/// the canonical text of the discovered package's version.
pub open spec fn spec_updated_dependencies(
    deps: Seq<(Seq<char>, Seq<char>)>,
    ps: Seq<PackageView>,
) -> Seq<(Seq<char>, Seq<char>)> {
    Seq::new(
        deps.len(),
        |i: int|
            match package_name_match(ps, deps[i].0, 0) {
                Some(j) => (deps[i].0, spec_display(ps[j].version)),
                None => deps[i],
            },
    )
}

/// Index of the first package named `name`, if any.
fn find_package_by_name(packages: &Vec<Package>, name: &String) -> (r: Option<usize>)
    ensures
        match r {
            Some(j) => j < packages@.len() && package_name_match(
                packages.deep_view(),
                name@,
                0,
            ) == Some(j as int),
            None => package_name_match(packages.deep_view(), name@, 0) is None,
        },
{
    let ghost dv = packages.deep_view();
    let n = packages.len();
    let mut j: usize = 0;
    while j < n
        invariant
            j <= n,
            n == packages@.len(),
            dv == packages.deep_view(),
            package_name_match(dv, name@, 0) == package_name_match(dv, name@, j as int),
        decreases n - j,
    {
        if packages[j].name == *name {
            proof {
                assert(dv[j as int].name == name@);
            }
            return Some(j);
        }
        proof {
            assert(dv[j as int].name != name@);
        }
        j = j + 1;
    }
    None
}

/// Returns the dependency entries with each entry whose name names a
/// discovered package set to that package's version text; everything
/// else is kept unchanged.
pub fn updated_dependencies(deps: &Vec<(String, String)>, packages: &Vec<Package>) -> (r: Vec<
    (String, String),
>)
    ensures
        r.deep_view() == spec_updated_dependencies(deps.deep_view(), packages.deep_view()),
{
    let ghost ddv = deps.deep_view();
    let ghost pdv = packages.deep_view();
    let ghost target = spec_updated_dependencies(ddv, pdv);
    let n = deps.len();
    let mut out: Vec<(String, String)> = Vec::new();
    let mut i: usize = 0;
    proof {
        assert(out.deep_view() =~= target.subrange(0, 0));
    }
    while i < n
        invariant
            i <= n,
            n == deps@.len(),
            ddv == deps.deep_view(),
            pdv == packages.deep_view(),
            target == spec_updated_dependencies(ddv, pdv),
            out.deep_view() == target.subrange(0, i as int),
        decreases n - i,
    {
        let ghost before = out.deep_view();
        let dep = &deps[i];
        proof {
            assert(deps.deep_view()[i as int] == (deps@[i as int].0@, deps@[i as int].1@));
        }
        let name = dep.0.clone();
        match find_package_by_name(packages, &name) {
            Some(j) => {
                let text = packages[j].version.to_text();
                proof {
                    assert(pdv[j as int].version == packages@[j as int]@.version);
                }
                let ghost ev = (name@, text@);
                out.push((name, text));
                proof {
                    assert(ev == target[i as int]);
                    assert(out.deep_view() =~= before.push(ev));
                    assert(before.push(ev) =~= target.subrange(0, i + 1));
                }
            },
            None => {
                let kept = dep.1.clone();
                let ghost ev = (name@, kept@);
                out.push((name, kept));
                proof {
                    assert(ev == target[i as int]);
                    assert(out.deep_view() =~= before.push(ev));
                    assert(before.push(ev) =~= target.subrange(0, i + 1));
                }
            },
        }
        i = i + 1;
    }
    proof {
        assert(target.subrange(0, n as int) =~= target);
    }
    out
}

/// Version order: by major, then minor, then patch.
pub open spec fn version_le(a: Version, b: Version) -> bool {
    if a.major != b.major {
        a.major < b.major
    } else if a.minor != b.minor {
        a.minor < b.minor
    } else {
        a.patch <= b.patch
    }
}

/// Package listing order: by name, then by version.
pub open spec fn pkg_le(a: PackageView, b: PackageView) -> bool {
    if a.name == b.name {
        version_le(a.version, b.version)
    } else {
        lex_le(a.name, b.name)
    }
}

/// The listing order is total.
pub proof fn lemma_pkg_le_total(a: PackageView, b: PackageView)
    ensures
        pkg_le(a, b) || pkg_le(b, a),
{
    if a.name != b.name {
        lemma_lex_le_total(a.name, b.name);
    }
}

/// The listing order is transitive.
pub proof fn lemma_pkg_le_trans(a: PackageView, b: PackageView, c: PackageView)
    requires
        pkg_le(a, b),
        pkg_le(b, c),
    ensures
        pkg_le(a, c),
{
    if a.name != b.name && b.name != c.name {
        lemma_lex_le_trans(a.name, b.name, c.name);
        if a.name == c.name {
            lemma_lex_le_antisym(a.name, b.name);
        }
    }
}

/// The packages stand in listing order.
pub open spec fn sorted_pkgs(ps: Seq<PackageView>) -> bool {
    forall|i: int, j: int| 0 <= i < j < ps.len() ==> pkg_le(#[trigger] ps[i], #[trigger] ps[j])
}

/// Where a package lands among packages in listing order.
pub open spec fn insert_pos_pkg(ps: Seq<PackageView>, p: PackageView) -> int
    decreases ps.len(),
{
    if ps.len() == 0 {
        0
    } else if pkg_le(ps[0], p) {
        1 + insert_pos_pkg(ps.drop_first(), p)
    } else {
        0
    }
}

/// A package inserted among packages in listing order.
pub open spec fn spec_insert_pkg(ps: Seq<PackageView>, p: PackageView) -> Seq<PackageView> {
    ps.insert(insert_pos_pkg(ps, p), p)
}

/// The packages sorted into listing order, by repeated insertion.
pub open spec fn spec_sort_pkgs(ps: Seq<PackageView>) -> Seq<PackageView>
    decreases ps.len(),
{
    if ps.len() == 0 {
        seq![]
    } else {
        spec_insert_pkg(spec_sort_pkgs(ps.drop_last()), ps.last())
    }
}

proof fn lemma_insert_pos_pkg_props(ps: Seq<PackageView>, p: PackageView)
    ensures
        0 <= insert_pos_pkg(ps, p) <= ps.len(),
        forall|m: int| 0 <= m < insert_pos_pkg(ps, p) ==> pkg_le(#[trigger] ps[m], p),
        insert_pos_pkg(ps, p) < ps.len() ==> !pkg_le(ps[insert_pos_pkg(ps, p)], p),
    decreases ps.len(),
{
    if ps.len() > 0 && pkg_le(ps[0], p) {
        lemma_insert_pos_pkg_props(ps.drop_first(), p);
        let k = insert_pos_pkg(ps, p);
        assert forall|m: int| 0 <= m < k implies pkg_le(#[trigger] ps[m], p) by {
            if m > 0 {
                assert(ps[m] == ps.drop_first()[m - 1]);
            }
        }
    }
}

/// Inserting into an ordered listing keeps it ordered.
pub proof fn lemma_insert_pkg_sorted(ps: Seq<PackageView>, p: PackageView)
    requires
        sorted_pkgs(ps),
    ensures
        sorted_pkgs(spec_insert_pkg(ps, p)),
{
    let k = insert_pos_pkg(ps, p);
    lemma_insert_pos_pkg_props(ps, p);
    let r = ps.insert(k, p);
    ps.insert_ensures(k, p);
    assert forall|i: int, j: int| 0 <= i < j < r.len() implies pkg_le(
        #[trigger] r[i],
        #[trigger] r[j],
    ) by {
        if i == k || j == k {
            if j == k && i < k {
                assert(r[i] == ps[i]);
            }
            if i == k && j > k {
                assert(r[j] == ps[j - 1]);
                lemma_pkg_le_total(ps[k], p);
                if j - 1 > k {
                    lemma_pkg_le_trans(p, ps[k], ps[j - 1]);
                }
            }
        } else if j < k {
            assert(r[i] == ps[i] && r[j] == ps[j]);
        } else if i > k {
            assert(r[i] == ps[i - 1] && r[j] == ps[j - 1]);
        } else {
            assert(r[i] == ps[i] && r[j] == ps[j - 1]);
            if j - 1 == i {
                lemma_pkg_le_total(ps[k], p);
                lemma_pkg_le_trans(p, ps[k], ps[i]);
                assert(false);
            }
        }
    }
}

/// Ordered insertion adds exactly the one package.
pub proof fn lemma_insert_pkg_multiset(ps: Seq<PackageView>, p: PackageView)
    ensures
        spec_insert_pkg(ps, p).len() == ps.len() + 1,
        spec_insert_pkg(ps, p).to_multiset() == ps.to_multiset().insert(p),
{
    broadcast use vstd::seq_lib::group_to_multiset_ensures;

    let k = insert_pos_pkg(ps, p);
    lemma_insert_pos_pkg_props(ps, p);
    let r = ps.insert(k, p);
    ps.insert_ensures(k, p);
    assert(r.remove(k) =~= ps);
    assert(r.remove(k).to_multiset() =~= r.to_multiset().remove(r[k]));
    assert(r[k] == p);
    assert(r.contains(p));
    assert(r.to_multiset().count(p) > 0);
    assert(ps.to_multiset().insert(p) =~= r.to_multiset().remove(p).insert(p));
    assert(r.to_multiset().remove(p).insert(p) =~= r.to_multiset());
}

/// The listing holds exactly the packages it was given.
pub proof fn lemma_sort_pkgs_multiset(ps: Seq<PackageView>)
    ensures
        spec_sort_pkgs(ps).to_multiset() == ps.to_multiset(),
        spec_sort_pkgs(ps).len() == ps.len(),
    decreases ps.len(),
{
    broadcast use vstd::seq_lib::group_to_multiset_ensures;

    if ps.len() > 0 {
        lemma_sort_pkgs_multiset(ps.drop_last());
        lemma_insert_pkg_multiset(spec_sort_pkgs(ps.drop_last()), ps.last());
        assert(ps.drop_last().push(ps.last()) =~= ps);
        assert(ps.drop_last().push(ps.last()).to_multiset() =~= ps.drop_last(
        ).to_multiset().insert(ps.last()));
    }
}

/// The listing sort leaves the packages in listing order.
pub proof fn lemma_sort_pkgs_sorted(ps: Seq<PackageView>)
    ensures
        sorted_pkgs(spec_sort_pkgs(ps)),
    decreases ps.len(),
{
    if ps.len() > 0 {
        lemma_sort_pkgs_sorted(ps.drop_last());
        lemma_insert_pkg_sorted(spec_sort_pkgs(ps.drop_last()), ps.last());
    }
}

/// Duplicates a package value.
fn copy_package(p: &Package) -> (c: Package)
    ensures
        c@ == p@,
{
    Package { name: p.name.clone(), version: p.version, path: p.path.clone() }
}

/// Decides `pkg_le` on package values.
fn pkg_le_exec(a: &Package, b: &Package) -> (r: bool)
    ensures
        r == pkg_le(a@, b@),
{
    if a.name == b.name {
        if a.version.major != b.version.major {
            a.version.major < b.version.major
        } else if a.version.minor != b.version.minor {
            a.version.minor < b.version.minor
        } else {
            a.version.patch <= b.version.patch
        }
    } else {
        str_le(a.name.as_str(), b.name.as_str())
    }
}

/// Inserts a package into an ordered listing.
fn insert_pkg(out: &mut Vec<Package>, p: Package)
    ensures
        final(out).deep_view() == spec_insert_pkg(old(out).deep_view(), p@),
{
    let ghost ps = out.deep_view();
    let ghost pv = p@;
    proof {
        lemma_insert_pos_pkg_props(ps, pv);
    }
    let n = out.len();
    let mut k: usize = 0;
    loop
        invariant
            k <= n,
            n == out@.len(),
            *out == *old(out),
            ps == out.deep_view(),
            pv == p@,
            insert_pos_pkg(ps, pv) >= k,
        ensures
            k <= n,
            *out == *old(out),
            k as int == insert_pos_pkg(ps, pv),
        decreases n - k,
    {
        proof {
            lemma_insert_pos_pkg_props(ps, pv);
        }
        if k >= n {
            break ;
        }
        if !pkg_le_exec(&out[k], &p) {
            proof {
                assert(!pkg_le(ps[k as int], pv));
                assert(insert_pos_pkg(ps, pv) <= k) by {
                    if insert_pos_pkg(ps, pv) > k {
                        assert(pkg_le(ps[k as int], pv));
                    }
                }
            }
            break ;
        }
        proof {
            assert(insert_pos_pkg(ps, pv) != k) by {
                if insert_pos_pkg(ps, pv) == k {
                    assert(!pkg_le(ps[k as int], pv));
                }
            }
        }
        k = k + 1;
    }
    out.insert(k, p);
    proof {
        assert(final(out).deep_view() =~= spec_insert_pkg(ps, pv));
    }
}

/// The discovered packages as a fresh list in listing order: by name
/// ascending, ties broken by version.
pub fn get_sorted_package_list(packages: &Vec<Package>) -> (r: Vec<Package>)
    ensures
        r.deep_view() == spec_sort_pkgs(packages.deep_view()),
        sorted_pkgs(r.deep_view()),
        r.deep_view().to_multiset() == packages.deep_view().to_multiset(),
{
    let ghost dv = packages.deep_view();
    let n = packages.len();
    let mut out: Vec<Package> = Vec::new();
    let mut i: usize = 0;
    proof {
        assert(dv.subrange(0, 0) =~= Seq::<PackageView>::empty());
        assert(out.deep_view() =~= spec_sort_pkgs(dv.subrange(0, 0)));
    }
    while i < n
        invariant
            i <= n,
            n == packages@.len(),
            dv == packages.deep_view(),
            out.deep_view() == spec_sort_pkgs(dv.subrange(0, i as int)),
        decreases n - i,
    {
        let p = copy_package(&packages[i]);
        proof {
            assert(dv[i as int] == packages@[i as int]@);
            assert(p@ == dv[i as int]);
        }
        insert_pkg(&mut out, p);
        proof {
            assert(dv.subrange(0, i + 1).drop_last() =~= dv.subrange(0, i as int));
            assert(dv.subrange(0, i + 1).last() == dv[i as int]);
        }
        i = i + 1;
    }
    proof {
        assert(dv.subrange(0, n as int) =~= dv);
        lemma_sort_pkgs_sorted(dv);
        lemma_sort_pkgs_multiset(dv);
    }
    out
}

} // verus!
