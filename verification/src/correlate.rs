//! Correlation of change records with the packages that own them.
//!
//! A change record's repository-relative path belongs to the first package
//! whose name equals any of the path's components, read from the root
//! toward the leaf. Records that match no package affect nothing. A package
//! is deleted when one of its recorded changes removes its own manifest;
//! such packages are excluded from the interactive workflow, as are
//! packages with no recorded change at all.

use vstd::prelude::*;
use vstd::multiset::Multiset;

use crate::lex::lex_le;
use crate::lex::lemma_lex_le_total;
use crate::lex::lemma_lex_le_trans;
use crate::lex::str_le;
use crate::paths::path_components;
use crate::paths::spec_components;
use crate::scan::Package;
use crate::scan::manifest_filename;
use crate::semver::Version;

verus! {

/// Kind of change reported for one path.
#[derive(Copy, Clone, PartialEq, Eq, Structural, Debug)]
pub enum ChangeStatus {
    New,
    Modified,
    Deleted,
    Renamed,
    Typechange,
    Unknown,
}

/// One reported change: a repository-relative path and its status.
#[derive(Debug, PartialEq, Eq)]
pub struct ChangeRecord {
    pub path: String,
    pub status: ChangeStatus,
}

/// Mathematical image of a `ChangeRecord`.
pub ghost struct ChangeRecordView {
    pub path: Seq<char>,
    pub status: ChangeStatus,
}

impl View for ChangeRecord {
    type V = ChangeRecordView;

    open spec fn view(&self) -> ChangeRecordView {
        ChangeRecordView { path: self.path@, status: self.status }
    }
}

impl DeepView for ChangeRecord {
    type V = ChangeRecordView;

    open spec fn deep_view(&self) -> ChangeRecordView {
        self.view()
    }
}

/// A discovered package together with the changes recorded against it.
#[derive(Debug, PartialEq, Eq)]
pub struct TrackedPackage {
    pub name: String,
    pub version: Version,
    pub path: String,
    pub changes: Vec<ChangeRecord>,
}

/// Mathematical image of a `TrackedPackage`.
pub ghost struct TrackedPackageView {
    pub name: Seq<char>,
    pub version: Version,
    pub path: Seq<char>,
    pub changes: Seq<ChangeRecordView>,
}

impl View for TrackedPackage {
    type V = TrackedPackageView;

    open spec fn view(&self) -> TrackedPackageView {
        TrackedPackageView {
            name: self.name@,
            version: self.version,
            path: self.path@,
            changes: self.changes.deep_view(),
        }
    }
}

impl DeepView for TrackedPackage {
    type V = TrackedPackageView;

    open spec fn deep_view(&self) -> TrackedPackageView {
        self.view()
    }
}

/// The status, in the words status reports use.
pub open spec fn spec_status_text(s: ChangeStatus) -> Seq<char> {
    match s {
        ChangeStatus::New => "new"@,
        ChangeStatus::Modified => "modified"@,
        ChangeStatus::Deleted => "deleted"@,
        ChangeStatus::Renamed => "renamed"@,
        ChangeStatus::Typechange => "typechange"@,
        ChangeStatus::Unknown => "unknown"@,
    }
}

/// The status, in the words status reports use.
pub fn status_to_str(status: &ChangeStatus) -> (r: &'static str)
    ensures
        r@ == spec_status_text(*status),
{
    match status {
        ChangeStatus::New => "new",
        ChangeStatus::Modified => "modified",
        ChangeStatus::Deleted => "deleted",
        ChangeStatus::Renamed => "renamed",
        ChangeStatus::Typechange => "typechange",
        ChangeStatus::Unknown => "unknown",
    }
}

/// Whether the path's final component is the manifest filename.
pub open spec fn is_manifest_path(s: Seq<char>) -> bool {
    spec_components(s).len() > 0 && spec_components(s).last() == manifest_filename()
}

/// Whether the package has any change recorded.
pub open spec fn spec_is_changed(p: TrackedPackageView) -> bool {
    p.changes.len() > 0
}

/// Whether some recorded change deletes the package's own manifest.
pub open spec fn spec_is_deleted(p: TrackedPackageView) -> bool {
    exists|i: int|
        0 <= i < p.changes.len() && (#[trigger] p.changes[i]).status == ChangeStatus::Deleted
            && is_manifest_path(p.changes[i].path)
}

/// Whether the path names a manifest file as its final component.
fn path_ends_with_manifest(path: &str) -> (r: bool)
    ensures
        r == is_manifest_path(path@),
{
    let comps = path_components(path);
    if comps.len() == 0 {
        return false;
    }
    let last = &comps[comps.len() - 1];
    let m = String::from_str("package.json");
    proof {
        assert(comps.deep_view()[comps@.len() - 1] == last@);
        assert(spec_components(path@).last() == last@);
    }
    *last == m
}

impl TrackedPackage {
    /// A freshly discovered package, with no change recorded yet.
    pub fn new(package: Package) -> (r: TrackedPackage)
        ensures
            r@ == (TrackedPackageView {
                name: package.name@,
                version: package.version,
                path: package.path@,
                changes: Seq::<ChangeRecordView>::empty(),
            }),
    {
        let r = TrackedPackage {
            name: package.name,
            version: package.version,
            path: package.path,
            changes: Vec::new(),
        };
        proof {
            assert(r@.changes =~= Seq::<ChangeRecordView>::empty());
        }
        r
    }

    /// Whether any change is recorded against this package.
    pub fn is_changed(&self) -> (r: bool)
        ensures
            r == spec_is_changed(self@),
    {
        self.changes.len() > 0
    }

    /// Whether a recorded change deletes this package's own manifest.
    pub fn is_deleted(&self) -> (r: bool)
        ensures
            r == spec_is_deleted(self@),
    {
        let n = self.changes.len();
        let mut i: usize = 0;
        while i < n
            invariant
                i <= n,
                n == self.changes@.len(),
                forall|j: int|
                    0 <= j < i ==> !((#[trigger] self@.changes[j]).status == ChangeStatus::Deleted
                        && is_manifest_path(self@.changes[j].path)),
            decreases n - i,
        {
            let rec = &self.changes[i];
            let is_del = match rec.status {
                ChangeStatus::Deleted => true,
                _ => false,
            };
            if is_del && path_ends_with_manifest(rec.path.as_str()) {
                proof {
                    assert(self@.changes[i as int].status == ChangeStatus::Deleted
                        && is_manifest_path(self@.changes[i as int].path));
                }
                return true;
            }
            i = i + 1;
        }
        false
    }
}

impl TrackedPackage {
    /// The package's path relative to the repository working directory, or
    /// the path itself when it does not lie under that directory.
    pub fn path_in_repo(&self, repo_workdir: &str) -> (r: String)
        ensures
            r@ == crate::paths::spec_path_in_repo(self@.path, repo_workdir@),
    {
        crate::paths::strip_path_prefix(self.path.as_str(), repo_workdir)
    }
}

/// Index of the first package at or after `j` whose name is `comp`.
pub open spec fn spec_name_match(ps: Seq<TrackedPackageView>, comp: Seq<char>, j: int) -> Option<
    int,
>
    decreases ps.len() - j,
{
    if j < 0 || j >= ps.len() {
        None
    } else if ps[j].name == comp {
        Some(j)
    } else {
        spec_name_match(ps, comp, j + 1)
    }
}

/// The owning package of a path, walking its components `cs[i..]` from the
/// root toward the leaf: the first component equal to any package's name
/// decides.
pub open spec fn spec_owner_from(
    ps: Seq<TrackedPackageView>,
    cs: Seq<Seq<char>>,
    i: int,
) -> Option<int>
    decreases cs.len() - i,
{
    if i < 0 || i >= cs.len() {
        None
    } else {
        match spec_name_match(ps, cs[i], 0) {
            Some(j) => Some(j),
            None => spec_owner_from(ps, cs, i + 1),
        }
    }
}

/// The package that owns the change at `path`, if any.
pub open spec fn spec_owner(ps: Seq<TrackedPackageView>, path: Seq<char>) -> Option<int> {
    spec_owner_from(ps, spec_components(path), 0)
}

/// Index of the package owning the change at `path`, if any.
fn owner_index(packages: &Vec<TrackedPackage>, path: &str) -> (r: Option<usize>)
    ensures
        match r {
            Some(j) => j < packages@.len() && spec_owner(packages.deep_view(), path@) == Some(
                j as int,
            ),
            None => spec_owner(packages.deep_view(), path@) is None,
        },
{
    let comps = path_components(path);
    let nc = comps.len();
    let np = packages.len();
    let ghost dv = packages.deep_view();
    let ghost cs = spec_components(path@);
    let mut i: usize = 0;
    while i < nc
        invariant
            i <= nc,
            nc == cs.len(),
            cs == comps.deep_view(),
            cs == spec_components(path@),
            dv == packages.deep_view(),
            np == packages@.len(),
            spec_owner_from(dv, cs, 0) == spec_owner_from(dv, cs, i as int),
        decreases nc - i,
    {
        let comp = &comps[i];
        let mut j: usize = 0;
        while j < np
            invariant
                j <= np,
                np == packages@.len(),
                dv == packages.deep_view(),
                comp@ == cs[i as int],
                0 <= i < cs.len(),
                cs == spec_components(path@),
                spec_owner_from(dv, cs, 0) == spec_owner_from(dv, cs, i as int),
                spec_name_match(dv, cs[i as int], 0) == spec_name_match(dv, cs[i as int], j as int),
            decreases np - j,
        {
            if packages[j].name == *comp {
                proof {
                    assert(dv[j as int].name == comp@);
                    assert(spec_name_match(dv, cs[i as int], j as int) == Some(j as int));
                    assert(spec_owner_from(dv, cs, i as int) == Some(j as int));
                    assert(spec_owner(dv, path@) == Some(j as int));
                }
                return Some(j);
            }
            proof {
                assert(dv[j as int].name != comp@);
            }
            j = j + 1;
        }
        i = i + 1;
    }
    None
}

/// The recorded changes stand in lexicographic path order.
pub open spec fn sorted_by_path(cs: Seq<ChangeRecordView>) -> bool {
    forall|i: int, j: int|
        0 <= i < j < cs.len() ==> lex_le((#[trigger] cs[i]).path, (#[trigger] cs[j]).path)
}

/// Where a new record lands among changes ordered by path: after every
/// record whose path is at or before its own.
pub open spec fn insert_pos_by_path(cs: Seq<ChangeRecordView>, rec: ChangeRecordView) -> int
    decreases cs.len(),
{
    if cs.len() == 0 {
        0
    } else if lex_le(cs[0].path, rec.path) {
        1 + insert_pos_by_path(cs.drop_first(), rec)
    } else {
        0
    }
}

/// A record inserted among changes ordered by path.
pub open spec fn spec_insert_by_path(
    cs: Seq<ChangeRecordView>,
    rec: ChangeRecordView,
) -> Seq<ChangeRecordView> {
    cs.insert(insert_pos_by_path(cs, rec), rec)
}

/// The insertion position is in range, everything before it is at or
/// before the new record, and what stands at it is strictly after.
proof fn lemma_insert_pos_by_path_props(cs: Seq<ChangeRecordView>, rec: ChangeRecordView)
    ensures
        0 <= insert_pos_by_path(cs, rec) <= cs.len(),
        forall|m: int|
            0 <= m < insert_pos_by_path(cs, rec) ==> lex_le((#[trigger] cs[m]).path, rec.path),
        insert_pos_by_path(cs, rec) < cs.len() ==> !lex_le(
            cs[insert_pos_by_path(cs, rec)].path,
            rec.path,
        ),
    decreases cs.len(),
{
    if cs.len() > 0 && lex_le(cs[0].path, rec.path) {
        lemma_insert_pos_by_path_props(cs.drop_first(), rec);
        let k = insert_pos_by_path(cs, rec);
        assert forall|m: int| 0 <= m < k implies lex_le((#[trigger] cs[m]).path, rec.path) by {
            if m > 0 {
                assert(cs[m] == cs.drop_first()[m - 1]);
            }
        }
    }
}

/// Inserting a record adds exactly that record: nothing else is lost,
/// duplicated or invented.
pub proof fn lemma_insert_by_path_multiset(cs: Seq<ChangeRecordView>, rec: ChangeRecordView)
    ensures
        spec_insert_by_path(cs, rec).len() == cs.len() + 1,
        spec_insert_by_path(cs, rec).to_multiset() == cs.to_multiset().insert(rec),
{
    broadcast use vstd::seq_lib::group_to_multiset_ensures;

    let k = insert_pos_by_path(cs, rec);
    lemma_insert_pos_by_path_props(cs, rec);
    let r = cs.insert(k, rec);
    cs.insert_ensures(k, rec);
    assert(r.remove(k) =~= cs);
    assert(r.remove(k).to_multiset() =~= r.to_multiset().remove(r[k]));
    assert(r[k] == rec);
    assert(r.contains(rec));
    assert(r.to_multiset().count(rec) > 0);
    assert(cs.to_multiset().insert(rec) =~= r.to_multiset().remove(rec).insert(rec));
    assert(r.to_multiset().remove(rec).insert(rec) =~= r.to_multiset());
}

/// Inserting into path-ordered changes keeps them ordered.
pub proof fn lemma_insert_by_path_sorted(cs: Seq<ChangeRecordView>, rec: ChangeRecordView)
    requires
        sorted_by_path(cs),
    ensures
        sorted_by_path(spec_insert_by_path(cs, rec)),
{
    let k = insert_pos_by_path(cs, rec);
    lemma_insert_pos_by_path_props(cs, rec);
    let r = cs.insert(k, rec);
    cs.insert_ensures(k, rec);
    assert forall|i: int, j: int| 0 <= i < j < r.len() implies lex_le(
        (#[trigger] r[i]).path,
        (#[trigger] r[j]).path,
    ) by {
        if i == k || j == k {
            if j == k && i < k {
                assert(r[i] == cs[i]);
                assert(lex_le(cs[i].path, rec.path));
            }
            if i == k && j > k {
                assert(r[j] == cs[j - 1]);
                assert(j - 1 >= k);
                lemma_lex_le_total(cs[k].path, rec.path);
                assert(lex_le(rec.path, cs[k].path));
                if j - 1 > k {
                    assert(lex_le(cs[k].path, cs[j - 1].path));
                    lemma_lex_le_trans(rec.path, cs[k].path, cs[j - 1].path);
                }
            }
        } else if j < k {
            assert(r[i] == cs[i] && r[j] == cs[j]);
        } else if i > k {
            assert(r[i] == cs[i - 1] && r[j] == cs[j - 1]);
        } else {
            assert(i < k && j > k);
            assert(r[i] == cs[i] && r[j] == cs[j - 1]);
            if i < k && k < cs.len() {
                if j - 1 == i {
                    assert(lex_le(cs[i].path, rec.path));
                    lemma_lex_le_total(cs[k].path, rec.path);
                    lemma_lex_le_trans(rec.path, cs[k].path, cs[i].path);
                    assert(false);
                }
            }
        }
    }
}

/// Duplicates a record value.
fn copy_record(r: &ChangeRecord) -> (c: ChangeRecord)
    ensures
        c == *r,
{
    ChangeRecord { path: r.path.clone(), status: r.status }
}

impl TrackedPackage {
    /// Records one more change against this package, keeping the list
    /// ordered by path.
    pub fn add_change(&mut self, rec: ChangeRecord)
        ensures
            final(self)@ == (TrackedPackageView {
                changes: spec_insert_by_path(old(self)@.changes, rec@),
                ..old(self)@
            }),
    {
        let ghost cs = self@.changes;
        let ghost rv = rec@;
        proof {
            lemma_insert_pos_by_path_props(cs, rv);
        }
        let n = self.changes.len();
        let mut k: usize = 0;
        loop
            invariant
                k <= n,
                n == self.changes@.len(),
                *self == *old(self),
                cs == self@.changes,
                rv == rec@,
                forall|m: int| 0 <= m < k ==> lex_le((#[trigger] cs[m]).path, rv.path),
                insert_pos_by_path(cs, rv) >= k,
            ensures
                k <= n,
                *self == *old(self),
                k as int == insert_pos_by_path(cs, rv),
            decreases n - k,
        {
            proof {
                lemma_insert_pos_by_path_props(cs, rv);
            }
            if k >= n {
                break ;
            }
            if !str_le(self.changes[k].path.as_str(), rec.path.as_str()) {
                proof {
                    assert(!lex_le(cs[k as int].path, rv.path));
                    assert(insert_pos_by_path(cs, rv) <= k) by {
                        if insert_pos_by_path(cs, rv) > k {
                            assert(lex_le(cs[k as int].path, rv.path));
                        }
                    }
                }
                break ;
            }
            proof {
                assert(insert_pos_by_path(cs, rv) != k) by {
                    if insert_pos_by_path(cs, rv) == k {
                        assert(!lex_le(cs[k as int].path, rv.path));
                    }
                }
            }
            k = k + 1;
        }
        self.changes.insert(k, rec);
        proof {
            assert(final(self)@.changes =~= spec_insert_by_path(cs, rv));
            assert(final(self)@ == (TrackedPackageView {
                changes: spec_insert_by_path(old(self)@.changes, rv),
                ..old(self)@
            }));
        }
    }
}

/// One record applied: inserted into the changes of its owning package,
/// or dropped when no package owns it.
pub open spec fn spec_apply_record(
    ps: Seq<TrackedPackageView>,
    rec: ChangeRecordView,
) -> Seq<TrackedPackageView> {
    match spec_owner(ps, rec.path) {
        Some(j) => ps.update(
            j,
            TrackedPackageView { changes: spec_insert_by_path(ps[j].changes, rec), ..ps[j] },
        ),
        None => ps,
    }
}

/// The records `recs[i..]` applied in order.
pub open spec fn spec_apply_records(
    ps: Seq<TrackedPackageView>,
    recs: Seq<ChangeRecordView>,
    i: int,
) -> Seq<TrackedPackageView>
    decreases recs.len() - i,
{
    if i < 0 || i >= recs.len() {
        ps
    } else {
        spec_apply_records(spec_apply_record(ps, recs[i]), recs, i + 1)
    }
}

/// Assigns every record to the package owning its path, keeping each
/// package's change list ordered by path. Unmatched records change nothing.
pub fn set_changes(packages: &mut Vec<TrackedPackage>, records: &Vec<ChangeRecord>)
    ensures
        final(packages).deep_view() == spec_apply_records(
            old(packages).deep_view(),
            records.deep_view(),
            0,
        ),
{
    let ghost orig = packages.deep_view();
    let ghost recs = records.deep_view();
    let n = records.len();
    let mut r: usize = 0;
    while r < n
        invariant
            r <= n,
            n == records@.len(),
            recs == records.deep_view(),
            spec_apply_records(packages.deep_view(), recs, r as int) == spec_apply_records(
                orig,
                recs,
                0,
            ),
        decreases n - r,
    {
        let ghost before = packages.deep_view();
        let rec = copy_record(&records[r]);
        proof {
            assert(rec@ == recs[r as int]);
        }
        match owner_index(packages, rec.path.as_str()) {
            Some(j) => {
                packages[j].add_change(rec);
                proof {
                    assert(packages.deep_view() =~= spec_apply_record(before, recs[r as int]));
                }
            },
            None => {
                proof {
                    assert(packages.deep_view() =~= spec_apply_record(before, recs[r as int]));
                }
            },
        }
        r = r + 1;
    }
}

/// The records among `recs[i..]` that the package at `j` owns.
pub open spec fn owned_records(
    ps: Seq<TrackedPackageView>,
    recs: Seq<ChangeRecordView>,
    i: int,
    j: int,
) -> Multiset<ChangeRecordView>
    decreases recs.len() - i,
{
    if i < 0 || i >= recs.len() {
        Multiset::empty()
    } else {
        let rest = owned_records(ps, recs, i + 1, j);
        if spec_owner(ps, recs[i].path) == Some(j) {
            rest.insert(recs[i])
        } else {
            rest
        }
    }
}

/// A name match, when found, is a real package index.
proof fn lemma_name_match_in_range(ps: Seq<TrackedPackageView>, comp: Seq<char>, j: int)
    ensures
        spec_name_match(ps, comp, j) matches Some(o) ==> 0 <= o < ps.len(),
    decreases ps.len() - j,
{
    if 0 <= j && j < ps.len() && ps[j].name != comp {
        lemma_name_match_in_range(ps, comp, j + 1);
    }
}

/// An owner, when found, is a real package index.
proof fn lemma_owner_in_range(ps: Seq<TrackedPackageView>, cs: Seq<Seq<char>>, i: int)
    ensures
        spec_owner_from(ps, cs, i) matches Some(o) ==> 0 <= o < ps.len(),
    decreases cs.len() - i,
{
    if 0 <= i && i < cs.len() {
        lemma_name_match_in_range(ps, cs[i], 0);
        lemma_owner_in_range(ps, cs, i + 1);
    }
}

/// Ownership reads only the packages' names.
proof fn lemma_name_match_names_only(
    ps1: Seq<TrackedPackageView>,
    ps2: Seq<TrackedPackageView>,
    comp: Seq<char>,
    j: int,
)
    requires
        ps1.len() == ps2.len(),
        forall|k: int| 0 <= k < ps1.len() ==> (#[trigger] ps1[k]).name == ps2[k].name,
    ensures
        spec_name_match(ps1, comp, j) == spec_name_match(ps2, comp, j),
    decreases ps1.len() - j,
{
    if 0 <= j && j < ps1.len() && ps1[j].name != comp {
        lemma_name_match_names_only(ps1, ps2, comp, j + 1);
    }
}

proof fn lemma_owner_from_names_only(
    ps1: Seq<TrackedPackageView>,
    ps2: Seq<TrackedPackageView>,
    cs: Seq<Seq<char>>,
    i: int,
)
    requires
        ps1.len() == ps2.len(),
        forall|k: int| 0 <= k < ps1.len() ==> (#[trigger] ps1[k]).name == ps2[k].name,
    ensures
        spec_owner_from(ps1, cs, i) == spec_owner_from(ps2, cs, i),
    decreases cs.len() - i,
{
    if 0 <= i && i < cs.len() {
        lemma_name_match_names_only(ps1, ps2, cs[i], 0);
        lemma_owner_from_names_only(ps1, ps2, cs, i + 1);
    }
}

proof fn lemma_owned_records_names_only(
    ps1: Seq<TrackedPackageView>,
    ps2: Seq<TrackedPackageView>,
    recs: Seq<ChangeRecordView>,
    i: int,
    j: int,
)
    requires
        ps1.len() == ps2.len(),
        forall|k: int| 0 <= k < ps1.len() ==> (#[trigger] ps1[k]).name == ps2[k].name,
    ensures
        owned_records(ps1, recs, i, j) == owned_records(ps2, recs, i, j),
    decreases recs.len() - i,
{
    if 0 <= i && i < recs.len() {
        lemma_owner_from_names_only(ps1, ps2, spec_components(recs[i].path), 0);
        lemma_owned_records_names_only(ps1, ps2, recs, i + 1, j);
    }
}

/// Correlation assigns every owned record to its owner and nothing else:
/// no package's name, version or path changes, and the change list of
/// each package grows by exactly the records whose path it owns — none
/// lost, none duplicated, none invented.
pub proof fn lemma_apply_records_exact(
    ps: Seq<TrackedPackageView>,
    recs: Seq<ChangeRecordView>,
    i: int,
    j: int,
)
    requires
        0 <= j < ps.len(),
    ensures
        spec_apply_records(ps, recs, i).len() == ps.len(),
        spec_apply_records(ps, recs, i)[j].name == ps[j].name,
        spec_apply_records(ps, recs, i)[j].version == ps[j].version,
        spec_apply_records(ps, recs, i)[j].path == ps[j].path,
        spec_apply_records(ps, recs, i)[j].changes.to_multiset() == ps[j].changes.to_multiset().add(
            owned_records(ps, recs, i, j),
        ),
    decreases recs.len() - i,
{
    let after = spec_apply_records(ps, recs, i);
    if i < 0 || i >= recs.len() {
        assert(after == ps);
        assert(ps[j].changes.to_multiset().add(Multiset::empty())
            =~= ps[j].changes.to_multiset());
    } else {
        let rec = recs[i];
        let ps2 = spec_apply_record(ps, rec);
        lemma_owner_in_range(ps, spec_components(rec.path), 0);
        assert(ps2.len() == ps.len() && forall|k: int|
            0 <= k < ps.len() ==> (#[trigger] ps2[k]).name == ps[k].name && ps2[k].version
                == ps[k].version && ps2[k].path == ps[k].path) by {
            match spec_owner(ps, rec.path) {
                Some(o) => {
                    assert(forall|k: int|
                        0 <= k < ps.len() && k != o ==> #[trigger] ps2[k] == ps[k]);
                },
                None => {},
            }
        }
        lemma_apply_records_exact(ps2, recs, i + 1, j);
        lemma_owned_records_names_only(ps2, ps, recs, i + 1, j);
        match spec_owner(ps, rec.path) {
            Some(o) => {
                if o == j {
                    lemma_insert_by_path_multiset(ps[j].changes, rec);
                    assert(ps2[j].changes.to_multiset() == ps[j].changes.to_multiset().insert(
                        rec,
                    ));
                    assert(owned_records(ps, recs, i, j) == owned_records(
                        ps,
                        recs,
                        i + 1,
                        j,
                    ).insert(rec));
                    assert(ps[j].changes.to_multiset().insert(rec).add(
                        owned_records(ps, recs, i + 1, j),
                    ) =~= ps[j].changes.to_multiset().add(owned_records(ps, recs, i, j)));
                } else {
                    assert(ps2[j] == ps[j]);
                }
            },
            None => {
                assert(ps2 == ps);
            },
        }
    }
}

/// Applying records keeps every package's change list ordered by path.
pub proof fn lemma_apply_records_sorted(
    ps: Seq<TrackedPackageView>,
    recs: Seq<ChangeRecordView>,
    i: int,
)
    requires
        forall|j: int| 0 <= j < ps.len() ==> sorted_by_path((#[trigger] ps[j]).changes),
    ensures
        forall|j: int|
            0 <= j < spec_apply_records(ps, recs, i).len() ==> sorted_by_path(
                (#[trigger] spec_apply_records(ps, recs, i)[j]).changes,
            ),
    decreases recs.len() - i,
{
    if 0 <= i && i < recs.len() {
        let rec = recs[i];
        let ps2 = spec_apply_record(ps, rec);
        lemma_owner_in_range(ps, spec_components(rec.path), 0);
        assert forall|j: int| 0 <= j < ps2.len() implies sorted_by_path(
            (#[trigger] ps2[j]).changes,
        ) by {
            match spec_owner(ps, rec.path) {
                Some(o) => {
                    if j == o {
                        lemma_insert_by_path_sorted(ps[o].changes, rec);
                    } else {
                        assert(ps2[j] == ps[j]);
                    }
                },
                None => {},
            }
        }
        lemma_apply_records_sorted(ps2, recs, i + 1);
        assert(spec_apply_records(ps, recs, i) == spec_apply_records(ps2, recs, i + 1));
    }
}

/// Whether a package takes part in the interactive workflow: it has
/// changes, and none of them deleted its manifest.
pub open spec fn keep_package(p: TrackedPackageView) -> bool {
    spec_is_changed(p) && !spec_is_deleted(p)
}

/// The packages among `ps[i..]` kept for the workflow, in order.
pub open spec fn spec_kept(ps: Seq<TrackedPackageView>, i: int) -> Seq<TrackedPackageView>
    decreases ps.len() - i,
{
    if i < 0 || i >= ps.len() {
        seq![]
    } else if keep_package(ps[i]) {
        seq![ps[i]] + spec_kept(ps, i + 1)
    } else {
        spec_kept(ps, i + 1)
    }
}

/// Everything the filter keeps satisfies the filter.
pub proof fn lemma_kept_all_keep(ps: Seq<TrackedPackageView>, i: int)
    ensures
        forall|m: int|
            0 <= m < spec_kept(ps, i).len() ==> keep_package(#[trigger] spec_kept(ps, i)[m]),
    decreases ps.len() - i,
{
    if 0 <= i && i < ps.len() {
        lemma_kept_all_keep(ps, i + 1);
        let r = spec_kept(ps, i);
        let rest = spec_kept(ps, i + 1);
        assert forall|m: int| 0 <= m < r.len() implies keep_package(#[trigger] r[m]) by {
            if keep_package(ps[i]) {
                if m > 0 {
                    assert(r[m] == rest[m - 1]);
                }
            } else {
                assert(r[m] == rest[m]);
            }
        }
    }
}

/// The packages stand in lexicographic name order.
pub open spec fn sorted_by_name(ps: Seq<TrackedPackageView>) -> bool {
    forall|i: int, j: int|
        0 <= i < j < ps.len() ==> lex_le((#[trigger] ps[i]).name, (#[trigger] ps[j]).name)
}

/// Where a package lands among packages ordered by name.
pub open spec fn insert_pos_by_name(ps: Seq<TrackedPackageView>, p: TrackedPackageView) -> int
    decreases ps.len(),
{
    if ps.len() == 0 {
        0
    } else if lex_le(ps[0].name, p.name) {
        1 + insert_pos_by_name(ps.drop_first(), p)
    } else {
        0
    }
}

/// A package inserted among packages ordered by name.
pub open spec fn spec_insert_by_name(
    ps: Seq<TrackedPackageView>,
    p: TrackedPackageView,
) -> Seq<TrackedPackageView> {
    ps.insert(insert_pos_by_name(ps, p), p)
}

/// The packages sorted by name, by repeated ordered insertion.
pub open spec fn spec_sort_by_name(ps: Seq<TrackedPackageView>) -> Seq<TrackedPackageView>
    decreases ps.len(),
{
    if ps.len() == 0 {
        seq![]
    } else {
        spec_insert_by_name(spec_sort_by_name(ps.drop_last()), ps.last())
    }
}

proof fn lemma_insert_pos_by_name_props(ps: Seq<TrackedPackageView>, p: TrackedPackageView)
    ensures
        0 <= insert_pos_by_name(ps, p) <= ps.len(),
        forall|m: int|
            0 <= m < insert_pos_by_name(ps, p) ==> lex_le((#[trigger] ps[m]).name, p.name),
        insert_pos_by_name(ps, p) < ps.len() ==> !lex_le(ps[insert_pos_by_name(ps, p)].name, p.name),
    decreases ps.len(),
{
    if ps.len() > 0 && lex_le(ps[0].name, p.name) {
        lemma_insert_pos_by_name_props(ps.drop_first(), p);
        let k = insert_pos_by_name(ps, p);
        assert forall|m: int| 0 <= m < k implies lex_le((#[trigger] ps[m]).name, p.name) by {
            if m > 0 {
                assert(ps[m] == ps.drop_first()[m - 1]);
            }
        }
    }
}

/// Inserting into name-ordered packages keeps them ordered.
pub proof fn lemma_insert_by_name_sorted(ps: Seq<TrackedPackageView>, p: TrackedPackageView)
    requires
        sorted_by_name(ps),
    ensures
        sorted_by_name(spec_insert_by_name(ps, p)),
{
    let k = insert_pos_by_name(ps, p);
    lemma_insert_pos_by_name_props(ps, p);
    let r = ps.insert(k, p);
    ps.insert_ensures(k, p);
    assert forall|i: int, j: int| 0 <= i < j < r.len() implies lex_le(
        (#[trigger] r[i]).name,
        (#[trigger] r[j]).name,
    ) by {
        if i == k || j == k {
            if j == k && i < k {
                assert(r[i] == ps[i]);
                assert(lex_le(ps[i].name, p.name));
            }
            if i == k && j > k {
                assert(r[j] == ps[j - 1]);
                assert(j - 1 >= k);
                lemma_lex_le_total(ps[k].name, p.name);
                assert(lex_le(p.name, ps[k].name));
                if j - 1 > k {
                    assert(lex_le(ps[k].name, ps[j - 1].name));
                    lemma_lex_le_trans(p.name, ps[k].name, ps[j - 1].name);
                }
            }
        } else if j < k {
            assert(r[i] == ps[i] && r[j] == ps[j]);
        } else if i > k {
            assert(r[i] == ps[i - 1] && r[j] == ps[j - 1]);
        } else {
            assert(i < k && j > k);
            assert(r[i] == ps[i] && r[j] == ps[j - 1]);
            if j - 1 == i {
                assert(lex_le(ps[i].name, p.name));
                lemma_lex_le_total(ps[k].name, p.name);
                lemma_lex_le_trans(p.name, ps[k].name, ps[i].name);
                assert(false);
            }
        }
    }
}

/// Ordered insertion adds exactly the one package.
pub proof fn lemma_insert_by_name_multiset(ps: Seq<TrackedPackageView>, p: TrackedPackageView)
    ensures
        spec_insert_by_name(ps, p).len() == ps.len() + 1,
        spec_insert_by_name(ps, p).to_multiset() == ps.to_multiset().insert(p),
{
    broadcast use vstd::seq_lib::group_to_multiset_ensures;

    let k = insert_pos_by_name(ps, p);
    lemma_insert_pos_by_name_props(ps, p);
    let r = ps.insert(k, p);
    ps.insert_ensures(k, p);
    assert(r.remove(k) =~= ps);
    assert(r.remove(k).to_multiset() =~= r.to_multiset().remove(r[k]));
    assert(r[k] == p);
    assert(r.contains(p));
    assert(r.to_multiset().count(p) > 0);
    assert(ps.to_multiset().insert(p) =~= r.to_multiset().remove(p).insert(p));
    assert(r.to_multiset().remove(p).insert(p) =~= r.to_multiset());
}

/// Sorting by name rearranges the packages and does nothing else: the
/// output holds exactly the input packages.
pub proof fn lemma_sort_by_name_multiset(ps: Seq<TrackedPackageView>)
    ensures
        spec_sort_by_name(ps).to_multiset() == ps.to_multiset(),
        spec_sort_by_name(ps).len() == ps.len(),
    decreases ps.len(),
{
    broadcast use vstd::seq_lib::group_to_multiset_ensures;

    if ps.len() > 0 {
        lemma_sort_by_name_multiset(ps.drop_last());
        lemma_insert_by_name_multiset(spec_sort_by_name(ps.drop_last()), ps.last());
        assert(ps.drop_last().push(ps.last()) =~= ps);
        assert(ps.drop_last().push(ps.last()).to_multiset() =~= ps.drop_last(
        ).to_multiset().insert(ps.last()));
    }
}

/// The insertion sort leaves the packages in name order.
pub proof fn lemma_sort_by_name_sorted(ps: Seq<TrackedPackageView>)
    ensures
        sorted_by_name(spec_sort_by_name(ps)),
    decreases ps.len(),
{
    if ps.len() > 0 {
        lemma_sort_by_name_sorted(ps.drop_last());
        lemma_insert_by_name_sorted(spec_sort_by_name(ps.drop_last()), ps.last());
    }
}

/// Inserts a package among packages already ordered by name.
fn insert_tracked_by_name(out: &mut Vec<TrackedPackage>, p: TrackedPackage)
    ensures
        final(out).deep_view() == spec_insert_by_name(old(out).deep_view(), p@),
{
    let ghost ps = out.deep_view();
    let ghost pv = p@;
    proof {
        lemma_insert_pos_by_name_props(ps, pv);
    }
    let n = out.len();
    let mut k: usize = 0;
    loop
        invariant
            k <= n,
            n == out@.len(),
            *out == *old(out),
            ps == out.deep_view(),
            pv == p@,
            insert_pos_by_name(ps, pv) >= k,
        ensures
            k <= n,
            *out == *old(out),
            k as int == insert_pos_by_name(ps, pv),
        decreases n - k,
    {
        proof {
            lemma_insert_pos_by_name_props(ps, pv);
        }
        if k >= n {
            break ;
        }
        if !str_le(out[k].name.as_str(), p.name.as_str()) {
            proof {
                assert(!lex_le(ps[k as int].name, pv.name));
                assert(insert_pos_by_name(ps, pv) <= k) by {
                    if insert_pos_by_name(ps, pv) > k {
                        assert(lex_le(ps[k as int].name, pv.name));
                    }
                }
            }
            break ;
        }
        proof {
            assert(insert_pos_by_name(ps, pv) != k) by {
                if insert_pos_by_name(ps, pv) == k {
                    assert(!lex_le(ps[k as int].name, pv.name));
                }
            }
        }
        k = k + 1;
    }
    out.insert(k, p);
    proof {
        assert(final(out).deep_view() =~= spec_insert_by_name(ps, pv));
    }
}

/// Fresh tracking state for each discovered package, in discovery order.
pub open spec fn spec_tracked(ps: Seq<crate::scan::PackageView>) -> Seq<TrackedPackageView> {
    Seq::new(
        ps.len(),
        |i: int|
            TrackedPackageView {
                name: ps[i].name,
                version: ps[i].version,
                path: ps[i].path,
                changes: Seq::empty(),
            },
    )
}

/// The whole correlation: every record assigned to its owning package,
/// deleted and unchanged packages dropped, the rest sorted by name.
pub open spec fn spec_changed_packages(
    ps: Seq<crate::scan::PackageView>,
    recs: Seq<ChangeRecordView>,
) -> Seq<TrackedPackageView> {
    spec_sort_by_name(spec_kept(spec_apply_records(spec_tracked(ps), recs, 0), 0))
}

/// Correlates the records with the discovered packages and returns the
/// packages the interactive workflow visits: each changed, none deleted,
/// sorted by name ascending, each with its changes ordered by path.
pub fn get_changed_packages(packages: Vec<Package>, records: &Vec<ChangeRecord>) -> (r: Vec<
    TrackedPackage,
>)
    ensures
        r.deep_view() == spec_changed_packages(packages.deep_view(), records.deep_view()),
        sorted_by_name(r.deep_view()),
        forall|i: int| 0 <= i < r.deep_view().len() ==> keep_package(#[trigger] r.deep_view()[i]),
        forall|i: int|
            0 <= i < r.deep_view().len() ==> sorted_by_path(
                (#[trigger] r.deep_view()[i]).changes,
            ),
{
    let ghost pvs = packages.deep_view();
    let mut packages = packages;
    let mut tracked_list: Vec<TrackedPackage> = Vec::new();
    proof {
        assert(tracked_list.deep_view() + spec_tracked(packages.deep_view()) =~= spec_tracked(pvs));
    }
    while packages.len() > 0
        invariant
            tracked_list.deep_view() + spec_tracked(packages.deep_view()) == spec_tracked(pvs),
        decreases packages@.len(),
    {
        let ghost before = tracked_list.deep_view();
        let ghost rem = packages.deep_view();
        let p = packages.remove(0);
        tracked_list.push(TrackedPackage::new(p));
        proof {
            assert(packages.deep_view() =~= rem.drop_first());
            assert(tracked_list.deep_view() + spec_tracked(packages.deep_view()) =~= spec_tracked(
                pvs,
            ));
        }
    }
    proof {
        assert(spec_tracked(packages.deep_view()) =~= Seq::<TrackedPackageView>::empty());
        assert(tracked_list.deep_view() =~= spec_tracked(pvs));
    }
    set_changes(&mut tracked_list, records);

    let ghost applied = tracked_list.deep_view();
    let mut kept: Vec<TrackedPackage> = Vec::new();
    proof {
        assert(kept.deep_view() + spec_kept(applied, 0) =~= spec_kept(applied, 0));
    }
    let ghost mut i: int = 0;
    proof {
        assert(applied.skip(0) =~= applied);
    }
    while tracked_list.len() > 0
        invariant
            0 <= i <= applied.len(),
            tracked_list.deep_view() == applied.skip(i),
            kept.deep_view() + spec_kept(applied, i) == spec_kept(applied, 0),
        decreases tracked_list@.len(),
    {
        let ghost kb = kept.deep_view();
        let ghost entry_dv = tracked_list.deep_view();
        let p = tracked_list.remove(0);
        proof {
            assert(entry_dv.len() > 0);
            assert(i < applied.len());
            assert(applied.skip(i)[0] == applied[i]);
            assert(p.deep_view() == entry_dv[0]);
            assert(tracked_list.deep_view() =~= entry_dv.drop_first());
            assert(entry_dv.drop_first() =~= applied.skip(i + 1));
        }
        let take = p.is_changed() && !p.is_deleted();
        if take {
            kept.push(p);
            proof {
                assert(kept.deep_view() =~= kb + seq![applied[i]]);
                assert(kept.deep_view() + spec_kept(applied, i + 1) =~= spec_kept(applied, 0));
            }
        } else {
            proof {
                assert(kept.deep_view() + spec_kept(applied, i + 1) =~= spec_kept(applied, 0));
            }
        }
        proof {
            i = i + 1;
        }
    }
    proof {
        assert(spec_kept(applied, i) =~= Seq::<TrackedPackageView>::empty());
        assert(kept.deep_view() =~= spec_kept(applied, 0));
    }

    let ghost kv = kept.deep_view();
    let mut sorted: Vec<TrackedPackage> = Vec::new();
    let ghost mut j: int = 0;
    proof {
        assert(kv.subrange(0, 0) =~= Seq::<TrackedPackageView>::empty());
        assert(sorted.deep_view() =~= spec_sort_by_name(kv.subrange(0, 0)));
    }
    proof {
        assert(kept.deep_view() =~= kv.skip(0));
    }
    while kept.len() > 0
        invariant
            0 <= j <= kv.len(),
            kept.deep_view() == kv.skip(j),
            sorted.deep_view() == spec_sort_by_name(kv.subrange(0, j)),
        decreases kept@.len(),
    {
        let ghost entry_dv = kept.deep_view();
        let p = kept.remove(0);
        proof {
            assert(entry_dv.len() > 0);
            assert(j < kv.len());
            assert(kv.skip(j)[0] == kv[j]);
            assert(p.deep_view() == entry_dv[0]);
            assert(kept.deep_view() =~= entry_dv.drop_first());
            assert(entry_dv.drop_first() =~= kv.skip(j + 1));
        }
        insert_tracked_by_name(&mut sorted, p);
        proof {
            assert(kv.subrange(0, j + 1).drop_last() =~= kv.subrange(0, j));
            assert(kv.subrange(0, j + 1).last() == kv[j]);
            j = j + 1;
        }
    }
    proof {
        assert(kv.subrange(0, kv.len() as int) =~= kv);
        assert(sorted.deep_view() == spec_changed_packages(pvs, records.deep_view()));
        lemma_sort_by_name_sorted(kv);
        lemma_kept_all_keep(applied, 0);
        assert(forall|j: int|
            0 <= j < spec_tracked(pvs).len() ==> sorted_by_path(
                (#[trigger] spec_tracked(pvs)[j]).changes,
            ));
        lemma_apply_records_sorted(spec_tracked(pvs), records.deep_view(), 0);
        assert forall|m: int| 0 <= m < sorted.deep_view().len() implies keep_package(
            #[trigger] sorted.deep_view()[m],
        ) && sorted_by_path(sorted.deep_view()[m].changes) by {
            lemma_sort_by_name_elements(kv, m);
            let t = choose|t: int| 0 <= t < kv.len() && sorted.deep_view()[m] == #[trigger] kv[t];
            lemma_kept_elements(applied, 0, t);
        }
    }
    sorted
}

/// Every package in the sorted output is one of the input packages:
/// sorting neither adds nor changes packages.
proof fn lemma_sort_by_name_elements(ps: Seq<TrackedPackageView>, m: int)
    requires
        0 <= m < spec_sort_by_name(ps).len(),
    ensures
        exists|t: int| 0 <= t < ps.len() && spec_sort_by_name(ps)[m] == #[trigger] ps[t],
    decreases ps.len(),
{
    if ps.len() > 0 {
        let s = spec_sort_by_name(ps.drop_last());
        let p = ps.last();
        let k = insert_pos_by_name(s, p);
        lemma_insert_pos_by_name_props(s, p);
        s.insert_ensures(k, p);
        if m == k {
            assert(spec_sort_by_name(ps)[m] == ps[ps.len() - 1]);
        } else {
            let m0 = if m < k {
                m
            } else {
                m - 1
            };
            lemma_sort_by_name_elements(ps.drop_last(), m0);
            let t = choose|t: int|
                0 <= t < ps.drop_last().len() && spec_sort_by_name(ps.drop_last())[m0]
                    == #[trigger] ps.drop_last()[t];
            assert(spec_sort_by_name(ps)[m] == ps[t]);
        }
    }
}

/// Every package the filter keeps is one of the packages it was given.
proof fn lemma_kept_elements(ps: Seq<TrackedPackageView>, i: int, m: int)
    requires
        0 <= m < spec_kept(ps, i).len(),
    ensures
        exists|t: int| 0 <= t < ps.len() && spec_kept(ps, i)[m] == #[trigger] ps[t],
    decreases ps.len() - i,
{
    if 0 <= i && i < ps.len() {
        if keep_package(ps[i]) {
            if m == 0 {
                assert(spec_kept(ps, i)[m] == ps[i]);
            } else {
                assert(spec_kept(ps, i)[m] == spec_kept(ps, i + 1)[m - 1]);
                lemma_kept_elements(ps, i + 1, m - 1);
            }
        } else {
            lemma_kept_elements(ps, i + 1, m);
        }
    }
}

} // verus!
