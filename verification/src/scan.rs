//! Boundary-pruning package discovery over a directory tree.
//!
//! The tree is an explicit value: directories with their entries, and files
//! carrying the `name` and `version` fields read from their document, when
//! the file could be read as one. The scan walks top-down; a directory with
//! a direct child file named `package.json` is a package root: it yields at
//! most that one package and nothing below it is visited. Elsewhere only
//! subdirectories are entered. A manifest whose document or version text is
//! malformed is skipped silently; the rest of the tree is still scanned.

use vstd::prelude::*;

use crate::semver::Version;
use crate::semver::spec_parse;

verus! {

/// The `name` and `version` fields of a manifest document.
#[derive(Debug, PartialEq, Eq)]
pub struct ManifestFields {
    pub name: String,
    pub version_text: String,
}

/// One node of a directory tree, as handed to the scan.
///
/// A file's `manifest` holds the fields of its document, or `None` when the
/// file could not be read as a document with the two fields.
#[derive(Debug, PartialEq, Eq)]
pub enum FsEntry {
    File { name: String, manifest: Option<ManifestFields> },
    Dir { name: String, entries: Vec<FsEntry> },
}

/// A discovered package: its manifest's name and version, and the path of
/// the directory that contains the manifest.
#[derive(Debug, PartialEq, Eq)]
pub struct Package {
    pub name: String,
    pub version: Version,
    pub path: String,
}

/// Mathematical image of a `Package`.
pub ghost struct PackageView {
    pub name: Seq<char>,
    pub version: Version,
    pub path: Seq<char>,
}

impl View for Package {
    type V = PackageView;

    open spec fn view(&self) -> PackageView {
        PackageView { name: self.name@, version: self.version, path: self.path@ }
    }
}

impl DeepView for Package {
    type V = PackageView;

    open spec fn deep_view(&self) -> PackageView {
        self.view()
    }
}

/// Reserved filename that marks a directory as a package root.
pub open spec fn manifest_filename() -> Seq<char> {
    "package.json"@
}

/// Filename of the package manifest file.
pub fn manifest_file_name() -> (r: &'static str)
    ensures
        r@ == manifest_filename(),
{
    "package.json"
}

/// Whether the entry is a file named like a manifest.
pub open spec fn is_manifest_file(e: FsEntry) -> bool {
    match e {
        FsEntry::File { name, .. } => name@ == manifest_filename(),
        FsEntry::Dir { .. } => false,
    }
}

/// Whether some direct child is a manifest file.
pub open spec fn has_manifest_child(es: Seq<FsEntry>) -> bool {
    exists|i: int| 0 <= i < es.len() && is_manifest_file(#[trigger] es[i])
}

/// The document fields of a file entry.
pub open spec fn manifest_of(e: FsEntry) -> Option<ManifestFields> {
    match e {
        FsEntry::File { manifest, .. } => manifest,
        FsEntry::Dir { .. } => None,
    }
}

/// Fields of the first manifest file among `es` at or after `i`.
pub open spec fn first_manifest(es: Seq<FsEntry>, i: int) -> Option<ManifestFields>
    decreases es.len() - i,
{
    if i < 0 || i >= es.len() {
        None
    } else if is_manifest_file(es[i]) {
        manifest_of(es[i])
    } else {
        first_manifest(es, i + 1)
    }
}

/// What a package root yields: one package if its manifest's document was
/// read and its version text parses, nothing otherwise.
pub open spec fn dir_package(es: Seq<FsEntry>, path: Seq<char>) -> Seq<PackageView> {
    match first_manifest(es, 0) {
        Some(f) => match spec_parse(f.version_text@) {
            Ok(v) => seq![PackageView { name: f.name@, version: v, path: path }],
            Err(_) => seq![],
        },
        None => seq![],
    }
}

/// The packages a scan of the tree rooted at `e`, a node at `path`, yields,
/// in walk order.
pub open spec fn spec_scan(e: FsEntry, path: Seq<char>) -> Seq<PackageView>
    decreases e,
{
    match e {
        FsEntry::File { .. } => seq![],
        FsEntry::Dir { entries, .. } => {
            if has_manifest_child(entries@) {
                dir_package(entries@, path)
            } else {
                spec_scan_entries(entries@, 0, path)
            }
        },
    }
}

/// The packages yielded below the children `es[i..]` of a directory at
/// `path` that is not itself a package root: files are ignored, and each
/// subdirectory is scanned under its own path.
pub open spec fn spec_scan_entries(es: Seq<FsEntry>, i: int, path: Seq<char>) -> Seq<PackageView>
    decreases es, es.len() - i,
{
    if i < 0 || i >= es.len() {
        seq![]
    } else {
        let head = match es[i] {
            FsEntry::File { .. } => seq![],
            FsEntry::Dir { name, .. } => spec_scan(es[i], path + seq!['/'] + name@),
        };
        head + spec_scan_entries(es, i + 1, path)
    }
}

/// What a directory listing shows of one child, before any descent.
#[derive(Copy, Clone, PartialEq, Eq, Structural, Debug)]
pub enum ChildKind {
    File,
    Dir,
    Other,
}

/// One direct child of a directory being walked.
#[derive(Debug, PartialEq, Eq)]
pub struct ChildEntry {
    pub name: String,
    pub kind: ChildKind,
}

/// Mathematical image of a `ChildEntry`.
pub ghost struct ChildEntryView {
    pub name: Seq<char>,
    pub kind: ChildKind,
}

impl View for ChildEntry {
    type V = ChildEntryView;

    open spec fn view(&self) -> ChildEntryView {
        ChildEntryView { name: self.name@, kind: self.kind }
    }
}

impl DeepView for ChildEntry {
    type V = ChildEntryView;

    open spec fn deep_view(&self) -> ChildEntryView {
        self.view()
    }
}

/// Whether the child is a manifest file.
pub open spec fn child_is_manifest(c: ChildEntryView) -> bool {
    c.kind == ChildKind::File && c.name == manifest_filename()
}

/// Whether any direct child is a manifest file.
pub open spec fn any_manifest_child(cs: Seq<ChildEntryView>) -> bool {
    exists|i: int| 0 <= i < cs.len() && child_is_manifest(#[trigger] cs[i])
}

/// The children a walk keeps at one directory: at a package root exactly
/// the manifest files, elsewhere exactly the subdirectories.
pub open spec fn spec_keep_mask(cs: Seq<ChildEntryView>) -> Seq<bool> {
    Seq::new(
        cs.len(),
        |i: int|
            if any_manifest_child(cs) {
                child_is_manifest(cs[i])
            } else {
                cs[i].kind == ChildKind::Dir
            },
    )
}

/// Decides, for each direct child of one directory, whether the walk
/// keeps it: a directory with a manifest file among its children is a
/// package root, where only manifest files stay and nothing is entered;
/// elsewhere only subdirectories stay.
pub fn select_children(children: &Vec<ChildEntry>) -> (r: Vec<bool>)
    ensures
        r@ == spec_keep_mask(children.deep_view()),
{
    let ghost cs = children.deep_view();
    let n = children.len();
    let mut found = false;
    let mut i: usize = 0;
    while i < n
        invariant
            i <= n,
            n == children@.len(),
            cs == children.deep_view(),
            found == exists|j: int| 0 <= j < i && child_is_manifest(#[trigger] cs[j]),
        decreases n - i,
    {
        let c = &children[i];
        let is_file = match c.kind {
            ChildKind::File => true,
            _ => false,
        };
        if is_file && is_manifest_name(&c.name) {
            proof {
                assert(child_is_manifest(cs[i as int]));
            }
            found = true;
        }
        i = i + 1;
    }
    proof {
        assert(found == any_manifest_child(cs));
    }
    let mut mask: Vec<bool> = Vec::new();
    let mut k: usize = 0;
    proof {
        assert(mask@ =~= spec_keep_mask(cs).subrange(0, 0));
    }
    while k < n
        invariant
            k <= n,
            n == children@.len(),
            cs == children.deep_view(),
            found == any_manifest_child(cs),
            mask@ == spec_keep_mask(cs).subrange(0, k as int),
        decreases n - k,
    {
        let c = &children[k];
        let keep = if found {
            let is_file = match c.kind {
                ChildKind::File => true,
                _ => false,
            };
            is_file && is_manifest_name(&c.name)
        } else {
            match c.kind {
                ChildKind::Dir => true,
                _ => false,
            }
        };
        mask.push(keep);
        proof {
            assert(keep == spec_keep_mask(cs)[k as int]);
            assert(mask@ =~= spec_keep_mask(cs).subrange(0, k + 1));
        }
        k = k + 1;
    }
    proof {
        assert(spec_keep_mask(cs).subrange(0, n as int) =~= spec_keep_mask(cs));
    }
    mask
}

/// Whether the string is the reserved manifest filename.
fn is_manifest_name(name: &String) -> (r: bool)
    ensures
        r == (name@ == manifest_filename()),
{
    let m = String::from_str("package.json");
    *name == m
}

/// Index of the first manifest file among the entries, if any.
fn find_manifest_index(entries: &Vec<FsEntry>) -> (r: Option<usize>)
    ensures
        match r {
            Some(k) => k < entries@.len() && is_manifest_file(entries@[k as int])
                && first_manifest(entries@, 0) == manifest_of(entries@[k as int]),
            None => !has_manifest_child(entries@),
        },
{
    let n = entries.len();
    let mut i: usize = 0;
    while i < n
        invariant
            i <= n,
            n == entries@.len(),
            forall|j: int| 0 <= j < i ==> !is_manifest_file(#[trigger] entries@[j]),
            first_manifest(entries@, 0) == first_manifest(entries@, i as int),
        decreases n - i,
    {
        let found = match &entries[i] {
            FsEntry::File { name, .. } => is_manifest_name(name),
            FsEntry::Dir { .. } => false,
        };
        if found {
            return Some(i);
        }
        i = i + 1;
    }
    None
}

/// Scans the tree rooted at `root`, a node at `root_path`, and returns
/// every package the boundary-pruning walk discovers.
pub fn find_packages(root: &FsEntry, root_path: &str) -> (r: Vec<Package>)
    ensures
        r.deep_view() == spec_scan(*root, root_path@),
    decreases *root,
{
    let mut out: Vec<Package> = Vec::new();
    match root {
        FsEntry::File { .. } => {
            proof {
                assert(out.deep_view() =~= spec_scan(*root, root_path@));
            }
            out
        },
        FsEntry::Dir { entries, .. } => {
            match find_manifest_index(entries) {
                Some(k) => {
                    match &entries[k] {
                        FsEntry::File { manifest: Some(f), .. } => {
                            match Version::parse(f.version_text.as_str()) {
                                Ok(v) => {
                                    let p = Package {
                                        name: f.name.clone(),
                                        version: v,
                                        path: String::from_str(root_path),
                                    };
                                    out.push(p);
                                },
                                Err(_) => {},
                            }
                        },
                        _ => {},
                    }
                    proof {
                        assert(out.deep_view() =~= spec_scan(*root, root_path@));
                    }
                    out
                },
                None => {
                    let n = entries.len();
                    let mut i: usize = 0;
                    while i < n
                        invariant
                            i <= n,
                            n == entries@.len(),
                            root is Dir,
                            entries@ == root->Dir_entries@,
                            !has_manifest_child(entries@),
                            out.deep_view() + spec_scan_entries(
                                entries@,
                                i as int,
                                root_path@,
                            ) == spec_scan_entries(entries@, 0, root_path@),
                        decreases n - i,
                    {
                        let ghost prev = out.deep_view();
                        match &entries[i] {
                            FsEntry::File { .. } => {
                                proof {
                                    assert(prev + spec_scan_entries(
                                        entries@,
                                        i + 1,
                                        root_path@,
                                    ) =~= prev + spec_scan_entries(entries@, i as int, root_path@));
                                }
                            },
                            FsEntry::Dir { name, .. } => {
                                let mut child_path = String::from_str(root_path);
                                child_path.append("/");
                                child_path.append(name.as_str());
                                proof {
                                    reveal_strlit("/");
                                    assert(child_path@ =~= root_path@ + seq!['/'] + name@);
                                }
                                let mut sub = find_packages(&entries[i], child_path.as_str());
                                out.append(&mut sub);
                                proof {
                                    assert(out.deep_view() =~= prev + spec_scan(
                                        entries@[i as int],
                                        root_path@ + seq!['/'] + name@,
                                    ));
                                    assert(out.deep_view() + spec_scan_entries(
                                        entries@,
                                        i + 1,
                                        root_path@,
                                    ) =~= spec_scan_entries(entries@, 0, root_path@));
                                }
                            },
                        }
                        i = i + 1;
                    }
                    proof {
                        assert(spec_scan_entries(entries@, n as int, root_path@) =~= Seq::<
                            PackageView,
                        >::empty());
                        assert(out.deep_view() =~= spec_scan(*root, root_path@));
                    }
                    out
                },
            }
        },
    }
}

/// A package root yields at most one package, and that package stands at
/// the directory's own path: nothing beneath a package boundary is ever
/// reported as a package of its own.
pub proof fn lemma_scan_stops_at_package_root(e: FsEntry, path: Seq<char>)
    requires
        e is Dir,
        has_manifest_child(e->Dir_entries@),
    ensures
        spec_scan(e, path).len() <= 1,
        forall|j: int| 0 <= j < spec_scan(e, path).len() ==> spec_scan(e, path)[j].path == path,
{
}

} // verus!
