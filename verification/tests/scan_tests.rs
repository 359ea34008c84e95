use package_lib::scan::{
    find_packages, manifest_file_name, select_children, ChildEntry, ChildKind, FsEntry,
    ManifestFields, Package,
};
use package_lib::semver::Version;

fn manifest_file(name: &str, version: &str) -> FsEntry {
    FsEntry::File {
        name: "package.json".to_string(),
        manifest: Some(ManifestFields {
            name: name.to_string(),
            version_text: version.to_string(),
        }),
    }
}

fn malformed_manifest_file() -> FsEntry {
    FsEntry::File { name: "package.json".to_string(), manifest: None }
}

fn plain_file(name: &str) -> FsEntry {
    FsEntry::File { name: name.to_string(), manifest: None }
}

fn dir(name: &str, entries: Vec<FsEntry>) -> FsEntry {
    FsEntry::Dir { name: name.to_string(), entries }
}

#[test]
fn manifest_filename_is_reserved() {
    assert_eq!(manifest_file_name(), "package.json");
}

#[test]
fn nested_package_is_never_visited() {
    let tree = dir(
        "Packages",
        vec![dir(
            "A",
            vec![
                manifest_file("com.example.a", "1.0.0"),
                dir("B", vec![manifest_file("com.example.b", "2.0.0")]),
            ],
        )],
    );
    let found = find_packages(&tree, "Packages");
    assert_eq!(
        found,
        vec![Package {
            name: "com.example.a".to_string(),
            version: Version { major: 1, minor: 0, patch: 0 },
            path: "Packages/A".to_string(),
        }]
    );
}

#[test]
fn malformed_manifest_is_skipped_silently() {
    let tree = dir(
        "Packages",
        vec![
            dir("bad", vec![malformed_manifest_file()]),
            dir("good", vec![manifest_file("com.example.good", "0.1.0")]),
        ],
    );
    let found = find_packages(&tree, "Packages");
    assert_eq!(
        found,
        vec![Package {
            name: "com.example.good".to_string(),
            version: Version { major: 0, minor: 1, patch: 0 },
            path: "Packages/good".to_string(),
        }]
    );
}

#[test]
fn bad_version_text_is_skipped_silently() {
    let tree = dir(
        "Packages",
        vec![
            dir("bad", vec![manifest_file("com.example.bad", "01.2.3")]),
            dir("good", vec![manifest_file("com.example.good", "1.2.3")]),
        ],
    );
    let found = find_packages(&tree, "Packages");
    assert_eq!(found.len(), 1);
    assert_eq!(found[0].name, "com.example.good");
}

#[test]
fn files_at_non_package_nodes_are_ignored() {
    let tree = dir(
        "Packages",
        vec![
            plain_file("readme.md"),
            dir("p", vec![manifest_file("com.example.p", "3.4.5")]),
        ],
    );
    let found = find_packages(&tree, "Packages");
    assert_eq!(found.len(), 1);
    assert_eq!(found[0].path, "Packages/p");
}

#[test]
fn several_packages_are_all_found() {
    let tree = dir(
        "Packages",
        vec![
            dir("one", vec![manifest_file("com.example.one", "1.0.0")]),
            dir("two", vec![manifest_file("com.example.two", "2.0.0")]),
            dir(
                "nested",
                vec![dir("three", vec![manifest_file("com.example.three", "3.0.0")])],
            ),
        ],
    );
    let found = find_packages(&tree, "Packages");
    let names: Vec<&str> = found.iter().map(|p| p.name.as_str()).collect();
    assert_eq!(names, vec!["com.example.one", "com.example.two", "com.example.three"]);
    assert_eq!(found[2].path, "Packages/nested/three");
}

#[test]
fn package_root_hides_sibling_directories() {
    let tree = dir(
        "Packages",
        vec![dir(
            "A",
            vec![
                manifest_file("com.example.a", "1.0.0"),
                dir("Sibling", vec![manifest_file("com.example.hidden", "9.9.9")]),
                plain_file("notes.txt"),
            ],
        )],
    );
    let found = find_packages(&tree, "Packages");
    assert_eq!(found.len(), 1);
    assert_eq!(found[0].name, "com.example.a");
}

#[test]
fn a_file_root_yields_nothing() {
    let tree = plain_file("package.json");
    let found = find_packages(&tree, "Packages");
    assert!(found.is_empty());
}

#[test]
fn empty_tree_yields_nothing() {
    let tree = dir("Packages", vec![]);
    let found = find_packages(&tree, "Packages");
    assert!(found.is_empty());
}

#[test]
fn root_itself_can_be_a_package() {
    let tree = dir("Packages", vec![manifest_file("com.example.root", "1.1.1")]);
    let found = find_packages(&tree, "Packages");
    assert_eq!(found.len(), 1);
    assert_eq!(found[0].path, "Packages");
}

#[test]
fn select_children_keeps_only_manifests_at_package_roots() {
    let children = vec![
        ChildEntry { name: "Editor".to_string(), kind: ChildKind::Dir },
        ChildEntry { name: "package.json".to_string(), kind: ChildKind::File },
        ChildEntry { name: "readme.md".to_string(), kind: ChildKind::File },
    ];
    assert_eq!(select_children(&children), vec![false, true, false]);
}

#[test]
fn select_children_keeps_only_directories_elsewhere() {
    let children = vec![
        ChildEntry { name: "Editor".to_string(), kind: ChildKind::Dir },
        ChildEntry { name: "readme.md".to_string(), kind: ChildKind::File },
        ChildEntry { name: "package.json".to_string(), kind: ChildKind::Dir },
    ];
    assert_eq!(select_children(&children), vec![true, false, true]);
}
