use package_lib::correlate::{
    get_changed_packages, set_changes, status_to_str, ChangeRecord, ChangeStatus, TrackedPackage,
};
use package_lib::scan::Package;
use package_lib::semver::Version;

fn package(name: &str, path: &str) -> Package {
    Package {
        name: name.to_string(),
        version: Version { major: 1, minor: 0, patch: 0 },
        path: path.to_string(),
    }
}

fn record(path: &str, status: ChangeStatus) -> ChangeRecord {
    ChangeRecord { path: path.to_string(), status }
}

#[test]
fn change_goes_to_package_named_by_a_component() {
    let packages = vec![package("com.foo", "Packages/com.foo")];
    let records = vec![record("Packages/com.foo/Editor/x.cs", ChangeStatus::Modified)];
    let changed = get_changed_packages(packages, &records);
    assert_eq!(changed.len(), 1);
    assert_eq!(changed[0].name, "com.foo");
    assert_eq!(changed[0].changes, vec![record("Packages/com.foo/Editor/x.cs", ChangeStatus::Modified)]);
}

#[test]
fn unmatched_change_affects_nothing() {
    let packages = vec![package("com.foo", "Packages/com.foo")];
    let records = vec![record("Other/y.cs", ChangeStatus::Modified)];
    let changed = get_changed_packages(packages, &records);
    assert!(changed.is_empty());
}

#[test]
fn deleted_manifest_excludes_the_package() {
    let packages = vec![package("com.foo", "Packages/com.foo")];
    let records = vec![record("Packages/com.foo/package.json", ChangeStatus::Deleted)];
    let changed = get_changed_packages(packages, &records);
    assert!(changed.is_empty());
}

#[test]
fn deleted_ordinary_file_does_not_exclude() {
    let packages = vec![package("com.foo", "Packages/com.foo")];
    let records = vec![record("Packages/com.foo/Editor/x.cs", ChangeStatus::Deleted)];
    let changed = get_changed_packages(packages, &records);
    assert_eq!(changed.len(), 1);
}

#[test]
fn unchanged_package_is_not_listed() {
    let packages = vec![
        package("com.foo", "Packages/com.foo"),
        package("com.bar", "Packages/com.bar"),
    ];
    let records = vec![record("Packages/com.foo/a.cs", ChangeStatus::New)];
    let changed = get_changed_packages(packages, &records);
    assert_eq!(changed.len(), 1);
    assert_eq!(changed[0].name, "com.foo");
}

#[test]
fn output_is_sorted_by_name() {
    let packages = vec![
        package("com.zeta", "Packages/com.zeta"),
        package("com.alpha", "Packages/com.alpha"),
        package("com.mid", "Packages/com.mid"),
    ];
    let records = vec![
        record("Packages/com.zeta/z.cs", ChangeStatus::Modified),
        record("Packages/com.alpha/a.cs", ChangeStatus::Modified),
        record("Packages/com.mid/m.cs", ChangeStatus::Modified),
    ];
    let changed = get_changed_packages(packages, &records);
    let names: Vec<&str> = changed.iter().map(|p| p.name.as_str()).collect();
    assert_eq!(names, vec!["com.alpha", "com.mid", "com.zeta"]);
}

#[test]
fn changes_are_sorted_by_path() {
    let packages = vec![package("com.foo", "Packages/com.foo")];
    let records = vec![
        record("Packages/com.foo/c.cs", ChangeStatus::Modified),
        record("Packages/com.foo/a.cs", ChangeStatus::New),
        record("Packages/com.foo/b.cs", ChangeStatus::Deleted),
    ];
    let changed = get_changed_packages(packages, &records);
    let paths: Vec<&str> = changed[0].changes.iter().map(|c| c.path.as_str()).collect();
    assert_eq!(
        paths,
        vec!["Packages/com.foo/a.cs", "Packages/com.foo/b.cs", "Packages/com.foo/c.cs"]
    );
}

#[test]
fn first_matching_component_wins() {
    let packages = vec![
        package("com.outer", "Packages/com.outer"),
        package("com.inner", "Packages/com.outer/com.inner"),
    ];
    let records = vec![record("Packages/com.outer/com.inner/x.cs", ChangeStatus::Modified)];
    let changed = get_changed_packages(packages, &records);
    assert_eq!(changed.len(), 1);
    assert_eq!(changed[0].name, "com.outer");
}

#[test]
fn set_changes_assigns_in_place() {
    let mut assigned = vec![TrackedPackage::new(package("com.foo", "Packages/com.foo"))];
    assert!(!assigned[0].is_changed());
    let records = vec![record("Packages/com.foo/x.cs", ChangeStatus::Modified)];
    set_changes(&mut assigned, &records);
    assert!(assigned[0].is_changed());
    assert!(!assigned[0].is_deleted());
    assert_eq!(assigned[0].changes.len(), 1);
}

#[test]
fn is_deleted_needs_manifest_as_final_component() {
    let mut p = TrackedPackage::new(package("com.foo", "Packages/com.foo"));
    p.add_change(record("Packages/com.foo/sub/package.json", ChangeStatus::Deleted));
    assert!(p.is_deleted());

    let mut q = TrackedPackage::new(package("com.foo", "Packages/com.foo"));
    q.add_change(record("Packages/com.foo/package.json", ChangeStatus::Modified));
    assert!(!q.is_deleted());
}

#[test]
fn path_in_repo_strips_the_working_directory() {
    let p = TrackedPackage::new(package("com.foo", "/repo/Packages/com.foo"));
    assert_eq!(p.path_in_repo("/repo"), "Packages/com.foo");
    assert_eq!(p.path_in_repo("/elsewhere"), "/repo/Packages/com.foo");
}

#[test]
fn status_text_names_each_kind() {
    assert_eq!(status_to_str(&ChangeStatus::New), "new");
    assert_eq!(status_to_str(&ChangeStatus::Modified), "modified");
    assert_eq!(status_to_str(&ChangeStatus::Deleted), "deleted");
    assert_eq!(status_to_str(&ChangeStatus::Renamed), "renamed");
    assert_eq!(status_to_str(&ChangeStatus::Typechange), "typechange");
    assert_eq!(status_to_str(&ChangeStatus::Unknown), "unknown");
}
