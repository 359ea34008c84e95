use package_lib::manifest::{get_sorted_package_list, updated_dependencies};
use package_lib::scan::Package;
use package_lib::semver::Version;

fn package(name: &str, version: Version) -> Package {
    Package { name: name.to_string(), version, path: format!("Packages/{}", name) }
}

fn v(major: u16, minor: u16, patch: u16) -> Version {
    Version { major, minor, patch }
}

#[test]
fn matched_dependency_gets_the_discovered_version() {
    let deps = vec![
        ("com.foo".to_string(), "1.0.0".to_string()),
        ("com.vendor.sdk".to_string(), "9.9.9".to_string()),
    ];
    let packages = vec![package("com.foo", v(1, 4, 2))];
    let updated = updated_dependencies(&deps, &packages);
    assert_eq!(
        updated,
        vec![
            ("com.foo".to_string(), "1.4.2".to_string()),
            ("com.vendor.sdk".to_string(), "9.9.9".to_string()),
        ]
    );
}

#[test]
fn order_and_length_of_dependencies_are_kept() {
    let deps = vec![
        ("b".to_string(), "0.1.0".to_string()),
        ("a".to_string(), "0.2.0".to_string()),
    ];
    let packages = vec![package("a", v(3, 0, 0)), package("b", v(4, 0, 0))];
    let updated = updated_dependencies(&deps, &packages);
    assert_eq!(
        updated,
        vec![
            ("b".to_string(), "4.0.0".to_string()),
            ("a".to_string(), "3.0.0".to_string()),
        ]
    );
}

#[test]
fn no_packages_means_no_change() {
    let deps = vec![("com.foo".to_string(), "1.0.0".to_string())];
    let updated = updated_dependencies(&deps, &vec![]);
    assert_eq!(updated, deps);
}

#[test]
fn sorted_list_is_ordered_by_name() {
    let packages = vec![
        package("com.zeta", v(1, 0, 0)),
        package("com.alpha", v(2, 0, 0)),
        package("com.mid", v(3, 0, 0)),
    ];
    let sorted = get_sorted_package_list(&packages);
    let names: Vec<&str> = sorted.iter().map(|p| p.name.as_str()).collect();
    assert_eq!(names, vec!["com.alpha", "com.mid", "com.zeta"]);
}

#[test]
fn sorted_list_breaks_name_ties_by_version() {
    let packages = vec![
        package("com.foo", v(2, 0, 0)),
        package("com.foo", v(1, 5, 0)),
    ];
    let sorted = get_sorted_package_list(&packages);
    assert_eq!(sorted[0].version, v(1, 5, 0));
    assert_eq!(sorted[1].version, v(2, 0, 0));
}

#[test]
fn sorted_list_keeps_every_package() {
    let packages = vec![
        package("b", v(1, 0, 0)),
        package("a", v(1, 0, 0)),
    ];
    let sorted = get_sorted_package_list(&packages);
    assert_eq!(sorted.len(), 2);
    assert_eq!(packages.len(), 2);
}
