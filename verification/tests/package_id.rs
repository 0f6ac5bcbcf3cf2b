use installation::{package_id_file_name, PackageId};

#[test]
fn file_name_joins_scope_name_and_version() {
    let id = PackageId::new("scope", "Foo", "1.0.0").unwrap();
    assert_eq!(package_id_file_name(&id), "scope_Foo@1.0.0");
}

#[test]
fn parts_are_kept() {
    let id = PackageId::new("roblox", "roact", "1.4.2-rc.1").unwrap();
    assert_eq!(id.scope(), "roblox");
    assert_eq!(id.name(), "roact");
    assert_eq!(id.version(), "1.4.2-rc.1");
    assert_eq!(package_id_file_name(&id), "roblox_roact@1.4.2-rc.1");
}

#[test]
fn scope_with_underscore_is_refused() {
    assert!(PackageId::new("a_b", "c", "1.0.0").is_none());
}

#[test]
fn name_with_at_sign_is_refused() {
    assert!(PackageId::new("a", "b@c", "1.0.0").is_none());
}

#[test]
fn underscore_in_name_and_at_sign_in_version_are_accepted() {
    let id = PackageId::new("a", "b_c", "1.0.0@x").unwrap();
    assert_eq!(package_id_file_name(&id), "a_b_c@1.0.0@x");
}

#[test]
fn distinct_packages_have_distinct_file_names() {
    let ids = [
        PackageId::new("a", "b", "1.0.0").unwrap(),
        PackageId::new("a", "b", "1.0.1").unwrap(),
        PackageId::new("a", "bb", "1.0.0").unwrap(),
        PackageId::new("ab", "b", "1.0.0").unwrap(),
        PackageId::new("a", "b_b", "1.0.0").unwrap(),
    ];
    for (i, first) in ids.iter().enumerate() {
        for (j, second) in ids.iter().enumerate() {
            assert_eq!(
                package_id_file_name(first) == package_id_file_name(second),
                i == j
            );
            assert_eq!(first.same_as(second), i == j);
        }
    }
}

#[test]
fn file_name_is_the_same_every_time() {
    let id = PackageId::new("scope", "name", "0.1.0").unwrap();
    assert_eq!(package_id_file_name(&id), package_id_file_name(&id.duplicate()));
}

#[test]
fn part_with_a_separator_is_refused() {
    assert!(PackageId::new("a/b", "c", "1.0.0").is_none());
    assert!(PackageId::new("a", "../c", "1.0.0").is_none());
    assert!(PackageId::new("a", "c", "1.0.0/..").is_none());
    assert!(PackageId::new("a", "c\\d", "1.0.0").is_none());
    assert!(PackageId::new("a", "c", "..").is_some());
}

#[test]
fn clone_is_the_same_package() {
    let id = PackageId::new("scope", "name", "0.1.0").unwrap();
    assert_eq!(id.clone(), id);
    assert!(id.clone().same_as(&id));
}
