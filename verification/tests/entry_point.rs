use installation::{sniff_entry_point, EntryPoint};

fn listing(names: &[&str]) -> Vec<String> {
    names.iter().map(|name| name.to_string()).collect()
}

#[test]
fn src_init_alone_gives_src_suffix() {
    let entry = sniff_entry_point(&listing(&["src/init.lua"]));
    assert_eq!(entry, EntryPoint::SrcSuffix);
    assert_eq!(entry.suffix(), Some("/src"));
}

#[test]
fn root_init_after_src_init_wins() {
    let entry = sniff_entry_point(&listing(&["src/init.lua", "init.lua"]));
    assert_eq!(entry, EntryPoint::RootSuffix);
    assert_eq!(entry.suffix(), Some(""));
}

#[test]
fn root_init_before_src_init_wins() {
    let entry = sniff_entry_point(&listing(&["init.lua", "src/init.lua"]));
    assert_eq!(entry, EntryPoint::RootSuffix);
    assert_eq!(entry.suffix(), Some(""));
}

#[test]
fn empty_listing_has_no_entry_point() {
    let entry = sniff_entry_point(&listing(&[]));
    assert_eq!(entry, EntryPoint::Absent);
    assert_eq!(entry.suffix(), None);
}

#[test]
fn luau_files_are_recognised() {
    assert_eq!(sniff_entry_point(&listing(&["init.luau"])), EntryPoint::RootSuffix);
    assert_eq!(sniff_entry_point(&listing(&["src/init.luau"])), EntryPoint::SrcSuffix);
    assert_eq!(
        sniff_entry_point(&listing(&["README.md", "src/init.luau", "src/lib.lua", "init.luau"])),
        EntryPoint::RootSuffix
    );
}

#[test]
fn other_names_are_no_entry_point() {
    let entry = sniff_entry_point(&listing(&[
        "init.lua.bak",
        "lib/init.lua",
        "src/init",
        "Init.lua",
        "src/src/init.lua",
    ]));
    assert_eq!(entry, EntryPoint::Absent);
}

#[test]
fn entry_point_does_not_depend_on_order() {
    let names = ["a.lua", "src/init.lua", "b.lua", "init.luau"];
    let forward = sniff_entry_point(&listing(&names));
    let mut reversed = names;
    reversed.reverse();
    assert_eq!(forward, sniff_entry_point(&listing(&reversed)));
    assert_eq!(forward, EntryPoint::RootSuffix);
}
