use std::io::Write;

use installation::{
    archive_entry_point, Dependency, DependencyList, EntryPoint, InstallError, InstallationContext,
    LinkForm, Metadata, PackageId, PackageSourceMap, Realm, Resolve, Step, TreePath,
};

fn id(scope: &str, name: &str, version: &str) -> PackageId {
    PackageId::new(scope, name, version).unwrap()
}

fn path(segments: &[&str]) -> TreePath {
    let mut path = TreePath::root(segments[0]);
    for segment in &segments[1..] {
        path = path.join(segment);
    }
    path
}

fn archive(names: &[&str]) -> Vec<u8> {
    let mut writer = zip::ZipWriter::new(std::io::Cursor::new(Vec::new()));
    for name in names {
        writer
            .start_file(*name, zip::write::FileOptions::default())
            .unwrap();
        writer.write_all(b"return {}").unwrap();
    }
    writer.finish().unwrap().into_inner()
}

fn sources(names: &[&str]) -> PackageSourceMap {
    PackageSourceMap::new(names.iter().map(|name| name.to_string()).collect()).unwrap()
}

fn graph(
    activated: Vec<PackageId>,
    metadata: Vec<Metadata>,
    shared_dependencies: Vec<DependencyList>,
) -> Resolve {
    Resolve::new(activated, metadata, shared_dependencies).unwrap()
}

fn metadata(package: &PackageId, registry: &str) -> Metadata {
    Metadata {
        package: package.clone(),
        source_registry: registry.to_string(),
    }
}

fn dependency(alias: &str, package: &PackageId) -> Dependency {
    Dependency {
        alias: alias.to_string(),
        package: package.clone(),
    }
}

fn describe(steps: &[Step]) -> Vec<String> {
    steps
        .iter()
        .map(|step| match step {
            Step::RemoveDir { path } => format!("remove {}", path.segments().join("/")),
            Step::CreateDir { path } => format!("mkdir {}", path.segments().join("/")),
            Step::WriteLink {
                path,
                registry,
                dependency,
                form,
            } => format!(
                "link {} <- {}:{}:{}:{} {:?}",
                path.segments().join("/"),
                registry,
                dependency.scope(),
                dependency.name(),
                dependency.version(),
                form
            ),
            Step::Materialize {
                package,
                registry,
                directory,
            } => format!(
                "materialize {}:{}:{} from {} into {}",
                package.scope(),
                package.name(),
                package.version(),
                registry,
                directory.segments().join("/")
            ),
            Step::Halt { error } => match error {
                InstallError::UnknownRegistry { registry } => {
                    format!("halt unknown registry {}", registry)
                }
                InstallError::MissingMetadata { package } => format!(
                    "halt missing metadata {}:{}:{}",
                    package.scope(),
                    package.name(),
                    package.version()
                ),
            },
        })
        .collect()
}

#[test]
fn new_lays_out_the_six_directories() {
    let context = InstallationContext::new("project");
    assert_eq!(
        context.paths_for(Realm::Shared),
        (
            path(&["project", "packages"]),
            path(&["project", "packages", "_index"])
        )
    );
    assert_eq!(
        context.paths_for(Realm::Server),
        (
            path(&["project", "ServerPackages"]),
            path(&["project", "ServerPackages", "_index"])
        )
    );
    assert_eq!(
        context.paths_for(Realm::Dev),
        (
            path(&["project", "DevPackages"]),
            path(&["project", "DevPackages", "_index"])
        )
    );
    assert_eq!(context.tree_root(Realm::Dev), &path(&["project", "DevPackages"]));
    assert_eq!(
        context.index_root(Realm::Server).segments(),
        &vec![
            "project".to_string(),
            "ServerPackages".to_string(),
            "_index".to_string()
        ]
    );
}

#[test]
fn clean_removes_the_three_package_trees() {
    let context = InstallationContext::new("project");
    let steps = context.clean();
    assert_eq!(
        describe(&steps),
        vec![
            "remove project/packages",
            "remove project/ServerPackages",
            "remove project/DevPackages",
        ]
    );
    assert!(steps.iter().all(|step| step.tolerates_missing()));
    assert!(steps.iter().all(|step| !step.is_halt()));
}

#[test]
fn only_removal_tolerates_a_missing_target() {
    let create = Step::CreateDir {
        path: path(&["project", "packages"]),
    };
    assert!(!create.tolerates_missing());
    let halt = Step::Halt {
        error: InstallError::UnknownRegistry {
            registry: "r".to_string(),
        },
    };
    assert!(!halt.tolerates_missing());
    assert!(halt.is_halt());
}

#[test]
fn root_link_text_is_exact() {
    let context = InstallationContext::new("project");
    let foo = id("scope", "Foo", "1.0.0");
    assert_eq!(
        context.link_root_same_index(&foo, None),
        "return require(\"_index/scope_Foo@1.0.0\")\n"
    );
    assert_eq!(
        context.link_root_same_index(&foo, Some("")),
        "return require(\"_index/scope_Foo@1.0.0\")\n"
    );
    assert_eq!(
        context.link_root_same_index(&foo, Some("/src")),
        "return require(\"_index/scope_Foo@1.0.0/src\")\n"
    );
}

#[test]
fn sibling_link_text_is_exact() {
    let context = InstallationContext::new("project");
    let b = id("scope", "B", "2.0.0");
    assert_eq!(
        context.link_sibling_same_index(&b, None),
        "return require(\"../../scope_B@2.0.0\")\n"
    );
    assert_eq!(
        context.link_sibling_same_index(&b, Some("/src")),
        "return require(\"../../scope_B@2.0.0/src\")\n"
    );
}

#[test]
fn archive_names_decide_the_entry_point() {
    assert_eq!(
        archive_entry_point(&archive(&["init.luau", "src/init.lua"])),
        Ok(EntryPoint::RootSuffix)
    );
    assert_eq!(
        archive_entry_point(&archive(&["default.project.json", "src/init.lua"])),
        Ok(EntryPoint::SrcSuffix)
    );
    assert_eq!(
        archive_entry_point(&archive(&["README.md"])),
        Ok(EntryPoint::Absent)
    );
    assert_eq!(archive_entry_point(&archive(&[])), Ok(EntryPoint::Absent));
}

#[test]
fn entry_point_of_a_large_archive_does_not_depend_on_position() {
    let mut names: Vec<String> = (0..40).map(|i| format!("lib/file{}.lua", i)).collect();
    names.insert(17, "src/init.luau".to_string());
    names.push("init.lua".to_string());
    let borrowed: Vec<&str> = names.iter().map(|name| name.as_str()).collect();
    assert_eq!(
        archive_entry_point(&archive(&borrowed)),
        Ok(EntryPoint::RootSuffix)
    );
    assert_eq!(
        archive_entry_point(&archive(&borrowed[..41])),
        Ok(EntryPoint::SrcSuffix)
    );
}

#[test]
fn bytes_that_are_no_archive_are_refused() {
    assert!(archive_entry_point(b"init.lua").is_err());
    assert!(archive_entry_point(&[]).is_err());
    let mut broken = archive(&["init.lua"]);
    broken.truncate(broken.len() - 10);
    assert!(archive_entry_point(&broken).is_err());
}

#[test]
fn link_contents_follow_the_archive() {
    let context = InstallationContext::new("project");
    let dep = id("scope", "Dep", "0.3.1");
    assert_eq!(
        context
            .link_contents(LinkForm::Root, &dep, &archive(&["init.lua"]))
            .unwrap(),
        "return require(\"_index/scope_Dep@0.3.1\")\n"
    );
    assert_eq!(
        context
            .link_contents(LinkForm::Root, &dep, &archive(&["src/init.luau"]))
            .unwrap(),
        "return require(\"_index/scope_Dep@0.3.1/src\")\n"
    );
    assert_eq!(
        context
            .link_contents(LinkForm::Sibling, &dep, &archive(&["src/init.lua", "init.luau"]))
            .unwrap(),
        "return require(\"../../scope_Dep@0.3.1\")\n"
    );
    assert_eq!(
        context
            .link_contents(LinkForm::Sibling, &dep, &archive(&["main.lua"]))
            .unwrap(),
        "return require(\"../../scope_Dep@0.3.1\")\n"
    );
    assert!(context
        .link_contents(LinkForm::Sibling, &dep, b"not an archive")
        .is_err());
}

#[test]
fn root_with_one_shared_dependency() {
    let root = id("scope", "R", "0.1.0");
    let foo = id("scope", "Foo", "1.0.0");
    let resolved = graph(vec![foo.clone(), root.clone()], vec![metadata(&foo, "main"), metadata(&root, "main")], vec![DependencyList {
            owner: root.clone(),
            dependencies: vec![dependency("Foo", &foo)],
        }]);
    let context = InstallationContext::new(".");
    let steps = context
        .clone()
        .install(sources(&["main"]), root.clone(), resolved);
    assert_eq!(
        describe(&steps),
        vec![
            "materialize scope:Foo:1.0.0 from main into ./packages/_index/scope_Foo@1.0.0",
            "mkdir ./packages",
            "link ./packages/Foo.lua <- main:scope:Foo:1.0.0 Root",
        ]
    );
    let contents = context
        .link_contents(LinkForm::Root, &foo, &archive(&["init.luau", "lib.luau"]))
        .unwrap();
    assert_eq!(contents, "return require(\"_index/scope_Foo@1.0.0\")\n");
}

#[test]
fn package_with_one_sibling_dependency() {
    let root = id("scope", "R", "0.1.0");
    let a = id("scope", "A", "1.0.0");
    let b = id("scope", "B", "2.0.0");
    let resolved = graph(vec![a.clone(), b.clone(), root.clone()], vec![
            metadata(&a, "main"),
            metadata(&b, "main"),
            metadata(&root, "main"),
        ], vec![DependencyList {
            owner: a.clone(),
            dependencies: vec![dependency("B", &b)],
        }]);
    let context = InstallationContext::new(".");
    let steps = context
        .clone()
        .install(sources(&["main"]), root.clone(), resolved);
    assert_eq!(
        describe(&steps),
        vec![
            "mkdir ./packages/_index/scope_A@1.0.0",
            "mkdir ./packages/_index/scope_A@1.0.0/packages",
            "link ./packages/_index/scope_A@1.0.0/packages/B.lua <- main:scope:B:2.0.0 Sibling",
            "materialize scope:A:1.0.0 from main into ./packages/_index/scope_A@1.0.0",
            "materialize scope:B:2.0.0 from main into ./packages/_index/scope_B@2.0.0",
        ]
    );
    let contents = context
        .link_contents(LinkForm::Sibling, &b, &archive(&["src/init.lua"]))
        .unwrap();
    assert_eq!(contents, "return require(\"../../scope_B@2.0.0/src\")\n");
}

#[test]
fn sibling_links_are_fetched_from_the_registry_of_the_dependency() {
    let root = id("s", "root", "0.0.0");
    let a = id("s", "a", "1.0.0");
    let b = id("s", "b", "1.0.0");
    let c = id("s", "c", "1.0.0");
    let resolved = graph(vec![a.clone(), b.clone(), c.clone(), root.clone()], vec![
            metadata(&a, "first"),
            metadata(&b, "second"),
            metadata(&c, "second"),
        ], vec![
            DependencyList {
                owner: a.clone(),
                dependencies: vec![dependency("b", &b), dependency("see", &c)],
            },
            DependencyList {
                owner: root.clone(),
                dependencies: vec![dependency("a", &a), dependency("b", &b)],
            },
        ]);
    let steps = InstallationContext::new("p").install(
        sources(&["first", "second"]),
        root.clone(),
        resolved,
    );
    assert_eq!(
        describe(&steps),
        vec![
            "mkdir p/packages/_index/s_a@1.0.0",
            "mkdir p/packages/_index/s_a@1.0.0/packages",
            "link p/packages/_index/s_a@1.0.0/packages/b.lua <- second:s:b:1.0.0 Sibling",
            "mkdir p/packages/_index/s_a@1.0.0/packages",
            "link p/packages/_index/s_a@1.0.0/packages/see.lua <- second:s:c:1.0.0 Sibling",
            "materialize s:a:1.0.0 from first into p/packages/_index/s_a@1.0.0",
            "materialize s:b:1.0.0 from second into p/packages/_index/s_b@1.0.0",
            "materialize s:c:1.0.0 from second into p/packages/_index/s_c@1.0.0",
            "mkdir p/packages",
            "link p/packages/a.lua <- first:s:a:1.0.0 Root",
            "link p/packages/b.lua <- second:s:b:1.0.0 Root",
        ]
    );
}

#[test]
fn empty_dependency_lists_still_create_directories() {
    let root = id("s", "root", "0.0.0");
    let a = id("s", "a", "1.0.0");
    let resolved = graph(vec![root.clone(), a.clone()], vec![metadata(&a, "main")], vec![
            DependencyList {
                owner: root.clone(),
                dependencies: vec![],
            },
            DependencyList {
                owner: a.clone(),
                dependencies: vec![],
            },
        ]);
    let steps = InstallationContext::new("p").install(sources(&["main"]), root.clone(), resolved);
    assert_eq!(
        describe(&steps),
        vec![
            "mkdir p/packages",
            "mkdir p/packages/_index/s_a@1.0.0",
            "materialize s:a:1.0.0 from main into p/packages/_index/s_a@1.0.0",
        ]
    );
}

#[test]
fn root_alone_needs_no_step() {
    let root = id("s", "root", "0.0.0");
    let resolved = graph(vec![root.clone()], vec![], vec![]);
    let steps = InstallationContext::new("p").install(sources(&[]), root.clone(), resolved);
    assert!(steps.is_empty());
}

#[test]
fn unknown_registry_of_an_owner_halts_where_it_would_be_installed() {
    let root = id("s", "root", "0.0.0");
    let a = id("s", "a", "1.0.0");
    let b = id("s", "b", "1.0.0");
    let c = id("s", "c", "1.0.0");
    let resolved = graph(
        vec![b.clone(), a.clone(), c.clone(), root.clone()],
        vec![
            metadata(&a, "elsewhere"),
            metadata(&b, "main"),
            metadata(&c, "main"),
        ],
        vec![DependencyList {
            owner: a.clone(),
            dependencies: vec![dependency("b", &b)],
        }],
    );
    let steps = InstallationContext::new("p").install(sources(&["main"]), root.clone(), resolved);
    assert_eq!(
        describe(&steps),
        vec![
            "materialize s:b:1.0.0 from main into p/packages/_index/s_b@1.0.0",
            "mkdir p/packages/_index/s_a@1.0.0",
            "mkdir p/packages/_index/s_a@1.0.0/packages",
            "link p/packages/_index/s_a@1.0.0/packages/b.lua <- main:s:b:1.0.0 Sibling",
            "halt unknown registry elsewhere",
        ]
    );
}

#[test]
fn unknown_registry_of_a_sibling_dependency_halts_at_its_link() {
    let a = id("s", "a", "1.0.0");
    let b = id("s", "b", "1.0.0");
    let c = id("s", "c", "1.0.0");
    let resolved = graph(
        vec![a.clone(), b.clone(), c.clone()],
        vec![
            metadata(&a, "main"),
            metadata(&b, "elsewhere"),
            metadata(&c, "main"),
        ],
        vec![],
    );
    let steps = InstallationContext::new("p").write_package_links(
        &a,
        Realm::Shared,
        &vec![dependency("c", &c), dependency("b", &b), dependency("d", &c)],
        &resolved,
        &sources(&["main"]),
    );
    assert_eq!(
        describe(&steps),
        vec![
            "mkdir p/packages/_index/s_a@1.0.0",
            "mkdir p/packages/_index/s_a@1.0.0/packages",
            "link p/packages/_index/s_a@1.0.0/packages/c.lua <- main:s:c:1.0.0 Sibling",
            "mkdir p/packages/_index/s_a@1.0.0/packages",
            "halt unknown registry elsewhere",
        ]
    );
}

#[test]
fn dependency_on_another_registry_than_its_owner_is_linked() {
    let root = id("s", "root", "0.0.0");
    let owner = id("s", "owner", "1.0.0");
    let dep = id("t", "dep", "2.0.0");
    let resolved = graph(
        vec![owner.clone(), dep.clone(), root.clone()],
        vec![metadata(&owner, "r1"), metadata(&dep, "r2")],
        vec![DependencyList {
            owner: owner.clone(),
            dependencies: vec![dependency("dep", &dep)],
        }],
    );
    let steps = InstallationContext::new("p").install(
        sources(&["r1", "r2"]),
        root.clone(),
        resolved,
    );
    assert_eq!(
        describe(&steps),
        vec![
            "mkdir p/packages/_index/s_owner@1.0.0",
            "mkdir p/packages/_index/s_owner@1.0.0/packages",
            "link p/packages/_index/s_owner@1.0.0/packages/dep.lua <- r2:t:dep:2.0.0 Sibling",
            "materialize s:owner:1.0.0 from r1 into p/packages/_index/s_owner@1.0.0",
            "materialize t:dep:2.0.0 from r2 into p/packages/_index/t_dep@2.0.0",
        ]
    );
}

#[test]
fn unknown_registry_of_a_root_dependency_halts_at_its_link() {
    let root = id("s", "root", "0.0.0");
    let a = id("s", "a", "1.0.0");
    let b = id("s", "b", "1.0.0");
    let context = InstallationContext::new("p");
    let resolved = graph(vec![root.clone()], vec![metadata(&a, "main"), metadata(&b, "elsewhere")], vec![]);
    let steps = context.write_root_package_links(
        Realm::Server,
        &vec![dependency("a", &a), dependency("b", &b), dependency("c", &a)],
        &resolved,
        &sources(&["main"]),
    );
    assert_eq!(
        describe(&steps),
        vec![
            "mkdir p/ServerPackages",
            "link p/ServerPackages/a.lua <- main:s:a:1.0.0 Root",
            "halt unknown registry elsewhere",
        ]
    );
}

#[test]
fn missing_metadata_halts() {
    let root = id("s", "root", "0.0.0");
    let a = id("s", "a", "1.0.0");
    let b = id("s", "b", "1.0.0");
    let resolved = graph(vec![root.clone(), a.clone(), b.clone()], vec![metadata(&b, "main")], vec![DependencyList {
            owner: root.clone(),
            dependencies: vec![dependency("b", &b), dependency("a", &a)],
        }]);
    let steps = InstallationContext::new("p").install(sources(&["main"]), root.clone(), resolved);
    assert_eq!(
        describe(&steps),
        vec![
            "mkdir p/packages",
            "link p/packages/b.lua <- main:s:b:1.0.0 Root",
            "halt missing metadata s:a:1.0.0",
        ]
    );

    let resolved = graph(vec![a.clone(), b.clone()], vec![metadata(&b, "main")], vec![]);
    let steps = InstallationContext::new("p").install(sources(&["main"]), root.clone(), resolved);
    assert_eq!(describe(&steps), vec!["halt missing metadata s:a:1.0.0"]);
}

#[test]
fn unknown_registry_without_links_halts() {
    let root = id("s", "root", "0.0.0");
    let a = id("s", "a", "1.0.0");
    let b = id("s", "b", "1.0.0");
    let resolved = graph(
        vec![b.clone(), a.clone(), root.clone()],
        vec![metadata(&a, "elsewhere"), metadata(&b, "main")],
        vec![],
    );
    let known = sources(&["main"]);
    assert!(matches!(
        known.lookup("elsewhere"),
        Err(InstallError::UnknownRegistry { registry }) if registry == "elsewhere"
    ));
    let steps = InstallationContext::new("p").install(known, root.clone(), resolved);
    assert_eq!(
        describe(&steps),
        vec![
            "materialize s:b:1.0.0 from main into p/packages/_index/s_b@1.0.0",
            "halt unknown registry elsewhere",
        ]
    );
}

#[test]
fn write_package_links_uses_the_index_of_the_given_realm() {
    let a = id("s", "a", "1.0.0");
    let b = id("s", "b", "1.0.0");
    let resolved = graph(vec![a.clone(), b.clone()], vec![metadata(&a, "other"), metadata(&b, "main")], vec![]);
    let steps = InstallationContext::new("p").write_package_links(
        &a,
        Realm::Dev,
        &vec![dependency("b", &b)],
        &resolved,
        &sources(&["other", "main"]),
    );
    assert_eq!(
        describe(&steps),
        vec![
            "mkdir p/DevPackages/_index/s_a@1.0.0",
            "mkdir p/DevPackages/_index/s_a@1.0.0/packages",
            "link p/DevPackages/_index/s_a@1.0.0/packages/b.lua <- main:s:b:1.0.0 Sibling",
        ]
    );
}

#[test]
fn write_contents_targets_the_package_directory() {
    let a = id("s", "a", "1.0.0");
    let step = InstallationContext::new("p").write_contents(&a, "main", Realm::Server);
    assert_eq!(
        describe(&[step]),
        vec!["materialize s:a:1.0.0 from main into p/ServerPackages/_index/s_a@1.0.0"]
    );
}

#[test]
fn installing_twice_gives_the_same_steps() {
    let root = id("s", "root", "0.0.0");
    let a = id("s", "a", "1.0.0");
    let make = || graph(vec![a.clone(), root.clone()], vec![metadata(&a, "main")], vec![DependencyList {
            owner: root.clone(),
            dependencies: vec![dependency("a", &a)],
        }]);
    let context = InstallationContext::new("p");
    let first = context
        .clone()
        .install(sources(&["main"]), root.clone(), make());
    let second = context
        .clone()
        .install(sources(&["main"]), root.clone(), make());
    assert_eq!(describe(&first), describe(&second));
    let bytes = archive(&["src/init.lua", "init.lua"]);
    assert_eq!(
        context.link_contents(LinkForm::Root, &a, &bytes),
        context.link_contents(LinkForm::Root, &a, &bytes)
    );
}

#[test]
fn source_map_finds_the_position_of_a_name() {
    let map = sources(&["a", "b", "c"]);
    assert_eq!(map.get("a"), Some(0));
    assert_eq!(map.get("c"), Some(2));
    assert_eq!(map.get("d"), None);
    assert!(matches!(map.lookup("b"), Ok(1)));
    assert_eq!(map.registries().len(), 3);
}

#[test]
fn source_map_refuses_a_name_twice() {
    let names =
        |names: &[&str]| -> Vec<String> { names.iter().map(|name| name.to_string()).collect() };
    assert!(PackageSourceMap::new(names(&["a", "b", "a"])).is_none());
    assert!(PackageSourceMap::new(names(&["a", "b"])).is_some());
    assert!(PackageSourceMap::new(names(&[])).is_some());
}

#[test]
fn graph_answers_for_the_packages_on_record() {
    let a = id("s", "a", "1.0.0");
    let b = id("s", "b", "1.0.0");
    let resolved = graph(
        vec![a.clone(), b.clone()],
        vec![metadata(&b, "x"), metadata(&a, "y")],
        vec![DependencyList {
            owner: a.clone(),
            dependencies: vec![dependency("b", &b)],
        }],
    );
    assert_eq!(resolved.activated(), &vec![a.clone(), b.clone()]);
    assert_eq!(resolved.metadata().len(), 2);
    assert_eq!(resolved.shared_dependencies().len(), 1);
    assert_eq!(resolved.source_registry(&a), Some(&"y".to_string()));
    assert_eq!(resolved.source_registry(&id("s", "c", "1.0.0")), None);
    assert_eq!(resolved.dependencies(&a).unwrap().len(), 1);
    assert!(resolved.dependencies(&b).is_none());
}

#[test]
fn graph_refuses_what_occurs_twice() {
    let a = id("s", "a", "1.0.0");
    let b = id("s", "b", "1.0.0");
    let list = |owner: &PackageId, aliases: &[&str]| DependencyList {
        owner: owner.clone(),
        dependencies: aliases.iter().map(|alias| dependency(alias, &b)).collect(),
    };
    assert!(Resolve::new(vec![a.clone(), b.clone(), a.clone()], vec![], vec![]).is_none());
    assert!(Resolve::new(
        vec![a.clone()],
        vec![metadata(&a, "x"), metadata(&b, "x"), metadata(&a, "y")],
        vec![]
    )
    .is_none());
    assert!(
        Resolve::new(vec![a.clone()], vec![], vec![list(&a, &["x"]), list(&a, &["y"])]).is_none()
    );
    assert!(Resolve::new(vec![a.clone()], vec![], vec![list(&a, &["x", "y", "x"])]).is_none());
    assert!(Resolve::new(
        vec![a.clone(), b.clone()],
        vec![metadata(&a, "x"), metadata(&b, "x")],
        vec![list(&a, &["x", "y"]), list(&b, &["x"])]
    )
    .is_some());
}

#[test]
fn graph_refuses_an_alias_that_leads_elsewhere() {
    let a = id("s", "a", "1.0.0");
    let with_alias = |alias: &str| {
        Resolve::new(
            vec![a.clone()],
            vec![],
            vec![DependencyList {
                owner: a.clone(),
                dependencies: vec![dependency(alias, &a)],
            }],
        )
    };
    assert!(with_alias("../../etc/x").is_none());
    assert!(with_alias("a/b").is_none());
    assert!(with_alias("a\\b").is_none());
    assert!(with_alias("..").is_some());
    assert!(with_alias("Roact").is_some());
}

#[test]
fn installation_works_in_the_shared_tree_only() {
    let root = id("s", "root", "0.0.0");
    let a = id("s", "a", "1.0.0");
    let b = id("s", "b", "2.0.0");
    let resolved = graph(vec![a.clone(), b.clone(), root.clone()], vec![metadata(&a, "main"), metadata(&b, "main")], vec![
            DependencyList {
                owner: a.clone(),
                dependencies: vec![dependency("b", &b)],
            },
            DependencyList {
                owner: root.clone(),
                dependencies: vec![dependency("a", &a)],
            },
        ]);
    let context = InstallationContext::new("p");
    let steps = context
        .clone()
        .install(sources(&["main"]), root.clone(), resolved);
    assert_eq!(steps.len(), 7);
    let tree = context.tree_root(Realm::Shared).segments().clone();
    for step in &steps {
        let target = match step {
            Step::RemoveDir { path } | Step::CreateDir { path } | Step::WriteLink { path, .. } => {
                path
            }
            Step::Materialize { directory, .. } => directory,
            Step::Halt { .. } => panic!("the plan is halted"),
        };
        assert!(target.segments().starts_with(&tree));
    }
    let removed: Vec<TreePath> = context
        .clean()
        .into_iter()
        .map(|step| match step {
            Step::RemoveDir { path } => path,
            other => panic!("{:?} is no removal", other),
        })
        .collect();
    assert!(removed.contains(context.tree_root(Realm::Shared)));
}

#[test]
fn packages_and_links_have_paths_of_their_own() {
    let context = InstallationContext::new("p");
    let a = id("s", "a", "1.0.0");
    let b = id("s", "a", "1.0.1");
    let directory = |package: &PackageId| match context.write_contents(package, "main", Realm::Shared) {
        Step::Materialize { directory, .. } => directory,
        other => panic!("{:?} unpacks nothing", other),
    };
    assert_ne!(directory(&a), directory(&b));
    assert_eq!(directory(&a), directory(&a.duplicate()));

    let resolved = graph(vec![a.clone(), b.clone()], vec![metadata(&a, "main"), metadata(&b, "main")], vec![]);
    let links = |owner: &PackageId| {
        context.write_package_links(
            owner,
            Realm::Shared,
            &vec![dependency("x", &a), dependency("y", &a)],
            &resolved,
            &sources(&["main"]),
        )
    };
    let mut paths: Vec<TreePath> = Vec::new();
    for step in links(&a).into_iter().chain(links(&b)) {
        if let Step::WriteLink { path, .. } = step {
            assert!(!paths.contains(&path));
            paths.push(path);
        }
    }
    assert_eq!(paths.len(), 4);
}
