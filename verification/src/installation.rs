//! The installer: where each package of a resolved graph is unpacked, which
//! link files lead to it, and in which order all of it is done.

use vstd::prelude::*;
use vstd::string::StringExecFns;
use crate::archive::{archive_directory, archive_entry_point, UnreadableArchive};
use crate::entry_point::{entry_point_of, suffix_text};
use crate::package_id::{canonical_name, package_id_file_name, PackageId, PackageIdView};
use crate::realm::{index_directory, realm_directory, Realm};
use crate::resolution::{views, Dependency, DependencyView, PackageSourceMap, Resolve, ResolveView};
use crate::step::{halted, lemma_until_halt_stays, until_halt, InstallError, InstallErrorView, LinkForm, Step, StepView};
use crate::tree_path::TreePath;

verus! {

/// The six directories of a project: for each realm its package tree and the
/// index below it.
pub struct Layout {
    pub shared_dir: Seq<Seq<char>>,
    pub shared_index_dir: Seq<Seq<char>>,
    pub server_dir: Seq<Seq<char>>,
    pub server_index_dir: Seq<Seq<char>>,
    pub dev_dir: Seq<Seq<char>>,
    pub dev_index_dir: Seq<Seq<char>>,
}

impl Layout {
    /// The package tree of a realm.
    pub open spec fn tree_root(self, realm: Realm) -> Seq<Seq<char>> {
        match realm {
            Realm::Shared => self.shared_dir,
            Realm::Server => self.server_dir,
            Realm::Dev => self.dev_dir,
        }
    }

    /// The index of a realm.
    pub open spec fn index_root(self, realm: Realm) -> Seq<Seq<char>> {
        match realm {
            Realm::Shared => self.shared_index_dir,
            Realm::Server => self.server_index_dir,
            Realm::Dev => self.dev_index_dir,
        }
    }

    /// The directory of a package in the index of a realm.
    pub open spec fn package_directory(self, realm: Realm, id: PackageIdView) -> Seq<Seq<char>> {
        self.index_root(realm).push(canonical_name(id))
    }
}

/// The layout of the project at `project`: each package tree directly below
/// the project, each index directly below its tree.
pub open spec fn layout_of(project: Seq<char>) -> Layout {
    Layout {
        shared_dir: seq![project, realm_directory(Realm::Shared)],
        shared_index_dir: seq![project, realm_directory(Realm::Shared), index_directory()],
        server_dir: seq![project, realm_directory(Realm::Server)],
        server_index_dir: seq![project, realm_directory(Realm::Server), index_directory()],
        dev_dir: seq![project, realm_directory(Realm::Dev)],
        dev_index_dir: seq![project, realm_directory(Realm::Dev), index_directory()],
    }
}

/// The text of a suffix that may be missing.
pub open spec fn optional_text(suffix: Option<&str>) -> Seq<char> {
    match suffix {
        Some(text) => text@,
        None => Seq::<char>::empty(),
    }
}

/// The contents of a link from the root package's tree to the package `id`.
pub open spec fn root_link_text(id: PackageIdView, suffix: Seq<char>) -> Seq<char> {
    "return require(\"_index/"@ + canonical_name(id) + suffix + "\")\n"@
}

/// The contents of a link from a package in the index to the package `id`
/// beside it.
pub open spec fn sibling_link_text(id: PackageIdView, suffix: Seq<char>) -> Seq<char> {
    "return require(\"../../"@ + canonical_name(id) + suffix + "\")\n"@
}

/// The contents of a link of either form.
pub open spec fn link_text(form: LinkForm, id: PackageIdView, suffix: Seq<char>) -> Seq<char> {
    match form {
        LinkForm::Root => root_link_text(id, suffix),
        LinkForm::Sibling => sibling_link_text(id, suffix),
    }
}

/// The name of the link file for a dependency required as `alias`.
pub open spec fn link_file_name(alias: Seq<char>) -> Seq<char> {
    alias + ".lua"@
}

/// The step that writes one link: the link is written into `path` after the
/// archive of the dependency was fetched from the registry recorded for the
/// dependency, and the run ends where none is recorded for it or the
/// recorded one is unknown.
pub open spec fn link_step(
    path: Seq<Seq<char>>,
    form: LinkForm,
    dependency: DependencyView,
    resolved: ResolveView,
    sources: Seq<Seq<char>>,
) -> StepView {
    match resolved.registry_of(dependency.package) {
        None => StepView::Halt {
            error: InstallErrorView::MissingMetadata { package: dependency.package },
        },
        Some(registry) => if sources.contains(registry) {
            StepView::WriteLink { path, registry, dependency: dependency.package, form }
        } else {
            StepView::Halt { error: InstallErrorView::UnknownRegistry { registry } }
        },
    }
}

/// The step for one dependency of the root package: its link, named after
/// the alias, in the package tree.
pub open spec fn root_link_step(
    layout: Layout,
    realm: Realm,
    dependency: DependencyView,
    resolved: ResolveView,
    sources: Seq<Seq<char>>,
) -> StepView {
    link_step(
        layout.tree_root(realm).push(link_file_name(dependency.alias)),
        LinkForm::Root,
        dependency,
        resolved,
        sources,
    )
}

/// The steps for the dependencies of the root package, one part for each.
pub open spec fn root_link_parts(
    layout: Layout,
    realm: Realm,
    dependencies: Seq<DependencyView>,
    resolved: ResolveView,
    sources: Seq<Seq<char>>,
) -> Seq<Seq<StepView>> {
    Seq::new(
        dependencies.len(),
        |i: int| seq![root_link_step(layout, realm, dependencies[i], resolved, sources)],
    )
}

/// The steps that write the links of the root package: its package tree is
/// created, then one link for each dependency in order, up to the first that
/// ends the run.
pub open spec fn root_link_steps(
    layout: Layout,
    realm: Realm,
    dependencies: Seq<DependencyView>,
    resolved: ResolveView,
    sources: Seq<Seq<char>>,
) -> Seq<StepView> {
    seq![StepView::CreateDir { path: layout.tree_root(realm) }] + until_halt(
        root_link_parts(layout, realm, dependencies, resolved, sources),
        dependencies.len(),
    )
}

/// The directory that holds the links of the package `owner`.
pub open spec fn links_directory(layout: Layout, realm: Realm, owner: PackageIdView) -> Seq<
    Seq<char>,
> {
    layout.package_directory(realm, owner).push("packages"@)
}

/// The steps for one dependency of a package in the index: the directory of
/// the owner's links is created, then the link, named after the alias, is
/// written into it.
pub open spec fn sibling_link_part(
    layout: Layout,
    owner: PackageIdView,
    realm: Realm,
    dependency: DependencyView,
    resolved: ResolveView,
    sources: Seq<Seq<char>>,
) -> Seq<StepView> {
    seq![
        StepView::CreateDir { path: links_directory(layout, realm, owner) },
        link_step(
            links_directory(layout, realm, owner).push(link_file_name(dependency.alias)),
            LinkForm::Sibling,
            dependency,
            resolved,
            sources,
        ),
    ]
}

/// The steps for the dependencies of a package in the index, one part for
/// each.
pub open spec fn sibling_link_parts(
    layout: Layout,
    owner: PackageIdView,
    realm: Realm,
    dependencies: Seq<DependencyView>,
    resolved: ResolveView,
    sources: Seq<Seq<char>>,
) -> Seq<Seq<StepView>> {
    Seq::new(
        dependencies.len(),
        |i: int| sibling_link_part(layout, owner, realm, dependencies[i], resolved, sources),
    )
}

/// The steps that write the links of the package `owner`: its directory in
/// the index is created, then one link for each dependency in order, up to
/// the first that ends the run.
pub open spec fn sibling_link_steps(
    layout: Layout,
    owner: PackageIdView,
    realm: Realm,
    dependencies: Seq<DependencyView>,
    resolved: ResolveView,
    sources: Seq<Seq<char>>,
) -> Seq<StepView> {
    seq![StepView::CreateDir { path: layout.package_directory(realm, owner) }] + until_halt(
        sibling_link_parts(layout, owner, realm, dependencies, resolved, sources),
        dependencies.len(),
    )
}

/// The step that installs a package other than the root: it is fetched from
/// the registry recorded for it and unpacked into its directory in the
/// shared index, whichever realm the package belongs to; the run ends where
/// no registry is recorded for it or the recorded one is unknown.
pub open spec fn materialize_step(
    layout: Layout,
    sources: Seq<Seq<char>>,
    resolved: ResolveView,
    id: PackageIdView,
) -> StepView {
    match resolved.registry_of(id) {
        None => StepView::Halt { error: InstallErrorView::MissingMetadata { package: id } },
        Some(registry) => if sources.contains(registry) {
            StepView::Materialize {
                package: id,
                registry,
                directory: layout.package_directory(Realm::Shared, id),
            }
        } else {
            StepView::Halt { error: InstallErrorView::UnknownRegistry { registry } }
        },
    }
}

/// The steps for one activated package. For the root package: its links,
/// where dependencies are recorded for it, and nothing else. For any other
/// package: its links, where dependencies are recorded for it, and, unless
/// they end the run, the step that installs the package.
pub open spec fn package_steps(
    layout: Layout,
    sources: Seq<Seq<char>>,
    root: PackageIdView,
    resolved: ResolveView,
    id: PackageIdView,
) -> Seq<StepView> {
    if id == root {
        match resolved.dependencies_of(id) {
            Some(dependencies) => root_link_steps(
                layout,
                Realm::Shared,
                dependencies,
                resolved,
                sources,
            ),
            None => Seq::empty(),
        }
    } else {
        let links = match resolved.dependencies_of(id) {
            Some(dependencies) => sibling_link_steps(
                layout,
                id,
                Realm::Shared,
                dependencies,
                resolved,
                sources,
            ),
            None => Seq::empty(),
        };
        if halted(links) {
            links
        } else {
            links.push(materialize_step(layout, sources, resolved, id))
        }
    }
}

/// The steps of the activated packages, one part for each.
pub open spec fn install_parts(
    layout: Layout,
    sources: Seq<Seq<char>>,
    root: PackageIdView,
    resolved: ResolveView,
) -> Seq<Seq<StepView>> {
    Seq::new(
        resolved.activated.len(),
        |i: int| package_steps(layout, sources, root, resolved, resolved.activated[i]),
    )
}

/// The steps of an installation: those of each activated package in order,
/// up to the first that ends the run.
pub open spec fn install_steps(
    layout: Layout,
    sources: Seq<Seq<char>>,
    root: PackageIdView,
    resolved: ResolveView,
) -> Seq<StepView> {
    until_halt(install_parts(layout, sources, root, resolved), resolved.activated.len())
}

/// The steps of a cleaning: the package trees of the three realms are
/// removed, each with its index and all else below it.
pub open spec fn clean_steps(layout: Layout) -> Seq<StepView> {
    seq![
        StepView::RemoveDir { path: layout.shared_dir },
        StepView::RemoveDir { path: layout.server_dir },
        StepView::RemoveDir { path: layout.dev_dir },
    ]
}

/// The name of the link file for a dependency required as `alias`.
fn link_file(alias: &str) -> (file_name: String)
    ensures
        file_name@ == link_file_name(alias@),
{
    let mut file_name = String::from_str(alias);
    file_name.append(".lua");
    file_name
}

/// Whether the run ends with the last of these steps.
fn ends_in_halt(steps: &Vec<Step>) -> (halt: bool)
    ensures
        halt == halted(views(steps@)),
{
    steps.len() > 0 && steps[steps.len() - 1].is_halt()
}

/// The directories of one project into which packages are installed.
#[derive(Clone, Debug)]
pub struct InstallationContext {
    shared_dir: TreePath,
    shared_index_dir: TreePath,
    server_dir: TreePath,
    server_index_dir: TreePath,
    dev_dir: TreePath,
    dev_index_dir: TreePath,
}

impl View for InstallationContext {
    type V = Layout;

    closed spec fn view(&self) -> Layout {
        Layout {
            shared_dir: self.shared_dir@,
            shared_index_dir: self.shared_index_dir@,
            server_dir: self.server_dir@,
            server_index_dir: self.server_index_dir@,
            dev_dir: self.dev_dir@,
            dev_index_dir: self.dev_index_dir@,
        }
    }
}

impl InstallationContext {
    /// Create a new `InstallationContext` for the given path.
    pub fn new(project_path: &str) -> (context: Self)
        ensures
            context@ == layout_of(project_path@),
    {
        let root = TreePath::root(project_path);
        let shared_dir = root.join(Realm::Shared.directory_name());
        let server_dir = root.join(Realm::Server.directory_name());
        let dev_dir = root.join(Realm::Dev.directory_name());

        let shared_index_dir = shared_dir.join("_index");
        let server_index_dir = server_dir.join("_index");
        let dev_index_dir = dev_dir.join("_index");

        let context = Self {
            shared_dir,
            shared_index_dir,
            server_dir,
            server_index_dir,
            dev_dir,
            dev_index_dir,
        };
        proof {
            let layout = layout_of(project_path@);
            assert(context@.shared_dir =~= layout.shared_dir);
            assert(context@.server_dir =~= layout.server_dir);
            assert(context@.dev_dir =~= layout.dev_dir);
            assert(context@.shared_index_dir =~= layout.shared_index_dir);
            assert(context@.server_index_dir =~= layout.server_index_dir);
            assert(context@.dev_index_dir =~= layout.dev_index_dir);
        }
        context
    }

    /// The package tree of a realm.
    pub fn tree_root(&self, realm: Realm) -> (path: &TreePath)
        ensures
            path@ == self@.tree_root(realm),
    {
        match realm {
            Realm::Shared => &self.shared_dir,
            Realm::Server => &self.server_dir,
            Realm::Dev => &self.dev_dir,
        }
    }

    /// The index of a realm.
    pub fn index_root(&self, realm: Realm) -> (path: &TreePath)
        ensures
            path@ == self@.index_root(realm),
    {
        match realm {
            Realm::Shared => &self.shared_index_dir,
            Realm::Server => &self.server_index_dir,
            Realm::Dev => &self.dev_index_dir,
        }
    }

    /// The two directories of a realm: its package tree and its index.
    pub fn paths_for(&self, realm: Realm) -> (paths: (TreePath, TreePath))
        ensures
            paths.0@ == self@.tree_root(realm),
            paths.1@ == self@.index_root(realm),
    {
        (self.tree_root(realm).duplicate(), self.index_root(realm).duplicate())
    }

    /// Delete the existing index, if it exists: the steps that remove the
    /// package trees of the three realms.
    pub fn clean(&self) -> (steps: Vec<Step>)
        ensures
            views(steps@) == clean_steps(self@),
    {
        let mut steps: Vec<Step> = Vec::new();
        steps.push(Step::RemoveDir { path: self.shared_dir.duplicate() });
        steps.push(Step::RemoveDir { path: self.server_dir.duplicate() });
        steps.push(Step::RemoveDir { path: self.dev_dir.duplicate() });
        assert(views(steps@) =~= clean_steps(self@));
        steps
    }

    /// Contents of a package-to-package link within the same index.
    pub fn link_sibling_same_index(&self, id: &PackageId, suffix: Option<&str>) -> (contents: String)
        ensures
            contents@ == sibling_link_text(id@, optional_text(suffix)),
    {
        proof {
            reveal_strlit("");
        }
        assert(""@ =~= Seq::<char>::empty());
        let full_name = package_id_file_name(id);
        let mut contents = String::from_str("return require(\"../../");
        contents.append(full_name.as_str());
        contents.append(suffix.unwrap_or(""));
        contents.append("\")\n");
        contents
    }

    /// Contents of a root-to-package link within the same index.
    pub fn link_root_same_index(&self, id: &PackageId, suffix: Option<&str>) -> (contents: String)
        ensures
            contents@ == root_link_text(id@, optional_text(suffix)),
    {
        proof {
            reveal_strlit("");
        }
        assert(""@ =~= Seq::<char>::empty());
        let full_name = package_id_file_name(id);
        let mut contents = String::from_str("return require(\"_index/");
        contents.append(full_name.as_str());
        contents.append(suffix.unwrap_or(""));
        contents.append("\")\n");
        contents
    }

    /// The contents of the link of this form to `dependency`, whose archive
    /// is `archive`: the link leads to the entry point that the names in the
    /// archive show. Bytes that are no archive give no link.
    pub fn link_contents(&self, form: LinkForm, dependency: &PackageId, archive: &[u8]) -> (contents:
        Result<String, UnreadableArchive>)
        ensures
            match archive_directory(archive@) {
                Some(names) => contents matches Ok(text) && text@ == link_text(
                    form,
                    dependency@,
                    suffix_text(entry_point_of(names)),
                ),
                None => contents is Err,
            },
    {
        match archive_entry_point(archive) {
            Ok(entry) => {
                let suffix = entry.suffix();
                match form {
                    LinkForm::Root => Ok(self.link_root_same_index(dependency, suffix)),
                    LinkForm::Sibling => Ok(self.link_sibling_same_index(dependency, suffix)),
                }
            },
            Err(unreadable) => Err(unreadable),
        }
    }


    /// The step that writes the link of this form to `dependency` into
    /// `path`, or the halt where the registry of `dependency` is not on
    /// record or not known.
    fn link_step(
        path: TreePath,
        form: LinkForm,
        dependency: &Dependency,
        resolved: &Resolve,
        sources: &PackageSourceMap,
    ) -> (step: Step)
        ensures
            step@ == link_step(path@, form, dependency@, resolved@, sources@),
    {
        match resolved.source_registry(&dependency.package) {
            None => Step::Halt {
                error: InstallError::MissingMetadata { package: dependency.package.duplicate() },
            },
            Some(source_registry) => match sources.lookup(source_registry.as_str()) {
                Ok(_) => Step::WriteLink {
                    path,
                    registry: source_registry.clone(),
                    dependency: dependency.package.duplicate(),
                    form,
                },
                Err(error) => Step::Halt { error },
            },
        }
    }

    /// The steps that write the links of the root package to its
    /// dependencies, into the package tree of `root_realm`.
    pub fn write_root_package_links(
        &self,
        root_realm: Realm,
        dependencies: &Vec<Dependency>,
        resolved: &Resolve,
        sources: &PackageSourceMap,
    ) -> (steps: Vec<Step>)
        ensures
            views(steps@) == root_link_steps(
                self@,
                root_realm,
                views(dependencies@),
                resolved@,
                sources@,
            ),
    {
        let base_path = self.tree_root(root_realm);

        let mut steps: Vec<Step> = Vec::new();
        steps.push(Step::CreateDir { path: base_path.duplicate() });

        let ghost start = seq![StepView::CreateDir { path: self@.tree_root(root_realm) }];
        let ghost parts = root_link_parts(
            self@,
            root_realm,
            views(dependencies@),
            resolved@,
            sources@,
        );
        assert(views(steps@) =~= start + until_halt(parts, 0));

        let mut i: usize = 0;
        while i < dependencies.len()
            invariant
                i <= dependencies.len(),
                base_path@ == self@.tree_root(root_realm),
                start == seq![StepView::CreateDir { path: self@.tree_root(root_realm) }],
                parts == root_link_parts(
                    self@,
                    root_realm,
                    views(dependencies@),
                    resolved@,
                    sources@,
                ),
                views(steps@) == start + until_halt(parts, i as nat),
                !halted(until_halt(parts, i as nat)),
            decreases dependencies.len() - i,
        {
            let dependency = &dependencies[i];
            assert(views(dependencies@)[i as int] == dependency@);
            let path = base_path.join(link_file(dependency.alias.as_str()).as_str());

            let step = Self::link_step(path, LinkForm::Root, dependency, resolved, sources);
            assert(seq![step@] == parts[i as int]);
            let halt = step.is_halt();
            let ghost before = views(steps@);
            steps.push(step);
            i += 1;
            assert(views(steps@) =~= before + parts[i - 1]);
            assert(views(steps@) =~= start + until_halt(parts, i as nat));
            if halt {
                proof {
                    lemma_until_halt_stays(parts, i as nat, dependencies@.len());
                }
                return steps;
            }
        }

        steps
    }

    /// The steps that write the links of `package_id` to its dependencies,
    /// into the package's directory in the index of `package_realm`.
    pub fn write_package_links(
        &self,
        package_id: &PackageId,
        package_realm: Realm,
        dependencies: &Vec<Dependency>,
        resolved: &Resolve,
        sources: &PackageSourceMap,
    ) -> (steps: Vec<Step>)
        ensures
            views(steps@) == sibling_link_steps(
                self@,
                package_id@,
                package_realm,
                views(dependencies@),
                resolved@,
                sources@,
            ),
    {
        let base_path = self.index_root(package_realm).join(
            package_id_file_name(package_id).as_str(),
        );

        let mut steps: Vec<Step> = Vec::new();
        steps.push(Step::CreateDir { path: base_path.duplicate() });
        let ghost start = seq![
            StepView::CreateDir { path: self@.package_directory(package_realm, package_id@) },
        ];

        let links_path = base_path.join("packages");
        let ghost parts = sibling_link_parts(
            self@,
            package_id@,
            package_realm,
            views(dependencies@),
            resolved@,
            sources@,
        );
        assert(views(steps@) =~= start + until_halt(parts, 0));

        let mut i: usize = 0;
        while i < dependencies.len()
            invariant
                i <= dependencies.len(),
                links_path@ == links_directory(self@, package_realm, package_id@),
                start == seq![
                    StepView::CreateDir {
                        path: self@.package_directory(package_realm, package_id@),
                    },
                ],
                parts == sibling_link_parts(
                    self@,
                    package_id@,
                    package_realm,
                    views(dependencies@),
                    resolved@,
                    sources@,
                ),
                views(steps@) == start + until_halt(parts, i as nat),
                !halted(until_halt(parts, i as nat)),
            decreases dependencies.len() - i,
        {
            let dependency = &dependencies[i];
            assert(views(dependencies@)[i as int] == dependency@);
            let path = links_path.join(link_file(dependency.alias.as_str()).as_str());

            let ghost before = views(steps@);
            steps.push(Step::CreateDir { path: links_path.duplicate() });
            let step = Self::link_step(path, LinkForm::Sibling, dependency, resolved, sources);
            let halt = step.is_halt();
            steps.push(step);
            i += 1;
            assert(views(steps@) =~= before + parts[i - 1]);
            assert(views(steps@) =~= start + until_halt(parts, i as nat));
            if halt {
                proof {
                    lemma_until_halt_stays(parts, i as nat, dependencies@.len());
                }
                return steps;
            }
        }

        steps
    }

    /// Install all packages from the given `Resolve` into the package that this
    /// `InstallationContext` was built for: the steps to carry out, in order.
    pub fn install(
        self,
        sources: PackageSourceMap,
        root_package_id: PackageId,
        resolved: Resolve,
    ) -> (steps: Vec<Step>)
        ensures
            views(steps@) == install_steps(self@, sources@, root_package_id@, resolved@),
    {
        let mut steps: Vec<Step> = Vec::new();
        let ghost parts = install_parts(self@, sources@, root_package_id@, resolved@);
        assert(views(steps@) =~= until_halt(parts, 0));

        let activated = resolved.activated();
        let mut i: usize = 0;
        while i < activated.len()
            invariant
                i <= activated.len(),
                views(activated@) == resolved@.activated,
                parts == install_parts(self@, sources@, root_package_id@, resolved@),
                views(steps@) == until_halt(parts, i as nat),
                !halted(until_halt(parts, i as nat)),
            decreases activated.len() - i,
        {
            let package_id = &activated[i];
            assert(resolved@.activated[i as int] == package_id@);
            let ghost before = views(steps@);

            let shared_deps = resolved.dependencies(package_id);

            // We do not need to install the root package, but we should create
            // package links for its dependencies.
            if package_id.same_as(&root_package_id) {
                if let Some(deps) = shared_deps {
                    let mut links = self.write_root_package_links(
                        Realm::Shared,
                        deps,
                        &resolved,
                        &sources,
                    );
                    steps.append(&mut links);
                }
            } else {
                let mut package: Vec<Step> = Vec::new();
                if let Some(deps) = shared_deps {
                    package = self.write_package_links(
                        package_id,
                        Realm::Shared,
                        deps,
                        &resolved,
                        &sources,
                    );
                }
                if !ends_in_halt(&package) {
                    let ghost links = views(package@);
                    let step = match resolved.source_registry(package_id) {
                        None => Step::Halt {
                            error: InstallError::MissingMetadata {
                                package: package_id.duplicate(),
                            },
                        },
                        Some(source_registry) => match sources.lookup(source_registry.as_str()) {
                            Ok(_) => self.write_contents(
                                package_id,
                                source_registry.as_str(),
                                Realm::Shared,
                            ),
                            Err(error) => Step::Halt { error },
                        },
                    };
                    package.push(step);
                    assert(views(package@) =~= links.push(package@[package@.len() - 1]@));
                }
                assert(views(package@) =~= parts[i as int]);
                steps.append(&mut package);
            }
            i += 1;
            assert(views(steps@) =~= before + parts[i - 1]);

            if ends_in_halt(&steps) {
                proof {
                    lemma_until_halt_stays(parts, i as nat, resolved@.activated.len());
                }
                return steps;
            }
        }

        steps
    }

    /// The step that writes the contents of `package_id`, fetched from
    /// `registry`, into the package's directory in the index of `realm`.
    pub fn write_contents(&self, package_id: &PackageId, registry: &str, realm: Realm) -> (step: Step)
        ensures
            step@ == (StepView::Materialize {
                package: package_id@,
                registry: registry@,
                directory: self@.package_directory(realm, package_id@),
            }),
    {
        let file_name = package_id_file_name(package_id);
        let path = self.index_root(realm).join(file_name.as_str());
        Step::Materialize {
            package: package_id.duplicate(),
            registry: String::from_str(registry),
            directory: path,
        }
    }
}

} // verus!
