//! What holds of the layout of a project, of every installation plan, and
//! of a run that has carried one out to its end.

use vstd::prelude::*;
use crate::installation::{
    clean_steps, install_parts, install_steps, layout_of, link_file_name, link_step,
    links_directory, materialize_step, package_steps, root_link_parts, root_link_step,
    root_link_steps, sibling_link_part, sibling_link_parts, sibling_link_steps, Layout,
};
use crate::package_id::{
    canonical_name, lemma_canonical_name_injective, lemma_canonical_name_is_component,
    PackageIdView,
};
use crate::realm::{index_directory, lemma_realm_directories_distinct, realm_directory, Realm};
use crate::resolution::{
    lemma_dependencies_from_list, well_formed_dependencies, DependencyView, ResolveView,
};
use crate::run::{accepted, lemma_finished_run_did_everything, Directive, Outcome, RunView};
use crate::step::{
    halted, lemma_until_halt_holds_step, lemma_until_halt_keeps, lemma_until_halt_part_goes_on,
    lemma_until_halt_stays, lemma_worker_count_add, lemma_worker_count_none,
    lemma_worker_count_same_prefix, until_halt, worker_count, LinkForm, StepView,
};
use crate::tree_path::{
    begins_with, has_no_separator, is_at_or_above, is_path_component, lemma_no_separator_add,
};

verus! {

/// Steps put before a sequence of steps do not change whether its last step
/// is a halt.
proof fn lemma_halted_behind(start: Seq<StepView>, steps: Seq<StepView>)
    requires
        halted(steps),
    ensures
        halted(start + steps),
{
    assert((start + steps).last() == steps.last());
}

/// Every activated package but the root is fetched and unpacked: a plan that
/// is not halted holds, for each such package, the step that fetches it from
/// the registry recorded for it, which is a known one, and unpacks it into
/// the directory that bears the package's name in the shared index.
pub proof fn lemma_every_package_is_materialized(
    layout: Layout,
    sources: Seq<Seq<char>>,
    root: PackageIdView,
    resolved: ResolveView,
    at: int,
)
    requires
        0 <= at < resolved.activated.len(),
        resolved.activated[at] != root,
        !halted(install_steps(layout, sources, root, resolved)),
    ensures
        resolved.registry_of(resolved.activated[at]) is Some,
        sources.contains(resolved.registry_of(resolved.activated[at])->0),
        install_steps(layout, sources, root, resolved).contains(
            StepView::Materialize {
                package: resolved.activated[at],
                registry: resolved.registry_of(resolved.activated[at])->0,
                directory: layout.package_directory(Realm::Shared, resolved.activated[at]),
            },
        ),
{
    let parts = install_parts(layout, sources, root, resolved);
    let count = resolved.activated.len();
    let id = resolved.activated[at];
    let part = parts[at];
    assert(part == package_steps(layout, sources, root, resolved, id));
    lemma_until_halt_part_goes_on(parts, count, at);
    assert(part.last() == materialize_step(layout, sources, resolved, id));
    lemma_until_halt_holds_step(parts, count, at, part.len() - 1);
}

/// Every dependency of the root package gets its link: a plan that is not
/// halted holds, for each dependency recorded for the root package, the step
/// that writes the link named after the alias into the shared package tree,
/// from the archive that the dependency's own registry serves.
pub proof fn lemma_every_root_dependency_is_linked(
    layout: Layout,
    sources: Seq<Seq<char>>,
    root: PackageIdView,
    resolved: ResolveView,
    at: int,
    dependencies: Seq<DependencyView>,
    which: int,
)
    requires
        0 <= at < resolved.activated.len(),
        resolved.activated[at] == root,
        resolved.dependencies_of(root) == Some(dependencies),
        0 <= which < dependencies.len(),
        !halted(install_steps(layout, sources, root, resolved)),
    ensures
        resolved.registry_of(dependencies[which].package) is Some,
        sources.contains(resolved.registry_of(dependencies[which].package)->0),
        install_steps(layout, sources, root, resolved).contains(
            StepView::WriteLink {
                path: layout.tree_root(Realm::Shared).push(
                    link_file_name(dependencies[which].alias),
                ),
                registry: resolved.registry_of(dependencies[which].package)->0,
                dependency: dependencies[which].package,
                form: LinkForm::Root,
            },
        ),
{
    let parts = install_parts(layout, sources, root, resolved);
    let count = resolved.activated.len();
    let part = parts[at];
    assert(part == root_link_steps(layout, Realm::Shared, dependencies, resolved, sources));
    lemma_until_halt_part_goes_on(parts, count, at);

    let start = seq![StepView::CreateDir { path: layout.tree_root(Realm::Shared) }];
    let links = root_link_parts(layout, Realm::Shared, dependencies, resolved, sources);
    let written = until_halt(links, dependencies.len());
    if halted(written) {
        lemma_halted_behind(start, written);
    }
    lemma_until_halt_part_goes_on(links, dependencies.len(), which);
    lemma_until_halt_holds_step(links, dependencies.len(), which, 0);
    let step = root_link_step(layout, Realm::Shared, dependencies[which], resolved, sources);
    assert(links[which] == seq![step]);
    assert(links[which].last() == step);
    let inner = choose|i: int| 0 <= i < written.len() && written[i] == step;
    assert(part[inner + 1] == step);
    lemma_until_halt_holds_step(parts, count, at, inner + 1);
}

/// Every dependency of a package in the index gets its link: a plan that is
/// not halted holds, for each dependency recorded for an activated package
/// other than the root, the step that writes the link named after the alias
/// into the directory `packages` of the owner's directory in the shared
/// index, from the archive that the dependency's own registry serves.
pub proof fn lemma_every_sibling_dependency_is_linked(
    layout: Layout,
    sources: Seq<Seq<char>>,
    root: PackageIdView,
    resolved: ResolveView,
    at: int,
    dependencies: Seq<DependencyView>,
    which: int,
)
    requires
        0 <= at < resolved.activated.len(),
        resolved.activated[at] != root,
        resolved.dependencies_of(resolved.activated[at]) == Some(dependencies),
        0 <= which < dependencies.len(),
        !halted(install_steps(layout, sources, root, resolved)),
    ensures
        resolved.registry_of(dependencies[which].package) is Some,
        sources.contains(resolved.registry_of(dependencies[which].package)->0),
        install_steps(layout, sources, root, resolved).contains(
            StepView::WriteLink {
                path: layout.index_root(Realm::Shared).push(
                    canonical_name(resolved.activated[at]),
                ).push("packages"@).push(link_file_name(dependencies[which].alias)),
                registry: resolved.registry_of(dependencies[which].package)->0,
                dependency: dependencies[which].package,
                form: LinkForm::Sibling,
            },
        ),
{
    let parts = install_parts(layout, sources, root, resolved);
    let count = resolved.activated.len();
    let owner = resolved.activated[at];
    let part = parts[at];
    assert(part == package_steps(layout, sources, root, resolved, owner));
    lemma_until_halt_part_goes_on(parts, count, at);

    let links = sibling_link_steps(layout, owner, Realm::Shared, dependencies, resolved, sources);
    assert(!halted(links));
    let start = seq![
        StepView::CreateDir { path: layout.package_directory(Realm::Shared, owner) },
    ];
    let link_parts = sibling_link_parts(
        layout,
        owner,
        Realm::Shared,
        dependencies,
        resolved,
        sources,
    );
    let written = until_halt(link_parts, dependencies.len());
    assert(links == start + written);
    if halted(written) {
        lemma_halted_behind(start, written);
    }
    lemma_until_halt_part_goes_on(link_parts, dependencies.len(), which);
    lemma_until_halt_holds_step(link_parts, dependencies.len(), which, 1);
    let step = sibling_link_part(
        layout,
        owner,
        Realm::Shared,
        dependencies[which],
        resolved,
        sources,
    )[1];
    assert(link_parts[which][1] == step);
    assert(link_parts[which].last() == step);
    let inner = choose|i: int| 0 <= i < written.len() && written[i] == step;
    assert(links[inner + 1] == step);
    assert(part[inner + 1] == step);
    lemma_until_halt_holds_step(parts, count, at, inner + 1);
}

/// The directory or file that a step works on; a halt works on none.
pub open spec fn target(step: StepView) -> Option<Seq<Seq<char>>> {
    match step {
        StepView::RemoveDir { path } => Some(path),
        StepView::CreateDir { path } => Some(path),
        StepView::WriteLink { path, .. } => Some(path),
        StepView::Materialize { directory, .. } => Some(directory),
        StepView::Halt { .. } => None,
    }
}

/// Whether a step leaves all outside the directory `tree` as it is: what it
/// works on is `tree` or lies below it.
pub open spec fn stays_in(tree: Seq<Seq<char>>, step: StepView) -> bool {
    target(step) matches Some(path) ==> is_at_or_above(tree, path)
}

/// The number of packages among the first `upto` activated ones that are
/// not the root package.
pub open spec fn others(activated: Seq<PackageIdView>, root: PackageIdView, upto: nat) -> nat
    decreases upto,
{
    if upto == 0 {
        0
    } else if upto <= activated.len() && activated[upto - 1] != root {
        others(activated, root, (upto - 1) as nat) + 1
    } else {
        others(activated, root, (upto - 1) as nat)
    }
}

/// The names that the layout is made of each name one level of a path, and
/// so does the name of a link file whose alias holds no separator.
pub proof fn lemma_names_are_components(realm: Realm, alias: Seq<char>)
    ensures
        is_path_component(realm_directory(realm)),
        is_path_component(index_directory()),
        is_path_component("packages"@),
        has_no_separator(alias) ==> is_path_component(link_file_name(alias)),
{
    reveal_strlit("packages");
    reveal_strlit("ServerPackages");
    reveal_strlit("DevPackages");
    reveal_strlit("_index");
    reveal_strlit(".lua");
    assert("packages"@.len() == 8);
    assert("ServerPackages"@.len() == 14);
    assert("DevPackages"@.len() == 11);
    assert("_index"@.len() == 6);
    assert(".lua"@.len() == 4);
    assert(has_no_separator("packages"@));
    assert(has_no_separator("ServerPackages"@));
    assert(has_no_separator("DevPackages"@));
    assert(has_no_separator("_index"@));
    assert(has_no_separator(".lua"@));
    if has_no_separator(alias) {
        lemma_no_separator_add(alias, ".lua"@);
        assert(link_file_name(alias).len() >= 4);
    }
}

/// Realms share no directory: in the layout of a project, neither the
/// package tree nor the index of one realm is the package tree of another
/// realm or starts with it, and the index of each realm lies in its own
/// tree.
pub proof fn lemma_realms_share_no_directory(project: Seq<char>, first: Realm, second: Realm)
    requires
        first != second,
    ensures
        !begins_with(layout_of(project).tree_root(second), layout_of(project).tree_root(first)),
        !begins_with(layout_of(project).index_root(second), layout_of(project).tree_root(first)),
        is_at_or_above(layout_of(project).tree_root(first), layout_of(project).index_root(first)),
{
    lemma_realm_directories_distinct(first, second);
    lemma_names_are_components(first, Seq::empty());
    let layout = layout_of(project);
    let tree = layout.tree_root(first);
    assert(tree.len() == 2 && layout.tree_root(second).len() == 2);
    assert(layout.index_root(first).subrange(0, 2) =~= tree);
    assert(layout.tree_root(second).subrange(0, 2)[1] == layout.tree_root(second)[1]);
    assert(layout.index_root(second).subrange(0, 2)[1] == layout.index_root(second)[1]);
}

/// One level below a path in a tree lies in that tree.
proof fn lemma_below_stays_in(tree: Seq<Seq<char>>, path: Seq<Seq<char>>, name: Seq<char>)
    requires
        is_at_or_above(tree, path),
        is_path_component(name),
    ensures
        is_at_or_above(tree, path.push(name)),
{
    assert(path.push(name).subrange(0, tree.len() as int) =~= path.subrange(0, tree.len() as int));
}

/// The directory of a well-formed package in the shared index, and the
/// directory of its links, lie in the shared package tree.
proof fn lemma_package_directory_in_tree(project: Seq<char>, id: PackageIdView)
    requires
        id.well_formed(),
    ensures
        is_at_or_above(layout_of(project).shared_dir, layout_of(project).shared_dir),
        is_at_or_above(
            layout_of(project).shared_dir,
            layout_of(project).package_directory(Realm::Shared, id),
        ),
        is_at_or_above(
            layout_of(project).shared_dir,
            links_directory(layout_of(project), Realm::Shared, id),
        ),
{
    let layout = layout_of(project);
    let tree = layout.shared_dir;
    lemma_names_are_components(Realm::Shared, Seq::empty());
    lemma_canonical_name_is_component(id);
    assert(tree.subrange(0, 2) =~= tree);
    assert(layout.shared_index_dir =~= tree.push(index_directory()));
    lemma_below_stays_in(tree, tree, index_directory());
    lemma_below_stays_in(tree, layout.shared_index_dir, canonical_name(id));
    lemma_below_stays_in(tree, layout.package_directory(Realm::Shared, id), "packages"@);
}

/// A link step works on its path or on nothing.
proof fn lemma_link_step_stays_in(
    tree: Seq<Seq<char>>,
    path: Seq<Seq<char>>,
    form: LinkForm,
    dependency: DependencyView,
    resolved: ResolveView,
    sources: Seq<Seq<char>>,
)
    requires
        is_at_or_above(tree, path),
    ensures
        stays_in(tree, link_step(path, form, dependency, resolved, sources)),
{
}

/// The steps of one activated package work in the shared package tree.
proof fn lemma_package_stays_in_tree(
    project: Seq<char>,
    sources: Seq<Seq<char>>,
    root: PackageIdView,
    resolved: ResolveView,
    id: PackageIdView,
)
    requires
        resolved.well_formed(),
        id.well_formed(),
    ensures
        forall|i: int|
            0 <= i < package_steps(layout_of(project), sources, root, resolved, id).len()
                ==> stays_in(
                layout_of(project).shared_dir,
                #[trigger] package_steps(layout_of(project), sources, root, resolved, id)[i],
            ),
{
    let layout = layout_of(project);
    let tree = layout.shared_dir;
    let holds = |step: StepView| stays_in(tree, step);
    lemma_package_directory_in_tree(project, id);
    if let Some(dependencies) = resolved.dependencies_of(id) {
        let list = lemma_dependencies_from_list(resolved.shared_dependencies, id, 0);
        assert(well_formed_dependencies(resolved.shared_dependencies[list].dependencies));
        if id == root {
            let links = root_link_parts(layout, Realm::Shared, dependencies, resolved, sources);
            assert forall|part: int, at: int|
                0 <= part < dependencies.len() && 0 <= at < links[part].len() implies holds(
                #[trigger] links[part][at],
            ) by {
                let alias = dependencies[part].alias;
                lemma_names_are_components(Realm::Shared, alias);
                lemma_below_stays_in(tree, tree, link_file_name(alias));
                lemma_link_step_stays_in(
                    tree,
                    tree.push(link_file_name(alias)),
                    LinkForm::Root,
                    dependencies[part],
                    resolved,
                    sources,
                );
            }
            lemma_until_halt_keeps(links, dependencies.len(), holds);
        } else {
            let links = sibling_link_parts(
                layout,
                id,
                Realm::Shared,
                dependencies,
                resolved,
                sources,
            );
            let directory = links_directory(layout, Realm::Shared, id);
            assert forall|part: int, at: int|
                0 <= part < dependencies.len() && 0 <= at < links[part].len() implies holds(
                #[trigger] links[part][at],
            ) by {
                let alias = dependencies[part].alias;
                lemma_names_are_components(Realm::Shared, alias);
                lemma_below_stays_in(tree, directory, link_file_name(alias));
                lemma_link_step_stays_in(
                    tree,
                    directory.push(link_file_name(alias)),
                    LinkForm::Sibling,
                    dependencies[part],
                    resolved,
                    sources,
                );
            }
            lemma_until_halt_keeps(links, dependencies.len(), holds);
        }
    }
}

/// An installation works in the shared package tree alone: every step of
/// the plan for a well-formed graph creates, writes or unpacks at or below
/// that tree, which is among the directories that cleaning removes.
pub proof fn lemma_install_stays_in_shared_tree(
    project: Seq<char>,
    sources: Seq<Seq<char>>,
    root: PackageIdView,
    resolved: ResolveView,
)
    requires
        resolved.well_formed(),
    ensures
        forall|i: int|
            0 <= i < install_steps(layout_of(project), sources, root, resolved).len() ==> stays_in(
                layout_of(project).shared_dir,
                #[trigger] install_steps(layout_of(project), sources, root, resolved)[i],
            ),
        clean_steps(layout_of(project)).contains(
            StepView::RemoveDir { path: layout_of(project).shared_dir },
        ),
{
    let layout = layout_of(project);
    let parts = install_parts(layout, sources, root, resolved);
    let holds = |step: StepView| stays_in(layout.shared_dir, step);
    assert forall|part: int, at: int|
        0 <= part < resolved.activated.len() && 0 <= at < parts[part].len() implies holds(
        #[trigger] parts[part][at],
    ) by {
        lemma_package_stays_in_tree(project, sources, root, resolved, resolved.activated[part]);
    }
    lemma_until_halt_keeps(parts, resolved.activated.len(), holds);
    assert(clean_steps(layout)[0] == StepView::RemoveDir { path: layout.shared_dir });
}

/// The steps of one activated package start one worker where the package
/// is not the root and its steps do not end the run, and none otherwise.
proof fn lemma_package_workers(
    layout: Layout,
    sources: Seq<Seq<char>>,
    root: PackageIdView,
    resolved: ResolveView,
    id: PackageIdView,
)
    ensures
        ({
            let steps = package_steps(layout, sources, root, resolved, id);
            worker_count(steps, steps.len()) == if id != root && !halted(steps) {
                1nat
            } else {
                0nat
            }
        }),
{
    let steps = package_steps(layout, sources, root, resolved, id);
    let no_worker = |step: StepView| !(step is Materialize);
    let links = match resolved.dependencies_of(id) {
        Some(dependencies) => if id == root {
            root_link_steps(layout, Realm::Shared, dependencies, resolved, sources)
        } else {
            sibling_link_steps(layout, id, Realm::Shared, dependencies, resolved, sources)
        },
        None => Seq::empty(),
    };
    if let Some(dependencies) = resolved.dependencies_of(id) {
        if id == root {
            let parts = root_link_parts(layout, Realm::Shared, dependencies, resolved, sources);
            assert forall|part: int, at: int|
                0 <= part < dependencies.len() && 0 <= at < parts[part].len() implies no_worker(
                #[trigger] parts[part][at],
            ) by {}
            lemma_until_halt_keeps(parts, dependencies.len(), no_worker);
        } else {
            let parts = sibling_link_parts(
                layout,
                id,
                Realm::Shared,
                dependencies,
                resolved,
                sources,
            );
            assert forall|part: int, at: int|
                0 <= part < dependencies.len() && 0 <= at < parts[part].len() implies no_worker(
                #[trigger] parts[part][at],
            ) by {}
            lemma_until_halt_keeps(parts, dependencies.len(), no_worker);
        }
    }
    assert forall|i: int| 0 <= i < links.len() implies !(#[trigger] links[i] is Materialize) by {}
    lemma_worker_count_none(links, links.len());
    if id != root && !halted(links) {
        lemma_worker_count_same_prefix(steps, links, links.len());
    }
}

/// The workers of the first `upto` activated packages of a plan that is not
/// halted there: one for each package that is not the root.
proof fn lemma_workers_upto(
    layout: Layout,
    sources: Seq<Seq<char>>,
    root: PackageIdView,
    resolved: ResolveView,
    upto: nat,
)
    requires
        upto <= resolved.activated.len(),
        !halted(until_halt(install_parts(layout, sources, root, resolved), upto)),
    ensures
        ({
            let steps = until_halt(install_parts(layout, sources, root, resolved), upto);
            worker_count(steps, steps.len()) == others(resolved.activated, root, upto)
        }),
    decreases upto,
{
    if upto > 0 {
        let parts = install_parts(layout, sources, root, resolved);
        let before = until_halt(parts, (upto - 1) as nat);
        if halted(before) {
            lemma_until_halt_stays(parts, (upto - 1) as nat, upto);
        }
        lemma_workers_upto(layout, sources, root, resolved, (upto - 1) as nat);
        lemma_until_halt_part_goes_on(parts, upto, upto - 1);
        lemma_worker_count_add(before, parts[upto - 1]);
        lemma_package_workers(layout, sources, root, resolved, resolved.activated[upto - 1]);
    }
}

/// The number of packages installed: a plan that is not halted starts one
/// worker for each activated package that is not the root, and no other.
pub proof fn lemma_every_other_package_is_counted(
    layout: Layout,
    sources: Seq<Seq<char>>,
    root: PackageIdView,
    resolved: ResolveView,
)
    requires
        !halted(install_steps(layout, sources, root, resolved)),
    ensures
        worker_count(
            install_steps(layout, sources, root, resolved),
            install_steps(layout, sources, root, resolved).len(),
        ) == others(resolved.activated, root, resolved.activated.len()),
{
    lemma_workers_upto(layout, sources, root, resolved, resolved.activated.len());
}

/// Among packages of which none occurs twice, all but the root are others.
proof fn lemma_others_upto(activated: Seq<PackageIdView>, root: PackageIdView, upto: nat)
    requires
        activated.no_duplicates(),
        upto <= activated.len(),
    ensures
        others(activated, root, upto) == if exists|i: int|
            0 <= i < upto && activated[i] == root {
            upto - 1
        } else {
            upto as int
        },
    decreases upto,
{
    if upto > 0 {
        lemma_others_upto(activated, root, (upto - 1) as nat);
        if activated[upto - 1] == root {
            assert(forall|i: int| 0 <= i < upto - 1 ==> activated[i] != root);
        } else if exists|i: int| 0 <= i < upto && activated[i] == root {
            let i = choose|i: int| 0 <= i < upto && activated[i] == root;
            assert(0 <= i < upto - 1 && activated[i] == root);
        }
    }
}

/// In a well-formed graph the root is activated once at most, so all the
/// activated packages but one are installed where the root is among them.
pub proof fn lemma_all_but_the_root_are_others(resolved: ResolveView, root: PackageIdView)
    requires
        resolved.well_formed(),
        resolved.activated.contains(root),
    ensures
        others(resolved.activated, root, resolved.activated.len()) == resolved.activated.len() - 1,
{
    lemma_others_upto(resolved.activated, root, resolved.activated.len());
}

/// Packages share no directory: in the index of a realm, the directories of
/// two distinct well-formed packages are different, neither starts with the
/// other, and each lies one level below the index.
pub proof fn lemma_packages_share_no_directory(
    layout: Layout,
    realm: Realm,
    first: PackageIdView,
    second: PackageIdView,
)
    requires
        first.well_formed(),
        second.well_formed(),
        first != second,
    ensures
        !begins_with(
            layout.package_directory(realm, second),
            layout.package_directory(realm, first),
        ),
        is_at_or_above(layout.index_root(realm), layout.package_directory(realm, first)),
{
    if canonical_name(first) == canonical_name(second) {
        lemma_canonical_name_injective(first, second);
    }
    lemma_canonical_name_is_component(first);
    let one = layout.package_directory(realm, first);
    let other = layout.package_directory(realm, second);
    assert(one.last() == canonical_name(first));
    assert(other.last() == canonical_name(second));
    assert(other.subrange(0, one.len() as int) =~= other);
    assert(one.subrange(0, layout.index_root(realm).len() as int) =~= layout.index_root(realm));
}

/// Two aliases with the same link file name are the same alias.
proof fn lemma_link_file_name_injective(first: Seq<char>, second: Seq<char>)
    requires
        link_file_name(first) == link_file_name(second),
    ensures
        first == second,
{
    let tail = ".lua"@;
    assert((first + tail).len() == (second + tail).len());
    assert forall|i: int| 0 <= i < first.len() implies first[i] == second[i] by {
        assert((first + tail)[i] == first[i]);
        assert((second + tail)[i] == second[i]);
    }
    assert(first =~= second);
}

/// Links share no file: where two dependency edges differ in their
/// well-formed owner or in their alias, and the aliases hold no separator,
/// their link files in the index of a realm are different files, each three
/// levels below the index; and so are the link files of two different
/// aliases in a package tree.
pub proof fn lemma_links_share_no_file(
    layout: Layout,
    realm: Realm,
    first_owner: PackageIdView,
    first_alias: Seq<char>,
    second_owner: PackageIdView,
    second_alias: Seq<char>,
)
    requires
        first_owner.well_formed(),
        second_owner.well_formed(),
        has_no_separator(first_alias),
        has_no_separator(second_alias),
        first_owner != second_owner || first_alias != second_alias,
    ensures
        links_directory(layout, realm, first_owner).push(link_file_name(first_alias))
            != links_directory(layout, realm, second_owner).push(link_file_name(second_alias)),
        is_at_or_above(
            layout.index_root(realm),
            links_directory(layout, realm, first_owner).push(link_file_name(first_alias)),
        ),
        first_alias != second_alias ==> layout.tree_root(realm).push(link_file_name(first_alias))
            != layout.tree_root(realm).push(link_file_name(second_alias)),
        is_at_or_above(
            layout.tree_root(realm),
            layout.tree_root(realm).push(link_file_name(first_alias)),
        ),
{
    let index = layout.index_root(realm);
    let one = links_directory(layout, realm, first_owner).push(link_file_name(first_alias));
    let other = links_directory(layout, realm, second_owner).push(link_file_name(second_alias));
    let depth = index.len() as int;
    assert(one[depth] == canonical_name(first_owner));
    assert(other[depth] == canonical_name(second_owner));
    assert(one.last() == link_file_name(first_alias));
    assert(other.last() == link_file_name(second_alias));
    if first_owner != second_owner {
        if canonical_name(first_owner) == canonical_name(second_owner) {
            lemma_canonical_name_injective(first_owner, second_owner);
        }
    }
    let tree = layout.tree_root(realm);
    if first_alias != second_alias {
        if link_file_name(first_alias) == link_file_name(second_alias) {
            lemma_link_file_name_injective(first_alias, second_alias);
        }
        assert(tree.push(link_file_name(first_alias)).last() == link_file_name(first_alias));
        assert(tree.push(link_file_name(second_alias)).last() == link_file_name(second_alias));
    }
    lemma_names_are_components(realm, first_alias);
    lemma_canonical_name_is_component(first_owner);
    assert(index.subrange(0, depth) =~= index);
    assert(is_at_or_above(index, index));
    lemma_below_stays_in(index, index, canonical_name(first_owner));
    lemma_below_stays_in(index, layout.package_directory(realm, first_owner), "packages"@);
    lemma_below_stays_in(
        index,
        links_directory(layout, realm, first_owner),
        link_file_name(first_alias),
    );
    assert(tree.subrange(0, tree.len() as int) =~= tree);
    assert(is_at_or_above(tree, tree));
    lemma_below_stays_in(tree, tree, link_file_name(first_alias));
}

/// Cleaning succeeds where there is nothing to remove: the run of a cleaning
/// in which each of the three removals was done or found no directory ends
/// well.
pub proof fn lemma_clean_succeeds_without_directories(layout: Layout, outcomes: Seq<Outcome>)
    requires
        outcomes.len() == 3,
        forall|i: int|
            0 <= i < 3 ==> #[trigger] outcomes[i] == Outcome::Done || outcomes[i]
                == Outcome::Missing,
    ensures
        RunView::start(clean_steps(layout)).after(outcomes).directive() == (Directive::Finished {
            installed: 0,
        }),
{
    let steps = clean_steps(layout);
    let start = RunView::start(steps);
    reveal_with_fuel(worker_count, 4);
    assert(worker_count(steps, 3) == 0);
    let one = outcomes.drop_last().drop_last();
    let two = outcomes.drop_last();
    assert(one.drop_last() =~= Seq::<Outcome>::empty());
    assert(start.after(one.drop_last()) == start);
    assert(one.last() == outcomes[0] && two.last() == outcomes[1] && outcomes.last() == outcomes[2]);
    assert(start.after(one) == start.report(outcomes[0]));
    assert(start.after(one).position == 1);
    assert(start.after(two) == start.after(one).report(outcomes[1]));
    assert(start.after(two).position == 2);
    assert(start.after(outcomes) == start.after(two).report(outcomes[2]));
    assert(start.after(outcomes).position == 3);
}

/// After an installation that ended well, every activated package but the
/// root has been fetched and unpacked into the directory that bears its name
/// in the shared index: the plan holds the step that does so, the outcome of
/// every step of the plan was accepted, every worker was waited for and was
/// done, and the number reported is that of the activated packages other
/// than the root.
pub proof fn lemma_finished_installation_is_complete(
    layout: Layout,
    sources: Seq<Seq<char>>,
    root: PackageIdView,
    resolved: ResolveView,
    outcomes: Seq<Outcome>,
    at: int,
)
    requires
        install_steps(layout, sources, root, resolved).len() <= usize::MAX,
        RunView::start(install_steps(layout, sources, root, resolved)).after(
            outcomes,
        ).directive() is Finished,
        0 <= at < resolved.activated.len(),
        resolved.activated[at] != root,
    ensures
        resolved.registry_of(resolved.activated[at]) is Some,
        install_steps(layout, sources, root, resolved).contains(
            StepView::Materialize {
                package: resolved.activated[at],
                registry: resolved.registry_of(resolved.activated[at])->0,
                directory: layout.package_directory(Realm::Shared, resolved.activated[at]),
            },
        ),
        forall|i: int|
            0 <= i < install_steps(layout, sources, root, resolved).len() ==> accepted(
                install_steps(layout, sources, root, resolved)[i],
                #[trigger] outcomes[i],
            ),
        forall|j: int|
            0 <= j < others(resolved.activated, root, resolved.activated.len())
                ==> #[trigger] outcomes[install_steps(layout, sources, root, resolved).len() + j]
                == Outcome::Done,
        RunView::start(install_steps(layout, sources, root, resolved)).after(
            outcomes,
        ).directive() matches Directive::Finished { installed } && installed == others(
            resolved.activated,
            root,
            resolved.activated.len(),
        ),
{
    let steps = install_steps(layout, sources, root, resolved);
    lemma_finished_run_did_everything(steps, outcomes);
    if halted(steps) {
        assert(steps[steps.len() - 1] is Halt);
    }
    lemma_every_package_is_materialized(layout, sources, root, resolved, at);
    lemma_every_other_package_is_counted(layout, sources, root, resolved);
}

} // verus!
