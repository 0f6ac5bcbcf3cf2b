//! What the steps of a plan leave on disk, as far as the plans rely on it,
//! and what follows for a cleaning and an installation after it.

use vstd::prelude::*;
use crate::installation::{
    clean_steps, install_parts, install_steps, package_steps, root_link_parts,
    sibling_link_parts, Layout,
};
use crate::package_id::PackageIdView;
use crate::realm::Realm;
use crate::resolution::ResolveView;
use crate::step::{lemma_until_halt_keeps, StepView};
use crate::tree_path::begins_with;

verus! {

/// Whether a path is one of the three package trees of a layout or starts
/// with one.
pub open spec fn lies_in_trees(layout: Layout, path: Seq<Seq<char>>) -> bool {
    ||| begins_with(path, layout.tree_root(Realm::Shared))
    ||| begins_with(path, layout.tree_root(Realm::Server))
    ||| begins_with(path, layout.tree_root(Realm::Dev))
}

/// The paths that exist after a step was carried out on a disk that held
/// the paths `disk`. The removal of a directory leaves no path that starts
/// with it. Every other step puts paths on disk and takes none away; which
/// paths it puts there, `adds` says: that depends on the step and on what
/// the registries serve, and not on what was on disk before. A halt does
/// nothing.
pub open spec fn effect(
    step: StepView,
    adds: spec_fn(StepView) -> Set<Seq<Seq<char>>>,
    disk: Set<Seq<Seq<char>>>,
) -> Set<Seq<Seq<char>>> {
    match step {
        StepView::RemoveDir { path } => disk.filter(|on_disk: Seq<Seq<char>>| !begins_with(on_disk, path)),
        StepView::Halt { .. } => disk,
        _ => disk.union(adds(step)),
    }
}

/// The paths that exist after all of `steps` were carried out, workers
/// included, on a disk that held the paths `disk`.
pub open spec fn effect_of_all(
    steps: Seq<StepView>,
    adds: spec_fn(StepView) -> Set<Seq<Seq<char>>>,
    disk: Set<Seq<Seq<char>>>,
) -> Set<Seq<Seq<char>>>
    decreases steps.len(),
{
    if steps.len() == 0 {
        disk
    } else {
        effect(steps.last(), adds, effect_of_all(steps.drop_last(), adds, disk))
    }
}

/// After a cleaning nothing lies in the three package trees, whatever was
/// there before.
pub proof fn lemma_clean_empties_trees(
    layout: Layout,
    adds: spec_fn(StepView) -> Set<Seq<Seq<char>>>,
    disk: Set<Seq<Seq<char>>>,
    path: Seq<Seq<char>>,
)
    requires
        lies_in_trees(layout, path),
    ensures
        !effect_of_all(clean_steps(layout), adds, disk).contains(path),
{
    let steps = clean_steps(layout);
    let two = steps.drop_last();
    let one = two.drop_last();
    assert(one.drop_last() =~= Seq::<StepView>::empty());
    assert(one.last() == steps[0] && two.last() == steps[1] && steps.last() == steps[2]);
    let first = effect_of_all(one, adds, disk);
    let second = effect_of_all(two, adds, disk);
    let third = effect_of_all(steps, adds, disk);
    assert(effect_of_all(one.drop_last(), adds, disk) == disk);
    assert(first == effect(steps[0], adds, disk));
    assert(second == effect(steps[1], adds, first));
    assert(third == effect(steps[2], adds, second));
}

/// Steps of which none removes anything keep apart what was on disk before
/// them: whether a path exists after them depends on the disk before only
/// in whether the path existed there.
pub proof fn lemma_effects_agree(
    steps: Seq<StepView>,
    adds: spec_fn(StepView) -> Set<Seq<Seq<char>>>,
    first: Set<Seq<Seq<char>>>,
    second: Set<Seq<Seq<char>>>,
    path: Seq<Seq<char>>,
)
    requires
        forall|i: int| 0 <= i < steps.len() ==> !(#[trigger] steps[i] is RemoveDir),
        first.contains(path) == second.contains(path),
    ensures
        effect_of_all(steps, adds, first).contains(path) == effect_of_all(
            steps,
            adds,
            second,
        ).contains(path),
    decreases steps.len(),
{
    if steps.len() > 0 {
        let earlier = steps.drop_last();
        assert forall|i: int| 0 <= i < earlier.len() implies !(#[trigger] earlier[i] is RemoveDir) by {
            assert(earlier[i] == steps[i]);
        }
        lemma_effects_agree(earlier, adds, first, second, path);
        assert(!(steps[steps.len() - 1] is RemoveDir));
    }
}

/// No step of the steps of one activated package removes anything.
proof fn lemma_package_removes_nothing(
    layout: Layout,
    sources: Seq<Seq<char>>,
    root: PackageIdView,
    resolved: ResolveView,
    id: PackageIdView,
)
    ensures
        forall|i: int|
            0 <= i < package_steps(layout, sources, root, resolved, id).len() ==> !(
            #[trigger] package_steps(layout, sources, root, resolved, id)[i] is RemoveDir),
{
    let keeps = |step: StepView| !(step is RemoveDir);
    if let Some(dependencies) = resolved.dependencies_of(id) {
        if id == root {
            let parts = root_link_parts(layout, Realm::Shared, dependencies, resolved, sources);
            assert forall|part: int, at: int|
                0 <= part < dependencies.len() && 0 <= at < parts[part].len() implies keeps(
                #[trigger] parts[part][at],
            ) by {}
            lemma_until_halt_keeps(parts, dependencies.len(), keeps);
        } else {
            let parts = sibling_link_parts(
                layout,
                id,
                Realm::Shared,
                dependencies,
                resolved,
                sources,
            );
            assert forall|part: int, at: int|
                0 <= part < dependencies.len() && 0 <= at < parts[part].len() implies keeps(
                #[trigger] parts[part][at],
            ) by {}
            lemma_until_halt_keeps(parts, dependencies.len(), keeps);
        }
    }
}

/// An installation removes nothing.
pub proof fn lemma_install_removes_nothing(
    layout: Layout,
    sources: Seq<Seq<char>>,
    root: PackageIdView,
    resolved: ResolveView,
)
    ensures
        forall|i: int|
            0 <= i < install_steps(layout, sources, root, resolved).len() ==> !(
            #[trigger] install_steps(layout, sources, root, resolved)[i] is RemoveDir),
{
    let parts = install_parts(layout, sources, root, resolved);
    let keeps = |step: StepView| !(step is RemoveDir);
    assert forall|part: int, at: int|
        0 <= part < resolved.activated.len() && 0 <= at < parts[part].len() implies keeps(
        #[trigger] parts[part][at],
    ) by {
        lemma_package_removes_nothing(layout, sources, root, resolved, resolved.activated[part]);
    }
    lemma_until_halt_keeps(parts, resolved.activated.len(), keeps);
}

/// A cleaning and an installation after it leave nothing of an earlier run
/// in the package trees: whatever the disk held before, the three trees
/// hold afterwards what they hold after the same cleaning and installation
/// on an empty disk.
pub proof fn lemma_clean_then_install_forgets_the_past(
    layout: Layout,
    sources: Seq<Seq<char>>,
    root: PackageIdView,
    resolved: ResolveView,
    adds: spec_fn(StepView) -> Set<Seq<Seq<char>>>,
    disk: Set<Seq<Seq<char>>>,
    path: Seq<Seq<char>>,
)
    requires
        lies_in_trees(layout, path),
    ensures
        effect_of_all(
            install_steps(layout, sources, root, resolved),
            adds,
            effect_of_all(clean_steps(layout), adds, disk),
        ).contains(path) == effect_of_all(
            install_steps(layout, sources, root, resolved),
            adds,
            effect_of_all(clean_steps(layout), adds, Set::empty()),
        ).contains(path),
{
    lemma_clean_empties_trees(layout, adds, disk, path);
    lemma_clean_empties_trees(layout, adds, Set::empty(), path);
    lemma_install_removes_nothing(layout, sources, root, resolved);
    lemma_effects_agree(
        install_steps(layout, sources, root, resolved),
        adds,
        effect_of_all(clean_steps(layout), adds, disk),
        effect_of_all(clean_steps(layout), adds, Set::empty()),
        path,
    );
}

/// What steps that remove nothing leave on disk is what was there before
/// and what they leave on an empty disk.
pub proof fn lemma_effects_add(
    steps: Seq<StepView>,
    adds: spec_fn(StepView) -> Set<Seq<Seq<char>>>,
    disk: Set<Seq<Seq<char>>>,
    path: Seq<Seq<char>>,
)
    requires
        forall|i: int| 0 <= i < steps.len() ==> !(#[trigger] steps[i] is RemoveDir),
    ensures
        effect_of_all(steps, adds, disk).contains(path) == (disk.contains(path) || effect_of_all(
            steps,
            adds,
            Set::empty(),
        ).contains(path)),
    decreases steps.len(),
{
    if steps.len() > 0 {
        let earlier = steps.drop_last();
        assert forall|i: int| 0 <= i < earlier.len() implies !(#[trigger] earlier[i] is RemoveDir) by {
            assert(earlier[i] == steps[i]);
        }
        lemma_effects_add(earlier, adds, disk, path);
        assert(!(steps[steps.len() - 1] is RemoveDir));
    }
}

/// Installing twice leaves on disk what installing once leaves: the second
/// run of the same plan, with the registries serving what they served,
/// writes over what the first has written and adds no path.
pub proof fn lemma_install_twice_is_install_once(
    layout: Layout,
    sources: Seq<Seq<char>>,
    root: PackageIdView,
    resolved: ResolveView,
    adds: spec_fn(StepView) -> Set<Seq<Seq<char>>>,
    disk: Set<Seq<Seq<char>>>,
)
    ensures
        effect_of_all(
            install_steps(layout, sources, root, resolved),
            adds,
            effect_of_all(install_steps(layout, sources, root, resolved), adds, disk),
        ) == effect_of_all(install_steps(layout, sources, root, resolved), adds, disk),
{
    let steps = install_steps(layout, sources, root, resolved);
    let once = effect_of_all(steps, adds, disk);
    let twice = effect_of_all(steps, adds, once);
    lemma_install_removes_nothing(layout, sources, root, resolved);
    assert forall|path: Seq<Seq<char>>| twice.contains(path) == once.contains(path) by {
        lemma_effects_add(steps, adds, once, path);
        lemma_effects_add(steps, adds, disk, path);
    }
    assert(twice =~= once);
}

} // verus!
