//! The resolved dependency graph that an installation starts from, and the
//! registries that its packages can be fetched from.

use vstd::prelude::*;
use vstd::string::StringExecFns;
use crate::package_id::{PackageId, PackageIdView};
use crate::step::{InstallError, InstallErrorView};
use crate::tree_path::{has_no_separator, holds_separator, texts};

verus! {

/// The views of a list of values.
pub open spec fn views<T: View>(items: Seq<T>) -> Seq<T::V> {
    Seq::new(items.len(), |i: int| items[i]@)
}

/// One edge of the graph: the name under which the owner requires a package.
#[derive(Clone, Debug, PartialEq, Eq)]
pub struct Dependency {
    pub alias: String,
    pub package: PackageId,
}

pub struct DependencyView {
    pub alias: Seq<char>,
    pub package: PackageIdView,
}

impl View for Dependency {
    type V = DependencyView;

    open spec fn view(&self) -> DependencyView {
        DependencyView { alias: self.alias@, package: self.package@ }
    }
}

/// What is recorded of one package: the registry that serves it.
#[derive(Clone, Debug, PartialEq, Eq)]
pub struct Metadata {
    pub package: PackageId,
    pub source_registry: String,
}

pub struct MetadataView {
    pub package: PackageIdView,
    pub source_registry: Seq<char>,
}

impl View for Metadata {
    type V = MetadataView;

    open spec fn view(&self) -> MetadataView {
        MetadataView { package: self.package@, source_registry: self.source_registry@ }
    }
}

/// The shared-realm dependencies of one package, in the order in which its
/// links are written.
#[derive(Clone, Debug, PartialEq, Eq)]
pub struct DependencyList {
    pub owner: PackageId,
    pub dependencies: Vec<Dependency>,
}

pub struct DependencyListView {
    pub owner: PackageIdView,
    pub dependencies: Seq<DependencyView>,
}

impl View for DependencyList {
    type V = DependencyListView;

    open spec fn view(&self) -> DependencyListView {
        DependencyListView { owner: self.owner@, dependencies: views(self.dependencies@) }
    }
}

/// A resolved graph: the packages to install, the root among them, in the
/// order in which they are handled; the registry of each; and the
/// shared-realm dependencies of those that have any recorded. It is a set
/// and two maps: no package is activated twice, none has two entries in the
/// metadata or two lists of dependencies, no list holds an alias twice, and
/// every alias can be the name of a file.
#[derive(Debug, PartialEq, Eq)]
pub struct Resolve {
    activated: Vec<PackageId>,
    metadata: Vec<Metadata>,
    shared_dependencies: Vec<DependencyList>,
}

pub struct ResolveView {
    pub activated: Seq<PackageIdView>,
    pub metadata: Seq<MetadataView>,
    pub shared_dependencies: Seq<DependencyListView>,
}

impl View for Resolve {
    type V = ResolveView;

    closed spec fn view(&self) -> ResolveView {
        ResolveView {
            activated: views(self.activated@),
            metadata: views(self.metadata@),
            shared_dependencies: views(self.shared_dependencies@),
        }
    }
}

/// The registry of the first entry for `id` at or behind position `from`.
pub open spec fn registry_from(metadata: Seq<MetadataView>, id: PackageIdView, from: int) -> Option<
    Seq<char>,
>
    decreases metadata.len() - from,
{
    if from < 0 || from >= metadata.len() {
        None
    } else if metadata[from].package == id {
        Some(metadata[from].source_registry)
    } else {
        registry_from(metadata, id, from + 1)
    }
}

/// The dependencies of the first entry for `id` at or behind position `from`.
pub open spec fn dependencies_from(
    lists: Seq<DependencyListView>,
    id: PackageIdView,
    from: int,
) -> Option<Seq<DependencyView>>
    decreases lists.len() - from,
{
    if from < 0 || from >= lists.len() {
        None
    } else if lists[from].owner == id {
        Some(lists[from].dependencies)
    } else {
        dependencies_from(lists, id, from + 1)
    }
}

/// The packages that the entries of the metadata are about, in order.
pub open spec fn metadata_packages(metadata: Seq<MetadataView>) -> Seq<PackageIdView> {
    Seq::new(metadata.len(), |i: int| metadata[i].package)
}

/// The owners of the lists of dependencies, in order.
pub open spec fn owners(lists: Seq<DependencyListView>) -> Seq<PackageIdView> {
    Seq::new(lists.len(), |i: int| lists[i].owner)
}

/// The aliases of a list of dependencies, in order.
pub open spec fn aliases(dependencies: Seq<DependencyView>) -> Seq<Seq<char>> {
    Seq::new(dependencies.len(), |i: int| dependencies[i].alias)
}

/// What holds of every list of dependencies in a graph: no alias occurs
/// twice, and none holds a separator of path components.
pub open spec fn well_formed_dependencies(dependencies: Seq<DependencyView>) -> bool {
    &&& aliases(dependencies).no_duplicates()
    &&& forall|i: int|
        0 <= i < dependencies.len() ==> has_no_separator(#[trigger] dependencies[i].alias)
}

/// What holds of the three parts of every graph.
pub open spec fn well_formed_graph(
    activated: Seq<PackageIdView>,
    metadata: Seq<MetadataView>,
    shared_dependencies: Seq<DependencyListView>,
) -> bool {
    &&& forall|i: int| 0 <= i < activated.len() ==> (#[trigger] activated[i]).well_formed()
    &&& activated.no_duplicates()
    &&& metadata_packages(metadata).no_duplicates()
    &&& owners(shared_dependencies).no_duplicates()
    &&& forall|i: int|
        0 <= i < shared_dependencies.len() ==> well_formed_dependencies(
            (#[trigger] shared_dependencies[i]).dependencies,
        )
}

impl ResolveView {
    /// What holds of the view of every `Resolve`.
    pub open spec fn well_formed(self) -> bool {
        well_formed_graph(self.activated, self.metadata, self.shared_dependencies)
    }

    /// The registry that serves `id`, where one is recorded.
    pub open spec fn registry_of(self, id: PackageIdView) -> Option<Seq<char>> {
        registry_from(self.metadata, id, 0)
    }

    /// The shared-realm dependencies of `id`, where any are recorded.
    pub open spec fn dependencies_of(self, id: PackageIdView) -> Option<Seq<DependencyView>> {
        dependencies_from(self.shared_dependencies, id, 0)
    }
}

/// Whether no package occurs twice in `ids`.
fn packages_distinct(ids: &Vec<PackageId>) -> (distinct: bool)
    ensures
        distinct == views(ids@).no_duplicates(),
        forall|i: int| 0 <= i < ids.len() ==> (#[trigger] views(ids@)[i]).well_formed(),
{
    let mut distinct = true;
    let mut i: usize = 0;
    while i < ids.len()
        invariant
            i <= ids.len(),
            forall|k: int| 0 <= k < i ==> (#[trigger] views(ids@)[k]).well_formed(),
            distinct == forall|a: int, b: int|
                0 <= a < b < i ==> #[trigger] views(ids@)[a] != #[trigger] views(ids@)[b],
        decreases ids.len() - i,
    {
        let id = &ids[i];
        proof {
            use_type_invariant(id);
        }
        let mut j: usize = 0;
        while j < i
            invariant
                j <= i < ids.len(),
                distinct ==> forall|a: int| 0 <= a < j ==> #[trigger] views(ids@)[a] != views(
                    ids@,
                )[i as int],
                !distinct ==> exists|a: int, b: int|
                    0 <= a < b <= i && #[trigger] views(ids@)[a] == #[trigger] views(ids@)[b],
                distinct ==> forall|a: int, b: int|
                    0 <= a < b < i ==> #[trigger] views(ids@)[a] != #[trigger] views(ids@)[b],
            decreases i - j,
        {
            if ids[j].same_as(&ids[i]) {
                distinct = false;
                assert(views(ids@)[j as int] == views(ids@)[i as int]);
            }
            j += 1;
        }
        i += 1;
    }
    distinct
}

/// Whether no text occurs twice in `items`.
fn texts_distinct(items: &Vec<String>) -> (distinct: bool)
    ensures
        distinct == texts(items@).no_duplicates(),
{
    let mut distinct = true;
    let mut i: usize = 0;
    while i < items.len()
        invariant
            i <= items.len(),
            distinct == forall|a: int, b: int|
                0 <= a < b < i ==> #[trigger] texts(items@)[a] != #[trigger] texts(items@)[b],
        decreases items.len() - i,
    {
        let mut j: usize = 0;
        while j < i
            invariant
                j <= i < items.len(),
                distinct ==> forall|a: int| 0 <= a < j ==> #[trigger] texts(items@)[a] != texts(
                    items@,
                )[i as int],
                !distinct ==> exists|a: int, b: int|
                    0 <= a < b <= i && #[trigger] texts(items@)[a] == #[trigger] texts(items@)[b],
                distinct ==> forall|a: int, b: int|
                    0 <= a < b < i ==> #[trigger] texts(items@)[a] != #[trigger] texts(items@)[b],
            decreases i - j,
        {
            if items[j] == items[i] {
                distinct = false;
                assert(texts(items@)[j as int] == texts(items@)[i as int]);
            }
            j += 1;
        }
        i += 1;
    }
    distinct
}

/// Whether a list of dependencies can stand in a graph.
fn dependencies_well_formed(dependencies: &Vec<Dependency>) -> (well_formed: bool)
    ensures
        well_formed == well_formed_dependencies(views(dependencies@)),
{
    let mut names: Vec<String> = Vec::new();
    let mut i: usize = 0;
    while i < dependencies.len()
        invariant
            i <= dependencies.len(),
            names.len() == i,
            forall|k: int| 0 <= k < i ==> (#[trigger] names@[k])@ == dependencies@[k]@.alias,
            forall|k: int| 0 <= k < i ==> has_no_separator(#[trigger] views(dependencies@)[k].alias),
        decreases dependencies.len() - i,
    {
        if holds_separator(dependencies[i].alias.as_str()) {
            assert(!has_no_separator(views(dependencies@)[i as int].alias));
            return false;
        }
        names.push(dependencies[i].alias.clone());
        i += 1;
    }
    assert(texts(names@) =~= aliases(views(dependencies@)));
    texts_distinct(&names)
}

impl Resolve {
    /// What holds of every graph.
    #[verifier::type_invariant]
    pub open spec fn valid(self) -> bool {
        self@.well_formed()
    }

    /// The graph of these three parts. Parts in which something occurs
    /// twice that may occur once, or in which an alias holds a separator of
    /// path components, are refused.
    pub fn new(
        activated: Vec<PackageId>,
        metadata: Vec<Metadata>,
        shared_dependencies: Vec<DependencyList>,
    ) -> (resolved: Option<Resolve>)
        ensures
            resolved is Some <==> well_formed_graph(
                views(activated@),
                views(metadata@),
                views(shared_dependencies@),
            ),
            resolved matches Some(graph) ==> graph@ == (ResolveView {
                activated: views(activated@),
                metadata: views(metadata@),
                shared_dependencies: views(shared_dependencies@),
            }),
    {
        if !packages_distinct(&activated) {
            return None;
        }
        let mut keys: Vec<PackageId> = Vec::new();
        let mut i: usize = 0;
        while i < metadata.len()
            invariant
                i <= metadata.len(),
                keys.len() == i,
                forall|k: int| 0 <= k < i ==> (#[trigger] keys@[k])@ == metadata@[k]@.package,
            decreases metadata.len() - i,
        {
            keys.push(metadata[i].package.duplicate());
            i += 1;
        }
        assert(views(keys@) =~= metadata_packages(views(metadata@)));
        if !packages_distinct(&keys) {
            return None;
        }
        let mut heads: Vec<PackageId> = Vec::new();
        let mut i: usize = 0;
        while i < shared_dependencies.len()
            invariant
                i <= shared_dependencies.len(),
                heads.len() == i,
                forall|k: int|
                    0 <= k < i ==> (#[trigger] heads@[k])@ == shared_dependencies@[k]@.owner,
                forall|k: int|
                    0 <= k < i ==> well_formed_dependencies(
                        (#[trigger] views(shared_dependencies@)[k]).dependencies,
                    ),
            decreases shared_dependencies.len() - i,
        {
            if !dependencies_well_formed(&shared_dependencies[i].dependencies) {
                assert(!well_formed_dependencies(
                    views(shared_dependencies@)[i as int].dependencies,
                ));
                return None;
            }
            heads.push(shared_dependencies[i].owner.duplicate());
            i += 1;
        }
        assert(views(heads@) =~= owners(views(shared_dependencies@)));
        if !packages_distinct(&heads) {
            return None;
        }
        Some(Resolve { activated, metadata, shared_dependencies })
    }

    /// The packages to install, in the order in which they are handled.
    pub fn activated(&self) -> (activated: &Vec<PackageId>)
        ensures
            views(activated@) == self@.activated,
    {
        &self.activated
    }

    /// The recorded registries, one entry for each package that has one.
    pub fn metadata(&self) -> (metadata: &Vec<Metadata>)
        ensures
            views(metadata@) == self@.metadata,
    {
        &self.metadata
    }

    /// The recorded lists of shared-realm dependencies.
    pub fn shared_dependencies(&self) -> (lists: &Vec<DependencyList>)
        ensures
            views(lists@) == self@.shared_dependencies,
    {
        &self.shared_dependencies
    }

    /// The registry that serves `id`, where one is recorded.
    pub fn source_registry(&self, id: &PackageId) -> (registry: Option<&String>)
        ensures
            match registry {
                Some(name) => self@.registry_of(id@) == Some(name@),
                None => self@.registry_of(id@) is None,
            },
    {
        let mut i: usize = 0;
        while i < self.metadata.len()
            invariant
                i <= self.metadata.len(),
                registry_from(self@.metadata, id@, i as int) == self@.registry_of(id@),
            decreases self.metadata.len() - i,
        {
            assert(self@.metadata[i as int] == self.metadata@[i as int]@);
            if self.metadata[i].package.same_as(id) {
                return Some(&self.metadata[i].source_registry);
            }
            i += 1;
        }
        None
    }

    /// The shared-realm dependencies of `id`, where any are recorded.
    pub fn dependencies(&self, id: &PackageId) -> (dependencies: Option<&Vec<Dependency>>)
        ensures
            match dependencies {
                Some(list) => self@.dependencies_of(id@) == Some(views(list@)),
                None => self@.dependencies_of(id@) is None,
            },
    {
        let mut i: usize = 0;
        while i < self.shared_dependencies.len()
            invariant
                i <= self.shared_dependencies.len(),
                dependencies_from(self@.shared_dependencies, id@, i as int)
                    == self@.dependencies_of(id@),
            decreases self.shared_dependencies.len() - i,
        {
            assert(self@.shared_dependencies[i as int] == self.shared_dependencies@[i as int]@);
            if self.shared_dependencies[i].owner.same_as(id) {
                return Some(&self.shared_dependencies[i].dependencies);
            }
            i += 1;
        }
        None
    }
}

/// The registries that packages can be fetched from, by name, each name
/// once. The position of a name is the handle by which its registry is
/// reached.
#[derive(Debug, PartialEq, Eq)]
pub struct PackageSourceMap {
    registries: Vec<String>,
}

impl View for PackageSourceMap {
    type V = Seq<Seq<char>>;

    closed spec fn view(&self) -> Seq<Seq<char>> {
        texts(self.registries@)
    }
}

impl PackageSourceMap {
    /// No name occurs twice.
    #[verifier::type_invariant]
    pub open spec fn valid(self) -> bool {
        self@.no_duplicates()
    }

    /// The map of the registries of these names. Names of which one occurs
    /// twice are refused.
    pub fn new(registries: Vec<String>) -> (sources: Option<PackageSourceMap>)
        ensures
            sources is Some <==> texts(registries@).no_duplicates(),
            sources matches Some(map) ==> map@ == texts(registries@),
    {
        if texts_distinct(&registries) {
            Some(PackageSourceMap { registries })
        } else {
            None
        }
    }

    /// The names, each at its position.
    pub fn registries(&self) -> (registries: &Vec<String>)
        ensures
            texts(registries@) == self@,
    {
        &self.registries
    }

    /// The position of the registry called `name`, if there is one.
    pub fn get(&self, name: &str) -> (position: Option<usize>)
        ensures
            position is Some <==> self@.contains(name@),
            position matches Some(at) ==> at < self@.len() && self@[at as int] == name@ && forall|
                j: int,
            | 0 <= j < at ==> self@[j] != name@,
    {
        let wanted = String::from_str(name);
        let mut i: usize = 0;
        while i < self.registries.len()
            invariant
                i <= self.registries.len(),
                wanted@ == name@,
                forall|j: int| 0 <= j < i ==> self@[j] != name@,
            decreases self.registries.len() - i,
        {
            assert(self@[i as int] == self.registries@[i as int]@);
            if self.registries[i] == wanted {
                return Some(i);
            }
            i += 1;
        }
        None
    }

    /// The position of the registry called `name`. That there is none is an
    /// error: the graph that names it and the known registries disagree.
    pub fn lookup(&self, name: &str) -> (found: Result<usize, InstallError>)
        ensures
            found is Ok <==> self@.contains(name@),
            found matches Ok(at) ==> at < self@.len() && self@[at as int] == name@ && forall|
                j: int,
            | 0 <= j < at ==> self@[j] != name@,
            found matches Err(error) ==> error@ == (InstallErrorView::UnknownRegistry {
                registry: name@,
            }),
    {
        match self.get(name) {
            Some(at) => Ok(at),
            None => Err(InstallError::UnknownRegistry { registry: String::from_str(name) }),
        }
    }
}

/// Dependencies that are on record for a package stand in one of the lists.
pub proof fn lemma_dependencies_from_list(
    lists: Seq<DependencyListView>,
    id: PackageIdView,
    from: int,
) -> (at: int)
    requires
        0 <= from,
        dependencies_from(lists, id, from) is Some,
    ensures
        from <= at < lists.len(),
        lists[at].owner == id,
        dependencies_from(lists, id, from) == Some(lists[at].dependencies),
    decreases lists.len() - from,
{
    if lists[from].owner == id {
        from
    } else {
        lemma_dependencies_from_list(lists, id, from + 1)
    }
}

} // verus!
