//! Lockfile: the dependency graph, keyed by package name and version
use vstd::prelude::*;

use crate::dependencies::{DependencySpecifier, PackageRef};
use crate::manifest::target::{spec_packages_folder, Target, TargetKind};
use crate::manifest::DependencyType;
use crate::names::{package_names_escaped, PackageNames, PackageNamesView};
use crate::keyed::{lemma_entries_map, KeyEq, KeyedMap};
use crate::text::{str_eq, string_push};
use crate::version::Version;

verus! {

/// A version of a package together with the target it was built for
#[derive(Debug)]
pub struct VersionId {
    /// The version
    pub version: Version,
    /// The target of the package
    pub target: TargetKind,
}

impl Clone for VersionId {
    fn clone(&self) -> (r: Self)
        ensures
            r == *self,
    {
        VersionId { version: self.version.clone(), target: self.target }
    }
}

impl View for VersionId {
    type V = (Seq<char>, TargetKind);

    open spec fn view(&self) -> (Seq<char>, TargetKind) {
        (self.version@, self.target)
    }
}

impl VersionId {
    /// The version
    pub fn version(&self) -> (r: &Version)
        ensures
            r@ == self.version@,
    {
        &self.version
    }
}

/// A reference to a package in the lockfile: where it comes from, the target
/// it was built for, and whether it uses the new folder structure
#[derive(Debug)]
pub struct PackageRefs {
    /// Where the package comes from
    pub source: PackageRef,
    /// The target of the package
    pub target: TargetKind,
    /// Whether the package uses the new folder structure
    pub new_structure: bool,
}

impl Clone for PackageRefs {
    fn clone(&self) -> (r: Self)
        ensures
            r == *self,
    {
        PackageRefs { source: self.source.clone(), target: self.target, new_structure: self.new_structure }
    }
}

impl PackageRefs {
    /// Whether the package uses the new folder structure
    pub fn use_new_structure(&self) -> (r: bool)
        ensures
            r == self.new_structure,
    {
        self.new_structure
    }

    /// The target kind of the package
    pub fn target_kind(&self) -> (r: TargetKind)
        ensures
            r == self.target,
    {
        self.target
    }
}

impl KeyEq for PackageNames {
    fn key_eq(&self, other: &Self) -> (r: bool) {
        names_eq(self, other)
    }
}

impl KeyEq for VersionId {
    fn key_eq(&self, other: &Self) -> (r: bool) {
        version_ids_eq(self, other)
    }
}

/// Whether two names are the same name
pub fn names_eq(a: &PackageNames, b: &PackageNames) -> (r: bool)
    ensures
        r == (a@ == b@),
{
    match (a, b) {
        (PackageNames::Pesde(x), PackageNames::Pesde(y)) => {
            let (x0, x1) = x.as_str();
            let (y0, y1) = y.as_str();
            str_eq(x0, y0) && str_eq(x1, y1)
        },
        (PackageNames::Wally(x), PackageNames::Wally(y)) => {
            let (x0, x1) = x.as_str();
            let (y0, y1) = y.as_str();
            str_eq(x0, y0) && str_eq(x1, y1)
        },
        _ => false,
    }
}

/// Whether two version ids are the same
pub fn version_ids_eq(a: &VersionId, b: &VersionId) -> (r: bool)
    ensures
        r == (a@ == b@),
{
    str_eq(a.version.as_str(), b.version.as_str()) && a.target == b.target
}

/// A node in the dependency graph
#[derive(Debug)]
pub struct DependencyGraphNode {
    /// The alias and specifier, when the project depends on the package directly
    pub direct: Option<(String, DependencySpecifier)>,
    /// The dependencies of the package: name to version and alias
    pub dependencies: Vec<(PackageNames, (VersionId, String))>,
    /// The type of the dependency
    pub ty: DependencyType,
    /// The reference to the package
    pub pkg_ref: PackageRefs,
}

/// `..`
pub open spec fn parent_dir_text() -> Seq<char> {
    seq!['.', '.']
}

/// The folder, relative to the containing package, that holds a package's links
pub open spec fn spec_base_folder(node: DependencyGraphNode, project_target: TargetKind, is_top_level: bool) -> Seq<char> {
    if is_top_level || node.pkg_ref.new_structure {
        spec_packages_folder(project_target, node.pkg_ref.target)
    } else {
        parent_dir_text()
    }
}

/// The last part of a name (the name without its scope)
pub open spec fn name_last_part(n: PackageNamesView) -> Seq<char> {
    match n {
        PackageNamesView::Pesde(p) => p.1,
        PackageNamesView::Wally(p) => p.1,
    }
}

impl DependencyGraphNode {
    /// The container folder of a package under a packages folder, as path
    /// components: the escaped name, the version, then the name's last part
    pub fn container_folder(&self, name: &PackageNames, version: &Version) -> (r: Vec<String>)
        ensures
            r@.map_values(|c: String| c@) == seq![package_names_escaped(name@), version@, name_last_part(name@)],
    {
        let mut v: Vec<String> = Vec::new();
        v.push(name.escaped());
        v.push(version.to_string());
        v.push(crate::text::str_to_string(name.as_str().1));
        assert(v@.map_values(|c: String| c@) =~= seq![package_names_escaped(name@), version@, name_last_part(name@)]);
        v
    }

    /// The base folder of the package, relative to the project (top level) or to the
    /// package depending on it
    pub fn base_folder(&self, project_target: TargetKind, is_top_level: bool) -> (s: String)
        ensures
            s@ == spec_base_folder(*self, project_target, is_top_level),
    {
        if is_top_level || self.pkg_ref.use_new_structure() {
            project_target.packages_folder(&self.pkg_ref.target_kind())
        } else {
            let mut s = String::new();
            string_push(&mut s, '.');
            string_push(&mut s, '.');
            assert(s@ =~= parent_dir_text());
            s
        }
    }
}

/// A graph of packages, keyed by name and version
pub type Graph<N> = KeyedMap<(PackageNames, VersionId), N>;

/// The key of a graph entry
pub type GraphKey = (PackageNamesView, (Seq<char>, TargetKind));

/// The dependency graph
pub type DependencyGraph = Graph<DependencyGraphNode>;

/// A node as it is stored: the direct specifier dropped outside the top level
pub open spec fn stored_node(node: DependencyGraphNode, is_top_level: bool) -> DependencyGraphNode {
    if is_top_level {
        node
    } else {
        DependencyGraphNode { direct: None, ..node }
    }
}

/// The graph after inserting a node: a new key gets the node; an existing node
/// keeps everything but takes the direct specifier when it had none
pub open spec fn spec_insert_node(
    graph: Map<GraphKey, DependencyGraphNode>,
    key: GraphKey,
    node: DependencyGraphNode,
    is_top_level: bool,
) -> Map<GraphKey, DependencyGraphNode> {
    let node = stored_node(node, is_top_level);
    if graph.dom().contains(key) {
        let current = graph[key];
        if current.direct is None && node.direct is Some {
            graph.insert(key, DependencyGraphNode { direct: node.direct, ..current })
        } else {
            graph
        }
    } else {
        graph.insert(key, node)
    }
}

/// Law: inserting the same node a second time changes nothing.
pub proof fn law_insert_node_twice(
    graph: Map<GraphKey, DependencyGraphNode>,
    key: GraphKey,
    node: DependencyGraphNode,
    is_top_level: bool,
)
    ensures
        spec_insert_node(spec_insert_node(graph, key, node, is_top_level), key, node, is_top_level)
            == spec_insert_node(graph, key, node, is_top_level),
{
    let once = spec_insert_node(graph, key, node, is_top_level);
    assert(once.dom().contains(key));
    let twice = spec_insert_node(once, key, node, is_top_level);
    assert(twice =~= once);
}

/// Law: a node inserted at the top level with a direct specifier is in the
/// graph as a direct dependency.
pub proof fn law_insert_node_direct(
    graph: Map<GraphKey, DependencyGraphNode>,
    key: GraphKey,
    node: DependencyGraphNode,
)
    requires
        node.direct is Some,
    ensures
        spec_insert_node(graph, key, node, true).dom().contains(key),
        spec_insert_node(graph, key, node, true)[key].direct is Some,
{
}

/// Inserts a node into the graph, merging with an existing node of the same name and version
pub fn insert_node(
    graph: &mut DependencyGraph,
    name: PackageNames,
    version: VersionId,
    node: DependencyGraphNode,
    is_top_level: bool,
)
    requires
        old(graph).wf(),
    ensures
        final(graph).wf(),
        final(graph).map() == spec_insert_node(old(graph).map(), (name@, version@), node, is_top_level),
{
    let mut node = node;
    if !is_top_level && node.direct.is_some() {
        node.direct = None;
    }
    proof {
        lemma_entries_map(graph.ev());
    }
    let key = (name, version);
    match graph.find(&key) {
        None => {
            graph.insert(key, node);
        },
        Some(i) => {
            let ghost before = graph.map();
            let (k, mut current) = graph.remove_at(i);
            proof {
                lemma_entries_map(old(graph).ev());
            }
            if current.direct.is_none() && node.direct.is_some() {
                current.direct = node.direct;
                graph.insert_new_at(i, k, current);
                assert(graph.map() =~= spec_insert_node(before, (name@, version@), node, is_top_level));
            } else {
                graph.insert_new_at(i, k, current);
                assert(graph.map() =~= before);
            }
        },
    }
}

/// A node of the downloaded graph: the node and the target read from the package
#[derive(Debug)]
pub struct DownloadedDependencyGraphNode {
    /// The target of the package
    pub target: Target,
    /// The node
    pub node: DependencyGraphNode,
}

/// The downloaded dependency graph
pub type DownloadedGraph = Graph<DownloadedDependencyGraphNode>;

/// The lockfile of a project
#[derive(Debug)]
pub struct Lockfile {
    /// The name of the project
    pub name: crate::names::PackageName,
    /// The version of the project
    pub version: Version,
    /// The target of the project
    pub target: TargetKind,
    /// The overrides the graph was resolved with, in key order
    pub overrides: Vec<(crate::manifest::overrides::OverrideKey, DependencySpecifier)>,
    /// The downloaded dependency graph
    pub graph: DownloadedGraph,
}

} // verus!
