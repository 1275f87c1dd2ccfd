//! Linking packages: which linking modules a downloaded graph needs, and where
use vstd::prelude::*;

use crate::lockfile::{spec_base_folder, DownloadedDependencyGraphNode, DownloadedGraph, GraphKey};
use crate::manifest::target::{spec_bin_path, spec_lib_path, spec_target_kind, TargetKind};
use crate::names::PackageNames;
use crate::lockfile::VersionId;

pub mod generator;

verus! {

/// What a linking module re-exports
#[derive(Debug, Clone, Copy, PartialEq, Eq, Structural)]
pub enum LinkKind {
    /// The library of a package, with its exported types
    Library,
    /// The binary of a package
    Binary,
}

/// The folder a linking module is written to
#[derive(Debug)]
pub enum LinkFolder {
    /// A folder of the project (relative to its root)
    Project(String),
    /// A folder relative to the container of the package at this position of the graph
    Container(usize, String),
}

/// A linking module to write
#[derive(Debug)]
pub struct LinkFile {
    /// The folder it goes in
    pub folder: LinkFolder,
    /// Its file name
    pub file_name: String,
    /// What it re-exports
    pub kind: LinkKind,
    /// The position in the graph of the package it requires
    pub package: usize,
    /// The target kind its require path is written for
    pub target: TargetKind,
    /// Whether its require path goes on to the exported file (the new structure,
    /// and always for a binary)
    pub through_file: bool,
}

/// The folder of a linking module, as a value
pub enum LinkFolderSpec {
    Project(Seq<char>),
    Container(GraphKey, Seq<char>),
}

/// A linking module, as a value: the packages are named by their keys
pub struct LinkSpec {
    pub folder: LinkFolderSpec,
    pub file_name: Seq<char>,
    pub kind: LinkKind,
    pub package: GraphKey,
    pub target: TargetKind,
    pub through_file: bool,
}

/// An error that occurred while planning the links
#[derive(Debug)]
pub enum LinkingError {
    /// A package depends on a name and version that the graph does not hold
    DependencyNotFound(PackageNames, VersionId),
}

/// The modules linking a direct dependency into the project: its library under
/// its alias, and, when it has a library, its binary too
pub open spec fn top_links(key: GraphKey, node: DownloadedDependencyGraphNode, project_target: TargetKind) -> Seq<LinkSpec> {
    match node.node.direct {
        Some((alias, _)) => if spec_lib_path(node.target) is Some {
            let folder = LinkFolderSpec::Project(spec_base_folder(node.node, project_target, true));
            let lib = LinkSpec {
                folder,
                file_name: alias@ + ".luau"@,
                kind: LinkKind::Library,
                package: key,
                target: spec_target_kind(node.target),
                through_file: node.node.pkg_ref.new_structure,
            };
            if spec_bin_path(node.target) is Some {
                seq![
                    lib,
                    LinkSpec {
                        folder: LinkFolderSpec::Project(spec_base_folder(node.node, project_target, true)),
                        file_name: alias@ + ".bin.luau"@,
                        kind: LinkKind::Binary,
                        package: key,
                        target: spec_target_kind(node.target),
                        through_file: true,
                    },
                ]
            } else {
                seq![lib]
            }
        } else {
            Seq::empty()
        },
        None => Seq::empty(),
    }
}

/// The modules linking the dependencies `deps` of the package at `key` into its
/// container: one for each dependency with a library, under the alias the
/// package gives it; the first dependency missing from the graph is the error,
/// which comes with the modules before it
pub open spec fn dependency_links(
    graph: Map<GraphKey, DownloadedDependencyGraphNode>,
    key: GraphKey,
    node: DownloadedDependencyGraphNode,
    deps: Seq<(PackageNames, (VersionId, String))>,
) -> Result<Seq<LinkSpec>, (Seq<LinkSpec>, GraphKey)>
    decreases deps.len(),
{
    if deps.len() == 0 {
        Ok(Seq::empty())
    } else {
        match dependency_links(graph, key, node, deps.drop_last()) {
            Err(e) => Err(e),
            Ok(links) => {
                let d = deps.last();
                let dkey: GraphKey = (d.0@, d.1.0@);
                if !graph.dom().contains(dkey) {
                    Err((links, dkey))
                } else if spec_lib_path(graph[dkey].target) is Some {
                    Ok(links.push(LinkSpec {
                        folder: LinkFolderSpec::Container(
                            key,
                            spec_base_folder(graph[dkey].node, spec_target_kind(node.target), false),
                        ),
                        file_name: d.1.1@ + ".luau"@,
                        kind: LinkKind::Library,
                        package: dkey,
                        target: spec_target_kind(graph[dkey].target),
                        through_file: node.node.pkg_ref.new_structure,
                    }))
                } else {
                    Ok(links)
                }
            },
        }
    }
}

/// The modules for the package at `key`: those into the project, then those into its container
pub open spec fn node_links(
    graph: Map<GraphKey, DownloadedDependencyGraphNode>,
    key: GraphKey,
    node: DownloadedDependencyGraphNode,
    project_target: TargetKind,
) -> Result<Seq<LinkSpec>, (Seq<LinkSpec>, GraphKey)> {
    match dependency_links(graph, key, node, node.node.dependencies@) {
        Err((deps, e)) => Err((top_links(key, node, project_target) + deps, e)),
        Ok(deps) => Ok(top_links(key, node, project_target) + deps),
    }
}

/// The modules for the first `n` entries of the graph, in order (with the first
/// missing dependency, the modules before it)
pub open spec fn plan_prefix(
    entries: Seq<(GraphKey, DownloadedDependencyGraphNode)>,
    graph: Map<GraphKey, DownloadedDependencyGraphNode>,
    project_target: TargetKind,
    n: int,
) -> Result<Seq<LinkSpec>, (Seq<LinkSpec>, GraphKey)>
    decreases n,
{
    if n <= 0 {
        Ok(Seq::empty())
    } else {
        match plan_prefix(entries, graph, project_target, n - 1) {
            Err(e) => Err(e),
            Ok(links) => match node_links(graph, entries[n - 1].0, entries[n - 1].1, project_target) {
                Err((more, e)) => Err((links + more, e)),
                Ok(more) => Ok(links + more),
            },
        }
    }
}

/// The linking modules a downloaded graph needs, for a project of the given target
pub open spec fn spec_link_plan(graph: DownloadedGraph, project_target: TargetKind) -> Result<Seq<LinkSpec>, (Seq<LinkSpec>, GraphKey)> {
    plan_prefix(graph.ev(), graph.map(), project_target, graph.ev().len() as int)
}

/// A planned module stands for its value, its packages given by their positions in `entries`
pub open spec fn link_matches(l: LinkFile, s: LinkSpec, entries: Seq<(GraphKey, DownloadedDependencyGraphNode)>) -> bool {
    &&& l.package < entries.len()
    &&& entries[l.package as int].0 == s.package
    &&& l.file_name@ == s.file_name
    &&& l.kind == s.kind
    &&& l.target == s.target
    &&& l.through_file == s.through_file
    &&& match (l.folder, s.folder) {
        (LinkFolder::Project(f), LinkFolderSpec::Project(g)) => f@ == g,
        (LinkFolder::Container(i, f), LinkFolderSpec::Container(k, g)) => i < entries.len() && entries[i as int].0 == k && f@ == g,
        _ => false,
    }
}

/// A list of planned modules stands for a list of values
pub open spec fn links_match(ls: Seq<LinkFile>, ss: Seq<LinkSpec>, entries: Seq<(GraphKey, DownloadedDependencyGraphNode)>) -> bool {
    ls.len() == ss.len() && forall|k: int| 0 <= k < ls.len() ==> link_matches(#[trigger] ls[k], ss[k], entries)
}

proof fn lemma_dependency_links_err(
    graph: Map<GraphKey, DownloadedDependencyGraphNode>,
    key: GraphKey,
    node: DownloadedDependencyGraphNode,
    deps: Seq<(PackageNames, (VersionId, String))>,
    j: int,
    e: (Seq<LinkSpec>, GraphKey),
)
    requires
        0 <= j <= deps.len(),
        dependency_links(graph, key, node, deps.take(j)) == Err::<Seq<LinkSpec>, (Seq<LinkSpec>, GraphKey)>(e),
    ensures
        dependency_links(graph, key, node, deps) == Err::<Seq<LinkSpec>, (Seq<LinkSpec>, GraphKey)>(e),
    decreases deps.len() - j,
{
    if j < deps.len() {
        assert(deps.take(j + 1).drop_last() =~= deps.take(j));
        lemma_dependency_links_err(graph, key, node, deps, j + 1, e);
    } else {
        assert(deps.take(j) =~= deps);
    }
}

proof fn lemma_plan_err(
    entries: Seq<(GraphKey, DownloadedDependencyGraphNode)>,
    graph: Map<GraphKey, DownloadedDependencyGraphNode>,
    project_target: TargetKind,
    i: int,
    n: int,
    e: (Seq<LinkSpec>, GraphKey),
)
    requires
        0 <= i <= n,
        plan_prefix(entries, graph, project_target, i) == Err::<Seq<LinkSpec>, (Seq<LinkSpec>, GraphKey)>(e),
    ensures
        plan_prefix(entries, graph, project_target, n) == Err::<Seq<LinkSpec>, (Seq<LinkSpec>, GraphKey)>(e),
    decreases n - i,
{
    if i < n {
        lemma_plan_err(entries, graph, project_target, i + 1, n, e);
    }
}

/// The linking modules to write for the downloaded graph of a project of
/// target `project_target`: for each package in graph order, its modules in
/// the project when it is a direct dependency, then those of its dependencies
/// in its container; at the first dependency missing from the graph the plan
/// stops, with the modules before it and the error
pub fn link_plan(graph: &DownloadedGraph, project_target: TargetKind) -> (r: (Vec<LinkFile>, Option<LinkingError>))
    requires
        graph.wf(),
    ensures
        match (r.1, spec_link_plan(*graph, project_target)) {
            (None, Ok(ss)) => links_match(r.0@, ss, graph.ev()),
            (Some(LinkingError::DependencyNotFound(n, v)), Err((ss, key))) => (n@, v@) == key && links_match(r.0@, ss, graph.ev()),
            _ => false,
        },
{
    let ghost entries = graph.ev();
    let ghost m = graph.map();
    let mut links: Vec<LinkFile> = Vec::new();
    let ghost mut acc: Seq<LinkSpec> = Seq::empty();
    let mut i: usize = 0;
    while i < graph.len()
        invariant
            graph.wf(),
            entries == graph.ev(),
            m == graph.map(),
            i <= entries.len(),
            plan_prefix(entries, m, project_target, i as int) == Ok::<Seq<LinkSpec>, (Seq<LinkSpec>, GraphKey)>(acc),
            links_match(links@, acc, entries),
        decreases entries.len() - i,
    {
        let (key, node) = graph.entry_at(i);
        let ghost kv = entries[i as int].0;
        let ghost before = acc;
        if let Some((alias, _)) = &node.node.direct {
            if node.target.lib_path().is_some() {
                let mut name = alias.clone();
                name.append(".luau");
                let lib = LinkFile {
                    folder: LinkFolder::Project(node.node.base_folder(project_target, true)),
                    file_name: name,
                    kind: LinkKind::Library,
                    package: i,
                    target: node.target.kind(),
                    through_file: node.node.pkg_ref.use_new_structure(),
                };
                links.push(lib);
                if node.target.bin_path().is_some() {
                    let mut bname = alias.clone();
                    bname.append(".bin.luau");
                    let bin = LinkFile {
                        folder: LinkFolder::Project(node.node.base_folder(project_target, true)),
                        file_name: bname,
                        kind: LinkKind::Binary,
                        package: i,
                        target: node.target.kind(),
                        through_file: true,
                    };
                    links.push(bin);
                }
            }
        }
        proof {
            acc = acc + top_links(kv, *node, project_target);
            assert(links_match(links@, acc, entries));
        }
        let ghost tops = acc;
        let deps = &node.node.dependencies;
        let mut j: usize = 0;
        let ghost mut dacc: Seq<LinkSpec> = Seq::empty();
        while j < deps.len()
            invariant
                graph.wf(),
                entries == graph.ev(),
                m == graph.map(),
                i < entries.len(),
                kv == entries[i as int].0,
                *node == entries[i as int].1,
                *deps == node.node.dependencies,
                j <= deps@.len(),
                plan_prefix(entries, m, project_target, i as int) == Ok::<Seq<LinkSpec>, (Seq<LinkSpec>, GraphKey)>(before),
                tops == before + top_links(kv, *node, project_target),
                dependency_links(m, kv, *node, deps@.take(j as int)) == Ok::<Seq<LinkSpec>, (Seq<LinkSpec>, GraphKey)>(dacc),
                acc == tops + dacc,
                links_match(links@, acc, entries),
            decreases deps@.len() - j,
        {
            let (dn, (dv, dalias)) = &deps[j];
            let dkey = (dn.clone(), dv.clone());
            proof {
                assert(deps@.take(j + 1).drop_last() =~= deps@.take(j as int));
                assert(deps@.take(j + 1).last() == deps@[j as int]);
            }
            match graph.find(&dkey) {
                None => {
                    proof {
                        lemma_dependency_links_err(m, kv, *node, deps@, j + 1, (dacc, dkey@));
                        assert(before + (top_links(kv, *node, project_target) + dacc) =~= acc);
                        assert(plan_prefix(entries, m, project_target, i + 1) == Err::<Seq<LinkSpec>, (Seq<LinkSpec>, GraphKey)>((acc, dkey@)));
                        lemma_plan_err(entries, m, project_target, i + 1, entries.len() as int, (acc, dkey@));
                    }
                    return (links, Some(LinkingError::DependencyNotFound(dkey.0, dkey.1)));
                },
                Some(k) => {
                    let (_, dnode) = graph.entry_at(k);
                    proof {
                        crate::keyed::lemma_entries_map(entries);
                    }
                    if dnode.target.lib_path().is_some() {
                        let mut name = dalias.clone();
                        name.append(".luau");
                        let link = LinkFile {
                            folder: LinkFolder::Container(i, dnode.node.base_folder(node.target.kind(), false)),
                            file_name: name,
                            kind: LinkKind::Library,
                            package: k,
                            target: dnode.target.kind(),
                            through_file: node.node.pkg_ref.use_new_structure(),
                        };
                        links.push(link);
                        proof {
                            dacc = dacc.push(dependency_links(m, kv, *node, deps@.take(j + 1))->Ok_0.last());
                            acc = tops + dacc;
                            assert(links_match(links@, acc, entries));
                        }
                    }
                },
            }
            j = j + 1;
        }
        proof {
            assert(deps@.take(deps@.len() as int) =~= deps@);
            assert(dependency_links(m, kv, *node, node.node.dependencies@) == Ok::<Seq<LinkSpec>, (Seq<LinkSpec>, GraphKey)>(dacc));
            assert(node_links(m, kv, *node, project_target) == Ok::<Seq<LinkSpec>, (Seq<LinkSpec>, GraphKey)>(top_links(kv, *node, project_target) + dacc));
            assert(before + (top_links(kv, *node, project_target) + dacc) =~= acc);
            assert(plan_prefix(entries, m, project_target, i + 1) == Ok::<Seq<LinkSpec>, (Seq<LinkSpec>, GraphKey)>(acc));
        }
        i = i + 1;
    }
    (links, None)
}

/// Whether a planned module in a package's container is placed as the linked
/// package's structure asks: next to it (`..`) for a package without the new
/// structure, in a packages folder (never `..`) for one with it
pub open spec fn container_link_placed(s: LinkSpec, graph: Map<GraphKey, DownloadedDependencyGraphNode>) -> bool {
    s.folder matches LinkFolderSpec::Container(_, f) ==> {
        &&& graph.dom().contains(s.package)
        &&& (f == ".."@ <==> !graph[s.package].node.pkg_ref.new_structure)
    }
}

proof fn lemma_packages_folder_not_parent(a: TargetKind, b: TargetKind)
    ensures
        crate::manifest::target::spec_packages_folder(a, b) != ".."@,
{
    reveal_strlit("..");
    assert(crate::manifest::target::spec_packages_folder(a, b).len() >= 8);
}

proof fn lemma_dependency_links_placed(
    graph: Map<GraphKey, DownloadedDependencyGraphNode>,
    key: GraphKey,
    node: DownloadedDependencyGraphNode,
    deps: Seq<(PackageNames, (VersionId, String))>,
)
    ensures
        dependency_links(graph, key, node, deps) matches Ok(ls) ==> forall|i: int| 0 <= i < ls.len() ==> #[trigger] container_link_placed(ls[i], graph),
    decreases deps.len(),
{
    if deps.len() > 0 {
        lemma_dependency_links_placed(graph, key, node, deps.drop_last());
        let d = deps.last();
        let dkey: GraphKey = (d.0@, d.1.0@);
        if graph.dom().contains(dkey) {
            reveal_strlit("..");
            assert(crate::lockfile::parent_dir_text() =~= ".."@);
            lemma_packages_folder_not_parent(spec_target_kind(node.target), graph[dkey].node.pkg_ref.target);
        }
    }
}

proof fn lemma_plan_prefix_placed(
    entries: Seq<(GraphKey, DownloadedDependencyGraphNode)>,
    graph: Map<GraphKey, DownloadedDependencyGraphNode>,
    project_target: TargetKind,
    n: int,
)
    ensures
        plan_prefix(entries, graph, project_target, n) matches Ok(ls) ==> forall|i: int| 0 <= i < ls.len() ==> #[trigger] container_link_placed(ls[i], graph),
    decreases n,
{
    if n > 0 {
        lemma_plan_prefix_placed(entries, graph, project_target, n - 1);
        let key = entries[n - 1].0;
        let node = entries[n - 1].1;
        lemma_dependency_links_placed(graph, key, node, node.node.dependencies@);
        if let Ok(links) = plan_prefix(entries, graph, project_target, n - 1) {
            if let Ok(deps) = dependency_links(graph, key, node, node.node.dependencies@) {
                let tops = top_links(key, node, project_target);
                assert forall|i: int| 0 <= i < tops.len() implies #[trigger] container_link_placed(tops[i], graph) by {
                    assert(tops[i].folder is Project);
                }
                let all = links + (tops + deps);
                assert forall|i: int| 0 <= i < all.len() implies #[trigger] container_link_placed(all[i], graph) by {
                    if i < links.len() {
                        assert(all[i] == links[i]);
                    } else if i < links.len() + tops.len() {
                        assert(all[i] == tops[i - links.len()]);
                    } else {
                        assert(all[i] == deps[i - links.len() - tops.len()]);
                    }
                }
            }
        }
    }
}

/// Law: in the plan for a downloaded graph, every module written into a
/// package's container links a package of the graph, and lies next to it
/// (`..`) exactly when that package has the old structure; a package with the
/// new structure is linked from a packages folder.
pub proof fn law_container_links_placed(graph: DownloadedGraph, project_target: TargetKind)
    ensures
        spec_link_plan(graph, project_target) matches Ok(ss) ==> forall|i: int| 0 <= i < ss.len()
            ==> #[trigger] container_link_placed(ss[i], graph.map()),
{
    lemma_plan_prefix_placed(graph.ev(), graph.map(), project_target, graph.ev().len() as int);
}

} // verus!
