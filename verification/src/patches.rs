//! Patches: which patch file goes to which package of a downloaded graph, and
//! in which folder it is applied
use vstd::prelude::*;

use crate::lockfile::{name_last_part, spec_base_folder, DownloadedDependencyGraphNode, DownloadedGraph, GraphKey, VersionId};
use crate::manifest::target::TargetKind;
use crate::names::{package_names_escaped, PackageNames, PackageNamesView};
use crate::PACKAGES_CONTAINER_NAME;

verus! {

/// An error that occurred while matching patches to packages
#[derive(Debug)]
pub enum ApplyPatchesError {
    /// A patch names a package that the graph does not hold
    PackageNotFound(PackageNames, VersionId),
}

/// A patch to apply
#[derive(Debug)]
pub struct PatchJob {
    /// The position in the graph of the patched package
    pub package: usize,
    /// The folder the patch is applied in, as path components relative to the project
    pub container_folder: Vec<String>,
    /// The path of the patch file, relative to the project
    pub patch_path: String,
}

/// The graph key a patch names
pub open spec fn patch_key(p: (PackageNames, VersionId, String)) -> GraphKey {
    (p.0@, p.1@)
}

/// The folder a patch of the package `name` at `version` is applied in: the
/// package's container under the top level packages folder
pub open spec fn patch_folder(
    node: DownloadedDependencyGraphNode,
    project_target: TargetKind,
    name: PackageNamesView,
    version: Seq<char>,
) -> Seq<Seq<char>> {
    seq![
        spec_base_folder(node.node, project_target, true),
        PACKAGES_CONTAINER_NAME@,
        package_names_escaped(name),
        version,
        name_last_part(name),
    ]
}

/// Whether a job applies the patch `p` to its package in `graph`
pub open spec fn job_matches(job: PatchJob, p: (PackageNames, VersionId, String), graph: DownloadedGraph, project_target: TargetKind) -> bool {
    &&& job.package < graph.ev().len()
    &&& graph.ev()[job.package as int].0 == patch_key(p)
    &&& job.patch_path@ == p.2@
    &&& job.container_folder@.map_values(|c: String| c@)
        == patch_folder(graph.ev()[job.package as int].1, project_target, p.0@, p.1.version@)
}

/// The jobs for the patches of a project of target `project_target`, each
/// patch naming a package by name and version: in order, one job for each patch
/// up to the first that names a package the graph does not hold, which is the
/// error that comes with them
pub fn patch_plan(
    graph: &DownloadedGraph,
    patches: &Vec<(PackageNames, VersionId, String)>,
    project_target: TargetKind,
) -> (r: (Vec<PatchJob>, Option<ApplyPatchesError>))
    requires
        graph.wf(),
    ensures
        r.0@.len() <= patches@.len(),
        forall|i: int| 0 <= i < r.0@.len() ==> job_matches(#[trigger] r.0@[i], patches@[i], *graph, project_target),
        match r.1 {
            None => r.0@.len() == patches@.len(),
            Some(ApplyPatchesError::PackageNotFound(n, v)) => {
                &&& r.0@.len() < patches@.len()
                &&& (n@, v@) == patch_key(patches@[r.0@.len() as int])
                &&& !graph.map().dom().contains(patch_key(patches@[r.0@.len() as int]))
            },
        },
{
    let mut jobs: Vec<PatchJob> = Vec::new();
    let mut i: usize = 0;
    while i < patches.len()
        invariant
            graph.wf(),
            i <= patches@.len(),
            jobs@.len() == i,
            forall|j: int| 0 <= j < i ==> job_matches(#[trigger] jobs@[j], patches@[j], *graph, project_target),
        decreases patches@.len() - i,
    {
        let (name, version_id, path) = &patches[i];
        let key = (name.clone(), version_id.clone());
        match graph.find(&key) {
            None => {
                return (jobs, Some(ApplyPatchesError::PackageNotFound(key.0, key.1)));
            },
            Some(k) => {
                let (_, node) = graph.entry_at(k);
                let base = node.node.base_folder(project_target, true);
                let container = crate::text::str_to_string(PACKAGES_CONTAINER_NAME);
                let mut rest = node.node.container_folder(name, version_id.version());
                let ghost rest_view = rest@;
                let mut folder: Vec<String> = Vec::new();
                folder.push(base);
                folder.push(container);
                folder.append(&mut rest);
                proof {
                    assert(folder@ =~= seq![base, container] + rest_view);
                    assert(rest_view.map_values(|c: String| c@).len() == 3);
                    assert(rest_view.len() == 3);
                    assert(rest_view.map_values(|c: String| c@)[0] == rest_view[0]@);
                    assert(rest_view.map_values(|c: String| c@)[1] == rest_view[1]@);
                    assert(rest_view.map_values(|c: String| c@)[2] == rest_view[2]@);
                    assert(folder@.map_values(|c: String| c@)
                        =~= patch_folder(graph.ev()[k as int].1, project_target, name@, version_id.version@));
                }
                let job = PatchJob { package: k, container_folder: folder, patch_path: path.clone() };
                jobs.push(job);
            },
        }
        i = i + 1;
    }
    (jobs, None)
}

} // verus!
