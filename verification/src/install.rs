//! What installing decides around the dependency graph: whether a lockfile is
//! reused, which packages get a binary link, and the text of such a link
use vstd::prelude::*;

use crate::dependencies::resolution::{overrides_eq, overrides_view};
use crate::lockfile::{DownloadedDependencyGraphNode, DownloadedGraph, GraphKey, Lockfile};
use crate::manifest::target::{spec_bin_path, spec_packages_folder, spec_target_kind, TargetKind};
use crate::manifest::{DependencyType, Manifest};
use crate::strmap::{keys_sorted, lemma_insert_key_set, StrMap};
use crate::text::{debug_quoted, debug_str, str_eq, str_to_string};
use crate::MANIFEST_FILE_NAME;

verus! {

/// Whether a lockfile read from disk is reused by an install that is not
/// locked: it was made with the manifest's overrides and for its target
pub fn lockfile_matches(manifest: &Manifest, lockfile: &Lockfile) -> (r: bool)
    ensures
        r == (overrides_view(lockfile.overrides@) == overrides_view(manifest.overrides@)
            && lockfile.target == spec_target_kind(manifest.target)),
{
    overrides_eq(&lockfile.overrides, &manifest.overrides) && lockfile.target == manifest.target.kind()
}

/// A binary link an install makes for a package of the graph
#[derive(Debug, Clone, Copy, PartialEq, Eq, Structural)]
pub enum BinLink {
    /// A link under the package's alias for the package at this position
    Write(usize),
    /// The package at this position has the tool's own name: no link is made
    SameNameAsTool(usize),
}

/// The binary link for the `i`-th package of the graph, if it gets one: a
/// package the project depends on directly that has a binary (a dev
/// dependency only when dev dependencies are installed)
pub open spec fn bin_link_of(e: (GraphKey, DownloadedDependencyGraphNode), i: int, tool: Seq<char>, prod: bool) -> Option<BinLink> {
    if prod && e.1.node.ty == DependencyType::Dev {
        None
    } else if spec_bin_path(e.1.target) is None {
        None
    } else {
        match e.1.node.direct {
            None => None,
            Some((alias, _)) => if alias@ == tool {
                Some(BinLink::SameNameAsTool(i as usize))
            } else {
                Some(BinLink::Write(i as usize))
            },
        }
    }
}

/// The binary links for the first `n` packages of the graph, in order
pub open spec fn bin_links_prefix(entries: Seq<(GraphKey, DownloadedDependencyGraphNode)>, tool: Seq<char>, prod: bool, n: int) -> Seq<BinLink>
    decreases n,
{
    if n <= 0 {
        Seq::empty()
    } else {
        let rest = bin_links_prefix(entries, tool, prod, n - 1);
        match bin_link_of(entries[n - 1], n - 1, tool, prod) {
            Some(l) => rest.push(l),
            None => rest,
        }
    }
}

/// The binary links an install makes for the graph, in graph order, for a tool
/// named `tool`; with `prod`, dev dependencies are left out
pub fn bin_links(graph: &DownloadedGraph, tool: &str, prod: bool) -> (r: Vec<BinLink>)
    ensures
        r@ == bin_links_prefix(graph.ev(), tool@, prod, graph.ev().len() as int),
{
    let mut links: Vec<BinLink> = Vec::new();
    let mut i: usize = 0;
    while i < graph.len()
        invariant
            i <= graph.ev().len(),
            links@ == bin_links_prefix(graph.ev(), tool@, prod, i as int),
        decreases graph.ev().len() - i,
    {
        let (_, node) = graph.entry_at(i);
        if !(prod && node.node.ty == DependencyType::Dev) && node.target.bin_path().is_some() {
            if let Some((alias, _)) = &node.node.direct {
                if str_eq(alias.as_str(), tool) {
                    links.push(BinLink::SameNameAsTool(i));
                } else {
                    links.push(BinLink::Write(i));
                }
            }
        }
        i = i + 1;
    }
    links
}

/// Every packages folder a project of any target can have
pub open spec fn all_packages_folders() -> Set<Seq<char>> {
    Set::new(|f: Seq<char>| exists|a: TargetKind, b: TargetKind| f == spec_packages_folder(a, b))
}

/// The folders `parts` joined with `sep` between them
pub open spec fn join_with(parts: Seq<Seq<char>>, sep: Seq<char>) -> Seq<char>
    decreases parts.len(),
{
    if parts.len() == 0 {
        Seq::empty()
    } else if parts.len() == 1 {
        parts[0]
    } else {
        join_with(parts.drop_last(), sep) + sep + parts.last()
    }
}

/// The line a binary link starts with on Unix
pub open spec fn shebang_text(unix: bool) -> Seq<char> {
    if unix {
        "#!/usr/bin/env -S lune run\n"@
    } else {
        Seq::empty()
    }
}

/// The text of a binary link: a Lune script that finds the project root and
/// runs the package's binary linking module from the first packages folder
/// (of `folders`, each quoted) that has it
pub open spec fn bin_link_text(unix: bool, folders: Seq<Seq<char>>, alias: Seq<char>) -> Seq<char> {
    shebang_text(unix)
        + "local process = require(\"@lune/process\")\nlocal fs = require(\"@lune/fs\")\n\nlocal project_root = process.cwd\nlocal path_components = string.split(string.gsub(project_root, \"\\\\\", \"/\"), \"/\")\n\nfor i = #path_components, 1, -1 do\n    local path = table.concat(path_components, \"/\", 1, i)\n    if fs.isFile(path .. \"/"@
        + MANIFEST_FILE_NAME@
        + "\") then\n        project_root = path\n        break\n    end\nend\n\nfor _, packages_folder in { "@
        + join_with(folders.map_values(|f: Seq<char>| debug_quoted(f)), ", "@)
        + " } do\n    local path = `{project_root}/{packages_folder}/"@
        + alias
        + ".bin.luau`\n    \n    if fs.isFile(path) then\n        require(path)\n        break\n    end\nend\n    "@
}

/// Every packages folder, each once, in increasing order
fn packages_folders() -> (r: StrMap<()>)
    ensures
        r.wf(),
        r.keys().to_set() == all_packages_folders(),
{
    let kinds = TargetKind::variants();
    let mut m: StrMap<()> = StrMap::new();
    let mut a: usize = 0;
    assert(m.keys().to_set() =~= Set::<Seq<char>>::empty());
    while a < kinds.len()
        invariant
            kinds@ == seq![TargetKind::Roblox, TargetKind::Lune, TargetKind::Luau],
            a <= 3,
            m.wf(),
            m.keys().to_set() == Set::new(|f: Seq<char>| exists|x: int, y: int| 0 <= x < a && 0 <= y < 3 && f == spec_packages_folder(kinds@[x], kinds@[y])),
        decreases 3 - a,
    {
        let mut b: usize = 0;
        while b < kinds.len()
            invariant
                kinds@ == seq![TargetKind::Roblox, TargetKind::Lune, TargetKind::Luau],
                a < 3,
                b <= 3,
                m.wf(),
                m.keys().to_set() == Set::new(|f: Seq<char>| exists|x: int, y: int|
                    (0 <= x < a && 0 <= y < 3 || x == a && 0 <= y < b) && f == spec_packages_folder(kinds@[x], kinds@[y])),
            decreases 3 - b,
        {
            let f = kinds[a].packages_folder(&kinds[b]);
            let ghost before = m.keys().to_set();
            proof {
                lemma_insert_key_set(m.ev(), f@, ());
            }
            m.insert(f, ());
            proof {
                assert(m.keys().to_set() =~= Set::new(|g: Seq<char>| exists|x: int, y: int|
                    (0 <= x < a && 0 <= y < 3 || x == a && 0 <= y < b + 1) && g == spec_packages_folder(kinds@[x], kinds@[y]))) by {
                    assert forall|g: Seq<char>| m.keys().to_set().contains(g) implies exists|x: int, y: int|
                        (0 <= x < a && 0 <= y < 3 || x == a && 0 <= y < b + 1) && g == spec_packages_folder(kinds@[x], kinds@[y]) by {
                        if g != spec_packages_folder(kinds@[a as int], kinds@[b as int]) {
                            assert(before.contains(g));
                        }
                    }
                }
            }
            b = b + 1;
        }
        proof {
            assert(m.keys().to_set() =~= Set::new(|g: Seq<char>| exists|x: int, y: int|
                0 <= x < a + 1 && 0 <= y < 3 && g == spec_packages_folder(kinds@[x], kinds@[y])));
        }
        a = a + 1;
    }
    proof {
        assert forall|g: Seq<char>| all_packages_folders().contains(g) implies m.keys().to_set().contains(g) by {
            let (p, q) = choose|p: TargetKind, q: TargetKind| g == spec_packages_folder(p, q);
            let x: int = match p {
                TargetKind::Roblox => 0,
                TargetKind::Lune => 1,
                TargetKind::Luau => 2,
            };
            let y: int = match q {
                TargetKind::Roblox => 0,
                TargetKind::Lune => 1,
                TargetKind::Luau => 2,
            };
            assert(kinds@[x] == p && kinds@[y] == q);
        }
        assert(m.keys().to_set() =~= all_packages_folders());
    }
    m
}

/// The folders, quoted, joined with `, `
fn quoted_list(m: &StrMap<()>) -> (r: String)
    ensures
        r@ == join_with(m.keys().map_values(|f: Seq<char>| debug_quoted(f)), ", "@),
{
    let ghost parts = m.keys().map_values(|f: Seq<char>| debug_quoted(f));
    let mut s = String::new();
    let mut i: usize = 0;
    while i < m.len()
        invariant
            parts == m.keys().map_values(|f: Seq<char>| debug_quoted(f)),
            i <= m.ev().len(),
            s@ == join_with(parts.take(i as int), ", "@),
        decreases m.ev().len() - i,
    {
        if i > 0 {
            s.append(", ");
        }
        let q = debug_str(m.key_at(i).as_str());
        s.append(q.as_str());
        proof {
            assert(parts.take(i + 1).drop_last() =~= parts.take(i as int));
            assert(parts[i as int] == q@);
            if i == 0 {
                assert(parts.take(1) =~= seq![q@]);
            }
        }
        i = i + 1;
    }
    proof {
        assert(parts.take(m.ev().len() as int) =~= parts);
    }
    s
}

/// The text of the binary link for a package with alias `alias`; on Unix it
/// starts with a line that runs it with Lune
pub fn bin_link_file(alias: &str, unix: bool) -> (r: String)
    ensures
        exists|folders: Seq<Seq<char>>|
            keys_sorted(folders) && folders.to_set() == all_packages_folders() && r@ == bin_link_text(unix, folders, alias@),
{
    let folders = packages_folders();
    let list = quoted_list(&folders);
    let mut s = if unix { str_to_string("#!/usr/bin/env -S lune run\n") } else { String::new() };
    s.append("local process = require(\"@lune/process\")\nlocal fs = require(\"@lune/fs\")\n\nlocal project_root = process.cwd\nlocal path_components = string.split(string.gsub(project_root, \"\\\\\", \"/\"), \"/\")\n\nfor i = #path_components, 1, -1 do\n    local path = table.concat(path_components, \"/\", 1, i)\n    if fs.isFile(path .. \"/");
    s.append(MANIFEST_FILE_NAME);
    s.append("\") then\n        project_root = path\n        break\n    end\nend\n\nfor _, packages_folder in { ");
    s.append(list.as_str());
    s.append(" } do\n    local path = `{project_root}/{packages_folder}/");
    s.append(alias);
    s.append(".bin.luau`\n    \n    if fs.isFile(path) then\n        require(path)\n        break\n    end\nend\n    ");
    proof {
        assert(s@ =~= bin_link_text(unix, folders.keys(), alias@));
    }
    s
}

} // verus!
