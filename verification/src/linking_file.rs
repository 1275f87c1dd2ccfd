//! Linking files of the Roblox path style: names, instance paths and duplicate checks
use vstd::prelude::*;

use crate::dependencies::resolution::{depends_on, graph_closed, package_key, realm_or_shared, KeyView, ResolvedPackage, RootLockfileNode};
use crate::dependencies::specifier_realm;
use crate::keyed::{lemma_entries_map, KeyEq};
use crate::linking::generator::{components_view, PathComponent, PathComponentView};
use crate::manifest::Realm;
use crate::package_name::{name_parts, PackageName, PackageNameView};
use crate::version::Version;
use crate::text::{concat_seqs, concat_strings, debug_quoted, debug_str, str_eq, str_to_string, string_push};

verus! {

/// The number of items equal to `x`
pub open spec fn count_equal(items: Seq<Seq<char>>, x: Seq<char>) -> nat
    decreases items.len(),
{
    if items.len() == 0 {
        0
    } else {
        count_equal(items.drop_last(), x) + if items.last() == x { 1nat } else { 0nat }
    }
}

/// Whether `item` occurs more than once in `items`
pub fn is_duplicate_in(item: &str, items: &Vec<String>) -> (r: bool)
    ensures
        r == (count_equal(items@.map_values(|s: String| s@), item@) > 1),
{
    let ghost views = items@.map_values(|s: String| s@);
    let mut count: usize = 0;
    let mut i: usize = 0;
    while i < items.len()
        invariant
            views == items@.map_values(|s: String| s@),
            i <= items@.len(),
            count == count_equal(views.take(i as int), item@),
            count <= 1,
        decreases items@.len() - i,
    {
        proof {
            assert(views.take(i + 1).drop_last() =~= views.take(i as int));
        }
        if str_eq(items[i].as_str(), item) {
            count = count + 1;
        }
        i = i + 1;
        if count > 1 {
            proof {
                lemma_count_equal_prefix(views, item@, i as int);
            }
            return true;
        }
    }
    proof {
        assert(views.take(items@.len() as int) =~= views);
    }
    false
}

/// Counting in a prefix never gives more than counting in the whole.
proof fn lemma_count_equal_prefix(items: Seq<Seq<char>>, x: Seq<char>, i: int)
    requires
        0 <= i <= items.len(),
    ensures
        count_equal(items.take(i), x) <= count_equal(items, x),
    decreases items.len() - i,
{
    if i < items.len() {
        lemma_count_equal_prefix(items, x, i + 1);
        assert(items.take(i + 1).drop_last() =~= items.take(i));
    } else {
        assert(items.take(i) =~= items);
    }
}

/// Whether a path holds only `..` and plain names
pub open spec fn only_parent_and_names(cs: Seq<PathComponentView>) -> bool {
    forall|i: int| 0 <= i < cs.len() ==> (#[trigger] cs[i] is ParentDir || cs[i] is Normal)
}

/// The indexing parts of a linking path: `.Parent` for `..`, `["name"]` for a name
pub open spec fn link_parts(cs: Seq<PathComponentView>) -> Seq<Seq<char>>
    decreases cs.len(),
{
    if cs.len() == 0 {
        Seq::empty()
    } else {
        let rest = link_parts(cs.drop_last());
        match cs.last() {
            PathComponentView::Normal(p) => rest.push("["@ + debug_quoted(p) + "]"@),
            _ => rest.push(".Parent"@),
        }
    }
}

/// The instance path of a linked package: the beginning, the parts of the path
/// without its last one, then the package name indexed
pub open spec fn spec_link_path(beginning: Seq<char>, cs: Seq<PathComponentView>, name: Seq<char>) -> Seq<char> {
    let parts = link_parts(cs);
    let kept = if parts.len() > 0 { parts.drop_last() } else { parts };
    beginning + concat_seqs(kept) + "["@ + debug_quoted(name) + "]"@
}

/// The instance path of a linked package
pub fn link_path(beginning: &str, cs: &Vec<PathComponent>, name: &str) -> (s: String)
    requires
        only_parent_and_names(components_view(cs@)),
    ensures
        s@ == spec_link_path(beginning@, components_view(cs@), name@),
{
    let mut parts: Vec<String> = Vec::new();
    let mut i: usize = 0;
    while i < cs.len()
        invariant
            only_parent_and_names(components_view(cs@)),
            i <= cs@.len(),
            parts@.map_values(|p: String| p@) == link_parts(components_view(cs@.take(i as int))),
        decreases cs@.len() - i,
    {
        proof {
            assert(components_view(cs@.take(i + 1)).drop_last() =~= components_view(cs@.take(i as int)));
            assert(components_view(cs@.take(i + 1)).last() == cs@[i as int]@);
            assert(components_view(cs@)[i as int] == cs@[i as int]@);
        }
        match &cs[i] {
            PathComponent::Normal(p) => {
                let mut part = str_to_string("[");
                let q = debug_str(p.as_str());
                part.append(q.as_str());
                part.append("]");
                parts.push(part);
            },
            _ => parts.push(str_to_string(".Parent")),
        }
        proof {
            assert(parts@.map_values(|p: String| p@) =~= link_parts(components_view(cs@.take(i + 1))));
        }
        i = i + 1;
    }
    proof {
        assert(cs@.take(cs@.len() as int) =~= cs@);
    }
    let ghost all = parts@.map_values(|p: String| p@);
    if parts.len() > 0 {
        parts.pop();
        proof {
            assert(parts@.map_values(|p: String| p@) =~= all.drop_last());
        }
    }
    let mut s = str_to_string(beginning);
    let middle = concat_strings(&parts);
    s.append(middle.as_str());
    s.append("[");
    let q = debug_str(name);
    s.append(q.as_str());
    s.append("]");
    s
}

/// Where a linked package's instance path begins: the realm's in-game path when the
/// package lives in another packages folder (none when the realm has no such path),
/// `script` for a package named `init`, `script.Parent` otherwise
pub open spec fn spec_link_beginning(in_different_folders: bool, realm_path: Option<Seq<char>>, name: Seq<char>) -> Option<Seq<char>> {
    if in_different_folders {
        realm_path
    } else if name == "init"@ {
        Some("script"@)
    } else {
        Some("script.Parent"@)
    }
}

/// Where a linked package's instance path begins
pub fn link_beginning(in_different_folders: bool, realm_path: Option<&String>, name: &str) -> (r: Option<String>)
    ensures
        match r {
            Some(s) => spec_link_beginning(in_different_folders, match realm_path { Some(p) => Some(p@), None => None }, name@) == Some(s@),
            None => spec_link_beginning(in_different_folders, match realm_path { Some(p) => Some(p@), None => None }, name@) is None,
        },
{
    if in_different_folders {
        match realm_path {
            Some(p) => Some(p.clone()),
            None => None,
        }
    } else if str_eq(name, "init") {
        Some(str_to_string("script"))
    } else {
        Some(str_to_string("script.Parent"))
    }
}

/// The file name of a linking file: the name, after the name's prefix unless only
/// the name is wanted, then `.lua`
pub fn link_file_name(only_name: bool, prefix: &str, name: &str) -> (s: String)
    ensures
        s@ == (if only_name { Seq::<char>::empty() } else { prefix@ }) + name@ + ".lua"@,
{
    let mut s = if only_name { String::new() } else { str_to_string(prefix) };
    s.append(name);
    s.append(".lua");
    s
}

/// Where a linking file is written
#[derive(Debug)]
pub enum LinkDestination {
    /// The container folder of the package at this position of the lockfile's packages
    Container(usize),
    /// The packages folder of a realm in the project
    Realm(Realm),
}

/// A package to link
#[derive(Debug)]
pub struct LinkJob {
    /// The position in the lockfile's packages of the package linked
    pub package: usize,
    /// Where its linking file goes
    pub destination: LinkDestination,
    /// Whether it lives in another packages folder than the package linking it
    pub in_different_folders: bool,
    /// Whether the linking file is named by the package's name alone (no other
    /// package linked there has that name)
    pub only_name: bool,
}

/// Where a linking file goes, as a value
pub enum LinkDestinationSpec {
    Container(KeyView),
    Realm(Realm),
}

/// A package to link, as a value: the packages are named by their keys
pub struct LinkJobSpec {
    pub package: KeyView,
    pub destination: LinkDestinationSpec,
    pub in_different_folders: bool,
    pub only_name: bool,
}

/// The names among the keys of `es`, each once, in order of first appearance
pub open spec fn distinct_names<N>(es: Seq<(KeyView, N)>) -> Seq<PackageNameView>
    decreases es.len(),
{
    if es.len() == 0 {
        Seq::empty()
    } else {
        let r = distinct_names(es.drop_last());
        if r.contains(es.last().0.0) {
            r
        } else {
            r.push(es.last().0.0)
        }
    }
}

/// The names of the packages the project depends on directly
pub open spec fn root_names(lock: RootLockfileNode) -> Seq<PackageNameView> {
    distinct_names(lock.specifiers.ev())
}

/// The last parts (the names without their scopes) of some names
pub open spec fn last_parts(ns: Seq<PackageNameView>) -> Seq<Seq<char>> {
    ns.map_values(|n: PackageNameView| name_parts(n).1)
}

/// The last parts of the names of a package's dependencies
pub open spec fn dependency_name_parts(p: ResolvedPackage) -> Seq<Seq<char>> {
    p.dependencies.ev().map_values(|e: (PackageNameView, (Version, String))| name_parts(e.0).1)
}

/// The key of the `j`-th dependency of a package
pub open spec fn dependency_key(p: ResolvedPackage, j: int) -> KeyView {
    (p.dependencies.ev()[j].0, p.dependencies.ev()[j].1.0@)
}

/// Every dependency of every package of the lockfile is a package of the lockfile
pub open spec fn dependencies_present(lock: RootLockfileNode) -> bool {
    forall|i: int, j: int|
        0 <= i < lock.children.ev().len() && 0 <= j < lock.children.ev()[i].1.dependencies.ev().len()
            ==> lock.children.map().dom().contains(#[trigger] dependency_key(lock.children.ev()[i].1, j))
}

/// Law: a lockfile whose graph is closed (as every resolution leaves it) has
/// every dependency of its packages among them, so its links can be planned.
pub proof fn law_closed_graph_has_dependencies(lock: RootLockfileNode)
    requires
        lock.wf(),
        graph_closed(lock.children.map()),
    ensures
        dependencies_present(lock),
{
    let es = lock.children.ev();
    lemma_entries_map(es);
    assert forall|i: int, j: int|
        0 <= i < es.len() && 0 <= j < es[i].1.dependencies.ev().len() implies lock.children.map().dom().contains(
            #[trigger] dependency_key(es[i].1, j),
        ) by {
        let k = es[i].0;
        let p = lock.children.map()[k];
        assert(p == es[i].1);
        assert(p.wf());
        lemma_entries_map(p.dependencies.ev());
        assert(depends_on(p, dependency_key(p, j)));
    }
}

/// Every package stored under the name of a direct dependency is itself a direct dependency
pub open spec fn roots_specified(lock: RootLockfileNode) -> bool {
    forall|i: int|
        0 <= i < lock.children.ev().len() && #[trigger] root_names(lock).contains(lock.children.ev()[i].0.0)
            ==> lock.specifiers.map().dom().contains(package_key(lock.children.ev()[i].1))
}

/// The links of the first `n` dependencies of the package `p` at key `key` into its container
pub open spec fn dependency_jobs(lock: RootLockfileNode, key: KeyView, p: ResolvedPackage, n: int) -> Seq<LinkJobSpec>
    decreases n,
{
    if n <= 0 {
        Seq::empty()
    } else {
        let d = dependency_key(p, n - 1);
        dependency_jobs(lock, key, p, n - 1).push(LinkJobSpec {
            package: d,
            destination: LinkDestinationSpec::Container(key),
            in_different_folders: lock.children.map()[d].realm != p.realm,
            only_name: !(count_equal(dependency_name_parts(p), name_parts(d.0).1) > 1),
        })
    }
}

/// The link of the package at key `key` into the project, when the project
/// depends on a package of its name: into the packages folder of the realm
/// its specifier asks for
pub open spec fn root_jobs(lock: RootLockfileNode, key: KeyView, p: ResolvedPackage) -> Seq<LinkJobSpec> {
    if root_names(lock).contains(key.0) {
        seq![LinkJobSpec {
            package: key,
            destination: LinkDestinationSpec::Realm(realm_or_shared(specifier_realm(lock.specifiers.map()[package_key(p)].0))),
            in_different_folders: false,
            only_name: !(count_equal(last_parts(root_names(lock)), name_parts(key.0).1) > 1),
        }]
    } else {
        Seq::empty()
    }
}

/// The links for the first `n` packages of the lockfile, in order: for each,
/// those of its dependencies, then its own into the project
pub open spec fn jobs_prefix(lock: RootLockfileNode, n: int) -> Seq<LinkJobSpec>
    decreases n,
{
    if n <= 0 {
        Seq::empty()
    } else {
        let e = lock.children.ev()[n - 1];
        jobs_prefix(lock, n - 1) + dependency_jobs(lock, e.0, e.1, e.1.dependencies.ev().len() as int) + root_jobs(lock, e.0, e.1)
    }
}

/// The links a lockfile's packages need
pub open spec fn spec_link_jobs(lock: RootLockfileNode) -> Seq<LinkJobSpec> {
    jobs_prefix(lock, lock.children.ev().len() as int)
}

/// A planned link stands for its value, its packages given by their positions in `entries`
pub open spec fn job_matches(l: LinkJob, s: LinkJobSpec, entries: Seq<(KeyView, ResolvedPackage)>) -> bool {
    &&& l.package < entries.len()
    &&& entries[l.package as int].0 == s.package
    &&& l.in_different_folders == s.in_different_folders
    &&& l.only_name == s.only_name
    &&& match (l.destination, s.destination) {
        (LinkDestination::Container(i), LinkDestinationSpec::Container(k)) => i < entries.len() && entries[i as int].0 == k,
        (LinkDestination::Realm(a), LinkDestinationSpec::Realm(b)) => a == b,
        _ => false,
    }
}

/// A list of planned links stands for a list of values
pub open spec fn jobs_match(ls: Seq<LinkJob>, ss: Seq<LinkJobSpec>, entries: Seq<(KeyView, ResolvedPackage)>) -> bool {
    ls.len() == ss.len() && forall|k: int| 0 <= k < ls.len() ==> job_matches(#[trigger] ls[k], ss[k], entries)
}

/// Whether `n` is among `names`
fn contains_name(names: &Vec<PackageName>, n: &PackageName) -> (r: bool)
    ensures
        r == names@.map_values(|x: PackageName| x@).contains(n@),
{
    let ghost views = names@.map_values(|x: PackageName| x@);
    let mut i: usize = 0;
    while i < names.len()
        invariant
            views == names@.map_values(|x: PackageName| x@),
            i <= names@.len(),
            forall|j: int| 0 <= j < i ==> views[j] != n@,
        decreases names@.len() - i,
    {
        if names[i].key_eq(n) {
            assert(views[i as int] == n@);
            return true;
        }
        i = i + 1;
    }
    false
}

/// The names of the packages the project depends on directly, each once
fn direct_names(lock: &RootLockfileNode) -> (r: Vec<PackageName>)
    requires
        lock.wf(),
    ensures
        r@.map_values(|x: PackageName| x@) == root_names(*lock),
{
    let mut names: Vec<PackageName> = Vec::new();
    let mut i: usize = 0;
    while i < lock.specifiers.len()
        invariant
            lock.wf(),
            i <= lock.specifiers.ev().len(),
            names@.map_values(|x: PackageName| x@) == distinct_names(lock.specifiers.ev().take(i as int)),
        decreases lock.specifiers.ev().len() - i,
    {
        let (key, _) = lock.specifiers.entry_at(i);
        proof {
            assert(lock.specifiers.ev().take(i + 1).drop_last() =~= lock.specifiers.ev().take(i as int));
        }
        if !contains_name(&names, &key.0) {
            names.push(key.0.clone());
            assert(names@.map_values(|x: PackageName| x@) =~= distinct_names(lock.specifiers.ev().take(i + 1)));
        }
        i = i + 1;
    }
    assert(lock.specifiers.ev().take(lock.specifiers.ev().len() as int) =~= lock.specifiers.ev());
    names
}

/// The last parts of some names
fn name_last_parts(names: &Vec<PackageName>) -> (r: Vec<String>)
    ensures
        r@.map_values(|s: String| s@) == last_parts(names@.map_values(|x: PackageName| x@)),
{
    let mut parts: Vec<String> = Vec::new();
    let mut i: usize = 0;
    while i < names.len()
        invariant
            i <= names@.len(),
            parts@.len() == i,
            parts@.map_values(|s: String| s@) == last_parts(names@.map_values(|x: PackageName| x@)).take(i as int),
        decreases names@.len() - i,
    {
        let part = str_to_string(names[i].name());
        proof {
            let vs = names@.map_values(|x: PackageName| x@);
            assert(vs[i as int] == names@[i as int]@);
            assert(last_parts(vs)[i as int] == part@);
        }
        let ghost before = parts@;
        parts.push(part);
        proof {
            let target = last_parts(names@.map_values(|x: PackageName| x@)).take(i + 1);
            assert forall|k: int| 0 <= k < i + 1 implies parts@.map_values(|s: String| s@)[k] == target[k] by {
                if k < i {
                    assert(parts@[k] == before[k]);
                    assert(before.map_values(|s: String| s@)[k] == before[k]@);
                }
            }
        }
        i = i + 1;
        assert(parts@.map_values(|s: String| s@) =~= last_parts(names@.map_values(|x: PackageName| x@)).take(i as int));
    }
    assert(last_parts(names@.map_values(|x: PackageName| x@)).take(names@.len() as int) =~= last_parts(names@.map_values(|x: PackageName| x@)));
    parts
}

/// The last parts of the names of a package's dependencies
fn dependency_parts(p: &ResolvedPackage) -> (r: Vec<String>)
    requires
        p.wf(),
    ensures
        r@.map_values(|s: String| s@) == dependency_name_parts(*p),
{
    let mut parts: Vec<String> = Vec::new();
    let mut i: usize = 0;
    while i < p.dependencies.len()
        invariant
            p.wf(),
            i <= p.dependencies.ev().len(),
            parts@.len() == i,
            parts@.map_values(|s: String| s@) == dependency_name_parts(*p).take(i as int),
        decreases p.dependencies.ev().len() - i,
    {
        let (n, _) = p.dependencies.entry_at(i);
        let part = str_to_string(n.name());
        proof {
            assert(dependency_name_parts(*p)[i as int] == part@);
        }
        let ghost before = parts@;
        parts.push(part);
        proof {
            let target = dependency_name_parts(*p).take(i + 1);
            assert forall|k: int| 0 <= k < i + 1 implies parts@.map_values(|s: String| s@)[k] == target[k] by {
                if k < i {
                    assert(parts@[k] == before[k]);
                    assert(before.map_values(|s: String| s@)[k] == before[k]@);
                }
            }
        }
        i = i + 1;
        assert(parts@.map_values(|s: String| s@) =~= dependency_name_parts(*p).take(i as int));
    }
    assert(dependency_name_parts(*p).take(p.dependencies.ev().len() as int) =~= dependency_name_parts(*p));
    parts
}

/// The links to make for the packages of a lockfile, in order: for each
/// package, one for each of its dependencies into its container folder, then,
/// when the project depends on a package of its name, one into the packages
/// folder of the project for the realm its specifier asks for. A linking file
/// is named by the package's name alone unless another package linked to the
/// same place has the same name.
pub fn link_jobs(lock: &RootLockfileNode) -> (r: Vec<LinkJob>)
    requires
        lock.wf(),
        dependencies_present(*lock),
        roots_specified(*lock),
    ensures
        jobs_match(r@, spec_link_jobs(*lock), lock.children.ev()),
{
    let roots = direct_names(lock);
    let root_parts = name_last_parts(&roots);
    let ghost entries = lock.children.ev();
    let mut jobs: Vec<LinkJob> = Vec::new();
    let mut i: usize = 0;
    while i < lock.children.len()
        invariant
            lock.wf(),
            dependencies_present(*lock),
            roots_specified(*lock),
            entries == lock.children.ev(),
            roots@.map_values(|x: PackageName| x@) == root_names(*lock),
            root_parts@.map_values(|s: String| s@) == last_parts(root_names(*lock)),
            i <= entries.len(),
            jobs_match(jobs@, jobs_prefix(*lock, i as int), entries),
        decreases entries.len() - i,
    {
        let (key, pkg) = lock.children.entry_at(i);
        let ghost kv = entries[i as int].0;
        let ghost start = jobs_prefix(*lock, i as int);
        proof {
            lemma_entries_map(entries);
            assert(lock.children.map().dom().contains(kv));
            assert(pkg.wf());
        }
        let parts = dependency_parts(pkg);
        let mut j: usize = 0;
        while j < pkg.dependencies.len()
            invariant
                lock.wf(),
                dependencies_present(*lock),
                entries == lock.children.ev(),
                i < entries.len(),
                kv == entries[i as int].0,
                *pkg == entries[i as int].1,
                pkg.wf(),
                parts@.map_values(|s: String| s@) == dependency_name_parts(*pkg),
                j <= pkg.dependencies.ev().len(),
                jobs_match(jobs@, start + dependency_jobs(*lock, kv, *pkg, j as int), entries),
            decreases pkg.dependencies.ev().len() - j,
        {
            let (dn, dval) = pkg.dependencies.entry_at(j);
            let dkey = (dn.clone(), dval.0.clone());
            proof {
                assert(lock.children.map().dom().contains(dependency_key(entries[i as int].1, j as int)));
                assert(dkey@ == dependency_key(*pkg, j as int));
            }
            match lock.children.find(&dkey) {
                Some(k) => {
                    let (_, dep) = lock.children.entry_at(k);
                    proof {
                        lemma_entries_map(entries);
                    }
                    let job = LinkJob {
                        package: k,
                        destination: LinkDestination::Container(i),
                        in_different_folders: dep.realm != pkg.realm,
                        only_name: !is_duplicate_in(dn.name(), &parts),
                    };
                    jobs.push(job);
                    proof {
                        assert(start + dependency_jobs(*lock, kv, *pkg, j + 1) =~= (start + dependency_jobs(*lock, kv, *pkg, j as int)).push(dependency_jobs(*lock, kv, *pkg, j + 1).last()));
                        assert(jobs_match(jobs@, start + dependency_jobs(*lock, kv, *pkg, j + 1), entries));
                    }
                },
                None => {
                    proof {
                        assert(false);
                    }
                },
            }
            j = j + 1;
        }
        let ghost with_deps = start + dependency_jobs(*lock, kv, *pkg, pkg.dependencies.ev().len() as int);
        if contains_name(&roots, &key.0) {
            proof {
                assert(root_names(*lock).contains(entries[i as int].0.0));
            }
            match lock.root_specifier(pkg) {
                Some(spec) => {
                    let realm = match spec.0.realm() {
                        Some(r) => *r,
                        None => Realm::Shared,
                    };
                    let job = LinkJob {
                        package: i,
                        destination: LinkDestination::Realm(realm),
                        in_different_folders: false,
                        only_name: !is_duplicate_in(key.0.name(), &root_parts),
                    };
                    jobs.push(job);
                    proof {
                        assert(jobs_prefix(*lock, i + 1) =~= with_deps.push(root_jobs(*lock, kv, *pkg)[0]));
                    }
                },
                None => {
                    proof {
                        assert(false);
                    }
                },
            }
        } else {
            proof {
                assert(jobs_prefix(*lock, i + 1) =~= with_deps);
            }
        }
        i = i + 1;
    }
    jobs
}

/// What `pathdiff::diff_paths(path, base)` gives: the relative path from
/// `base` to `path`, as its components (none where there is no such path)
pub uninterp spec fn path_difference(path: Seq<char>, base: Seq<char>) -> Option<Seq<PathComponentView>>;

/// `pathdiff::diff_paths`, its result taken apart by `Path::components`. The
/// contract claims only that the result is pathdiff's, a function of the two
/// path texts alone.
#[verifier::external_body]
fn diff_paths(path: &str, base: &str) -> (r: Option<Vec<PathComponent>>)
    ensures
        match r {
            Some(cs) => path_difference(path@, base@) == Some(components_view(cs@)),
            None => path_difference(path@, base@) is None,
        },
{
    pathdiff::diff_paths(path, base).map(|p| {
        p.components()
            .map(|c| match c {
                std::path::Component::Prefix(_) => PathComponent::Prefix,
                std::path::Component::RootDir => PathComponent::RootDir,
                std::path::Component::CurDir => PathComponent::CurDir,
                std::path::Component::ParentDir => PathComponent::ParentDir,
                std::path::Component::Normal(n) => PathComponent::Normal(n.to_string_lossy().into_owned()),
            })
            .collect()
    })
}

/// Why the instance path between two folders cannot be written
#[derive(Debug, PartialEq, Eq, Structural)]
pub enum LinkPathError {
    /// There is no relative path from the base to the package
    NoRelativePath,
    /// The relative path holds something other than `..` and names
    InvalidComponent,
}

/// Whether `cs` is only `..` and names
fn parent_and_names(cs: &Vec<PathComponent>) -> (r: bool)
    ensures
        r == only_parent_and_names(components_view(cs@)),
{
    let mut i: usize = 0;
    while i < cs.len()
        invariant
            i <= cs@.len(),
            forall|j: int| 0 <= j < i ==> (#[trigger] components_view(cs@)[j] is ParentDir || components_view(cs@)[j] is Normal),
        decreases cs@.len() - i,
    {
        proof {
            assert(components_view(cs@)[i as int] == cs@[i as int]@);
        }
        match &cs[i] {
            PathComponent::ParentDir => {},
            PathComponent::Normal(_) => {},
            _ => {
                return false;
            },
        }
        i = i + 1;
    }
    true
}

/// The instance path of a linked package whose folder is `source_dir`, seen
/// from the folder `base`: `beginning`, then the relative path from `base` to
/// the package, then the package's name
pub fn link_path_between(beginning: &str, source_dir: &str, base: &str, name: &str) -> (r: Result<String, LinkPathError>)
    ensures
        match path_difference(source_dir@, base@) {
            None => r == Err::<String, LinkPathError>(LinkPathError::NoRelativePath),
            Some(cs) => if only_parent_and_names(cs) {
                r matches Ok(s) && s@ == spec_link_path(beginning@, cs, name@)
            } else {
                r == Err::<String, LinkPathError>(LinkPathError::InvalidComponent)
            },
        },
{
    match diff_paths(source_dir, base) {
        None => Err(LinkPathError::NoRelativePath),
        Some(cs) => {
            if parent_and_names(&cs) {
                Ok(link_path(beginning, &cs, name))
            } else {
                Err(LinkPathError::InvalidComponent)
            }
        },
    }
}

} // verus!
