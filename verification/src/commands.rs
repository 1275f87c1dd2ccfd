//! What the commands decide: the specifier and key a new dependency gets,
//! which dependencies a removal drops, which package a run starts, and when
//! a package is reported as outdated
use vstd::prelude::*;

use crate::dependencies::registry::{default_index_name, default_index_text, RegistryDependencySpecifier};
use crate::dependencies::resolution::{package_key, RootLockfileNode};
use crate::dependencies::wally::WallyDependencySpecifier;
use crate::dependencies::DependencySpecifier;
use crate::keyed::KeyEq;
use crate::manifest::Realm;
use crate::package_name::{name_parts, name_text, PackageName, PackageNameView};
use crate::strmap::{entries_insert, lex_lt, KeyOrder, StrMap};
use crate::lockfile::{DownloadedGraph, VersionId};
use crate::manifest::target::TargetKind;
use crate::names::{PackageNames, PackageNamesView};
use crate::text::{chars_of, index_of, split_once, str_to_string, string_from_chars, string_from_range, string_push};
use crate::version::{semver_order, Version, VersionReq};

verus! {

/// Whether `s` is the specifier the add command writes for a package: a
/// registry dependency on the default index for a standard name, a dependency
/// on the given Wally index for a Wally name
pub open spec fn is_added_specifier(name: PackageName, version: VersionReq, realm: Option<Realm>, wally_index_url: String, s: DependencySpecifier) -> bool {
    match (name, s) {
        (PackageName::Standard(n), DependencySpecifier::Registry(r)) =>
            r.name == n && r.version == version && r.realm == realm && r.index@ == default_index_text(),
        (PackageName::Wally(n), DependencySpecifier::Wally(w)) =>
            w.name == n && w.version == version && w.realm == realm && w.index_url == wally_index_url,
        _ => false,
    }
}

/// The specifier the add command writes for a package: a registry dependency
/// on the default index for a standard name, a dependency on the given Wally
/// index for a Wally name
pub fn add_specifier(name: PackageName, version: VersionReq, realm: Option<Realm>, wally_index_url: String) -> (r: DependencySpecifier)
    ensures
        is_added_specifier(name, version, realm, wally_index_url, r),
{
    match name {
        PackageName::Standard(n) => DependencySpecifier::Registry(RegistryDependencySpecifier {
            name: n,
            version,
            index: default_index_name(),
            realm,
        }),
        PackageName::Wally(n) => DependencySpecifier::Wally(WallyDependencySpecifier {
            name: n,
            version,
            index_url: wally_index_url,
            realm,
        }),
    }
}

/// The keys a new dependency is tried under, in order: its name, its scope and
/// name, its full printed name
pub open spec fn key_candidates(n: PackageNameView) -> Seq<Seq<char>> {
    seq![name_parts(n).1, name_parts(n).0 + seq!['/'] + name_parts(n).1, name_text(n)]
}

/// The first of the keys a new dependency is tried under that the table does not hold
pub open spec fn free_key(deps: StrMap<DependencySpecifier>, n: PackageNameView) -> Option<Seq<char>> {
    let c = key_candidates(n);
    if !deps.contains_key(c[0]) {
        Some(c[0])
    } else if !deps.contains_key(c[1]) {
        Some(c[1])
    } else if !deps.contains_key(c[2]) {
        Some(c[2])
    } else {
        None
    }
}

/// The key a new dependency on `name` gets in `deps`: the first free one of
/// its name, its scope and name, and its full printed name
pub fn dependency_key(deps: &StrMap<DependencySpecifier>, name: &PackageName) -> (r: Option<String>)
    requires
        deps.wf(),
    ensures
        match r {
            Some(k) => free_key(*deps, name@) == Some(k@),
            None => free_key(*deps, name@) is None,
        },
{
    let short = str_to_string(name.name());
    if deps.find(short.as_str()).is_none() {
        return Some(short);
    }
    let mut scoped = str_to_string(name.scope());
    string_push(&mut scoped, '/');
    scoped.append(name.name());
    assert(scoped@ =~= key_candidates(name@)[1]);
    if deps.find(scoped.as_str()).is_none() {
        return Some(scoped);
    }
    let full = name.to_string();
    if deps.find(full.as_str()).is_none() {
        return Some(full);
    }
    None
}

/// Adds a dependency on `name` to `deps` under the first free key of its
/// name, its scope and name, and its full printed name
pub fn insert_into(deps: &mut StrMap<DependencySpecifier>, specifier: DependencySpecifier, name: &PackageName)
    requires
        old(deps).wf(),
        free_key(*old(deps), name@) is Some,
    ensures
        final(deps).wf(),
        final(deps).ev() == entries_insert(old(deps).ev(), free_key(*old(deps), name@)->Some_0, specifier),
{
    match dependency_key(deps, name) {
        Some(key) => {
            deps.insert(key, specifier);
        },
        None => {},
    }
}

/// Whether a specifier asks for the package `p`
pub open spec fn names_package(s: DependencySpecifier, p: PackageNameView) -> bool {
    match s {
        DependencySpecifier::Registry(r) => p == PackageNameView::Standard(r.name@),
        DependencySpecifier::Wally(w) => p == PackageNameView::Wally(w.name@),
        DependencySpecifier::Git(_) => false,
    }
}

/// The entries left after dropping those that ask for `p`, in order
pub open spec fn kept_dependencies(ev: Seq<(Seq<char>, DependencySpecifier)>, p: PackageNameView) -> Seq<(Seq<char>, DependencySpecifier)>
    decreases ev.len(),
{
    if ev.len() == 0 {
        Seq::empty()
    } else {
        let rest = kept_dependencies(ev.drop_last(), p);
        if names_package(ev.last().1, p) {
            rest
        } else {
            rest.push(ev.last())
        }
    }
}

/// Whether the specifier asks for the package
fn asks_for(s: &DependencySpecifier, package: &PackageName) -> (r: bool)
    ensures
        r == names_package(*s, package@),
{
    match s {
        DependencySpecifier::Registry(r) => PackageName::Standard(r.name.clone()).key_eq(package),
        DependencySpecifier::Wally(w) => PackageName::Wally(w.name.clone()).key_eq(package),
        DependencySpecifier::Git(_) => false,
    }
}

/// Drops from `deps` the dependencies that ask for `package` (registry and
/// Wally dependencies naming it); git dependencies stay
pub fn remove_dependency(deps: &mut StrMap<DependencySpecifier>, package: &PackageName)
    requires
        old(deps).wf(),
    ensures
        final(deps).wf(),
        final(deps).ev() == kept_dependencies(old(deps).ev(), package@),
{
    let ghost orig = old(deps).ev();
    let ghost okeys = old(deps).keys();
    let total = deps.len();
    let mut kept: StrMap<DependencySpecifier> = StrMap::new();
    let mut i: usize = 0;
    while !deps.is_empty()
        invariant
            deps.wf(),
            kept.wf(),
            orig == old(deps).ev(),
            okeys == old(deps).keys(),
            crate::strmap::keys_sorted(okeys),
            orig.len() == total,
            i <= orig.len(),
            deps.ev() == orig.skip(i as int),
            kept.ev() == kept_dependencies(orig.take(i as int), package@),
            forall|j: int, t: int| 0 <= j < kept.ev().len() && i <= t < orig.len() ==> lex_lt(#[trigger] kept.keys()[j], #[trigger] okeys[t]),
        decreases deps.ev().len(),
    {
        assert(i < orig.len());
        let (k, v) = deps.pop_first();
        proof {
            assert(orig.take(i + 1).drop_last() =~= orig.take(i as int));
            assert(orig.take(i + 1).last() == orig[i as int]);
            assert(orig.skip(i + 1) =~= orig.skip(i as int).drop_first());
            assert(okeys[i as int] == orig[i as int].0);
        }
        if !asks_for(&v, package) {
            let ghost before = kept.keys();
            proof {
                assert forall|j: int| 0 <= j < kept.ev().len() implies lex_lt(#[trigger] kept.keys()[j], k@) by {
                    assert(lex_lt(kept.keys()[j], okeys[i as int]));
                }
            }
            kept.push_last(k, v);
            proof {
                assert forall|j: int, t: int| 0 <= j < kept.ev().len() && i + 1 <= t < orig.len() implies lex_lt(
                    #[trigger] kept.keys()[j],
                    #[trigger] okeys[t],
                ) by {
                    if j < before.len() {
                        assert(kept.keys()[j] == before[j]);
                    } else {
                        assert(kept.keys()[j] == okeys[i as int]);
                    }
                }
            }
        }
        i = i + 1;
    }
    proof {
        assert(orig.take(i as int) =~= orig);
    }
    *deps = kept;
}

/// Dropping an entry that asks for `p`, inserted anywhere, leaves what
/// dropping the others leaves.
proof fn lemma_kept_insert(ev: Seq<(Seq<char>, DependencySpecifier)>, j: int, e: (Seq<char>, DependencySpecifier), p: PackageNameView)
    requires
        0 <= j <= ev.len(),
        names_package(e.1, p),
    ensures
        kept_dependencies(ev.insert(j, e), p) == kept_dependencies(ev, p),
    decreases ev.len(),
{
    if j == ev.len() {
        assert(ev.insert(j, e) =~= ev.push(e));
        assert(ev.push(e).drop_last() =~= ev);
    } else {
        lemma_kept_insert(ev.drop_last(), j, e, p);
        assert(ev.insert(j, e).drop_last() =~= ev.drop_last().insert(j, e));
        assert(ev.insert(j, e).last() == ev.last());
    }
}

/// Law: removing a package right after adding it under a free key gives the
/// table that removing it from the table before would give: the removal
/// undoes the addition.
pub proof fn law_add_then_remove(ev: Seq<(Seq<char>, DependencySpecifier)>, k: Seq<char>, s: DependencySpecifier, p: PackageNameView)
    requires
        crate::strmap::keys_sorted(ev.map_values(|e: (Seq<char>, DependencySpecifier)| e.0)),
        crate::strmap::key_index(ev.map_values(|e: (Seq<char>, DependencySpecifier)| e.0), k) is None,
        names_package(s, p),
    ensures
        kept_dependencies(entries_insert(ev, k, s), p) == kept_dependencies(ev, p),
{
    let keys = ev.map_values(|e: (Seq<char>, DependencySpecifier)| e.0);
    crate::strmap::lemma_count_below_bounds(keys, k);
    lemma_kept_insert(ev, crate::strmap::count_below(keys, k), (k, s), p);
}

/// Law: the specifier the add command writes for a package asks for that package.
pub proof fn law_added_specifier_names_package(name: PackageName, version: VersionReq, realm: Option<Realm>, wally_index_url: String, s: DependencySpecifier)
    requires
        is_added_specifier(name, version, realm, wally_index_url, s),
    ensures
        names_package(s, name@),
{
}

/// Law: removing a package a second time changes nothing.
pub proof fn law_remove_twice(ev: Seq<(Seq<char>, DependencySpecifier)>, p: PackageNameView)
    ensures
        kept_dependencies(kept_dependencies(ev, p), p) == kept_dependencies(ev, p),
    decreases ev.len(),
{
    if ev.len() > 0 {
        law_remove_twice(ev.drop_last(), p);
        let rest = kept_dependencies(ev.drop_last(), p);
        if !names_package(ev.last().1, p) {
            assert(rest.push(ev.last()).drop_last() =~= rest);
        }
    }
}

/// Whether the `i`-th package of the lockfile is a package the project
/// depends on directly, stored under the name `name`
pub open spec fn is_root_package(lock: RootLockfileNode, i: int, name: PackageNameView) -> bool {
    &&& lock.children.ev()[i].0.0 == name
    &&& lock.specifiers.map().dom().contains(package_key(lock.children.ev()[i].1))
}

/// The package the run command starts for `name`: the first package of the
/// lockfile stored under that name that the project depends on directly
pub fn root_package(lock: &RootLockfileNode, name: &PackageName) -> (r: Option<usize>)
    requires
        lock.wf(),
    ensures
        match r {
            Some(i) => i < lock.children.ev().len() && is_root_package(*lock, i as int, name@)
                && forall|j: int| 0 <= j < i ==> !is_root_package(*lock, j, name@),
            None => forall|j: int| 0 <= j < lock.children.ev().len() ==> !is_root_package(*lock, j, name@),
        },
{
    let mut i: usize = 0;
    while i < lock.children.len()
        invariant
            lock.wf(),
            i <= lock.children.ev().len(),
            forall|j: int| 0 <= j < i ==> !is_root_package(*lock, j, name@),
        decreases lock.children.ev().len() - i,
    {
        let (key, pkg) = lock.children.entry_at(i);
        if key.0.key_eq(name) && lock.root_specifier(pkg).is_some() {
            return Some(i);
        }
        i = i + 1;
    }
    None
}

/// The text the outdated command prints for a package with a later version
pub open spec fn outdated_text(name: PackageNameView, version: Seq<char>, latest: Seq<char>) -> Seq<char> {
    name_text(name) + seq!['@'] + version + " is outdated. latest version: "@ + latest
}

/// What the outdated command prints for `name` at `version` when the index's
/// latest version is `latest`: a line when `latest` is the greater version
pub fn outdated_message(name: &PackageName, version: &Version, latest: &Version) -> (r: Option<String>)
    ensures
        (r is Some) == (semver_order(latest@, version@) == KeyOrder::Greater),
        r matches Some(s) ==> s@ == outdated_text(name@, version@, latest@),
{
    match latest.compare(version) {
        KeyOrder::Greater => {
            let mut s = name.to_string();
            string_push(&mut s, '@');
            s.append(version.as_str());
            s.append(" is outdated. latest version: ");
            s.append(latest.as_str());
            proof {
                reveal_strlit(" is outdated. latest version: ");
            }
            Some(s)
        },
        _ => None,
    }
}

/// A package argument, `name` or `name@version`: split at its first `@`
pub fn split_versioned(s: &str) -> (r: (String, Option<String>))
    ensures
        match split_once(s@, '@') {
            Some((a, b)) => r.0@ == a && (r.1 matches Some(v) && v@ == b),
            None => r.0@ == s@ && r.1 is None,
        },
{
    let cs = chars_of(s);
    match index_of(cs.as_slice(), '@') {
        Some(i) => {
            let n = cs.len();
            assert(i < n);
            let name = string_from_range(cs.as_slice(), 0, i);
            let version = string_from_range(cs.as_slice(), i + 1, n);
            proof {
                assert(cs@.subrange(0, i as int) =~= cs@.take(i as int));
                assert(cs@.subrange(i + 1, cs@.len() as int) =~= cs@.skip(i + 1));
            }
            (name, Some(version))
        },
        None => (string_from_chars(cs.as_slice()), None),
    }
}

/// Why no version of a package could be picked
#[derive(Debug)]
pub enum SelectVersionError {
    /// The graph holds no version of the package
    NotFound,
    /// The graph holds several versions of the package: one has to be named
    Multiple(Vec<VersionId>),
}

/// The versions the graph holds of a package, in graph order
pub open spec fn graph_versions<N>(entries: Seq<((PackageNamesView, (Seq<char>, TargetKind)), N)>, name: PackageNamesView) -> Seq<(Seq<char>, TargetKind)>
    decreases entries.len(),
{
    if entries.len() == 0 {
        Seq::empty()
    } else {
        let rest = graph_versions(entries.drop_last(), name);
        if entries.last().0.0 == name {
            rest.push(entries.last().0.1)
        } else {
            rest
        }
    }
}

/// The version of a package a command works on: the one named, or else the
/// only one the graph holds
pub fn select_version(graph: &DownloadedGraph, name: &PackageNames, version: Option<VersionId>) -> (r: Result<VersionId, SelectVersionError>)
    ensures
        match version {
            Some(v) => (r matches Ok(x) && x == v),
            None => {
                let vs = graph_versions(graph.ev(), name@);
                match r {
                    Ok(x) => vs.len() == 1 && x@ == vs[0],
                    Err(SelectVersionError::NotFound) => vs.len() == 0,
                    Err(SelectVersionError::Multiple(all)) => vs.len() > 1 && all@.map_values(|v: VersionId| v@) == vs,
                }
            },
        },
{
    match version {
        Some(v) => Ok(v),
        None => {
            let ghost entries = graph.ev();
            let mut found: Vec<VersionId> = Vec::new();
            let mut i: usize = 0;
            while i < graph.len()
                invariant
                    entries == graph.ev(),
                    i <= entries.len(),
                    found@.map_values(|v: VersionId| v@) == graph_versions(entries.take(i as int), name@),
                decreases entries.len() - i,
            {
                let (key, _) = graph.entry_at(i);
                proof {
                    assert(entries.take(i + 1).drop_last() =~= entries.take(i as int));
                }
                if key.0.key_eq(name) {
                    found.push(key.1.clone());
                    assert(found@.map_values(|v: VersionId| v@) =~= graph_versions(entries.take(i + 1), name@));
                }
                i = i + 1;
            }
            assert(entries.take(entries.len() as int) =~= entries);
            if found.len() == 0 {
                Err(SelectVersionError::NotFound)
            } else if found.len() == 1 {
                let v = found.pop().unwrap();
                Ok(v)
            } else {
                Err(SelectVersionError::Multiple(found))
            }
        },
    }
}

/// The line the search command prints for a package: `name@version`, then
/// the description between line breaks when there is a non-empty one
pub open spec fn search_line_text(name: Seq<char>, version: Seq<char>, description: Option<Seq<char>>) -> Seq<char> {
    name + seq!['@'] + version + match description {
        Some(d) => if d.len() == 0 { d } else { seq!['\n'] + d + seq!['\n'] },
        None => Seq::empty(),
    }
}

/// The line the search command prints for a package
pub fn search_line(name: &str, version: &str, description: Option<&str>) -> (r: String)
    ensures
        r@ == search_line_text(name@, version@, match description { Some(d) => Some(d@), None => None }),
{
    let mut s = str_to_string(name);
    string_push(&mut s, '@');
    s.append(version);
    match description {
        Some(d) => {
            if crate::text::chars_of(d).len() > 0 {
                string_push(&mut s, '\n');
                s.append(d);
                string_push(&mut s, '\n');
            }
        },
        None => {},
    }
    s
}

/// The dependency table of a manifest that an added dependency goes in
#[derive(Debug, Clone, Copy, PartialEq, Eq, Structural)]
pub enum DependencyTable {
    /// `dependencies`
    Dependencies,
    /// `peer_dependencies`
    PeerDependencies,
    /// `dev_dependencies`
    DevDependencies,
}

/// The table for a dependency added as a peer one, as a dev one, or neither
pub open spec fn spec_added_table(peer: bool, dev: bool) -> DependencyTable {
    if peer {
        DependencyTable::PeerDependencies
    } else if dev {
        DependencyTable::DevDependencies
    } else {
        DependencyTable::Dependencies
    }
}

/// The key of a dependency table in the manifest
pub open spec fn table_key_text(t: DependencyTable) -> Seq<char> {
    match t {
        DependencyTable::Dependencies => "dependencies"@,
        DependencyTable::PeerDependencies => "peer_dependencies"@,
        DependencyTable::DevDependencies => "dev_dependencies"@,
    }
}

impl DependencyTable {
    /// The key of the table in the manifest
    pub fn key(&self) -> (r: &'static str)
        ensures
            r@ == table_key_text(*self),
    {
        proof {
            reveal_strlit("dependencies");
            reveal_strlit("peer_dependencies");
            reveal_strlit("dev_dependencies");
        }
        match self {
            DependencyTable::Dependencies => "dependencies",
            DependencyTable::PeerDependencies => "peer_dependencies",
            DependencyTable::DevDependencies => "dev_dependencies",
        }
    }
}

/// A package being added, as the source resolved it
#[derive(Debug)]
pub enum AddedPackage {
    /// A pesde package at a version built for a target; the index named, if any
    Pesde { name: crate::names::PackageName, version: Version, target: TargetKind, index: Option<String> },
    /// A Wally package at a version; the index named, if any
    Wally { name: crate::names::wally::WallyPackageName, version: Version, index: Option<String> },
    /// A git repository (its URL and the path of that URL) at a revision
    Git { repo: String, path: String, rev: String },
}

/// What is written for an added dependency
#[derive(Debug)]
pub enum AddedSpecifier {
    /// `name`, `version`, and `target` and `index` where they are kept
    Pesde { name: String, version: String, target: Option<TargetKind>, index: Option<String> },
    /// `wally`, `version`, and `index` where it is kept
    Wally { wally: String, version: String, index: Option<String> },
    /// `repo` and `rev`
    Git { repo: String, rev: String },
}

/// A dependency entry to add to the manifest
#[derive(Debug)]
pub struct AddedEntry {
    /// The table it goes in
    pub table: DependencyTable,
    /// Its key in that table
    pub alias: String,
    /// What it holds
    pub specifier: AddedSpecifier,
}

/// What follows the last `/` of a path (all of it where it has none)
pub open spec fn after_last_slash(s: Seq<char>) -> Seq<char>
    decreases s.len(),
{
    if s.len() == 0 {
        s
    } else if s.last() == '/' {
        Seq::empty()
    } else {
        after_last_slash(s.drop_last()).push(s.last())
    }
}

/// The alias an added package gets when none is given: the name part of a
/// pesde or Wally name, the last part of a git repository's path
pub open spec fn default_added_alias(p: AddedPackage) -> Seq<char> {
    match p {
        AddedPackage::Pesde { name, .. } => name@.1,
        AddedPackage::Wally { name, .. } => name@.1,
        AddedPackage::Git { path, .. } => after_last_slash(path@),
    }
}

/// An index kept in the entry: one that is named and is not `default`
pub open spec fn kept_index(index: Option<String>) -> Option<Seq<char>> {
    match index {
        Some(i) => if i@ == default_index_text() { None } else { Some(i@) },
        None => None,
    }
}

/// Whether an entry's kept index is the one the spec keeps
pub open spec fn index_matches(r: Option<String>, index: Option<String>) -> bool {
    match r {
        Some(i) => kept_index(index) == Some(i@),
        None => kept_index(index) is None,
    }
}

fn after_last_slash_of(s: &str) -> (r: String)
    ensures
        r@ == after_last_slash(s@),
{
    let cs = chars_of(s);
    let mut cur: Vec<char> = Vec::new();
    let mut i: usize = 0;
    while i < cs.len()
        invariant
            cs@ == s@,
            i <= cs@.len(),
            cur@ == after_last_slash(cs@.take(i as int)),
        decreases cs@.len() - i,
    {
        proof {
            assert(cs@.take(i + 1).drop_last() =~= cs@.take(i as int));
            assert(cs@.take(i + 1).last() == cs@[i as int]);
        }
        if cs[i] == '/' {
            cur = Vec::new();
        } else {
            cur.push(cs[i]);
        }
        i = i + 1;
    }
    proof {
        assert(cs@.take(cs@.len() as int) =~= cs@);
    }
    string_from_chars(cur.as_slice())
}

fn keep_index(index: &Option<String>) -> (r: Option<String>)
    ensures
        index_matches(r, *index),
{
    match index {
        Some(i) => {
            let d = default_index_name();
            if crate::text::str_eq(i.as_str(), d.as_str()) {
                None
            } else {
                Some(i.clone())
            }
        },
        None => None,
    }
}

/// The entry for a package added to a project of target `project_target`: in
/// the peer table if `peer`, else the dev table if `dev`, else the standard
/// one; under `alias`, or the package's default alias; a pesde or Wally
/// package at `^` and its version, a pesde package's target kept only where it
/// differs from the project's, and the index only where it is not `default`;
/// a git package at its repository and revision
pub fn added_entry(package: &AddedPackage, peer: bool, dev: bool, alias: Option<&str>, project_target: TargetKind) -> (r: AddedEntry)
    ensures
        r.table == spec_added_table(peer, dev),
        r.alias@ == (match alias {
            Some(a) => a@,
            None => default_added_alias(*package),
        }),
        match (*package, r.specifier) {
            (
                AddedPackage::Pesde { name, version, target, index },
                AddedSpecifier::Pesde { name: n, version: v, target: t, index: i },
            ) => {
                &&& n@ == crate::names::pesde_name_text(name@.0, name@.1)
                &&& v@ == "^"@ + version@
                &&& t == (if target == project_target { None } else { Some(target) })
                &&& index_matches(i, index)
            },
            (
                AddedPackage::Wally { name, version, index },
                AddedSpecifier::Wally { wally: n, version: v, index: i },
            ) => {
                &&& n@ == crate::names::wally::wally_name_text(name@.0, name@.1)
                &&& v@ == "^"@ + version@
                &&& index_matches(i, index)
            },
            (AddedPackage::Git { repo, rev, .. }, AddedSpecifier::Git { repo: p, rev: v }) => p@ == repo@ && v@ == rev@,
            _ => false,
        },
{
    let table = if peer {
        DependencyTable::PeerDependencies
    } else if dev {
        DependencyTable::DevDependencies
    } else {
        DependencyTable::Dependencies
    };
    let alias = match alias {
        Some(a) => str_to_string(a),
        None => match package {
            AddedPackage::Pesde { name, .. } => str_to_string(name.as_str().1),
            AddedPackage::Wally { name, .. } => str_to_string(name.as_str().1),
            AddedPackage::Git { path, .. } => after_last_slash_of(path.as_str()),
        },
    };
    proof {
        reveal_strlit("^");
    }
    let specifier = match package {
        AddedPackage::Pesde { name, version, target, index } => {
            let mut v = str_to_string("^");
            v.append(version.as_str());
            AddedSpecifier::Pesde {
                name: name.to_string(),
                version: v,
                target: if *target == project_target { None } else { Some(*target) },
                index: keep_index(index),
            }
        },
        AddedPackage::Wally { name, version, index } => {
            let mut v = str_to_string("^");
            v.append(version.as_str());
            AddedSpecifier::Wally { wally: name.to_string(), version: v, index: keep_index(index) }
        },
        AddedPackage::Git { repo, rev, .. } => AddedSpecifier::Git { repo: repo.clone(), rev: rev.clone() },
    };
    AddedEntry { table, alias, specifier }
}

} // verus!
