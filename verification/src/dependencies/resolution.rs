//! Resolving the dependency graph of a project
use vstd::prelude::*;

use crate::dependencies::{package_ref_name, package_ref_version, ref_version, specifier_realm, DependencySpecifier, PackageRef, SpecifierView};
use crate::keyed::{lemma_entries_map, KeyEq, KeyedMap};
use crate::manifest::overrides::OverrideKey;
use crate::manifest::{all_dependency_entries, merge_entries, spec_realm_or, AllDependenciesError, DependencyType, Manifest, Realm};
use crate::dependencies::git::GitPackageRef;
use crate::dependencies::registry::RegistryPackageRef;
use crate::package_name::{StandardPackageName, compare_names, name_before, name_escaped, name_text, PackageName, PackageNameView};
use crate::strmap::{lex_lt, KeyOrder, StrMap};
use crate::version::{semver_order, semver_req_matches, Version, VersionReq};

verus! {

/// The name of the folder of shared packages
pub const PACKAGES_FOLDER: &'static str = "packages";

/// The name of the folder of server packages
pub const SERVER_PACKAGES_FOLDER: &'static str = "server_packages";

/// The name of the folder of development packages
pub const DEV_PACKAGES_FOLDER: &'static str = "dev_packages";

/// The name of the folder that holds the packages of the index inside a packages folder
pub const INDEX_FOLDER: &'static str = "pesde";

/// The key of a package in the graph: its name and version
pub type PackageKey = (PackageName, Version);

/// The view of a package key
pub type KeyView = (PackageNameView, Seq<char>);

/// A node in the dependency graph
#[derive(Debug)]
pub struct ResolvedPackage {
    /// The reference to the package
    pub pkg_ref: PackageRef,
    /// The dependencies of the package: name to version and the name the dependant gave it
    pub dependencies: KeyedMap<PackageName, (Version, String)>,
    /// The realm of the package
    pub realm: Realm,
    /// The type of the dependency
    pub dep_type: DependencyType,
}

/// The text of a folder path
pub open spec fn folder_text(realm: Realm) -> Seq<char> {
    match realm {
        Realm::Shared => PACKAGES_FOLDER@,
        Realm::Server => SERVER_PACKAGES_FOLDER@,
        Realm::Development => DEV_PACKAGES_FOLDER@,
    }
}

/// The folder of the packages of a realm
pub fn packages_folder(realm: Realm) -> (r: &'static str)
    ensures
        r@ == folder_text(realm),
{
    match realm {
        Realm::Shared => PACKAGES_FOLDER,
        Realm::Server => SERVER_PACKAGES_FOLDER,
        Realm::Development => DEV_PACKAGES_FOLDER,
    }
}

/// The realm of a package whose own realm is `a` and which uses a package of realm `b`
pub open spec fn spec_find_realm(a: Realm, b: Realm) -> Realm {
    if a == b {
        a
    } else {
        Realm::Shared
    }
}

/// The realm of a package whose own realm is `a` and which uses a package of realm `b`:
/// the same realm when they agree, shared otherwise
pub fn find_realm(a: &Realm, b: &Realm) -> (r: Realm)
    ensures
        r == spec_find_realm(*a, *b),
{
    if *a == *b {
        return *a;
    }
    Realm::Shared
}

impl ResolvedPackage {
    pub open spec fn wf(self) -> bool {
        self.dependencies.wf()
    }

    /// The folder of the packages of the package's realm
    pub fn packages_folder(&self) -> (r: &'static str)
        ensures
            r@ == folder_text(self.realm),
    {
        packages_folder(self.realm)
    }

    /// The folder of the package, relative to the project, as its path
    /// components, and the folder the package's files go in, inside it
    pub fn directory(&self) -> (r: (Vec<String>, Vec<String>))
        ensures
            r.0@.map_values(|c: String| c@) == seq![
                folder_text(self.realm),
                INDEX_FOLDER@,
                name_escaped(package_ref_name(self.pkg_ref)),
                package_ref_version(self.pkg_ref),
            ],
            r.1@.map_values(|c: String| c@) == r.0@.map_values(|c: String| c@).push(
                name_escaped(package_ref_name(self.pkg_ref)),
            ),
    {
        let name = self.pkg_ref.name().escaped();
        let mut container: Vec<String> = Vec::new();
        container.push(crate::text::str_to_string(self.packages_folder()));
        container.push(crate::text::str_to_string(INDEX_FOLDER));
        container.push(name.clone());
        container.push(self.pkg_ref.version().to_string());
        let mut inner = clone_strings(&container);
        inner.push(name);
        assert(container@.map_values(|c: String| c@) =~= seq![
            folder_text(self.realm),
            INDEX_FOLDER@,
            name_escaped(package_ref_name(self.pkg_ref)),
            package_ref_version(self.pkg_ref),
        ]);
        assert(inner@.map_values(|c: String| c@) =~= container@.map_values(|c: String| c@).push(
            name_escaped(package_ref_name(self.pkg_ref)),
        ));
        (container, inner)
    }

    /// A copy of the package
    pub fn copy(&self) -> (r: ResolvedPackage)
        requires
            self.wf(),
        ensures
            r.wf(),
            r.pkg_ref == self.pkg_ref,
            r.dependencies.map() == self.dependencies.map(),
            r.realm == self.realm,
            r.dep_type == self.dep_type,
    {
        let mut deps: KeyedMap<PackageName, (Version, String)> = KeyedMap::new();
        let mut i: usize = 0;
        proof {
            lemma_entries_map(self.dependencies.ev());
        }
        while i < self.dependencies.len()
            invariant
                self.wf(),
                deps.wf(),
                i <= self.dependencies.ev().len(),
                deps.map() == crate::keyed::entries_map(self.dependencies.ev().take(i as int)),
            decreases self.dependencies.ev().len() - i,
        {
            let (k, v) = self.dependencies.entry_at(i);
            deps.insert(k.clone(), (v.0.clone(), v.1.clone()));
            proof {
                let es = self.dependencies.ev();
                assert(es.take(i + 1).drop_last() =~= es.take(i as int));
                assert(es.take(i + 1).last() == es[i as int]);
            }
            i = i + 1;
        }
        proof {
            assert(self.dependencies.ev().take(i as int) =~= self.dependencies.ev());
        }
        ResolvedPackage {
            pkg_ref: self.pkg_ref.clone(),
            dependencies: deps,
            realm: self.realm,
            dep_type: self.dep_type,
        }
    }
}

/// A copy of a list of strings
fn clone_strings(v: &Vec<String>) -> (r: Vec<String>)
    ensures
        r@.map_values(|c: String| c@) == v@.map_values(|c: String| c@),
{
    let mut out: Vec<String> = Vec::new();
    let mut i: usize = 0;
    while i < v.len()
        invariant
            i <= v@.len(),
            out@.map_values(|c: String| c@) == v@.take(i as int).map_values(|c: String| c@),
        decreases v@.len() - i,
    {
        let ghost before = out@;
        out.push(v[i].clone());
        proof {
            assert(v@.take(i + 1) =~= v@.take(i as int).push(v@[i as int]));
            assert(out@.map_values(|c: String| c@) =~= before.map_values(|c: String| c@).push(v@[i as int]@));
            assert(v@.take(i + 1).map_values(|c: String| c@) =~= v@.take(i as int).map_values(|c: String| c@).push(
                v@[i as int]@,
            ));
        }
        i = i + 1;
    }
    assert(v@.take(i as int) =~= v@);
    out
}

/// Whether key `a` comes before key `b`: by name, then by semver precedence
pub open spec fn key_before(a: KeyView, b: KeyView) -> bool {
    name_before(a.0, b.0) || (a.0 == b.0 && semver_order(a.1, b.1) == KeyOrder::Less)
}

/// Whether `p` is where a new key `k` goes among the entries: before the first
/// entry whose key it comes before, or at the end
pub open spec fn is_sorted_position<N>(es: Seq<(KeyView, N)>, k: KeyView, p: int) -> bool {
    &&& 0 <= p <= es.len()
    &&& forall|j: int| 0 <= j < p ==> !key_before(k, (#[trigger] es[j]).0)
    &&& p < es.len() ==> key_before(k, es[p].0)
}

/// Whether key `a` comes before key `b`
fn key_precedes(a: &PackageKey, b: &PackageKey) -> (r: bool)
    ensures
        r == key_before(a@, b@),
{
    match compare_names(&a.0, &b.0) {
        KeyOrder::Less => true,
        KeyOrder::Greater => false,
        KeyOrder::Equal => a.1.compare(&b.1) == KeyOrder::Less,
    }
}

/// Where a new key goes in a map kept in key order
fn sorted_position<N>(m: &KeyedMap<PackageKey, N>, k: &PackageKey) -> (p: usize)
    ensures
        is_sorted_position(m.ev(), k@, p as int),
{
    let mut i: usize = 0;
    while i < m.len()
        invariant
            i <= m.ev().len(),
            forall|j: int| 0 <= j < i ==> !key_before(k@, (#[trigger] m.ev()[j]).0),
        decreases m.ev().len() - i,
    {
        let (key, _) = m.entry_at(i);
        if key_precedes(k, key) {
            return i;
        }
        i = i + 1;
    }
    i
}

/// Puts a new key into a map kept in key order
fn insert_sorted<N>(m: &mut KeyedMap<PackageKey, N>, k: PackageKey, node: N)
    requires
        old(m).wf(),
        !old(m).map().dom().contains(k@),
    ensures
        final(m).wf(),
        final(m).map() == old(m).map().insert(k@, node),
        exists|p: int| is_sorted_position(old(m).ev(), k@, p) && final(m).ev() == old(m).ev().insert(p, (k@, node)),
{
    let p = sorted_position(m, &k);
    m.insert_new_at(p, k, node);
}

/// An entry of an index file
#[derive(Debug)]
pub struct IndexFileEntry {
    /// The version of the package
    pub version: Version,
    /// The realm of the package
    pub realm: Option<Realm>,
    /// The dependencies of the package: the name the package gives each one, to
    /// its specifier and type
    pub dependencies: StrMap<(DependencySpecifier, DependencyType)>,
}

/// The dependencies of an index entry made from a map of specifiers: each a standard one
pub open spec fn standard_entries(ev: Seq<(Seq<char>, DependencySpecifier)>) -> DepEntries {
    ev.map_values(|e: (Seq<char>, DependencySpecifier)| (e.0, (e.1, DependencyType::Standard)))
}

impl IndexFileEntry {
    /// The index entry of a Wally package: its version and realm, and the
    /// dependencies of its manifest, each a standard one
    pub fn from_wally(
        version: Version,
        realm: Option<Realm>,
        manifest: &crate::dependencies::wally::WallyManifest,
    ) -> (r: Result<IndexFileEntry, crate::dependencies::wally::WallyManifestDependencyError>)
        requires
            manifest.dependencies.wf(),
            manifest.server_dependencies.wf(),
            manifest.dev_dependencies.wf(),
        ensures
            match crate::dependencies::wally::wally_fold(
                Seq::empty(),
                crate::dependencies::wally::wally_entries(*manifest),
                manifest.registry@,
            ) {
                Ok(es) => r matches Ok(e) && e.version == version && e.realm == realm && e.dependencies.wf()
                    && crate::dependencies::wally::specifier_entries(e.dependencies.ev().map_values(
                    |x: (Seq<char>, (DependencySpecifier, DependencyType))| (x.0, x.1.0),
                )) == es && forall|j: int| 0 <= j < e.dependencies.ev().len() ==> (#[trigger] e.dependencies.ev()[j]).1.1 == DependencyType::Standard,
                Err(x) => r matches Err(y) && y@ == x,
            },
    {
        let mut specs = crate::dependencies::wally::parse_wally_dependencies(manifest)?;
        let ghost sev = specs.ev();
        let mut deps: StrMap<(DependencySpecifier, DependencyType)> = StrMap::new();
        let n = specs.len();
        let mut i: usize = 0;
        proof {
            assert(specs.ev() =~= sev.skip(0));
        }
        while i < n
            invariant
                n == sev.len(),
                i <= n,
                specs.wf(),
                specs.ev() == sev.skip(i as int),
                deps.wf(),
                deps.ev() == standard_entries(sev.take(i as int)),
                crate::strmap::keys_sorted(sev.map_values(|e: (Seq<char>, DependencySpecifier)| e.0)),
            decreases n - i,
        {
            let (k, v) = specs.pop_first();
            proof {
                assert(sev.skip(i as int)[0] == sev[i as int]);
                assert(sev.skip(i as int).drop_first() =~= sev.skip(i + 1));
                assert forall|j: int| 0 <= j < deps.ev().len() implies lex_lt(#[trigger] deps.keys()[j], k@) by {
                    assert(deps.keys()[j] == sev[j].0);
                    assert(sev.map_values(|e: (Seq<char>, DependencySpecifier)| e.0)[j] == sev[j].0);
                    assert(sev.map_values(|e: (Seq<char>, DependencySpecifier)| e.0)[i as int] == sev[i as int].0);
                }
            }
            deps.push_last(k, (v, DependencyType::Standard));
            proof {
                assert(standard_entries(sev.take(i + 1)) =~= standard_entries(sev.take(i as int)).push((sev[i as int].0, (sev[i as int].1, DependencyType::Standard))));
            }
            i = i + 1;
        }
        proof {
            assert(sev.take(i as int) =~= sev);
            assert(deps.ev().map_values(|x: (Seq<char>, (DependencySpecifier, DependencyType))| (x.0, x.1.0)) =~= sev);
        }
        Ok(IndexFileEntry { version, realm, dependencies: deps })
    }
}

/// The versions of the package `name` among the keys, in order
pub open spec fn versions_of<N>(es: Seq<(KeyView, N)>, name: PackageNameView) -> Seq<Seq<char>>
    decreases es.len(),
{
    if es.len() == 0 {
        Seq::empty()
    } else if es.last().0.0 == name {
        versions_of(es.drop_last(), name).push(es.last().0.1)
    } else {
        versions_of(es.drop_last(), name)
    }
}

/// The greater of a running maximum and a new version, as `Iterator::max_by`
/// with `Ord::cmp` keeps it: the later one unless the earlier one is greater
pub open spec fn max_step(acc: Option<Seq<char>>, v: Seq<char>) -> Option<Seq<char>> {
    match acc {
        None => Some(v),
        Some(m) => if semver_order(m, v) == KeyOrder::Greater {
            Some(m)
        } else {
            Some(v)
        },
    }
}

/// The highest of the versions that meet the requirement
pub open spec fn highest_matching(vs: Seq<Seq<char>>, req: Seq<char>) -> Option<Seq<char>>
    decreases vs.len(),
{
    if vs.len() == 0 {
        None
    } else if semver_req_matches(req, vs.last()) {
        max_step(highest_matching(vs.drop_last(), req), vs.last())
    } else {
        highest_matching(vs.drop_last(), req)
    }
}

/// The versions of index entries
pub open spec fn entry_versions(entries: Seq<IndexFileEntry>) -> Seq<Seq<char>> {
    entries.map_values(|e: IndexFileEntry| e.version@)
}

/// The version to use for a requirement: the highest already resolved version of
/// the package that meets it, else the highest version in the index that does
pub open spec fn chosen_version<N>(children: Seq<(KeyView, N)>, entries: Seq<IndexFileEntry>, name: PackageNameView, req: Seq<char>) -> Option<Seq<char>> {
    match highest_matching(versions_of(children, name), req) {
        Some(v) => Some(v),
        None => highest_matching(entry_versions(entries), req),
    }
}

/// Whether `i` is the first index entry with version `v`
pub open spec fn is_first_entry(entries: Seq<IndexFileEntry>, v: Seq<char>, i: int) -> bool {
    &&& 0 <= i < entries.len()
    &&& entries[i].version@ == v
    &&& forall|j: int| 0 <= j < i ==> (#[trigger] entries[j]).version@ != v
}

/// Whether an index entry has version `v`
pub open spec fn has_entry(entries: Seq<IndexFileEntry>, v: Seq<char>) -> bool {
    exists|j: int| 0 <= j < entries.len() && (#[trigger] entries[j]).version@ == v
}

/// The highest version of `name` among the keys that meets the requirement
fn highest_resolved<N>(children: &KeyedMap<PackageKey, N>, name: &PackageName, req: &VersionReq) -> (r: Option<Version>)
    ensures
        match r {
            Some(v) => highest_matching(versions_of(children.ev(), name@), req@) == Some(v@),
            None => highest_matching(versions_of(children.ev(), name@), req@) is None,
        },
{
    let mut best: Option<Version> = None;
    let mut i: usize = 0;
    while i < children.len()
        invariant
            i <= children.ev().len(),
            match best {
                Some(v) => highest_matching(versions_of(children.ev().take(i as int), name@), req@) == Some(v@),
                None => highest_matching(versions_of(children.ev().take(i as int), name@), req@) is None,
            },
        decreases children.ev().len() - i,
    {
        let (key, _) = children.entry_at(i);
        let ghost es = children.ev();
        proof {
            assert(es.take(i + 1).drop_last() =~= es.take(i as int));
            assert(es.take(i + 1).last() == es[i as int]);
        }
        if key.0.key_eq(name) {
            let ghost before = versions_of(es.take(i as int), name@);
            proof {
                assert(versions_of(es.take(i + 1), name@) == before.push(key.1@));
                assert(before.push(key.1@).drop_last() =~= before);
            }
            if req.matches(&key.1) {
                best = match best {
                    None => Some(key.1.clone()),
                    Some(m) => if m.compare(&key.1) == KeyOrder::Greater {
                        Some(m)
                    } else {
                        Some(key.1.clone())
                    },
                };
            }
        }
        i = i + 1;
    }
    proof {
        assert(children.ev().take(i as int) =~= children.ev());
    }
    best
}

/// The highest version among the index entries that meets the requirement
pub fn highest_in_index(entries: &Vec<IndexFileEntry>, req: &VersionReq) -> (r: Option<Version>)
    ensures
        match r {
            Some(v) => highest_matching(entry_versions(entries@), req@) == Some(v@),
            None => highest_matching(entry_versions(entries@), req@) is None,
        },
{
    let mut best: Option<Version> = None;
    let mut i: usize = 0;
    while i < entries.len()
        invariant
            i <= entries@.len(),
            match best {
                Some(v) => highest_matching(entry_versions(entries@).take(i as int), req@) == Some(v@),
                None => highest_matching(entry_versions(entries@).take(i as int), req@) is None,
            },
        decreases entries@.len() - i,
    {
        let v = &entries[i].version;
        let ghost vs = entry_versions(entries@);
        proof {
            assert(vs.take(i + 1).drop_last() =~= vs.take(i as int));
            assert(vs.take(i + 1).last() == v@);
        }
        if req.matches(v) {
            best = match best {
                None => Some(v.clone()),
                Some(m) => if m.compare(v) == KeyOrder::Greater {
                    Some(m)
                } else {
                    Some(v.clone())
                },
            };
        }
        i = i + 1;
    }
    proof {
        assert(entry_versions(entries@).take(i as int) =~= entry_versions(entries@));
    }
    best
}

/// The position of the first index entry with a version
pub(crate) fn first_entry(entries: &Vec<IndexFileEntry>, v: &Version) -> (r: Option<usize>)
    ensures
        match r {
            Some(i) => is_first_entry(entries@, v@, i as int),
            None => !has_entry(entries@, v@),
        },
{
    let mut i: usize = 0;
    while i < entries.len()
        invariant
            i <= entries@.len(),
            forall|j: int| 0 <= j < i ==> (#[trigger] entries@[j]).version@ != v@,
        decreases entries@.len() - i,
    {
        if entries[i].version.key_eq(v) {
            return Some(i);
        }
        i = i + 1;
    }
    None
}


/// An error that occurred while resolving dependencies
#[derive(Debug)]
pub enum ResolveError {
    /// A registry dependency conflicts with a git dependency of the same name and version
    RegistryConflict(String, Version),
    /// A git dependency conflicts with a registry dependency of the same name and version
    GitConflict(String, Version),
    /// No version of the package meets the requirement
    NoSatisfyingVersion(DependencySpecifier),
    /// The package is not in the index
    PackageNotFound(String),
    /// The lockfile is out of date
    OutOfDateLockfile,
    /// The lockfile stores a package under another name or version than its own
    InconsistentLockfile,
    /// The realm the package asks for does not fit the one the dependant asks for
    /// (package, the package's realm, the dependant's realm)
    IncompatibleRealms(String, Realm, Realm),
    /// A peer dependency is not installed
    PeerNotInstalled(String, Version),
    /// The manifest's dependency tables use one name twice
    AllDependencies(AllDependenciesError),
}

/// The root node of the dependency graph
#[derive(Debug)]
pub struct RootLockfileNode {
    /// Dependency overrides, in key order
    pub overrides: Vec<(OverrideKey, DependencySpecifier)>,
    /// The specifiers of the root packages, with the names the project gives them
    pub specifiers: KeyedMap<PackageKey, (DependencySpecifier, String)>,
    /// All nodes in the dependency graph
    pub children: KeyedMap<PackageKey, ResolvedPackage>,
}

/// The name and version a package is stored under
pub open spec fn package_key(p: ResolvedPackage) -> KeyView {
    (package_ref_name(p.pkg_ref), package_ref_version(p.pkg_ref))
}

/// Whether two packages hold the same
pub open spec fn same_package(a: ResolvedPackage, b: ResolvedPackage) -> bool {
    &&& a.pkg_ref == b.pkg_ref
    &&& a.dependencies.map() == b.dependencies.map()
    &&& a.realm == b.realm
    &&& a.dep_type == b.dep_type
}

/// The overrides as plain values
pub open spec fn overrides_view(o: Seq<(OverrideKey, DependencySpecifier)>) -> Seq<(Seq<Seq<Seq<char>>>, SpecifierView)> {
    o.map_values(|e: (OverrideKey, DependencySpecifier)| (e.0@, e.1@))
}

/// Whether the package depends on the package with key `d`
pub open spec fn depends_on(p: ResolvedPackage, d: KeyView) -> bool {
    p.dependencies.map().dom().contains(d.0) && p.dependencies.map()[d.0].0@ == d.1
}

impl RootLockfileNode {
    pub open spec fn wf(self) -> bool {
        &&& self.specifiers.wf()
        &&& self.children.wf()
        &&& forall|k: KeyView| #[trigger] self.children.map().dom().contains(k) ==> self.children.map()[k].wf()
    }

    /// Whether every package is stored under its own name and version
    pub open spec fn consistent(self) -> bool {
        forall|k: KeyView| #[trigger] self.children.map().dom().contains(k) ==> package_key(self.children.map()[k]) == k
    }

    /// A graph with the overrides and nothing resolved
    pub fn new(overrides: Vec<(OverrideKey, DependencySpecifier)>) -> (r: RootLockfileNode)
        ensures
            r.wf(),
            r.overrides == overrides,
            r.specifiers.map() == Map::<KeyView, (DependencySpecifier, String)>::empty(),
            r.children.map() == Map::<KeyView, ResolvedPackage>::empty(),
            r.children.ev().len() == 0,
    {
        RootLockfileNode { overrides, specifiers: KeyedMap::new(), children: KeyedMap::new() }
    }

    /// Returns the specifier of the root package
    pub fn root_specifier(&self, resolved_package: &ResolvedPackage) -> (r: Option<&(DependencySpecifier, String)>)
        requires
            self.wf(),
        ensures
            match r {
                Some(e) => self.specifiers.map().dom().contains(package_key(*resolved_package))
                    && self.specifiers.map()[package_key(*resolved_package)] == *e,
                None => !self.specifiers.map().dom().contains(package_key(*resolved_package)),
            },
    {
        let key = (resolved_package.pkg_ref.name(), resolved_package.pkg_ref.version().clone());
        self.specifiers.get(&key)
    }

    /// Whether every package is stored under its own name and version
    pub fn is_consistent(&self) -> (r: bool)
        requires
            self.wf(),
        ensures
            r == self.consistent(),
    {
        proof {
            lemma_entries_map(self.children.ev());
        }
        let mut i: usize = 0;
        while i < self.children.len()
            invariant
                self.wf(),
                i <= self.children.ev().len(),
                forall|j: int| 0 <= j < i ==> package_key((#[trigger] self.children.ev()[j]).1) == self.children.ev()[j].0,
            decreases self.children.ev().len() - i,
        {
            let (k, p) = self.children.entry_at(i);
            let pk = (p.pkg_ref.name(), p.pkg_ref.version().clone());
            if !pk.key_eq(k) {
                proof {
                    lemma_entries_map(self.children.ev());
                    let e = self.children.ev()[i as int];
                    assert(self.children.map().dom().contains(e.0));
                    assert(self.children.map()[e.0] == e.1);
                }
                return false;
            }
            i = i + 1;
        }
        proof {
            lemma_entries_map(self.children.ev());
            assert forall|k: KeyView| #[trigger] self.children.map().dom().contains(k) implies package_key(
                self.children.map()[k],
            ) == k by {
                let j = choose|j: int| 0 <= j < self.children.ev().len() && self.children.ev()[j].0 == k;
                assert(self.children.map()[self.children.ev()[j].0] == self.children.ev()[j].1);
            }
        }
        true
    }
}

/// The dependencies of a manifest: name to specifier and type
pub type DepEntries = Seq<(Seq<char>, (DependencySpecifier, DependencyType))>;

/// The last name under which the dependencies use a specifier (the name a map
/// from specifier to name, filled in order, keeps)
pub open spec fn desired_for(cur: DepEntries, s: SpecifierView) -> Option<Seq<char>>
    decreases cur.len(),
{
    if cur.len() == 0 {
        None
    } else if cur.last().1.0@ == s {
        Some(cur.last().0)
    } else {
        desired_for(cur.drop_last(), s)
    }
}

/// The root specifier the lock graph gives a package
pub open spec fn old_root_spec(lock: RootLockfileNode, p: ResolvedPackage) -> Option<(DependencySpecifier, String)> {
    if lock.specifiers.map().dom().contains(package_key(p)) {
        Some(lock.specifiers.map()[package_key(p)])
    } else {
        None
    }
}

/// Whether a package of the lock graph is a root package the manifest still asks for
pub open spec fn kept_root(lock: RootLockfileNode, cur: DepEntries, k: KeyView) -> bool {
    &&& lock.children.map().dom().contains(k)
    &&& old_root_spec(lock, lock.children.map()[k]) matches Some(e)
    &&& desired_for(cur, e.0@) is Some
}

/// Whether the keys form a path through the lock graph from a kept root package
pub open spec fn is_lock_path(lock: RootLockfileNode, cur: DepEntries, path: Seq<KeyView>) -> bool {
    &&& path.len() >= 1
    &&& kept_root(lock, cur, path[0])
    &&& forall|i: int| 0 <= i < path.len() ==> lock.children.map().dom().contains(#[trigger] path[i])
    &&& forall|i: int| 0 <= i < path.len() - 1 ==> depends_on(lock.children.map()[#[trigger] path[i]], path[i + 1])
}

/// Whether the package is reached from a kept root package in the lock graph
pub open spec fn lock_reachable(lock: RootLockfileNode, cur: DepEntries, k: KeyView) -> bool {
    exists|path: Seq<KeyView>| #[trigger] is_lock_path(lock, cur, path) && path.last() == k
}

/// Whether a package of the lock graph depends on a package the graph does not hold
pub open spec fn dangling(lock: RootLockfileNode, k: KeyView) -> bool {
    exists|d: KeyView| depends_on(lock.children.map()[k], d) && !lock.children.map().dom().contains(d)
}

/// Whether a package reached from a kept root package depends on one the lock graph does not hold
pub open spec fn lock_incomplete(lock: RootLockfileNode, cur: DepEntries) -> bool {
    exists|k: KeyView| #[trigger] lock_reachable(lock, cur, k) && dangling(lock, k)
}

/// Whether the lock graph uses a specifier for a root package
pub open spec fn old_has_spec(lock: RootLockfileNode, s: SpecifierView) -> bool {
    exists|k: KeyView| #[trigger] lock.specifiers.map().dom().contains(k) && lock.specifiers.map()[k].0@ == s
}

/// The dependencies whose specifiers the lock graph does not use
pub open spec fn new_entries(lock: RootLockfileNode, cur: DepEntries) -> DepEntries
    decreases cur.len(),
{
    if cur.len() == 0 {
        Seq::empty()
    } else if old_has_spec(lock, cur.last().1.0@) {
        new_entries(lock, cur.drop_last())
    } else {
        new_entries(lock, cur.drop_last()).push(cur.last())
    }
}

/// The packages carried over in `m`: packages of the lock graph, unchanged, reached from kept roots
pub open spec fn carried(lock: RootLockfileNode, cur: DepEntries, m: Map<KeyView, ResolvedPackage>) -> bool {
    forall|k: KeyView| #[trigger] m.dom().contains(k) ==> {
        &&& lock.children.map().dom().contains(k)
        &&& same_package(m[k], lock.children.map()[k])
        &&& m[k].wf()
        &&& lock_reachable(lock, cur, k)
    }
}

/// Whether every dependency of a package in `m` is in `m`
pub open spec fn closed_in(lock: RootLockfileNode, m: Map<KeyView, ResolvedPackage>) -> bool {
    forall|k: KeyView, d: KeyView| #![trigger m.dom().contains(k), depends_on(lock.children.map()[k], d)]
        m.dom().contains(k) && depends_on(lock.children.map()[k], d) ==> m.dom().contains(d)
}

/// The number of entries whose keys are not in `dom`
pub open spec fn count_absent<N>(es: Seq<(KeyView, N)>, dom: Set<KeyView>) -> nat
    decreases es.len(),
{
    if es.len() == 0 {
        0
    } else if dom.contains(es.last().0) {
        count_absent(es.drop_last(), dom)
    } else {
        count_absent(es.drop_last(), dom) + 1
    }
}

/// Adding keys does not raise the count; adding one of the entries' keys lowers it.
pub proof fn lemma_count_absent<N>(es: Seq<(KeyView, N)>, a: Set<KeyView>, b: Set<KeyView>, k: KeyView)
    requires
        a.subset_of(b),
    ensures
        count_absent(es, b) <= count_absent(es, a),
        (exists|j: int| 0 <= j < es.len() && es[j].0 == k) && !a.contains(k) && b.contains(k) ==> count_absent(es, b) < count_absent(es, a),
    decreases es.len(),
{
    if es.len() > 0 {
        lemma_count_absent(es.drop_last(), a, b, k);
        if (exists|j: int| 0 <= j < es.len() && es[j].0 == k) && !a.contains(k) && b.contains(k) {
            let j = choose|j: int| 0 <= j < es.len() && es[j].0 == k;
            if j < es.len() - 1 {
                assert(es.drop_last()[j] == es[j]);
            }
        }
    }
}

/// A path to a package extends to each package it depends on.
pub proof fn lemma_reach_step(lock: RootLockfileNode, cur: DepEntries, k: KeyView, d: KeyView)
    requires
        lock_reachable(lock, cur, k),
        lock.children.map().dom().contains(k),
        depends_on(lock.children.map()[k], d),
        lock.children.map().dom().contains(d),
    ensures
        lock_reachable(lock, cur, d),
{
    let path = choose|path: Seq<KeyView>| #[trigger] is_lock_path(lock, cur, path) && path.last() == k;
    let p2 = path.push(d);
    assert forall|i: int| 0 <= i < p2.len() implies lock.children.map().dom().contains(#[trigger] p2[i]) by {
        if i < path.len() {
            assert(p2[i] == path[i]);
        }
    }
    assert forall|i: int| 0 <= i < p2.len() - 1 implies depends_on(lock.children.map()[#[trigger] p2[i]], p2[i + 1]) by {
        if i < path.len() - 1 {
            assert(p2[i] == path[i] && p2[i + 1] == path[i + 1]);
        } else {
            assert(p2[i] == k);
        }
    }
    assert(p2[0] == path[0]);
    assert(is_lock_path(lock, cur, p2) && p2.last() == d);
}

/// A kept root package is reached by the path of itself.
pub proof fn lemma_reach_root(lock: RootLockfileNode, cur: DepEntries, k: KeyView)
    requires
        kept_root(lock, cur, k),
    ensures
        lock_reachable(lock, cur, k),
{
    let path = seq![k];
    assert(is_lock_path(lock, cur, path) && path.last() == k);
}

/// Every package on a path from a kept root is in a set that holds every kept
/// root package and every dependency of its packages.
pub proof fn lemma_path_in(lock: RootLockfileNode, cur: DepEntries, m: Map<KeyView, ResolvedPackage>, path: Seq<KeyView>, i: int)
    requires
        closed_in(lock, m),
        forall|r: KeyView| #[trigger] kept_root(lock, cur, r) ==> m.dom().contains(r),
        is_lock_path(lock, cur, path),
        0 <= i < path.len(),
    ensures
        m.dom().contains(path[i]),
    decreases i,
{
    if i > 0 {
        lemma_path_in(lock, cur, m, path, i - 1);
        assert(depends_on(lock.children.map()[path[i - 1]], path[i]));
    }
}

/// Every package reached from a kept root is in such a set.
pub proof fn lemma_closed_holds_reachable(lock: RootLockfileNode, cur: DepEntries, m: Map<KeyView, ResolvedPackage>, k: KeyView)
    requires
        closed_in(lock, m),
        forall|r: KeyView| #[trigger] kept_root(lock, cur, r) ==> m.dom().contains(r),
        lock_reachable(lock, cur, k),
    ensures
        m.dom().contains(k),
{
    let path = choose|path: Seq<KeyView>| #[trigger] is_lock_path(lock, cur, path) && path.last() == k;
    lemma_path_in(lock, cur, m, path, path.len() - 1);
}

/// Whether a key waits in the queue at or after `next`
pub open spec fn pending(q: Seq<PackageKey>, next: int, d: KeyView) -> bool {
    exists|j: int| next <= j < q.len() && (#[trigger] q[j])@ == d
}

/// Whether every dependency of a package in `m` is in `m` or waits in the queue
pub open spec fn frontier_ok(lock: RootLockfileNode, m: Map<KeyView, ResolvedPackage>, q: Seq<PackageKey>, next: int) -> bool {
    forall|k: KeyView, d: KeyView| #![trigger m.dom().contains(k), depends_on(lock.children.map()[k], d)]
        m.dom().contains(k) && depends_on(lock.children.map()[k], d) ==> m.dom().contains(d) || pending(q, next, d)
}

/// A copy of a package key
pub fn copy_key(k: &PackageKey) -> (r: PackageKey)
    ensures
        r@ == k@,
{
    (k.0.clone(), k.1.clone())
}

/// Carries over from the lock graph the package `start` and, breadth first,
/// every package it reaches that is not carried over yet
fn carry_over(
    children: &mut KeyedMap<PackageKey, ResolvedPackage>,
    lock: &RootLockfileNode,
    start: PackageKey,
    Ghost(cur): Ghost<DepEntries>,
) -> (r: Result<(), ResolveError>)
    requires
        lock.wf(),
        lock.consistent(),
        old(children).wf(),
        carried(*lock, cur, old(children).map()),
        closed_in(*lock, old(children).map()),
        kept_root(*lock, cur, start@),
    ensures
        match r {
            Ok(()) => {
                &&& final(children).wf()
                &&& carried(*lock, cur, final(children).map())
                &&& closed_in(*lock, final(children).map())
                &&& final(children).map().dom().contains(start@)
                &&& old(children).map().dom().subset_of(final(children).map().dom())
            },
            Err(e) => e is OutOfDateLockfile && lock_incomplete(*lock, cur),
        },
{
    let ghost sv = start@;
    let ghost c0 = children.map().dom();
    let mut queue: Vec<PackageKey> = Vec::new();
    queue.push(start);
    let mut next: usize = 0;
    proof {
        lemma_reach_root(*lock, cur, sv);
        assert(queue@[0]@ == sv);
        lemma_entries_map(lock.children.ev());
    }
    while next < queue.len()
        invariant
            lock.wf(),
            lock.consistent(),
            children.wf(),
            carried(*lock, cur, children.map()),
            next <= queue@.len(),
            forall|j: int| next <= j < queue@.len() ==> lock.children.map().dom().contains(#[trigger] queue@[j]@)
                && lock_reachable(*lock, cur, queue@[j]@),
            frontier_ok(*lock, children.map(), queue@, next as int),
            children.map().dom().contains(sv) || pending(queue@, next as int, sv),
            c0.subset_of(children.map().dom()),
            forall|k: KeyView| #[trigger] lock.children.map().dom().contains(k) ==> exists|j: int| 0 <= j < lock.children.ev().len() && lock.children.ev()[j].0 == k,
        decreases count_absent(lock.children.ev(), children.map().dom()), queue@.len() - next,
    {
        let key = copy_key(&queue[next]);
        let ghost kv = key@;
        let ghost q0 = queue@;
        let ghost m0 = children.map();
        next = next + 1;
        proof {
            assert forall|k: KeyView, d: KeyView| #![trigger m0.dom().contains(k), depends_on(lock.children.map()[k], d)]
                m0.dom().contains(k) && depends_on(lock.children.map()[k], d) && d != kv implies m0.dom().contains(d) || pending(q0, next as int, d) by {
                if !m0.dom().contains(d) {
                    let j = choose|j: int| next - 1 <= j < q0.len() && (#[trigger] q0[j])@ == d;
                    assert(j != next - 1);
                }
            }
            if pending(q0, next - 1, sv) && sv != kv {
                let j = choose|j: int| next - 1 <= j < q0.len() && (#[trigger] q0[j])@ == sv;
                assert(j != next - 1);
            }
        }
        if children.get(&key).is_some() {
            continue;
        }
        let p = lock.children.get(&key).unwrap();
        let copy = p.copy();
        proof {
            lemma_count_absent(lock.children.ev(), m0.dom(), m0.dom().insert(kv), kv);
        }
        insert_sorted(children, key, copy);
        let ghost m1 = children.map();
        let mut i: usize = 0;
        proof {
            lemma_entries_map(p.dependencies.ev());
            assert forall|j: int| 0 <= j < p.dependencies.ev().len() implies depends_on(*p, #[trigger] dep_key_at(p.dependencies.ev(), j)) by {
                assert(p.dependencies.map().dom().contains(p.dependencies.ev()[j].0));
            }
        }
        while i < p.dependencies.len()
            invariant
                lock.wf(),
                lock.consistent(),
                children.wf(),
                children.map() == m1,
                m1 == m0.insert(kv, m1[kv]),
                *p == lock.children.map()[kv],
                lock.children.map().dom().contains(kv),
                lock_reachable(*lock, cur, kv),
                p.wf(),
                q0.len() <= queue@.len(),
                forall|j: int| 0 <= j < q0.len() ==> queue@[j] == #[trigger] q0[j],
                next <= queue@.len(),
                forall|j: int| next <= j < queue@.len() ==> lock.children.map().dom().contains(#[trigger] queue@[j]@)
                    && lock_reachable(*lock, cur, queue@[j]@),
                forall|k: KeyView, d: KeyView| #![trigger m0.dom().contains(k), depends_on(lock.children.map()[k], d)]
                    m0.dom().contains(k) && depends_on(lock.children.map()[k], d) && d != kv ==> m0.dom().contains(d) || pending(q0, next as int, d),
                i <= p.dependencies.ev().len(),
                forall|j: int| 0 <= j < i ==> m1.dom().contains(#[trigger] dep_key_at(p.dependencies.ev(), j)) || pending(queue@, next as int, dep_key_at(p.dependencies.ev(), j)),
                forall|j: int| 0 <= j < p.dependencies.ev().len() ==> depends_on(*p, #[trigger] dep_key_at(p.dependencies.ev(), j)),
            decreases p.dependencies.ev().len() - i,
        {
            let (n, v) = p.dependencies.entry_at(i);
            let d: PackageKey = (n.clone(), v.0.clone());
            let ghost dv = d@;
            proof {
                assert(dv == dep_key_at(p.dependencies.ev(), i as int));
            }
            if children.get(&d).is_some() {
                i = i + 1;
                continue;
            }
            if lock.children.get(&d).is_none() {
                proof {
                    assert(depends_on(lock.children.map()[kv], dv));
                    assert(dangling(*lock, kv));
                }
                return Err(ResolveError::OutOfDateLockfile);
            }
            proof {
                lemma_reach_step(*lock, cur, kv, dv);
            }
            let ghost qb = queue@;
            queue.push(d);
            proof {
                assert(queue@[qb.len() as int]@ == dv);
                assert forall|j: int| 0 <= j < i + 1 implies m1.dom().contains(#[trigger] dep_key_at(p.dependencies.ev(), j))
                    || pending(queue@, next as int, dep_key_at(p.dependencies.ev(), j)) by {
                    if j < i && !m1.dom().contains(dep_key_at(p.dependencies.ev(), j)) {
                        let w = choose|w: int| next <= w < qb.len() && (#[trigger] qb[w])@ == dep_key_at(p.dependencies.ev(), j);
                        assert(queue@[w] == qb[w]);
                    }
                }
            }
            i = i + 1;
        }
        proof {
            assert forall|k: KeyView, d: KeyView| #![trigger m1.dom().contains(k), depends_on(lock.children.map()[k], d)]
                m1.dom().contains(k) && depends_on(lock.children.map()[k], d) implies m1.dom().contains(d) || pending(queue@, next as int, d) by {
                if k == kv {
                    let j = choose|j: int| 0 <= j < p.dependencies.ev().len() && p.dependencies.ev()[j].0 == d.0;
                    assert(p.dependencies.map()[p.dependencies.ev()[j].0] == p.dependencies.ev()[j].1);
                    assert(dep_key_at(p.dependencies.ev(), j) == d);
                } else if d == kv {
                } else {
                    assert(m0.dom().contains(k));
                    if !m0.dom().contains(d) {
                        let w = choose|w: int| next <= w < q0.len() && (#[trigger] q0[w])@ == d;
                        assert(queue@[w] == q0[w]);
                    }
                }
            }
            if !m1.dom().contains(sv) {
                let w = choose|w: int| next - 1 <= w < q0.len() && (#[trigger] q0[w])@ == sv;
                assert(w != next - 1);
                assert(queue@[w] == q0[w]);
            }
            assert forall|k: KeyView| #[trigger] m1.dom().contains(k) implies {
                &&& lock.children.map().dom().contains(k)
                &&& same_package(m1[k], lock.children.map()[k])
                &&& m1[k].wf()
                &&& lock_reachable(*lock, cur, k)
            } by {
                if k != kv {
                    assert(m0.dom().contains(k));
                }
            }
        }
    }
    proof {
        assert forall|k: KeyView, d: KeyView| #![trigger children.map().dom().contains(k), depends_on(lock.children.map()[k], d)]
            children.map().dom().contains(k) && depends_on(lock.children.map()[k], d) implies children.map().dom().contains(d) by {
            if !children.map().dom().contains(d) {
                assert(pending(queue@, next as int, d));
            }
        }
    }
    Ok(())
}

/// The key of the dependency in the `j`-th entry of a package's dependencies
pub open spec fn dep_key_at(es: Seq<(PackageNameView, (Version, String))>, j: int) -> KeyView {
    (es[j].0, es[j].1.0@)
}

/// Whether the specifiers of the new graph are those the old graph gives the
/// kept root packages, each with the name the manifest now gives it
pub open spec fn specifiers_carried(lock: RootLockfileNode, cur: DepEntries, m: Map<KeyView, (DependencySpecifier, String)>) -> bool {
    &&& forall|k: KeyView| #[trigger] m.dom().contains(k) <==> kept_root(lock, cur, k)
    &&& forall|k: KeyView| #[trigger] m.dom().contains(k) ==> {
        &&& old_root_spec(lock, lock.children.map()[k]) matches Some(e)
        &&& m[k].0 == e.0
        &&& desired_for(cur, m[k].0@) == Some(m[k].1@)
    }
}

/// The last name the dependencies give a specifier
fn desired_name_for(cur: &StrMap<(DependencySpecifier, DependencyType)>, s: &DependencySpecifier) -> (r: Option<String>)
    ensures
        match r {
            Some(n) => desired_for(cur.ev(), s@) == Some(n@),
            None => desired_for(cur.ev(), s@) is None,
        },
{
    let mut found: Option<String> = None;
    let mut i: usize = 0;
    while i < cur.len()
        invariant
            i <= cur.ev().len(),
            match found {
                Some(n) => desired_for(cur.ev().take(i as int), s@) == Some(n@),
                None => desired_for(cur.ev().take(i as int), s@) is None,
            },
        decreases cur.ev().len() - i,
    {
        proof {
            assert(cur.ev().take(i + 1).drop_last() =~= cur.ev().take(i as int));
            assert(cur.ev().take(i + 1).last() == cur.ev()[i as int]);
        }
        if crate::dependencies::specifiers_eq(&cur.value_at(i).0, s) {
            found = Some(cur.key_at(i).clone());
        }
        i = i + 1;
    }
    proof {
        assert(cur.ev().take(i as int) =~= cur.ev());
    }
    found
}

/// Whether the old graph uses the specifier for a root package
fn old_spec_used(lock: &RootLockfileNode, s: &DependencySpecifier) -> (r: bool)
    requires
        lock.wf(),
    ensures
        r == old_has_spec(*lock, s@),
{
    proof {
        lemma_entries_map(lock.specifiers.ev());
    }
    let mut i: usize = 0;
    while i < lock.specifiers.len()
        invariant
            lock.wf(),
            i <= lock.specifiers.ev().len(),
            forall|j: int| 0 <= j < i ==> (#[trigger] lock.specifiers.ev()[j]).1.0@ != s@,
        decreases lock.specifiers.ev().len() - i,
    {
        let (_, e) = lock.specifiers.entry_at(i);
        if crate::dependencies::specifiers_eq(&e.0, s) {
            proof {
                lemma_entries_map(lock.specifiers.ev());
                let k = lock.specifiers.ev()[i as int].0;
                assert(lock.specifiers.map().dom().contains(k));
            }
            return true;
        }
        i = i + 1;
    }
    proof {
        lemma_entries_map(lock.specifiers.ev());
        assert forall|k: KeyView| #[trigger] lock.specifiers.map().dom().contains(k) implies lock.specifiers.map()[k].0@ != s@ by {
            let j = choose|j: int| 0 <= j < lock.specifiers.ev().len() && lock.specifiers.ev()[j].0 == k;
            assert(lock.specifiers.map()[lock.specifiers.ev()[j].0] == lock.specifiers.ev()[j].1);
        }
    }
    false
}

/// The new dependencies of a prefix are no more than those of the whole.
pub proof fn lemma_new_entries_prefix(lock: RootLockfileNode, es: DepEntries, n: int)
    requires
        0 <= n <= es.len(),
    ensures
        new_entries(lock, es.take(n)).len() <= new_entries(lock, es).len(),
    decreases es.len(),
{
    if n == es.len() {
        assert(es.take(n) =~= es);
    } else {
        lemma_new_entries_prefix(lock, es.drop_last(), n);
        assert(es.drop_last().take(n) =~= es.take(n));
    }
}

/// What carrying over from the old graph gives: the dependencies the old graph
/// does not hold, and the root specifiers and packages it still serves, or an
/// out-of-date lockfile
pub open spec fn lock_outcome(
    lock: RootLockfileNode,
    cur: DepEntries,
    locked: bool,
    r: Result<StrMap<(DependencySpecifier, DependencyType)>, ResolveError>,
    root: RootLockfileNode,
) -> bool {
    match r {
        Ok(m) => {
            &&& m.wf()
            &&& m.ev() == new_entries(lock, cur)
            &&& !(locked && new_entries(lock, cur).len() > 0)
            &&& !lock_incomplete(lock, cur)
            &&& root.wf()
            &&& specifiers_carried(lock, cur, root.specifiers.map())
            &&& forall|k: KeyView| #[trigger] root.children.map().dom().contains(k) <==> lock_reachable(lock, cur, k)
            &&& forall|k: KeyView| #[trigger] root.children.map().dom().contains(k) ==> same_package(
                root.children.map()[k],
                lock.children.map()[k],
            )
        },
        Err(e) => e is OutOfDateLockfile && (lock_incomplete(lock, cur) || (locked && new_entries(lock, cur).len() > 0)),
    }
}

/// Carries over what the old graph resolved for the root dependencies the
/// manifest still has, and lists the dependencies left to resolve
fn missing_from_lockfile(
    root: &mut RootLockfileNode,
    cur: &StrMap<(DependencySpecifier, DependencyType)>,
    locked: bool,
    lock: &RootLockfileNode,
) -> (r: Result<StrMap<(DependencySpecifier, DependencyType)>, ResolveError>)
    requires
        old(root).wf(),
        old(root).specifiers.map() == Map::<KeyView, (DependencySpecifier, String)>::empty(),
        old(root).children.map() == Map::<KeyView, ResolvedPackage>::empty(),
        cur.wf(),
        lock.wf(),
        lock.consistent(),
    ensures
        final(root).overrides == old(root).overrides,
        lock_outcome(*lock, cur.ev(), locked, r, *final(root)),
{
    let ghost ce = cur.ev();
    let mut i: usize = 0;
    proof {
        lemma_entries_map(lock.children.ev());
    }
    while i < lock.children.len()
        invariant
            lock.wf(),
            lock.consistent(),
            ce == cur.ev(),
            root.wf(),
            root.overrides == old(root).overrides,
            i <= lock.children.ev().len(),
            carried(*lock, ce, root.children.map()),
            closed_in(*lock, root.children.map()),
            forall|j: int| 0 <= j < i && kept_root(*lock, ce, #[trigger] lock.children.ev()[j].0) ==> root.children.map().dom().contains(lock.children.ev()[j].0)
                && root.specifiers.map().dom().contains(lock.children.ev()[j].0),
            forall|k: KeyView| #[trigger] root.specifiers.map().dom().contains(k) ==> kept_root(*lock, ce, k) && {
                &&& old_root_spec(*lock, lock.children.map()[k]) matches Some(e)
                &&& root.specifiers.map()[k].0 == e.0
                &&& desired_for(ce, root.specifiers.map()[k].0@) == Some(root.specifiers.map()[k].1@)
            },
        decreases lock.children.ev().len() - i,
    {
        let (k, p) = lock.children.entry_at(i);
        let ghost kv = k@;
        proof {
            lemma_entries_map(lock.children.ev());
            assert(lock.children.map().dom().contains(kv));
            assert(lock.children.map()[kv] == *p);
        }
        match lock.root_specifier(p) {
            None => {},
            Some(e) => {
                match desired_name_for(cur, &e.0) {
                    None => {},
                    Some(desired) => {
                        proof {
                            assert(kept_root(*lock, ce, kv));
                        }
                        root.specifiers.insert(copy_key(k), (e.0.clone(), desired));
                        let res = carry_over(&mut root.children, lock, copy_key(k), Ghost(ce));
                        if let Err(err) = res {
                            return Err(err);
                        }
                    },
                }
            },
        }
        i = i + 1;
    }
    proof {
        lemma_entries_map(lock.children.ev());
        assert forall|r: KeyView| #[trigger] kept_root(*lock, ce, r) implies root.children.map().dom().contains(r)
            && root.specifiers.map().dom().contains(r) by {
            let j = choose|j: int| 0 <= j < lock.children.ev().len() && lock.children.ev()[j].0 == r;
            assert(kept_root(*lock, ce, lock.children.ev()[j].0));
        }
        assert forall|k: KeyView| #[trigger] root.children.map().dom().contains(k) <==> lock_reachable(*lock, ce, k) by {
            if lock_reachable(*lock, ce, k) {
                lemma_closed_holds_reachable(*lock, ce, root.children.map(), k);
            }
        }
        assert(!lock_incomplete(*lock, ce)) by {
            if lock_incomplete(*lock, ce) {
                let k = choose|k: KeyView| #[trigger] lock_reachable(*lock, ce, k) && dangling(*lock, k);
                lemma_closed_holds_reachable(*lock, ce, root.children.map(), k);
                let d = choose|d: KeyView| depends_on(lock.children.map()[k], d) && !lock.children.map().dom().contains(d);
                assert(root.children.map().dom().contains(d));
            }
        }
    }
    let mut missing: StrMap<(DependencySpecifier, DependencyType)> = StrMap::new();
    let mut i: usize = 0;
    while i < cur.len()
        invariant
            ce == cur.ev(),
            cur.wf(),
            lock.wf(),
            root.overrides == old(root).overrides,
            missing.wf(),
            i <= ce.len(),
            missing.ev() == new_entries(*lock, ce.take(i as int)),
            locked ==> missing.ev().len() == 0,
            forall|a: int| 0 <= a < missing.ev().len() ==> exists|j: int| 0 <= j < i && (#[trigger] missing.ev()[a]).0 == ce[j].0,
        decreases ce.len() - i,
    {
        proof {
            assert(ce.take(i + 1).drop_last() =~= ce.take(i as int));
            assert(ce.take(i + 1).last() == ce[i as int]);
        }
        let e = cur.value_at(i);
        if old_spec_used(lock, &e.0) {
            i = i + 1;
            continue;
        }
        if locked {
            proof {
                lemma_new_entries_prefix(*lock, ce, i + 1);
            }
            return Err(ResolveError::OutOfDateLockfile);
        }
        proof {
            assert forall|j: int| 0 <= j < missing.ev().len() implies lex_lt(#[trigger] missing.keys()[j], ce[i as int].0) by {
                let w = choose|w: int| 0 <= w < i && (#[trigger] missing.ev()[j]).0 == ce[w].0;
                assert(cur.keys()[w] == ce[w].0 && cur.keys()[i as int] == ce[i as int].0);
            }
        }
        let ghost before = missing.ev();
        missing.push_last(cur.key_at(i).clone(), (e.0.clone(), e.1));
        proof {
            assert forall|a: int| 0 <= a < missing.ev().len() implies exists|j: int| 0 <= j < i + 1 && (#[trigger] missing.ev()[a]).0 == ce[j].0 by {
                if a < before.len() {
                    assert(missing.ev()[a] == before[a]);
                } else {
                    assert(missing.ev()[a].0 == ce[i as int].0);
                }
            }
        }
        i = i + 1;
    }
    proof {
        assert(ce.take(i as int) =~= ce);
    }
    Ok(missing)
}

/// Whether two lists of strings hold the same strings
fn strings_eq(a: &Vec<String>, b: &Vec<String>) -> (r: bool)
    ensures
        r == (a@.map_values(|c: String| c@) == b@.map_values(|c: String| c@)),
{
    if a.len() != b.len() {
        proof {
            assert(a@.map_values(|c: String| c@).len() != b@.map_values(|c: String| c@).len());
        }
        return false;
    }
    let mut i: usize = 0;
    while i < a.len()
        invariant
            a@.len() == b@.len(),
            i <= a@.len(),
            forall|j: int| 0 <= j < i ==> (#[trigger] a@[j])@ == b@[j]@,
        decreases a@.len() - i,
    {
        if !crate::text::str_eq(a[i].as_str(), b[i].as_str()) {
            proof {
                assert(a@.map_values(|c: String| c@)[i as int] != b@.map_values(|c: String| c@)[i as int]);
            }
            return false;
        }
        i = i + 1;
    }
    proof {
        assert(a@.map_values(|c: String| c@) =~= b@.map_values(|c: String| c@));
    }
    true
}

/// Whether two override keys name the same paths
fn override_keys_eq(a: &OverrideKey, b: &OverrideKey) -> (r: bool)
    ensures
        r == (a@ == b@),
{
    if a.0.len() != b.0.len() {
        proof {
            assert(a@.len() != b@.len());
        }
        return false;
    }
    let mut i: usize = 0;
    while i < a.0.len()
        invariant
            a.0@.len() == b.0@.len(),
            i <= a.0@.len(),
            forall|j: int| 0 <= j < i ==> a@[j] == #[trigger] b@[j],
        decreases a.0@.len() - i,
    {
        if !strings_eq(&a.0[i], &b.0[i]) {
            proof {
                assert(a@[i as int] != b@[i as int]);
            }
            return false;
        }
        i = i + 1;
    }
    proof {
        assert(a@ =~= b@);
    }
    true
}

/// Whether two override tables say the same
pub fn overrides_eq(a: &Vec<(OverrideKey, DependencySpecifier)>, b: &Vec<(OverrideKey, DependencySpecifier)>) -> (r: bool)
    ensures
        r == (overrides_view(a@) == overrides_view(b@)),
{
    if a.len() != b.len() {
        proof {
            assert(overrides_view(a@).len() != overrides_view(b@).len());
        }
        return false;
    }
    let mut i: usize = 0;
    while i < a.len()
        invariant
            a@.len() == b@.len(),
            i <= a@.len(),
            forall|j: int| 0 <= j < i ==> overrides_view(a@)[j] == #[trigger] overrides_view(b@)[j],
        decreases a@.len() - i,
    {
        if !override_keys_eq(&a[i].0, &b[i].0) || !crate::dependencies::specifiers_eq(&a[i].1, &b[i].1) {
            proof {
                assert(overrides_view(a@)[i as int] != overrides_view(b@)[i as int]);
            }
            return false;
        }
        i = i + 1;
    }
    proof {
        assert(overrides_view(a@) =~= overrides_view(b@));
    }
    true
}

/// A copy of an override table
fn copy_overrides(v: &Vec<(OverrideKey, DependencySpecifier)>) -> (r: Vec<(OverrideKey, DependencySpecifier)>)
    ensures
        overrides_view(r@) == overrides_view(v@),
{
    let mut out: Vec<(OverrideKey, DependencySpecifier)> = Vec::new();
    let mut i: usize = 0;
    while i < v.len()
        invariant
            i <= v@.len(),
            out@.len() == i,
            forall|j: int| 0 <= j < i ==> #[trigger] overrides_view(out@)[j] == overrides_view(v@)[j],
        decreases v@.len() - i,
    {
        let mut paths: Vec<Vec<String>> = Vec::new();
        let mut k: usize = 0;
        while k < v[i].0.0.len()
            invariant
                i < v@.len(),
                k <= v@[i as int].0.0@.len(),
                paths@.len() == k,
                forall|j: int| 0 <= j < k ==> (#[trigger] paths@[j])@.map_values(|c: String| c@) == v@[i as int].0.0@[j]@.map_values(
                    |c: String| c@,
                ),
            decreases v@[i as int].0.0@.len() - k,
        {
            paths.push(clone_strings(&v[i].0.0[k]));
            k = k + 1;
        }
        let key = OverrideKey(paths);
        proof {
            assert(key@ =~= v@[i as int].0@);
        }
        let ghost before = out@;
        let ghost kv = key@;
        let sp = v[i].1.clone();
        out.push((key, sp));
        proof {
            assert(out@[i as int].0@ == kv);
            assert(out@[i as int].1 == v@[i as int].1);
            assert forall|j: int| 0 <= j < i + 1 implies #[trigger] overrides_view(out@)[j] == overrides_view(v@)[j] by {
                if j < i {
                    assert(out@[j] == before[j]);
                    assert(overrides_view(before)[j] == overrides_view(v@)[j]);
                    assert(overrides_view(out@)[j] == (out@[j].0@, out@[j].1@));
                    assert(overrides_view(before)[j] == (before[j].0@, before[j].1@));
                } else {
                    assert(overrides_view(out@)[j] == (out@[j].0@, out@[j].1@));
                    assert(overrides_view(v@)[j] == (v@[j].0@, v@[j].1@));
                }
            }
        }
        i = i + 1;
    }
    proof {
        assert(overrides_view(out@) =~= overrides_view(v@));
    }
    out
}

/// The override paths with their specifiers: key by key, each key path by path
pub open spec fn flat_overrides(o: Seq<(OverrideKey, DependencySpecifier)>) -> Seq<(Seq<Seq<char>>, SpecifierView)>
    decreases o.len(),
{
    if o.len() == 0 {
        Seq::empty()
    } else {
        flat_overrides(o.drop_last()) + o.last().0@.map_values(|p: Seq<Seq<char>>| (p, o.last().1@))
    }
}

/// The override paths of a resolution as plain values
pub open spec fn paths_view(v: Seq<(Vec<String>, DependencySpecifier)>) -> Seq<(Seq<Seq<char>>, SpecifierView)> {
    v.map_values(|e: (Vec<String>, DependencySpecifier)| (e.0@.map_values(|c: String| c@), e.1@))
}

/// The override paths of a table
fn flatten_overrides(o: &Vec<(OverrideKey, DependencySpecifier)>) -> (r: Vec<(Vec<String>, DependencySpecifier)>)
    ensures
        paths_view(r@) == flat_overrides(o@),
{
    let mut out: Vec<(Vec<String>, DependencySpecifier)> = Vec::new();
    let mut i: usize = 0;
    while i < o.len()
        invariant
            i <= o@.len(),
            paths_view(out@) == flat_overrides(o@.take(i as int)),
        decreases o@.len() - i,
    {
        let ghost start = paths_view(out@);
        let mut k: usize = 0;
        while k < o[i].0.0.len()
            invariant
                i < o@.len(),
                k <= o@[i as int].0.0@.len(),
                paths_view(out@) == start + o@[i as int].0@.take(k as int).map_values(|p: Seq<Seq<char>>| (p, o@[i as int].1@)),
            decreases o@[i as int].0.0@.len() - k,
        {
            let ghost before = out@;
            out.push((clone_strings(&o[i].0.0[k]), o[i].1.clone()));
            proof {
                assert(paths_view(out@) =~= paths_view(before).push(paths_view(out@).last()));
                assert(o@[i as int].0@.take(k + 1) =~= o@[i as int].0@.take(k as int).push(o@[i as int].0@[k as int]));
                assert(paths_view(out@) =~= start + o@[i as int].0@.take(k + 1).map_values(|p: Seq<Seq<char>>| (p, o@[i as int].1@)));
            }
            k = k + 1;
        }
        proof {
            assert(o@[i as int].0@.take(k as int) =~= o@[i as int].0@);
            assert(o@.take(i + 1).drop_last() =~= o@.take(i as int));
            assert(o@.take(i + 1).last() == o@[i as int]);
        }
        i = i + 1;
    }
    proof {
        assert(o@.take(i as int) =~= o@);
    }
    out
}

/// The flattened paths of overrides whose paths are not empty are not empty.
pub proof fn lemma_flat_nonempty(o: Seq<(OverrideKey, DependencySpecifier)>)
    requires
        override_paths_nonempty(o),
    ensures
        forall|j: int| 0 <= j < flat_overrides(o).len() ==> (#[trigger] flat_overrides(o)[j]).0.len() >= 1,
    decreases o.len(),
{
    if o.len() > 0 {
        let p = o.drop_last();
        assert forall|i: int, j: int| 0 <= i < p.len() && 0 <= j < p[i].0@.len() implies (#[trigger] p[i].0@[j]).len() >= 1 by {
            assert(p[i] == o[i]);
        }
        lemma_flat_nonempty(p);
        let last = o.last();
        let tail = last.0@.map_values(|q: Seq<Seq<char>>| (q, last.1@));
        assert forall|j: int| 0 <= j < flat_overrides(o).len() implies (#[trigger] flat_overrides(o)[j]).0.len() >= 1 by {
            if j >= flat_overrides(p).len() {
                let t = j - flat_overrides(p).len();
                assert(flat_overrides(o)[j] == tail[t]);
                assert(o[o.len() - 1].0@[t].len() >= 1);
            } else {
                assert(flat_overrides(o)[j] == flat_overrides(p)[j]);
            }
        }
    }
}

/// Whether every override path names at least one dependency
pub open spec fn override_paths_nonempty(o: Seq<(OverrideKey, DependencySpecifier)>) -> bool {
    forall|i: int, j: int| 0 <= i < o.len() && 0 <= j < o[i].0@.len() ==> (#[trigger] o[i].0@[j]).len() >= 1
}

/// Whether a manifest and an old graph call for carrying the old graph over: a
/// graph is there, and it was resolved with the same overrides
pub open spec fn uses_lock(m: Manifest, lock: Option<RootLockfileNode>) -> bool {
    lock matches Some(l) && overrides_view(m.overrides@) == overrides_view(l.overrides@)
}

/// What working out the dependencies to resolve gives, for a manifest, an old
/// graph, and whether the lockfile must stay as it is
pub open spec fn missing_outcome(
    m: Manifest,
    lock: Option<RootLockfileNode>,
    locked: bool,
    r: Result<StrMap<(DependencySpecifier, DependencyType)>, ResolveError>,
    root0: RootLockfileNode,
    root: RootLockfileNode,
) -> bool {
    match merge_entries(Seq::empty(), all_dependency_entries(m)) {
        Err(a) => r matches Err(ResolveError::AllDependencies(AllDependenciesError::AliasConflict(x))) && x@ == a,
        Ok(cur) => if uses_lock(m, lock) {
            if lock.unwrap().consistent() {
                lock_outcome(lock.unwrap(), cur, locked, r, root)
            } else {
                r matches Err(ResolveError::InconsistentLockfile) && root == root0
            }
        } else {
            r matches Ok(d) && d.wf() && d.ev() == cur && root == root0
        },
    }
}

impl Manifest {
    /// Works out the dependencies to resolve: with an old graph resolved with
    /// the same overrides, carries over into `root` what it resolved for the
    /// root dependencies the manifest still has, and gives the dependencies it
    /// does not hold; else gives all dependencies
    pub fn missing_dependencies(
        &self,
        root: &mut RootLockfileNode,
        locked: bool,
        lock: Option<&RootLockfileNode>,
    ) -> (r: Result<StrMap<(DependencySpecifier, DependencyType)>, ResolveError>)
        requires
            self.wf(),
            old(root).wf(),
            old(root).specifiers.map() == Map::<KeyView, (DependencySpecifier, String)>::empty(),
            old(root).children.map() == Map::<KeyView, ResolvedPackage>::empty(),
            lock matches Some(l) ==> l.wf(),
        ensures
            final(root).overrides == old(root).overrides,
            missing_outcome(*self, option_deref(lock), locked, r, *old(root), *final(root)),
            r matches Ok(m) ==> m.wf() && final(root).wf(),
    {
        let cur = match self.all_dependencies() {
            Ok(c) => c,
            Err(e) => return Err(ResolveError::AllDependencies(e)),
        };
        match lock {
            None => Ok(cur),
            Some(l) => {
                if !overrides_eq(&self.overrides, &l.overrides) {
                    return Ok(cur);
                }
                if !l.is_consistent() {
                    return Err(ResolveError::InconsistentLockfile);
                }
                missing_from_lockfile(root, &cur, locked, l)
            },
        }
    }
}

/// The value behind an optional reference
pub open spec fn option_deref<T>(o: Option<&T>) -> Option<T> {
    match o {
        Some(x) => Some(*x),
        None => None,
    }
}

/// A dependency waiting to be resolved
#[derive(Debug)]
pub struct QueueEntry {
    /// The name the dependant gives the dependency
    pub desired_name: String,
    /// The specifier of the dependency
    pub specifier: DependencySpecifier,
    /// The type of the dependency
    pub dep_type: DependencyType,
    /// The package that depends on it; none for a dependency of the project
    pub dependant: Option<PackageKey>,
    /// The names along the path from the project to the dependency's dependant
    pub path: Vec<String>,
}

/// A dependency resolution under way: the graph so far, and the queue of
/// dependencies left, of which those before `next` are done
#[derive(Debug)]
pub struct Resolver {
    /// The graph so far
    pub root: RootLockfileNode,
    /// The dependencies met so far, in the order they are resolved
    pub queue: Vec<QueueEntry>,
    /// The position of the next dependency to resolve
    pub next: usize,
    /// The override paths with their specifiers
    pub overrides: Vec<(Vec<String>, DependencySpecifier)>,
    /// Whether the realms and peer dependencies are checked at the end (when
    /// anything was left to resolve)
    pub settle: bool,
}

/// Whether the queue holds the dependencies of the project, in order
pub open spec fn queued_roots(q: Seq<QueueEntry>, es: DepEntries) -> bool {
    &&& q.len() == es.len()
    &&& forall|j: int| #![trigger q[j]] 0 <= j < q.len() ==> {
        &&& q[j].desired_name@ == es[j].0
        &&& q[j].specifier == es[j].1.0
        &&& q[j].dep_type == es[j].1.1
        &&& q[j].dependant is None
        &&& q[j].path@.len() == 0
    }
}

impl Resolver {
    pub open spec fn wf(self) -> bool {
        &&& self.root.wf()
        &&& self.next <= self.queue@.len()
        &&& forall|j: int| #![trigger self.queue@[j]] self.next <= j < self.queue@.len() ==> (self.queue@[j].dependant matches Some(d)
            ==> self.root.children.map().dom().contains(d@))
        &&& forall|j: int| 0 <= j < self.overrides@.len() ==> (#[trigger] self.overrides@[j]).0@.len() >= 1
    }

    /// The dependency to resolve next, if any is left
    pub fn next_dependency(&self) -> (r: Option<&QueueEntry>)
        requires
            self.wf(),
        ensures
            match r {
                Some(q) => self.next < self.queue@.len() && *q == self.queue@[self.next as int],
                None => self.next == self.queue@.len(),
            },
    {
        if self.next < self.queue.len() {
            Some(&self.queue[self.next])
        } else {
            None
        }
    }
}

impl Manifest {
    /// Starts resolving the dependency graph of the project: carries over what
    /// the old graph resolved, as `missing_dependencies` does, and queues the
    /// dependencies left to resolve
    pub fn dependency_graph(&self, locked: bool, lock: Option<&RootLockfileNode>) -> (r: Result<Resolver, ResolveError>)
        requires
            self.wf(),
            override_paths_nonempty(self.overrides@),
            lock matches Some(l) ==> l.wf(),
        ensures
            match r {
                Ok(res) => {
                    &&& res.wf()
                    &&& res.next == 0
                    &&& overrides_view(res.root.overrides@) == overrides_view(self.overrides@)
                    &&& paths_view(res.overrides@) == flat_overrides(self.overrides@)
                    &&& exists|m: StrMap<(DependencySpecifier, DependencyType)>, root0: RootLockfileNode| {
                        &&& #[trigger] missing_outcome(*self, option_deref(lock), locked, Ok(m), root0, res.root)
                        &&& root0.specifiers.map() == Map::<KeyView, (DependencySpecifier, String)>::empty()
                        &&& root0.children.map() == Map::<KeyView, ResolvedPackage>::empty()
                        &&& queued_roots(res.queue@, m.ev())
                        &&& res.settle == (m.ev().len() > 0)
                    }
                },
                Err(e) => exists|root0: RootLockfileNode, root1: RootLockfileNode| #[trigger] missing_outcome(
                    *self,
                    option_deref(lock),
                    locked,
                    Err(e),
                    root0,
                    root1,
                ),
            },
    {
        let mut root = RootLockfileNode::new(copy_overrides(&self.overrides));
        let ghost root0 = root;
        let missing = match self.missing_dependencies(&mut root, locked, lock) {
            Ok(m) => m,
            Err(e) => {
                proof {
                    assert(missing_outcome(*self, option_deref(lock), locked, Err(e), root0, root));
                }
                return Err(e);
            },
        };
        let ghost mv = missing.ev();
        let ghost gm = missing;
        let mut queue: Vec<QueueEntry> = Vec::new();
        let mut i: usize = 0;
        let mut rest = missing;
        let n = rest.len();
        proof {
            assert(rest.ev().skip(0) =~= mv);
        }
        while i < n
            invariant
                n == mv.len(),
                i <= n,
                rest.wf(),
                rest.ev() == mv.skip(i as int),
                queued_roots(queue@, mv.take(i as int)),
            decreases n - i,
        {
            let (name, (specifier, ty)) = rest.pop_first();
            let ghost before = queue@;
            queue.push(QueueEntry { desired_name: name, specifier, dep_type: ty, dependant: None, path: Vec::new() });
            proof {
                assert(mv.skip(i as int)[0] == mv[i as int]);
                assert(mv.skip(i as int).drop_first() =~= mv.skip(i + 1));
                assert forall|j: int| #![trigger queue@[j]] 0 <= j < queue@.len() implies {
                    &&& queue@[j].desired_name@ == mv.take(i + 1)[j].0
                    &&& queue@[j].specifier == mv.take(i + 1)[j].1.0
                    &&& queue@[j].dep_type == mv.take(i + 1)[j].1.1
                    &&& queue@[j].dependant is None
                    &&& queue@[j].path@.len() == 0
                } by {
                    if j < i {
                        assert(queue@[j] == before[j]);
                        assert(mv.take(i + 1)[j] == mv.take(i as int)[j]);
                    }
                }
            }
            i = i + 1;
        }
        proof {
            assert(mv.take(i as int) =~= mv);
        }
        let overrides = flatten_overrides(&self.overrides);
        let res = Resolver { root, queue, next: 0, overrides, settle: n > 0 };
        proof {
            assert(missing_outcome(*self, option_deref(lock), locked, Ok(gm), root0, res.root));
            lemma_flat_nonempty(self.overrides@);
            assert forall|j: int| 0 <= j < res.overrides@.len() implies (#[trigger] res.overrides@[j]).0@.len() >= 1 by {
                assert(paths_view(res.overrides@)[j] == flat_overrides(self.overrides@)[j]);
                assert(paths_view(res.overrides@)[j].0.len() == res.overrides@[j].0@.len());
            }
        }
        Ok(res)
    }
}

/// The position of the last override path equal to `t`
pub open spec fn last_override(ov: Seq<(Seq<Seq<char>>, SpecifierView)>, t: Seq<Seq<char>>) -> Option<int>
    decreases ov.len(),
{
    if ov.len() == 0 {
        None
    } else if ov.last().0 == t {
        Some(ov.len() - 1)
    } else {
        last_override(ov.drop_last(), t)
    }
}

/// The last matching override is one of the overrides, with that path.
pub proof fn lemma_last_override(ov: Seq<(Seq<Seq<char>>, SpecifierView)>, t: Seq<Seq<char>>)
    ensures
        last_override(ov, t) matches Some(o) ==> 0 <= o < ov.len() && ov[o].0 == t,
    decreases ov.len(),
{
    if ov.len() > 0 && ov.last().0 != t {
        lemma_last_override(ov.drop_last(), t);
        if let Some(o) = last_override(ov.drop_last(), t) {
            assert(ov.drop_last()[o] == ov[o]);
        }
    }
}

/// The position of the last override whose path is `path` followed by `name`
fn find_override(ov: &Vec<(Vec<String>, DependencySpecifier)>, path: &Vec<String>, name: &String) -> (r: Option<usize>)
    ensures
        match r {
            Some(o) => last_override(paths_view(ov@), path@.map_values(|c: String| c@).push(name@)) == Some(o as int),
            None => last_override(paths_view(ov@), path@.map_values(|c: String| c@).push(name@)) is None,
        },
{
    let ghost t = path@.map_values(|c: String| c@).push(name@);
    let mut found: Option<usize> = None;
    let mut i: usize = 0;
    while i < ov.len()
        invariant
            i <= ov@.len(),
            t == path@.map_values(|c: String| c@).push(name@),
            match found {
                Some(o) => last_override(paths_view(ov@).take(i as int), t) == Some(o as int),
                None => last_override(paths_view(ov@).take(i as int), t) is None,
            },
        decreases ov@.len() - i,
    {
        let mut candidate = clone_strings(path);
        candidate.push(name.clone());
        proof {
            assert(candidate@.map_values(|c: String| c@) =~= t);
            assert(paths_view(ov@).take(i + 1).drop_last() =~= paths_view(ov@).take(i as int));
            assert(paths_view(ov@).take(i + 1).last() == paths_view(ov@)[i as int]);
        }
        if strings_eq(&ov[i].0, &candidate) {
            found = Some(i);
        }
        i = i + 1;
    }
    proof {
        assert(paths_view(ov@).take(i as int) =~= paths_view(ov@));
    }
    found
}

/// A realm, or shared where none is named
pub open spec fn realm_or_shared(r: Option<Realm>) -> Realm {
    match r {
        Some(x) => x,
        None => Realm::Shared,
    }
}

/// The realm of a newly resolved package: the one its specifier asks for, made
/// more restrictive by the one the package names
pub open spec fn new_realm(specified: Option<Realm>, named: Option<Realm>) -> Realm {
    spec_realm_or(realm_or_shared(specified), realm_or_shared(named))
}

/// The type a dependency takes in the graph: one of the project is a standard one
pub open spec fn graph_dep_type(q: QueueEntry) -> DependencyType {
    if q.dependant is Some {
        q.dep_type
    } else {
        DependencyType::Standard
    }
}

/// A package met as a peer dependency and again as a standard one becomes a standard one
pub open spec fn upgraded(t: DependencyType, dt: DependencyType) -> DependencyType {
    if t == DependencyType::Peer && dt == DependencyType::Standard {
        DependencyType::Standard
    } else {
        t
    }
}

/// The keys of the entries, in order
pub open spec fn keys_of<N>(es: Seq<(KeyView, N)>) -> Seq<KeyView> {
    es.map_values(|e: (KeyView, N)| e.0)
}

/// Whether `added` are the queue entries for the dependencies of the package
/// resolved for `q`: each with the override for its path, if there is one
pub open spec fn queued_deps(ov: Seq<(Vec<String>, DependencySpecifier)>, q: QueueEntry, key: KeyView, deps: DepEntries, added: Seq<QueueEntry>) -> bool {
    let path = q.path@.map_values(|c: String| c@).push(q.desired_name@);
    &&& added.len() == deps.len()
    &&& forall|j: int| #![trigger added[j]] 0 <= j < added.len() ==> {
        &&& added[j].desired_name@ == deps[j].0
        &&& added[j].specifier@ == match last_override(paths_view(ov), path.push(deps[j].0)) {
            Some(o) => paths_view(ov)[o].1,
            None => deps[j].1.0@,
        }
        &&& added[j].dep_type == deps[j].1.1
        &&& added[j].dependant matches Some(d) && d@ == key
        &&& added[j].path@.map_values(|c: String| c@) == path
    }
}

/// Whether a registry package conflicts with a git package or the other way round
pub open spec fn conflicting(p: PackageRef, prev: PackageRef) -> bool {
    (p is Registry && prev is Git) || (p is Git && prev is Registry)
}

/// The error for a package that conflicts with the one resolved before
pub open spec fn conflict_error(p: PackageRef, e: ResolveError) -> bool {
    match p {
        PackageRef::Registry(r) => (e matches ResolveError::RegistryConflict(n, v) && n@ == name_text(package_ref_name(p)) && v == r.version),
        PackageRef::Git(g) => (e matches ResolveError::GitConflict(n, v) && n@ == name_text(package_ref_name(p)) && v == g.version),
        PackageRef::Wally(_) => false,
    }
}

/// Whether a package asked for as shared names the server realm
pub open spec fn realms_clash(specified: Option<Realm>, named: Option<Realm>) -> bool {
    specified == Some(Realm::Shared) && named == Some(Realm::Server)
}

/// Whether `s1` and `r` are what settling the next dependency of `s0` as the
/// package `p`, which names realm `dr` and dependencies `deps`, gives
pub open spec fn settled(s0: Resolver, s1: Resolver, p: PackageRef, dr: Option<Realm>, deps: DepEntries, r: Result<(), ResolveError>) -> bool {
    let q = s0.queue@[s0.next as int];
    let key = (package_ref_name(p), package_ref_version(p));
    let c0 = s0.root.children.map();
    let c1 = s1.root.children.map();
    let dt = graph_dep_type(q);
    let sr = specifier_realm(q.specifier);
    let present = c0.dom().contains(key);
    match r {
        Err(e) => if present {
            conflicting(p, c0[key].pkg_ref) && conflict_error(p, e)
        } else {
            realms_clash(sr, dr) && (e matches ResolveError::IncompatibleRealms(n, a, b) && n@ == name_text(key.0) && a == Realm::Server
                && b == Realm::Shared)
        },
        Ok(()) => {
            &&& present ==> !conflicting(p, c0[key].pkg_ref)
            &&& !present ==> !realms_clash(sr, dr)
            &&& s1.next == s0.next + 1
            &&& s1.overrides == s0.overrides
            &&& s1.settle == s0.settle
            &&& s1.root.overrides == s0.root.overrides
            &&& if q.dependant is None {
                s1.root.specifiers.map() == s0.root.specifiers.map().insert(key, (q.specifier, q.desired_name))
            } else {
                s1.root.specifiers.map() == s0.root.specifiers.map()
            }
            &&& if present {
                &&& keys_of(s1.root.children.ev()) == keys_of(s0.root.children.ev())
                &&& s1.queue@ == s0.queue@
                &&& c1.dom() == c0.dom()
                &&& c1[key].pkg_ref == c0[key].pkg_ref
                &&& c1[key].realm == c0[key].realm
                &&& c1[key].dep_type == upgraded(c0[key].dep_type, dt)
                &&& (q.dependant matches Some(d) && d@ == key) || c1[key].dependencies == c0[key].dependencies
            } else {
                &&& exists|pos: int| is_sorted_position(s0.root.children.ev(), key, pos) && keys_of(s1.root.children.ev()) == keys_of(
                    s0.root.children.ev(),
                ).insert(pos, key)
                &&& c1.dom() == c0.dom().insert(key)
                &&& c1[key].pkg_ref == p
                &&& c1[key].dependencies.map() == Map::<PackageNameView, (Version, String)>::empty()
                &&& c1[key].realm == new_realm(sr, dr)
                &&& c1[key].dep_type == dt
                &&& s1.queue@.take(s0.queue@.len() as int) == s0.queue@
                &&& queued_deps(s0.overrides@, q, key, deps, s1.queue@.skip(s0.queue@.len() as int))
            }
            &&& forall|k: KeyView| #[trigger] c1.dom().contains(k) && k != key && !(q.dependant matches Some(d) && d@ == k) ==> c1[k] == c0[k]
            &&& q.dependant matches Some(d) ==> {
                &&& c1[d@].pkg_ref == c0[d@].pkg_ref
                &&& c1[d@].realm == c0[d@].realm
                &&& c1[d@].dependencies.map() == c0[d@].dependencies.map().insert(key.0, (ref_version(p), q.desired_name))
                &&& d@ != key ==> c1[d@].dep_type == c0[d@].dep_type
            }
        },
    }
}

/// Records that the dependency `q` was resolved to the package `p`: as a
/// dependency of its dependant, or as a root specifier
fn record(root: &mut RootLockfileNode, q: &QueueEntry, p: &PackageRef)
    requires
        old(root).wf(),
        q.dependant matches Some(d) ==> old(root).children.map().dom().contains(d@),
    ensures
        final(root).wf(),
        final(root).overrides == old(root).overrides,
        keys_of(final(root).children.ev()) == keys_of(old(root).children.ev()),
        final(root).children.map().dom() == old(root).children.map().dom(),
        if q.dependant is None {
            final(root).specifiers.map() == old(root).specifiers.map().insert(
                (package_ref_name(*p), package_ref_version(*p)),
                (q.specifier, q.desired_name),
            )
        } else {
            final(root).specifiers.map() == old(root).specifiers.map()
        },
        forall|k: KeyView| #[trigger] final(root).children.map().dom().contains(k) && !(q.dependant matches Some(d) && d@ == k)
            ==> final(root).children.map()[k] == old(root).children.map()[k],
        q.dependant matches Some(d) ==> {
            &&& final(root).children.map()[d@].pkg_ref == old(root).children.map()[d@].pkg_ref
            &&& final(root).children.map()[d@].realm == old(root).children.map()[d@].realm
            &&& final(root).children.map()[d@].dep_type == old(root).children.map()[d@].dep_type
            &&& final(root).children.map()[d@].dependencies.map() == old(root).children.map()[d@].dependencies.map().insert(
                package_ref_name(*p),
                (ref_version(*p), q.desired_name),
            )
        },
{
    proof {
        lemma_entries_map(root.children.ev());
    }
    match &q.dependant {
        Some(d) => {
            let j = root.children.find(d).unwrap();
            let ghost ev0 = root.children.ev();
            let (dk, mut dp) = root.children.remove_at(j);
            proof {
                assert(root.children.map() == old(root).children.map().remove(d@));
                assert(dp == old(root).children.map()[d@]);
                assert(dp.wf());
            }
            dp.dependencies.insert(p.name(), (p.version().clone(), q.desired_name.clone()));
            root.children.insert_new_at(j, dk, dp);
            proof {
                assert(keys_of(root.children.ev()) =~= keys_of(ev0));
                assert(root.children.map() =~= old(root).children.map().insert(d@, dp));
            }
        },
        None => {
            let key: PackageKey = (p.name(), p.version().clone());
            root.specifiers.insert(key, (q.specifier.clone(), q.desired_name.clone()));
        },
    }
}

/// Queues the dependencies of the package resolved for `q`, each with the
/// override for its path, if there is one
fn queue_dependencies(
    queue: &mut Vec<QueueEntry>,
    overrides: &Vec<(Vec<String>, DependencySpecifier)>,
    q_path: &Vec<String>,
    q_name: &String,
    key: &PackageKey,
    deps: StrMap<(DependencySpecifier, DependencyType)>,
    Ghost(q): Ghost<QueueEntry>,
)
    requires
        deps.wf(),
        q_path@.map_values(|c: String| c@) == q.path@.map_values(|c: String| c@),
        q_name@ == q.desired_name@,
    ensures
        final(queue)@.len() == old(queue)@.len() + deps.ev().len(),
        final(queue)@.take(old(queue)@.len() as int) == old(queue)@,
        queued_deps(overrides@, q, key@, deps.ev(), final(queue)@.skip(old(queue)@.len() as int)),
{
    let mut path = clone_strings(q_path);
    path.push(q_name.clone());
    let ghost q0 = queue@;
    let ghost dv = deps.ev();
    let ghost pv = q.path@.map_values(|c: String| c@).push(q.desired_name@);
    proof {
        assert(path@.map_values(|c: String| c@) =~= pv);
    }
    let mut rest = deps;
    let n = rest.len();
    let mut t: usize = 0;
    proof {
        assert(rest.ev().skip(0) =~= dv);
        assert(queue@.skip(q0.len() as int) =~= Seq::<QueueEntry>::empty());
    }
    while t < n
        invariant
            n == dv.len(),
            t <= n,
            rest.wf(),
            rest.ev() == dv.skip(t as int),
            path@.map_values(|c: String| c@) == pv,
            pv == q.path@.map_values(|c: String| c@).push(q.desired_name@),
            queue@.take(q0.len() as int) == q0,
            queue@.len() == q0.len() + t,
            queued_deps(overrides@, q, key@, dv.take(t as int), queue@.skip(q0.len() as int)),
        decreases n - t,
    {
        let (dn, (spec, ty)) = rest.pop_first();
        let found = find_override(overrides, &path, &dn);
        proof {
            lemma_last_override(paths_view(overrides@), pv.push(dn@));
        }
        let chosen = match found {
            Some(o) => overrides[o].1.clone(),
            None => spec,
        };
        let ghost before = queue@;
        queue.push(
            QueueEntry { desired_name: dn, specifier: chosen, dep_type: ty, dependant: Some(copy_key(key)), path: clone_strings(&path) },
        );
        proof {
            assert(dv.skip(t as int)[0] == dv[t as int]);
            assert(dv.skip(t as int).drop_first() =~= dv.skip(t + 1));
            assert(queue@.take(q0.len() as int) =~= q0);
            let added = queue@.skip(q0.len() as int);
            assert(added.len() == t + 1);
            assert forall|j: int| #![trigger added[j]] 0 <= j < added.len() implies {
                &&& added[j].desired_name@ == dv.take(t + 1)[j].0
                &&& added[j].specifier@ == match last_override(paths_view(overrides@), pv.push(dv.take(t + 1)[j].0)) {
                    Some(o) => paths_view(overrides@)[o].1,
                    None => dv.take(t + 1)[j].1.0@,
                }
                &&& added[j].dep_type == dv.take(t + 1)[j].1.1
                &&& added[j].dependant matches Some(d) && d@ == key@
                &&& added[j].path@.map_values(|c: String| c@) == pv
            } by {
                if j < t {
                    assert(added[j] == queue@[q0.len() + j]);
                    assert(queue@[q0.len() + j] == before[q0.len() + j]);
                    assert(before.skip(q0.len() as int)[j] == before[q0.len() + j]);
                    assert(dv.take(t + 1)[j] == dv.take(t as int)[j]);
                } else {
                    assert(added[j] == queue@[queue@.len() - 1]);
                    assert(dv.take(t + 1)[j] == dv[t as int]);
                }
            }
        }
        t = t + 1;
    }
    proof {
        assert(dv.take(t as int) =~= dv);
    }
}

impl Resolver {
    /// Settles the next dependency as the package `pkg_ref`, which names the
    /// realm `default_realm` and the dependencies `deps`
    fn settle(
        &mut self,
        pkg_ref: PackageRef,
        default_realm: Option<Realm>,
        deps: StrMap<(DependencySpecifier, DependencyType)>,
    ) -> (r: Result<(), ResolveError>)
        requires
            old(self).wf(),
            old(self).next < old(self).queue@.len(),
            deps.wf(),
        ensures
            settled(*old(self), *final(self), pkg_ref, default_realm, deps.ev(), r),
            r is Ok ==> final(self).wf(),
    {
        let ghost s0 = *self;
        let qlen = self.queue.len();
        let i = self.next;
        self.next = i + 1;
        let key: PackageKey = (pkg_ref.name(), pkg_ref.version().clone());
        let ghost kv = key@;
        let dep_type = if self.queue[i].dependant.is_some() {
            self.queue[i].dep_type
        } else {
            DependencyType::Standard
        };
        let specifier_realm: Option<Realm> = match self.queue[i].specifier.realm() {
            Some(x) => Some(*x),
            None => None,
        };
        proof {
            assert(self.queue@[i as int] == s0.queue@[s0.next as int]);
        }
        record(&mut self.root, &self.queue[i], &pkg_ref);
        let ghost ev1 = self.root.children.ev();
        match self.root.children.find(&key) {
            Some(j) => {
                proof {
                    lemma_entries_map(self.root.children.ev());
                    assert(self.root.children.map()[kv] == self.root.children.ev()[j as int].1);
                }
                let prev_type = {
                    let (_, prev) = self.root.children.entry_at(j);
                    match (&pkg_ref, &prev.pkg_ref) {
                        (PackageRef::Registry(r), PackageRef::Git(_)) => {
                            return Err(ResolveError::RegistryConflict(r.name.to_string(), r.version.clone()));
                        },
                        (PackageRef::Git(g), PackageRef::Registry(_)) => {
                            return Err(ResolveError::GitConflict(g.name.to_string(), g.version.clone()));
                        },
                        _ => {},
                    }
                    prev.dep_type
                };
                if prev_type == DependencyType::Peer && dep_type == DependencyType::Standard {
                    let (k, mut p) = self.root.children.remove_at(j);
                    p.dep_type = dep_type;
                    self.root.children.insert_new_at(j, k, p);
                    proof {
                        assert(keys_of(self.root.children.ev()) =~= keys_of(ev1));
                    }
                }
                return Ok(());
            },
            None => {},
        }
        if matches!(specifier_realm, Some(Realm::Shared)) && matches!(default_realm, Some(Realm::Server)) {
            return Err(ResolveError::IncompatibleRealms(pkg_ref.name().to_string(), Realm::Server, Realm::Shared));
        }
        let a = match specifier_realm {
            Some(x) => x,
            None => Realm::Shared,
        };
        let b = match default_realm {
            Some(x) => x,
            None => Realm::Shared,
        };
        let realm = a.or(b);
        let dependant_key = copy_key(&key);
        let ghost ev_before = self.root.children.ev();
        insert_sorted(&mut self.root.children, key, ResolvedPackage { pkg_ref, dependencies: KeyedMap::new(), realm, dep_type });
        proof {
            let pos = choose|pos: int| is_sorted_position(ev_before, kv, pos) && self.root.children.ev() == ev_before.insert(pos, (kv, self.root.children.map()[kv]));
            assert(ev_before == ev1);
            assert(keys_of(ev_before) == keys_of(s0.root.children.ev()));
            assert(keys_of(ev_before).len() == ev_before.len());
            assert(keys_of(s0.root.children.ev()).len() == s0.root.children.ev().len());
            assert forall|j: int| 0 <= j < ev_before.len() implies (#[trigger] ev_before[j]).0 == s0.root.children.ev()[j].0 by {
                assert(keys_of(ev_before)[j] == ev_before[j].0);
                assert(keys_of(s0.root.children.ev())[j] == s0.root.children.ev()[j].0);
            }
            assert forall|j: int| 0 <= j < pos implies !key_before(kv, (#[trigger] s0.root.children.ev()[j]).0) by {
                assert(ev_before[j].0 == s0.root.children.ev()[j].0);
                assert(!key_before(kv, ev_before[j].0));
            }
            if pos < ev_before.len() {
                assert(ev_before[pos].0 == s0.root.children.ev()[pos].0);
            }
            assert(is_sorted_position(s0.root.children.ev(), kv, pos));
            assert(keys_of(self.root.children.ev()) =~= keys_of(s0.root.children.ev()).insert(pos, kv));
        }
        let q_path = clone_strings(&self.queue[i].path);
        let q_name = self.queue[i].desired_name.clone();
        let ghost q = self.queue@[i as int];
        let ghost qb = self.queue@;
        queue_dependencies(&mut self.queue, &self.overrides, &q_path, &q_name, &dependant_key, deps, Ghost(q));
        proof {
            assert forall|j: int| #![trigger self.queue@[j]] self.next <= j < self.queue@.len() implies (self.queue@[j].dependant matches Some(
                d,
            ) ==> self.root.children.map().dom().contains(d@)) by {
                if j < qb.len() {
                    assert(self.queue@[j] == self.queue@.take(qb.len() as int)[j]);
                    assert(qb[j] == s0.queue@[j]);
                } else {
                    assert(self.queue@[j] == self.queue@.skip(qb.len() as int)[j - qb.len()]);
                }
            }
        }
        Ok(())
    }
}

/// The package a registry or Wally specifier asks an index for, and the requirement
pub open spec fn index_request(s: DependencySpecifier) -> (PackageNameView, Seq<char>) {
    match s {
        DependencySpecifier::Registry(r) => (PackageNameView::Standard(r.name@), r.version@),
        DependencySpecifier::Wally(w) => (PackageNameView::Wally(w.name@), w.version@),
        DependencySpecifier::Git(_) => (PackageNameView::Standard((Seq::empty(), Seq::empty())), Seq::empty()),
    }
}

/// The reference to the package of an index entry for a registry or Wally specifier
pub open spec fn index_ref(s: DependencySpecifier, version: Version, index_url: String) -> PackageRef {
    match s {
        DependencySpecifier::Wally(w) => PackageRef::Wally(
            crate::dependencies::wally::WallyPackageRef { name: w.name, version, index_url },
        ),
        DependencySpecifier::Registry(r) => PackageRef::Registry(RegistryPackageRef { name: r.name, version, index_url }),
        DependencySpecifier::Git(_) => vstd::pervasive::arbitrary(),
    }
}

impl Resolver {
    /// Resolves the next dependency, a registry or Wally one, from the entries
    /// its index has for the package (none where the index does not know the
    /// package): to the highest version already in the graph that meets the
    /// requirement, else to the highest in the index. Gives back nothing, and
    /// leaves the resolution as it was, where that version is one the index does
    /// not have.
    pub fn resolve_from_index(&mut self, index_url: String, entries: Option<Vec<IndexFileEntry>>) -> (r: Option<Result<(), ResolveError>>)
        requires
            old(self).wf(),
            old(self).next < old(self).queue@.len(),
            old(self).queue@[old(self).next as int].specifier is Registry || old(self).queue@[old(self).next as int].specifier is Wally,
            entries matches Some(es) ==> forall|j: int| 0 <= j < es@.len() ==> (#[trigger] es@[j]).dependencies.wf(),
        ensures
            ({
                let q = old(self).queue@[old(self).next as int];
                let name = index_request(q.specifier).0;
                let req = index_request(q.specifier).1;
                match entries {
                    None => r matches Some(Err(ResolveError::PackageNotFound(n))) && n@ == name_text(name),
                    Some(es) => match chosen_version(old(self).root.children.ev(), es@, name, req) {
                        None => r matches Some(Err(ResolveError::NoSatisfyingVersion(s))) && s == q.specifier,
                        Some(v) => if !has_entry(es@, v) {
                            r is None && *final(self) == *old(self)
                        } else {
                            exists|j: int| #[trigger] is_first_entry(es@, v, j) && (r matches Some(res) && settled(
                                *old(self),
                                *final(self),
                                index_ref(q.specifier, es@[j].version, index_url),
                                es@[j].realm,
                                es@[j].dependencies.ev(),
                                res,
                            ))
                        },
                    },
                }
            }),
            r matches Some(Ok(())) ==> final(self).wf(),
    {
        let i = self.next;
        let (name, req): (PackageName, &VersionReq) = match &self.queue[i].specifier {
            DependencySpecifier::Registry(d) => (PackageName::Standard(d.name.clone()), &d.version),
            DependencySpecifier::Wally(d) => (PackageName::Wally(d.name.clone()), &d.version),
            DependencySpecifier::Git(_) => {
                proof {
                    assert(false);
                }
                return None;
            },
        };
        let mut es = match entries {
            None => return Some(Err(ResolveError::PackageNotFound(name.to_string()))),
            Some(es) => es,
        };
        let chosen = match highest_resolved(&self.root.children, &name, req) {
            Some(v) => Some(v),
            None => highest_in_index(&es, req),
        };
        let version = match chosen {
            None => return Some(Err(ResolveError::NoSatisfyingVersion(self.queue[i].specifier.clone()))),
            Some(v) => v,
        };
        let j = match first_entry(&es, &version) {
            None => return None,
            Some(j) => j,
        };
        let ghost es0 = es@;
        let entry = es.remove(j);
        proof {
            assert(entry == es0[j as int]);
        }
        let pkg_ref = match &self.queue[i].specifier {
            DependencySpecifier::Registry(d) => PackageRef::Registry(
                RegistryPackageRef { name: d.name.clone(), version: entry.version, index_url },
            ),
            DependencySpecifier::Wally(d) => PackageRef::Wally(
                crate::dependencies::wally::WallyPackageRef { name: d.name.clone(), version: entry.version, index_url },
            ),
            DependencySpecifier::Git(_) => {
                proof {
                    assert(false);
                }
                return None;
            },
        };
        let res = self.settle(pkg_ref, entry.realm, entry.dependencies);
        Some(res)
    }

    /// Resolves the next dependency, a git one, to the package the repository
    /// holds: its name, version, realm and dependencies, the URL of the
    /// repository and the revision
    pub fn resolve_from_git(
        &mut self,
        name: StandardPackageName,
        version: Version,
        realm: Option<Realm>,
        dependencies: StrMap<(DependencySpecifier, DependencyType)>,
        repo_url: String,
        rev: String,
    ) -> (r: Result<(), ResolveError>)
        requires
            old(self).wf(),
            old(self).next < old(self).queue@.len(),
            old(self).queue@[old(self).next as int].specifier is Git,
            dependencies.wf(),
        ensures
            settled(
                *old(self),
                *final(self),
                PackageRef::Git(GitPackageRef { name, version, repo_url, rev }),
                realm,
                dependencies.ev(),
                r,
            ),
            r is Ok ==> final(self).wf(),
    {
        self.settle(PackageRef::Git(GitPackageRef { name, version, repo_url, rev }), realm, dependencies)
    }
}

/// Whether the `j`-th package is the first one that is still a peer dependency
pub open spec fn is_first_peer(es: Seq<(KeyView, ResolvedPackage)>, j: int) -> bool {
    &&& 0 <= j < es.len()
    &&& es[j].1.dep_type == DependencyType::Peer
    &&& forall|k: int| 0 <= k < j ==> (#[trigger] es[k]).1.dep_type != DependencyType::Peer
}

/// Whether any package is still a peer dependency
pub open spec fn has_peer(es: Seq<(KeyView, ResolvedPackage)>) -> bool {
    exists|j: int| 0 <= j < es.len() && (#[trigger] es[j]).1.dep_type == DependencyType::Peer
}

/// The realm the `i`-th package takes, given the realms `r` of the packages:
/// its own where every dependency of it in the graph has the same, shared otherwise
pub open spec fn settled_realm(es: Seq<(KeyView, ResolvedPackage)>, r: Seq<Realm>, i: int) -> Realm {
    if differs_among(es, es[i].1.dependencies.ev(), r, r[i], es[i].1.dependencies.ev().len() as int) {
        Realm::Shared
    } else {
        r[i]
    }
}

/// Whether one of the first `t` dependencies is a package of the graph whose
/// realm differs from `own`
pub open spec fn differs_among(
    es: Seq<(KeyView, ResolvedPackage)>,
    dev: Seq<(PackageNameView, (Version, String))>,
    r: Seq<Realm>,
    own: Realm,
    t: int,
) -> bool {
    exists|u: int, j: int| 0 <= u < t && 0 <= j < es.len() && es[j].0 == #[trigger] dep_key_at(dev, u) && #[trigger] r[j] != own
}

/// The realms of the packages once the pass over the graph has visited the
/// first `i`, each taking its settled realm from the realms at that time
pub open spec fn realms_after(es: Seq<(KeyView, ResolvedPackage)>, i: int) -> Seq<Realm>
    decreases i,
{
    if i <= 0 {
        es.map_values(|e: (KeyView, ResolvedPackage)| e.1.realm)
    } else {
        let r = realms_after(es, i - 1);
        r.update(i - 1, settled_realm(es, r, i - 1))
    }
}

/// The pass leaves the realms it has not visited, and the number of realms, as they were.
pub proof fn lemma_realms_after(es: Seq<(KeyView, ResolvedPackage)>, i: int)
    requires
        0 <= i <= es.len(),
    ensures
        realms_after(es, i).len() == es.len(),
        forall|j: int| i <= j < es.len() ==> #[trigger] realms_after(es, i)[j] == es[j].1.realm,
    decreases i,
{
    if i > 0 {
        lemma_realms_after(es, i - 1);
    }
}

/// What finishing a resolution gives: the graph as it is when nothing was
/// left to resolve; else the first package still a peer dependency as an
/// error, or the graph with the realms of the realm pass
pub open spec fn finish_outcome(s: Resolver, r: Result<RootLockfileNode, ResolveError>) -> bool {
    &&& !s.settle ==> r == Ok::<RootLockfileNode, ResolveError>(s.root)
    &&& s.settle ==> ({
        let es = s.root.children.ev();
        if has_peer(es) {
            exists|j: int| #[trigger] is_first_peer(es, j) && (r matches Err(ResolveError::PeerNotInstalled(n, v))
                && n@ == name_text(package_ref_name(es[j].1.pkg_ref)) && v == ref_version(es[j].1.pkg_ref))
        } else {
            r matches Ok(t) && {
                &&& t.wf()
                &&& t.overrides == s.root.overrides
                &&& t.specifiers == s.root.specifiers
                &&& t.children.ev().len() == es.len()
                &&& forall|j: int| #![trigger t.children.ev()[j]] 0 <= j < es.len() ==> {
                    &&& t.children.ev()[j].0 == es[j].0
                    &&& t.children.ev()[j].1.pkg_ref == es[j].1.pkg_ref
                    &&& t.children.ev()[j].1.dependencies == es[j].1.dependencies
                    &&& t.children.ev()[j].1.dep_type == es[j].1.dep_type
                    &&& t.children.ev()[j].1.realm == realms_after(es, es.len() as int)[j]
                }
            }
        }
    })
}

impl Resolver {
    /// Ends the resolution: where anything was left to resolve, fails on the
    /// first package still a peer dependency, and settles the realm of each
    /// package in turn from the realms of its dependencies
    pub fn finish(self) -> (r: Result<RootLockfileNode, ResolveError>)
        requires
            self.wf(),
            self.next == self.queue@.len(),
        ensures
            finish_outcome(self, r),
    {
        let mut root = self.root;
        if !self.settle {
            return Ok(root);
        }
        let ghost es = root.children.ev();
        let n = root.children.len();
        let mut i: usize = 0;
        proof {
            lemma_entries_map(es);
            lemma_realms_after(es, 0);
        }
        while i < n
            invariant
                n == es.len(),
                i <= n,
                root.wf(),
                root.overrides == self.root.overrides,
                root.specifiers == self.root.specifiers,
                es == self.root.children.ev(),
                self.root.wf(),
                self.settle,
                root.children.ev().len() == n,
                forall|j: int| #![trigger root.children.ev()[j]] 0 <= j < n ==> {
                    &&& root.children.ev()[j].0 == es[j].0
                    &&& root.children.ev()[j].1.pkg_ref == es[j].1.pkg_ref
                    &&& root.children.ev()[j].1.dependencies == es[j].1.dependencies
                    &&& root.children.ev()[j].1.dep_type == es[j].1.dep_type
                    &&& root.children.ev()[j].1.realm == realms_after(es, i as int)[j]
                },
                forall|j: int| 0 <= j < i ==> (#[trigger] es[j]).1.dep_type != DependencyType::Peer,
            decreases n - i,
        {
            proof {
                lemma_realms_after(es, i as int);
            }
            let ghost ri = realms_after(es, i as int)[i as int];
            let ghost rs = realms_after(es, i as int);
            let realm = {
                let (_, p) = root.children.entry_at(i);
                proof {
                    assert(root.children.ev()[i as int].1 == *p);
                }
                if p.dep_type == DependencyType::Peer {
                    proof {
                        assert(is_first_peer(es, i as int));
                    }
                    return Err(ResolveError::PeerNotInstalled(p.pkg_ref.name().to_string(), p.pkg_ref.version().clone()));
                }
                let ghost dev = p.dependencies.ev();
                proof {
                    assert(dev == es[i as int].1.dependencies.ev());
                    lemma_entries_map(root.children.ev());
                }
                let mut realm = p.realm;
                let mut t: usize = 0;
                while t < p.dependencies.len()
                    invariant
                        dev == p.dependencies.ev(),
                        dev == es[i as int].1.dependencies.ev(),
                        t <= dev.len(),
                        i < n,
                        n == es.len(),
                        rs == realms_after(es, i as int),
                        rs.len() == n,
                        ri == rs[i as int],
                        root.children.wf(),
                        root.children.ev().len() == n,
                        forall|j: int| #![trigger root.children.ev()[j]] 0 <= j < n ==> {
                            &&& root.children.ev()[j].0 == es[j].0
                            &&& root.children.ev()[j].1.realm == rs[j]
                        },
                        crate::keyed::keys_distinct(es),
                        realm == if differs_among(es, dev, rs, ri, t as int) {
                            Realm::Shared
                        } else {
                            ri
                        },
                    decreases dev.len() - t,
                {
                    let (dn, dv) = p.dependencies.entry_at(t);
                    let dk: PackageKey = (dn.clone(), dv.0.clone());
                    proof {
                        assert(dk@ == dep_key_at(dev, t as int));
                    }
                    match root.children.find(&dk) {
                        Some(j) => {
                            let (_, dep) = root.children.entry_at(j);
                            proof {
                                assert(root.children.ev()[j as int].0 == es[j as int].0);
                                assert(dep.realm == rs[j as int]);
                                if rs[j as int] != ri {
                                    assert(es[j as int].0 == dep_key_at(dev, t as int));
                                    assert(differs_among(es, dev, rs, ri, t + 1));
                                } else if !differs_among(es, dev, rs, ri, t as int) {
                                    assert(!differs_among(es, dev, rs, ri, t + 1)) by {
                                        if differs_among(es, dev, rs, ri, t + 1) {
                                            let (u, j2) = choose|u: int, j2: int| 0 <= u < t + 1 && 0 <= j2 < es.len() && es[j2].0
                                                == #[trigger] dep_key_at(dev, u) && #[trigger] rs[j2] != ri;
                                            if u == t {
                                                assert(es[j2].0 == es[j as int].0);
                                                if j2 != j {
                                                    if j2 < j {
                                                        assert(es[j2].0 != es[j as int].0);
                                                    } else {
                                                        assert(es[j as int].0 != es[j2].0);
                                                    }
                                                }
                                            } else {
                                                assert(differs_among(es, dev, rs, ri, t as int));
                                            }
                                        }
                                    }
                                } else {
                                    assert(differs_among(es, dev, rs, ri, t + 1)) by {
                                        let (u, j2) = choose|u: int, j2: int| 0 <= u < t && 0 <= j2 < es.len() && es[j2].0
                                            == #[trigger] dep_key_at(dev, u) && #[trigger] rs[j2] != ri;
                                    }
                                }
                            }
                            realm = find_realm(&realm, &dep.realm);
                        },
                        None => {
                            proof {
                                lemma_entries_map(root.children.ev());
                                assert forall|j: int| 0 <= j < es.len() implies es[j].0 != dep_key_at(dev, t as int) by {
                                    assert(root.children.ev()[j].0 == es[j].0);
                                    assert(root.children.map().dom().contains(root.children.ev()[j].0));
                                }
                                if differs_among(es, dev, rs, ri, t + 1) {
                                    let (u, j2) = choose|u: int, j2: int| 0 <= u < t + 1 && 0 <= j2 < es.len() && es[j2].0
                                        == #[trigger] dep_key_at(dev, u) && #[trigger] rs[j2] != ri;
                                    assert(u != t);
                                    assert(differs_among(es, dev, rs, ri, t as int));
                                }
                                if differs_among(es, dev, rs, ri, t as int) {
                                    let (u, j2) = choose|u: int, j2: int| 0 <= u < t && 0 <= j2 < es.len() && es[j2].0
                                        == #[trigger] dep_key_at(dev, u) && #[trigger] rs[j2] != ri;
                                    assert(differs_among(es, dev, rs, ri, t + 1));
                                }
                            }
                        },
                    }
                    t = t + 1;
                }
                realm
            };
            proof {
                assert(realm == settled_realm(es, rs, i as int));
            }
            let ghost ev_before = root.children.ev();
            let (k, mut p) = root.children.remove_at(i);
            proof {
                assert(p == ev_before[i as int].1);
                assert(p.wf()) by {
                    lemma_entries_map(ev_before);
                    assert(root.children.map().dom().contains(ev_before[i as int].0) || true);
                }
            }
            p.realm = realm;
            root.children.insert_new_at(i, k, p);
            proof {
                assert(root.children.ev() =~= ev_before.update(i as int, (ev_before[i as int].0, p)));
                lemma_realms_after(es, i + 1);
                assert(realms_after(es, i + 1) == rs.update(i as int, settled_realm(es, rs, i as int)));
            }
            i = i + 1;
        }
        Ok(root)
    }
}

/// Law: the version chosen for a requirement among a list of versions is one
/// of them, and it meets the requirement.
pub proof fn law_highest_matching_meets(vs: Seq<Seq<char>>, req: Seq<char>)
    ensures
        highest_matching(vs, req) matches Some(v) ==> vs.contains(v) && semver_req_matches(req, v),
    decreases vs.len(),
{
    if vs.len() > 0 {
        law_highest_matching_meets(vs.drop_last(), req);
        if let Some(v) = highest_matching(vs.drop_last(), req) {
            let j = choose|j: int| 0 <= j < vs.drop_last().len() && vs.drop_last()[j] == v;
            assert(vs[j] == v);
        }
        assert(vs[vs.len() - 1] == vs.last());
    }
}

/// Law: when no version meets the requirement, none is chosen.
pub proof fn law_highest_matching_none(vs: Seq<Seq<char>>, req: Seq<char>)
    ensures
        (forall|j: int| 0 <= j < vs.len() ==> !semver_req_matches(req, #[trigger] vs[j])) ==> highest_matching(vs, req) is None,
    decreases vs.len(),
{
    if vs.len() > 0 {
        law_highest_matching_none(vs.drop_last(), req);
        if forall|j: int| 0 <= j < vs.len() ==> !semver_req_matches(req, #[trigger] vs[j]) {
            assert forall|j: int| 0 <= j < vs.drop_last().len() implies !semver_req_matches(req, #[trigger] vs.drop_last()[j]) by {
                assert(vs.drop_last()[j] == vs[j]);
            }
            assert(!semver_req_matches(req, vs[vs.len() - 1]));
        }
    }
}

/// Law: an old graph whose root specifiers include the specifier of every
/// dependency of the manifest leaves nothing new to resolve.
pub proof fn law_nothing_new(lock: RootLockfileNode, cur: DepEntries)
    requires
        forall|i: int| 0 <= i < cur.len() ==> old_has_spec(lock, (#[trigger] cur[i]).1.0@),
    ensures
        new_entries(lock, cur).len() == 0,
    decreases cur.len(),
{
    if cur.len() > 0 {
        assert forall|i: int| 0 <= i < cur.drop_last().len() implies old_has_spec(lock, (#[trigger] cur.drop_last()[i]).1.0@) by {
            assert(cur.drop_last()[i] == cur[i]);
        }
        law_nothing_new(lock, cur.drop_last());
        assert(old_has_spec(lock, cur[cur.len() - 1].1.0@));
    }
}

/// Law: the packages carried over from an old graph hold every dependency of
/// theirs that the old graph holds.
pub proof fn law_carried_closed(lock: RootLockfileNode, cur: DepEntries, root: RootLockfileNode, k: KeyView, d: KeyView)
    requires
        forall|x: KeyView| #[trigger] root.children.map().dom().contains(x) <==> lock_reachable(lock, cur, x),
        root.children.map().dom().contains(k),
        lock.children.map().dom().contains(k),
        depends_on(lock.children.map()[k], d),
        lock.children.map().dom().contains(d),
    ensures
        root.children.map().dom().contains(d),
{
    lemma_reach_step(lock, cur, k, d);
}

/// Law: a package's realm settles the same against a dependency's realm as
/// the dependency's against the package's, and a realm settles to itself.
pub proof fn law_find_realm(a: Realm, b: Realm)
    ensures
        spec_find_realm(a, b) == spec_find_realm(b, a),
        spec_find_realm(a, a) == a,
        spec_find_realm(a, b) == a || spec_find_realm(a, b) == Realm::Shared,
{
}

/// Law: a shared realm takes the other realm, and any other realm keeps itself.
pub proof fn law_realm_or(a: Realm, b: Realm)
    ensures
        spec_realm_or(Realm::Shared, b) == b,
        a != Realm::Shared ==> spec_realm_or(a, b) == a,
{
}

/// Law: a package without dependencies keeps its realm in the realm pass.
pub proof fn law_settled_realm_no_deps(es: Seq<(KeyView, ResolvedPackage)>, r: Seq<Realm>, i: int)
    requires
        0 <= i < es.len(),
        es[i].1.dependencies.ev().len() == 0,
    ensures
        settled_realm(es, r, i) == r[i],
{
}

/// Law: working out what to resolve against an old graph that was resolved
/// with the same overrides, stores each package under its own name and
/// version, uses the specifier of every dependency of the manifest and holds
/// every package its root packages need, succeeds, even
/// where the lockfile must stay as it is, and leaves nothing to resolve.
pub proof fn law_lock_reuse(
    m: Manifest,
    lock: RootLockfileNode,
    locked: bool,
    r: Result<StrMap<(DependencySpecifier, DependencyType)>, ResolveError>,
    root0: RootLockfileNode,
    root: RootLockfileNode,
)
    requires
        missing_outcome(m, Some(lock), locked, r, root0, root),
        uses_lock(m, Some(lock)),
        lock.consistent(),
        merge_entries(Seq::empty(), all_dependency_entries(m)) matches Ok(cur) && (forall|i: int|
            0 <= i < cur.len() ==> old_has_spec(lock, (#[trigger] cur[i]).1.0@)) && !lock_incomplete(lock, cur),
    ensures
        r matches Ok(d) && d.ev().len() == 0,
{
    let cur = merge_entries(Seq::<(Seq<char>, (DependencySpecifier, DependencyType))>::empty(), all_dependency_entries(m))->Ok_0;
    law_nothing_new(lock, cur);
}

/// Whether every dependency of every package of a graph is a package of the graph
pub open spec fn graph_closed(c: Map<KeyView, ResolvedPackage>) -> bool {
    forall|k: KeyView, d: KeyView| #![trigger c.dom().contains(k), depends_on(c[k], d)]
        c.dom().contains(k) && depends_on(c[k], d) ==> c.dom().contains(d)
}

/// Law: the graph a resolution starts from is closed: what is carried over
/// from an old graph holds every dependency of what it holds.
pub proof fn law_start_closed(
    m: Manifest,
    lock: Option<RootLockfileNode>,
    locked: bool,
    r: Result<StrMap<(DependencySpecifier, DependencyType)>, ResolveError>,
    root0: RootLockfileNode,
    root: RootLockfileNode,
)
    requires
        missing_outcome(m, lock, locked, r, root0, root),
        r is Ok,
        root0.children.map() == Map::<KeyView, ResolvedPackage>::empty(),
    ensures
        graph_closed(root.children.map()),
{
    let cur = merge_entries(Seq::<(Seq<char>, (DependencySpecifier, DependencyType))>::empty(), all_dependency_entries(m))->Ok_0;
    if uses_lock(m, lock) {
        let l = lock.unwrap();
        let c = root.children.map();
        assert forall|k: KeyView, d: KeyView| #![trigger c.dom().contains(k), depends_on(c[k], d)]
            c.dom().contains(k) && depends_on(c[k], d) implies c.dom().contains(d) by {
            assert(lock_reachable(l, cur, k));
            let path = choose|path: Seq<KeyView>| #[trigger] is_lock_path(l, cur, path) && path.last() == k;
            assert(l.children.map().dom().contains(path[path.len() - 1]));
            assert(same_package(c[k], l.children.map()[k]));
            assert(depends_on(l.children.map()[k], d));
            assert(!dangling(l, k));
            law_carried_closed(l, cur, root, k, d);
        }
    }
}

/// Law: settling a dependency keeps the graph closed: the package it is
/// settled to is in the graph, and is what its dependant now depends on.
pub proof fn law_settle_keeps_closed(s0: Resolver, s1: Resolver, p: PackageRef, dr: Option<Realm>, deps: DepEntries)
    requires
        s0.wf(),
        s0.next < s0.queue@.len(),
        settled(s0, s1, p, dr, deps, Ok(())),
        graph_closed(s0.root.children.map()),
    ensures
        graph_closed(s1.root.children.map()),
{
    let q = s0.queue@[s0.next as int];
    let key = (package_ref_name(p), package_ref_version(p));
    let c0 = s0.root.children.map();
    let c1 = s1.root.children.map();
    assert(c1.dom().contains(key));
    assert forall|k: KeyView| c0.dom().contains(k) implies c1.dom().contains(k) by {}
    assert forall|k: KeyView, d: KeyView| #![trigger c1.dom().contains(k), depends_on(c1[k], d)]
        c1.dom().contains(k) && depends_on(c1[k], d) implies c1.dom().contains(d) by {
        if q.dependant matches Some(dd) && dd@ == k {
            assert(c0.dom().contains(k));
            if d.0 == key.0 {
                assert(c1[k].dependencies.map()[d.0] == (ref_version(p), q.desired_name));
                assert(d == key);
            } else {
                assert(c1[k].dependencies.map().dom().contains(d.0));
                assert(c0[k].dependencies.map().dom().contains(d.0));
                assert(c0[k].dependencies.map()[d.0] == c1[k].dependencies.map()[d.0]);
                assert(depends_on(c0[k], d));
            }
        } else if k == key {
            if !c0.dom().contains(key) {
                assert(c1[key].dependencies.map().dom() == Set::<PackageNameView>::empty());
            } else {
                assert(c1[key].dependencies == c0[key].dependencies);
                assert(depends_on(c0[k], d));
            }
        } else {
            assert(c1[k] == c0[k]);
            assert(c0.dom().contains(k));
            assert(depends_on(c0[k], d));
        }
    }
}

/// Law: finishing a resolution keeps the graph closed.
pub proof fn law_finish_keeps_closed(s: Resolver, t: RootLockfileNode)
    requires
        s.root.wf(),
        finish_outcome(s, Ok::<RootLockfileNode, ResolveError>(t)),
        graph_closed(s.root.children.map()),
    ensures
        graph_closed(t.children.map()),
{
    if s.settle {
        let es = s.root.children.ev();
        if has_peer(es) {
            let j = choose|j: int| #[trigger] is_first_peer(es, j) && (Ok::<RootLockfileNode, ResolveError>(t) matches Err(ResolveError::PeerNotInstalled(n, v))
                && n@ == name_text(package_ref_name(es[j].1.pkg_ref)) && v == ref_version(es[j].1.pkg_ref));
        } else {
            let te = t.children.ev();
            lemma_entries_map(es);
            lemma_entries_map(te);
            let c0 = s.root.children.map();
            let c1 = t.children.map();
            assert forall|k: KeyView, d: KeyView| #![trigger c1.dom().contains(k), depends_on(c1[k], d)]
                c1.dom().contains(k) && depends_on(c1[k], d) implies c1.dom().contains(d) by {
                let i = choose|i: int| 0 <= i < te.len() && te[i].0 == k;
                assert(te[i].0 == es[i].0);
                assert(c1[k] == te[i].1);
                assert(c0.dom().contains(es[i].0));
                assert(c0[k] == es[i].1);
                assert(depends_on(c0[k], d));
                assert(c0.dom().contains(d));
                let i2 = choose|i2: int| 0 <= i2 < es.len() && es[i2].0 == d;
                assert(te[i2].0 == es[i2].0);
            }
        }
    }
}

/// Whether every root specifier names a package of the graph
pub open spec fn roots_resolved(root: RootLockfileNode) -> bool {
    forall|k: KeyView| #[trigger] root.specifiers.map().dom().contains(k) ==> root.children.map().dom().contains(k)
}

/// Law: the root specifiers a resolution starts from (those carried over from
/// an old graph) name packages of its graph.
pub proof fn law_start_roots_resolved(
    m: Manifest,
    lock: Option<RootLockfileNode>,
    locked: bool,
    r: Result<StrMap<(DependencySpecifier, DependencyType)>, ResolveError>,
    root0: RootLockfileNode,
    root: RootLockfileNode,
)
    requires
        missing_outcome(m, lock, locked, r, root0, root),
        r is Ok,
        root0.specifiers.map() == Map::<KeyView, (DependencySpecifier, String)>::empty(),
    ensures
        roots_resolved(root),
{
    let cur = merge_entries(Seq::<(Seq<char>, (DependencySpecifier, DependencyType))>::empty(), all_dependency_entries(m))->Ok_0;
    if uses_lock(m, lock) {
        let l = lock.unwrap();
        assert forall|k: KeyView| #[trigger] root.specifiers.map().dom().contains(k) implies root.children.map().dom().contains(k) by {
            assert(kept_root(l, cur, k));
            let path = seq![k];
            assert(is_lock_path(l, cur, path));
            assert(lock_reachable(l, cur, k));
        }
    }
}

/// Law: settling a dependency keeps every root specifier naming a package of
/// the graph (a root dependency is recorded together with its package).
pub proof fn law_settle_keeps_roots_resolved(s0: Resolver, s1: Resolver, p: PackageRef, dr: Option<Realm>, deps: DepEntries)
    requires
        s0.next < s0.queue@.len(),
        settled(s0, s1, p, dr, deps, Ok(())),
        roots_resolved(s0.root),
    ensures
        roots_resolved(s1.root),
{
    let key = (package_ref_name(p), package_ref_version(p));
    let c0 = s0.root.children.map();
    let c1 = s1.root.children.map();
    assert(c1.dom().contains(key));
    assert forall|k: KeyView| c0.dom().contains(k) implies c1.dom().contains(k) by {}
}

/// Law: finishing a resolution keeps every root specifier naming a package of
/// the graph.
pub proof fn law_finish_keeps_roots_resolved(s: Resolver, t: RootLockfileNode)
    requires
        s.root.wf(),
        finish_outcome(s, Ok::<RootLockfileNode, ResolveError>(t)),
        roots_resolved(s.root),
    ensures
        roots_resolved(t),
{
    if s.settle {
        let es = s.root.children.ev();
        if has_peer(es) {
            let j = choose|j: int| #[trigger] is_first_peer(es, j) && (Ok::<RootLockfileNode, ResolveError>(t) matches Err(ResolveError::PeerNotInstalled(n, v))
                && n@ == name_text(package_ref_name(es[j].1.pkg_ref)) && v == ref_version(es[j].1.pkg_ref));
        } else {
            let te = t.children.ev();
            lemma_entries_map(es);
            lemma_entries_map(te);
            assert forall|k: KeyView| #[trigger] t.specifiers.map().dom().contains(k) implies t.children.map().dom().contains(k) by {
                assert(s.root.children.map().dom().contains(k));
                let i = choose|i: int| 0 <= i < es.len() && es[i].0 == k;
                assert(te[i].0 == es[i].0);
            }
        }
    }
}

/// Law: where semver's comparison is a total order on the versions (as it
/// is), the version chosen for a requirement is at least every version of the
/// list that meets the requirement.
pub proof fn law_highest_matching_is_highest(vs: Seq<Seq<char>>, req: Seq<char>)
    requires
        crate::version::ordered_totally(vs),
    ensures
        forall|j: int| 0 <= j < vs.len() && semver_req_matches(req, #[trigger] vs[j])
            ==> (highest_matching(vs, req) matches Some(h) && semver_order(h, vs[j]) != KeyOrder::Less),
    decreases vs.len(),
{
    if vs.len() > 0 {
        let n = vs.len() - 1;
        let p = vs.drop_last();
        let last = vs.last();
        crate::version::lemma_ordered_totally_drop_last(vs);
        law_highest_matching_is_highest(p, req);
        law_highest_matching_meets(p, req);
        law_highest_matching_none(p, req);
        assert(vs[n] == last);
        assert(vs.contains(last));
        assert forall|j: int| 0 <= j < vs.len() && semver_req_matches(req, #[trigger] vs[j])
            implies (highest_matching(vs, req) matches Some(h) && semver_order(h, vs[j]) != KeyOrder::Less) by {
            if j < n {
                assert(p[j] == vs[j]);
                assert(vs.contains(vs[j]));
            }
            if semver_req_matches(req, last) {
                match highest_matching(p, req) {
                    None => {
                        if j < n {
                            assert(semver_req_matches(req, p[j]));
                        }
                        assert(j == n);
                    },
                    Some(m) => {
                        let mj = choose|mj: int| 0 <= mj < p.len() && p[mj] == m;
                        assert(vs[mj] == m);
                        assert(vs.contains(m));
                        if semver_order(m, last) == KeyOrder::Greater {
                            if j < n {
                                assert(semver_req_matches(req, p[j]));
                            }
                        } else {
                            assert(semver_order(last, m) != KeyOrder::Less);
                            if j < n {
                                assert(semver_req_matches(req, p[j]));
                                assert(semver_order(m, p[j]) != KeyOrder::Less);
                                assert(semver_order(last, vs[j]) != KeyOrder::Less);
                            }
                        }
                    },
                }
            } else {
                assert(j < n);
                assert(semver_req_matches(req, p[j]));
            }
        }
    }
}

} // verus!
