//! Options and checks of a project
use vstd::prelude::*;

use crate::dependencies::resolution::{copy_key, overrides_eq, overrides_view, PackageKey, ResolvedPackage};
use crate::dependencies::{specifiers_eq, SpecifierView};
use crate::keyed::{entries_map, keys_distinct, KeyedMap};
use crate::lockfile::{DownloadedDependencyGraphNode, Lockfile};
use crate::manifest::target::spec_target_kind;
use crate::manifest::{all_dependency_entries, merge_entries, AllDependenciesError, DependencyType, Manifest};
use crate::text::str_eq;

verus! {

/// Options for installing a project
#[derive(Debug)]
pub struct InstallOptions {
    /// Whether the lockfile must be used and stay as it is
    pub locked: bool,
    /// Whether the dependencies are downloaded as part of the installation
    pub auto_download: bool,
    /// The packages already resolved, to use in place of a new resolution
    pub resolved_versions_map: Option<KeyedMap<PackageKey, ResolvedPackage>>,
}

/// Whether two maps of packages hold the same packages
pub open spec fn same_packages(a: KeyedMap<PackageKey, ResolvedPackage>, b: KeyedMap<PackageKey, ResolvedPackage>) -> bool {
    &&& a.map().dom() == b.map().dom()
    &&& forall|k: (crate::package_name::PackageNameView, Seq<char>)| #[trigger] a.map().dom().contains(k)
        ==> crate::dependencies::resolution::same_package(a.map()[k], b.map()[k])
}

/// Whether two maps of packages hold the same packages in the same order
pub open spec fn same_entries(a: KeyedMap<PackageKey, ResolvedPackage>, b: KeyedMap<PackageKey, ResolvedPackage>) -> bool {
    &&& a.ev().len() == b.ev().len()
    &&& forall|j: int| 0 <= j < a.ev().len() ==> (#[trigger] a.ev()[j]).0 == b.ev()[j].0
        && crate::dependencies::resolution::same_package(a.ev()[j].1, b.ev()[j].1)
}

/// Whether two optional maps of packages hold the same
pub open spec fn same_optional_packages(
    a: Option<KeyedMap<PackageKey, ResolvedPackage>>,
    b: Option<KeyedMap<PackageKey, ResolvedPackage>>,
) -> bool {
    match (a, b) {
        (None, None) => true,
        (Some(x), Some(y)) => same_packages(x, y) && same_entries(x, y),
        _ => false,
    }
}

/// Whether every package of the map is well formed
pub open spec fn packages_wf(m: KeyedMap<PackageKey, ResolvedPackage>) -> bool {
    &&& m.wf()
    &&& forall|k: (crate::package_name::PackageNameView, Seq<char>)| #[trigger] m.map().dom().contains(k) ==> m.map()[k].wf()
}

/// A copy of a map of packages
fn copy_packages(m: &KeyedMap<PackageKey, ResolvedPackage>) -> (r: KeyedMap<PackageKey, ResolvedPackage>)
    requires
        packages_wf(*m),
    ensures
        packages_wf(r),
        same_packages(r, *m),
        same_entries(r, *m),
{
    let mut out: KeyedMap<PackageKey, ResolvedPackage> = KeyedMap::new();
    let mut i: usize = 0;
    proof {
        crate::keyed::lemma_entries_map(m.ev());
    }
    while i < m.len()
        invariant
            packages_wf(*m),
            packages_wf(out),
            i <= m.ev().len(),
            out.map().dom() == entries_map(m.ev().take(i as int)).dom(),
            forall|k: (crate::package_name::PackageNameView, Seq<char>)| #[trigger] out.map().dom().contains(k)
                ==> crate::dependencies::resolution::same_package(out.map()[k], entries_map(m.ev().take(i as int))[k]),
            forall|j: int| 0 <= j < m.ev().len() ==> #[trigger] m.ev()[j].1 == m.map()[m.ev()[j].0],
            out.ev().len() == i,
            forall|j: int| 0 <= j < i ==> (#[trigger] out.ev()[j]).0 == m.ev()[j].0
                && crate::dependencies::resolution::same_package(out.ev()[j].1, m.ev()[j].1),
        decreases m.ev().len() - i,
    {
        let (k, p) = m.entry_at(i);
        proof {
            assert(m.map().dom().contains(m.ev()[i as int].0)) by {
                crate::keyed::lemma_entries_map(m.ev());
            }
            assert(p.wf());
            assert(m.ev().take(i + 1).drop_last() =~= m.ev().take(i as int));
            assert(m.ev().take(i + 1).last() == m.ev()[i as int]);
        }
        let ghost before = out.ev();
        proof {
            let t = m.ev().take(i as int);
            assert(keys_distinct(t)) by {
                assert forall|a: int, b: int| 0 <= a < b < t.len() implies (#[trigger] t[a]).0 != (#[trigger] t[b]).0 by {
                    assert(t[a] == m.ev()[a] && t[b] == m.ev()[b]);
                }
            }
            crate::keyed::lemma_entries_map(t);
            if entries_map(t).dom().contains(m.ev()[i as int].0) {
                let j = choose|j: int| 0 <= j < t.len() && t[j].0 == m.ev()[i as int].0;
                assert(t[j] == m.ev()[j]);
            }
        }
        let key = copy_key(k);
        let node = p.copy();
        let n = out.len();
        out.insert_new_at(n, key, node);
        proof {
            assert(out.ev() =~= before.push((key@, node)));
        }
        i = i + 1;
    }
    proof {
        assert(m.ev().take(i as int) =~= m.ev());
    }
    out
}

fn copy_optional_packages(m: &Option<KeyedMap<PackageKey, ResolvedPackage>>) -> (r: Option<KeyedMap<PackageKey, ResolvedPackage>>)
    requires
        *m matches Some(x) ==> packages_wf(x),
    ensures
        same_optional_packages(r, *m),
        r matches Some(x) ==> packages_wf(x),
{
    match m {
        Some(x) => Some(copy_packages(x)),
        None => None,
    }
}

impl InstallOptions {
    pub open spec fn wf(self) -> bool {
        self.resolved_versions_map matches Some(x) ==> packages_wf(x)
    }

    /// Creates a new set of install options: not locked, downloading, with no
    /// packages resolved beforehand
    pub fn new() -> (r: Self)
        ensures
            r.wf(),
            !r.locked,
            r.auto_download,
            r.resolved_versions_map is None,
    {
        InstallOptions { locked: false, auto_download: true, resolved_versions_map: None }
    }

    /// Makes the installation use the lockfile, and ensure that the lockfile is up-to-date
    pub fn locked(&self, locked: bool) -> (r: Self)
        requires
            self.wf(),
        ensures
            r.wf(),
            r.locked == locked,
            r.auto_download == self.auto_download,
            same_optional_packages(r.resolved_versions_map, self.resolved_versions_map),
    {
        InstallOptions {
            locked,
            auto_download: self.auto_download,
            resolved_versions_map: copy_optional_packages(&self.resolved_versions_map),
        }
    }

    /// Makes the installation download the dependencies itself, or not
    pub fn auto_download(&self, auto_download: bool) -> (r: Self)
        requires
            self.wf(),
        ensures
            r.wf(),
            r.locked == self.locked,
            r.auto_download == auto_download,
            same_optional_packages(r.resolved_versions_map, self.resolved_versions_map),
    {
        InstallOptions {
            locked: self.locked,
            auto_download,
            resolved_versions_map: copy_optional_packages(&self.resolved_versions_map),
        }
    }

    /// Makes the installation use the given resolved packages
    pub fn resolved_versions_map(&self, resolved_versions_map: KeyedMap<PackageKey, ResolvedPackage>) -> (r: Self)
        ensures
            r.locked == self.locked,
            r.auto_download == self.auto_download,
            r.resolved_versions_map == Some(resolved_versions_map),
    {
        InstallOptions {
            locked: self.locked,
            auto_download: self.auto_download,
            resolved_versions_map: Some(resolved_versions_map),
        }
    }
}

impl Default for InstallOptions {
    fn default() -> (r: Self)
        ensures
            r.wf(),
            !r.locked,
            r.auto_download,
            r.resolved_versions_map is None,
    {
        InstallOptions::new()
    }
}

/// An error that occurred while creating a new project
#[derive(Debug)]
pub enum NewProjectError {
    /// A default index was not provided
    DefaultIndexNotProvided,
}

/// Checks that the indices of a project include the default one
pub fn require_default_index(index_names: &Vec<String>) -> (r: Result<(), NewProjectError>)
    ensures
        r is Ok <==> exists|i: int| 0 <= i < index_names@.len() && (#[trigger] index_names@[i])@ == crate::dependencies::registry::default_index_text(),
{
    let default = crate::dependencies::registry::default_index_name();
    let mut i: usize = 0;
    while i < index_names.len()
        invariant
            default@ == crate::dependencies::registry::default_index_text(),
            i <= index_names@.len(),
            forall|j: int| 0 <= j < i ==> (#[trigger] index_names@[j])@ != crate::dependencies::registry::default_index_text(),
        decreases index_names@.len() - i,
    {
        if str_eq(index_names[i].as_str(), default.as_str()) {
            return Ok(());
        }
        i = i + 1;
    }
    Err(NewProjectError::DefaultIndexNotProvided)
}

/// Whether the lockfile holds a direct dependency with the specifier and type
pub open spec fn direct_spec_in<K>(graph: Seq<(K, DownloadedDependencyGraphNode)>, s: SpecifierView, ty: DependencyType) -> bool {
    exists|j: int| 0 <= j < graph.len() && ((#[trigger] graph[j]).1.node.direct matches Some(d) && d.1@ == s && graph[j].1.node.ty == ty)
}

/// Whether the lockfile holds a direct dependency with the specifier and type
fn has_direct_spec(lockfile: &Lockfile, s: &crate::dependencies::DependencySpecifier, ty: DependencyType) -> (r: bool)
    ensures
        r == direct_spec_in(lockfile.graph.ev(), s@, ty),
{
    let mut i: usize = 0;
    while i < lockfile.graph.len()
        invariant
            i <= lockfile.graph.ev().len(),
            forall|j: int| 0 <= j < i ==> !((#[trigger] lockfile.graph.ev()[j]).1.node.direct matches Some(d) && d.1@ == s@
                && lockfile.graph.ev()[j].1.node.ty == ty),
        decreases lockfile.graph.ev().len() - i,
    {
        let (_, node) = lockfile.graph.entry_at(i);
        match &node.node.direct {
            Some(d) => {
                if specifiers_eq(&d.1, s) && node.node.ty == ty {
                    return true;
                }
            },
            None => {},
        }
        i = i + 1;
    }
    false
}

/// Whether the lockfile is up to date with the manifest: no lockfile is not;
/// the overrides and the target kind must agree; where `strict`, also the name
/// and version, and every dependency of the manifest must be a direct
/// dependency of the lockfile with the same specifier and type
pub fn is_up_to_date(manifest: &Manifest, lockfile: Option<&Lockfile>, strict: bool) -> (r: Result<bool, AllDependenciesError>)
    requires
        manifest.wf(),
    ensures
        match lockfile {
            None => r == Ok::<bool, AllDependenciesError>(false),
            Some(l) => if overrides_view(manifest.overrides@) != overrides_view(l.overrides@) || spec_target_kind(manifest.target)
                != l.target {
                r == Ok::<bool, AllDependenciesError>(false)
            } else if !strict {
                r == Ok::<bool, AllDependenciesError>(true)
            } else if manifest.name@ != l.name@ || manifest.version@ != l.version@ {
                r == Ok::<bool, AllDependenciesError>(false)
            } else {
                match merge_entries(Seq::empty(), all_dependency_entries(*manifest)) {
                    Err(a) => r matches Err(AllDependenciesError::AliasConflict(x)) && x@ == a,
                    Ok(cur) => r == Ok::<bool, AllDependenciesError>(
                        forall|i: int| 0 <= i < cur.len() ==> direct_spec_in(l.graph.ev(), (#[trigger] cur[i]).1.0@, cur[i].1.1),
                    ),
                }
            },
        },
{
    let l = match lockfile {
        None => return Ok(false),
        Some(l) => l,
    };
    if !overrides_eq(&manifest.overrides, &l.overrides) {
        return Ok(false);
    }
    if manifest.target.kind() != l.target {
        return Ok(false);
    }
    if !strict {
        return Ok(true);
    }
    let (a0, a1) = manifest.name.as_str();
    let (b0, b1) = l.name.as_str();
    if !str_eq(a0, b0) || !str_eq(a1, b1) || !str_eq(manifest.version.as_str(), l.version.as_str()) {
        return Ok(false);
    }
    let all = manifest.all_dependencies()?;
    let ghost cur = all.ev();
    let mut i: usize = 0;
    while i < all.len()
        invariant
            cur == all.ev(),
            lockfile == Some(l),
            strict,
            overrides_view(manifest.overrides@) == overrides_view(l.overrides@),
            spec_target_kind(manifest.target) == l.target,
            manifest.name@ == l.name@,
            manifest.version@ == l.version@,
            merge_entries(Seq::empty(), all_dependency_entries(*manifest)) == Ok::<_, Seq<char>>(cur),
            i <= cur.len(),
            forall|j: int| 0 <= j < i ==> direct_spec_in(l.graph.ev(), (#[trigger] cur[j]).1.0@, cur[j].1.1),
        decreases cur.len() - i,
    {
        let e = all.value_at(i);
        if !has_direct_spec(l, &e.0, e.1) {
            return Ok(false);
        }
        i = i + 1;
    }
    Ok(true)
}

} // verus!
