//! Manifest
use vstd::prelude::*;

pub mod overrides;
pub mod target;

verus! {

/// A dependency type
#[derive(Debug, Clone, Copy, PartialEq, Eq, Structural, Hash)]
pub enum DependencyType {
    /// A standard dependency
    Standard,
    /// A peer dependency
    Peer,
    /// A dev dependency
    Dev,
}

/// The realm a package runs in
#[derive(Debug, Clone, Copy, PartialEq, Eq, Structural, Hash)]
pub enum Realm {
    /// Shared between server and client
    Shared,
    /// Server only
    Server,
    /// Development only
    Development,
}

/// The realm of a package: where a package of realm `a` that asks for realm
/// `b` ends up; a shared package takes the other realm, any other keeps its own
pub open spec fn spec_realm_or(a: Realm, b: Realm) -> Realm {
    match a {
        Realm::Shared => b,
        _ => a,
    }
}

impl Realm {
    /// Returns the most restrictive of the two realms
    pub fn or(self, other: Realm) -> (r: Realm)
        ensures
            r == spec_realm_or(self, other),
    {
        match self {
            Realm::Shared => other,
            _ => self,
        }
    }
}

impl Default for Realm {
    fn default() -> (r: Realm)
        ensures
            r == Realm::Shared,
    {
        Realm::Shared
    }
}

} // verus!

use crate::dependencies::DependencySpecifier;
use crate::strmap::{entries_insert, key_index, StrMap};

verus! {

/// A package manifest
#[derive(Debug)]
pub struct Manifest {
    /// The name of the package
    pub name: crate::names::PackageName,
    /// The version of the package
    pub version: crate::version::Version,
    /// The description of the package
    pub description: Option<String>,
    /// The license of the package
    pub license: Option<String>,
    /// The authors of the package
    pub authors: Vec<String>,
    /// The repository of the package
    pub repository: Option<String>,
    /// The target of the package
    pub target: target::Target,
    /// Whether the package is private
    pub private: bool,
    /// The scripts of the package (name to relative path)
    pub scripts: StrMap<String>,
    /// The indices to use for the package (name to URL)
    pub indices: StrMap<String>,
    /// The indices to use for the package's wally dependencies
    pub wally_indices: StrMap<String>,
    /// The overrides this package has
    pub overrides: Vec<(overrides::OverrideKey, DependencySpecifier)>,
    /// The files to include in the package
    pub includes: Vec<String>,
    /// Which version of the pesde CLI this package uses
    pub pesde_version: Option<crate::version::Version>,
    /// The standard dependencies of the package
    pub dependencies: StrMap<DependencySpecifier>,
    /// The peer dependencies of the package
    pub peer_dependencies: StrMap<DependencySpecifier>,
    /// The dev dependencies of the package
    pub dev_dependencies: StrMap<DependencySpecifier>,
}

/// Errors that can occur when trying to get all dependencies from a manifest
#[derive(Debug)]
#[non_exhaustive]
pub enum AllDependenciesError {
    /// Another specifier is already using the alias
    AliasConflict(String),
}

/// The entries of a dependency table, tagged with their type
pub open spec fn typed_entries(m: StrMap<DependencySpecifier>, ty: DependencyType) -> Seq<(Seq<char>, (DependencySpecifier, DependencyType))> {
    m.ev().map_values(|e: (Seq<char>, DependencySpecifier)| (e.0, (e.1, ty)))
}

/// Inserting entries in order into a map, failing at the first alias that is
/// already taken
pub open spec fn merge_entries<V>(acc: Seq<(Seq<char>, V)>, es: Seq<(Seq<char>, V)>) -> Result<Seq<(Seq<char>, V)>, Seq<char>>
    decreases es.len(),
{
    if es.len() == 0 {
        Ok(acc)
    } else if key_index(acc.map_values(|e: (Seq<char>, V)| e.0), es[0].0) is Some {
        Err(es[0].0)
    } else {
        merge_entries(entries_insert(acc, es[0].0, es[0].1), es.drop_first())
    }
}

/// The standard, then peer, then dev dependencies, each table in key order
pub open spec fn all_dependency_entries(m: Manifest) -> Seq<(Seq<char>, (DependencySpecifier, DependencyType))> {
    typed_entries(m.dependencies, DependencyType::Standard) + typed_entries(m.peer_dependencies, DependencyType::Peer)
        + typed_entries(m.dev_dependencies, DependencyType::Dev)
}

impl Manifest {
    pub open spec fn wf(self) -> bool {
        &&& self.dependencies.wf()
        &&& self.peer_dependencies.wf()
        &&& self.dev_dependencies.wf()
        &&& self.scripts.wf()
        &&& self.indices.wf()
        &&& self.wally_indices.wf()
    }

    /// Get all dependencies from the manifest
    pub fn all_dependencies(&self) -> (r: Result<StrMap<(DependencySpecifier, DependencyType)>, AllDependenciesError>)
        requires
            self.wf(),
        ensures
            match r {
                Ok(m) => m.wf() && merge_entries(Seq::empty(), all_dependency_entries(*self)) == Ok::<_, Seq<char>>(m.ev()),
                Err(AllDependenciesError::AliasConflict(a)) => merge_entries(Seq::empty(), all_dependency_entries(*self)) == Err::<Seq<(Seq<char>, (DependencySpecifier, DependencyType))>, _>(a@),
            },
    {
        let ghost all = all_dependency_entries(*self);
        let mut out: StrMap<(DependencySpecifier, DependencyType)> = StrMap::new();
        let ghost a = typed_entries(self.dependencies, DependencyType::Standard);
        let ghost b = typed_entries(self.peer_dependencies, DependencyType::Peer);
        let ghost c = typed_entries(self.dev_dependencies, DependencyType::Dev);
        proof {
            assert(all.skip(0) =~= all);
            assert(all.subrange(0, a.len() as int) =~= a);
            assert(all.subrange(a.len() as int, (a.len() + b.len()) as int) =~= b);
            assert(all.subrange((a.len() + b.len()) as int, (a.len() + b.len() + c.len()) as int) =~= c);
        }
        let r1 = merge_table(&mut out, &self.dependencies, DependencyType::Standard, Ghost(all), Ghost(0));
        if let Err(a) = r1 {
            return Err(AllDependenciesError::AliasConflict(a));
        }
        let r2 = merge_table(&mut out, &self.peer_dependencies, DependencyType::Peer, Ghost(all), Ghost(typed_entries(self.dependencies, DependencyType::Standard).len() as int));
        if let Err(a) = r2 {
            return Err(AllDependenciesError::AliasConflict(a));
        }
        let r3 = merge_table(&mut out, &self.dev_dependencies, DependencyType::Dev, Ghost(all), Ghost((typed_entries(self.dependencies, DependencyType::Standard).len() + typed_entries(self.peer_dependencies, DependencyType::Peer).len()) as int));
        if let Err(a) = r3 {
            return Err(AllDependenciesError::AliasConflict(a));
        }
        proof {
            assert(all.skip(all.len() as int) =~= Seq::<(Seq<char>, (DependencySpecifier, DependencyType))>::empty());
        }
        Ok(out)
    }
}

/// Inserts one table's entries, which stand at `pos` in `all`.
fn merge_table(
    out: &mut StrMap<(DependencySpecifier, DependencyType)>,
    table: &StrMap<DependencySpecifier>,
    ty: DependencyType,
    Ghost(all): Ghost<Seq<(Seq<char>, (DependencySpecifier, DependencyType))>>,
    Ghost(pos): Ghost<int>,
) -> (r: Result<(), String>)
    requires
        old(out).wf(),
        table.wf(),
        0 <= pos,
        pos + table.ev().len() <= all.len(),
        all.subrange(pos, pos + table.ev().len()) == typed_entries(*table, ty),
        merge_entries(Seq::empty(), all) == merge_entries(old(out).ev(), all.skip(pos)),
    ensures
        final(out).wf(),
        match r {
            Ok(()) => merge_entries(Seq::empty(), all) == merge_entries(final(out).ev(), all.skip(pos + table.ev().len())),
            Err(a) => merge_entries(Seq::empty(), all) == Err::<Seq<(Seq<char>, (DependencySpecifier, DependencyType))>, _>(a@),
        },
{
    let mut i: usize = 0;
    while i < table.len()
        invariant
            out.wf(),
            table.wf(),
            0 <= pos,
            pos + table.ev().len() <= all.len(),
            all.subrange(pos, pos + table.ev().len()) == typed_entries(*table, ty),
            i <= table.ev().len(),
            merge_entries(Seq::empty(), all) == merge_entries(out.ev(), all.skip(pos + i)),
        decreases table.ev().len() - i,
    {
        let key = table.key_at(i);
        let value = table.value_at(i);
        let ghost rest = all.skip(pos + i);
        proof {
            assert(rest[0] == all.subrange(pos, pos + table.ev().len())[i as int]);
            assert(rest[0] == (key@, (*value, ty)));
            assert(rest.drop_first() =~= all.skip(pos + i + 1));
        }
        let found = out.find(key.as_str());
        if found.is_some() {
            return Err(key.clone());
        }
        out.insert(key.clone(), (value.clone(), ty));
        i = i + 1;
    }
    Ok(())
}

/// The name of a script the tool runs
#[derive(Debug, Clone, Copy, PartialEq, Eq, Structural, Hash)]
pub enum ScriptName {
    /// The script that generates the Roblox sync configuration of a package
    RobloxSyncConfigGenerator,
    /// The script that generates a sourcemap
    SourcemapGenerator,
}

/// The text of a script name
pub open spec fn script_name_text(n: ScriptName) -> Seq<char> {
    match n {
        ScriptName::RobloxSyncConfigGenerator => "roblox_sync_config_generator"@,
        ScriptName::SourcemapGenerator => "sourcemap_generator"@,
    }
}

impl ScriptName {
    /// The name of the script
    pub fn to_string(&self) -> (s: String)
        ensures
            s@ == script_name_text(*self),
    {
        match self {
            ScriptName::RobloxSyncConfigGenerator => crate::text::str_to_string("roblox_sync_config_generator"),
            ScriptName::SourcemapGenerator => crate::text::str_to_string("sourcemap_generator"),
        }
    }
}

/// Whether no alias appears twice among the entries
pub open spec fn aliases_distinct<V>(es: Seq<(Seq<char>, V)>) -> bool {
    forall|i: int, j: int| 0 <= i < j < es.len() ==> (#[trigger] es[i]).0 != (#[trigger] es[j]).0
}

/// Whether an alias is a key of the entries
pub open spec fn has_alias<V>(es: Seq<(Seq<char>, V)>, a: Seq<char>) -> bool {
    exists|i: int| 0 <= i < es.len() && (#[trigger] es[i]).0 == a
}

/// Setting an alias gives the entries that alias and no other new one.
proof fn lemma_insert_aliases<V>(acc: Seq<(Seq<char>, V)>, k: Seq<char>, v: V, a: Seq<char>)
    ensures
        has_alias(entries_insert(acc, k, v), a) <==> (a == k || has_alias(acc, a)),
{
    let keys = acc.map_values(|e: (Seq<char>, V)| e.0);
    let n = entries_insert(acc, k, v);
    match key_index(keys, k) {
        Some(i) => {
            assert(keys[i] == k);
            if has_alias(n, a) {
                let j = choose|j: int| 0 <= j < n.len() && (#[trigger] n[j]).0 == a;
                if j != i {
                    assert(n[j] == acc[j]);
                }
            }
            if a == k {
                assert(n[i].0 == a);
            } else if has_alias(acc, a) {
                let j = choose|j: int| 0 <= j < acc.len() && (#[trigger] acc[j]).0 == a;
                assert(n[j].0 == a);
            }
        },
        None => {
            crate::strmap::lemma_count_below_bounds(keys, k);
            let c = crate::strmap::count_below(keys, k);
            assert(n =~= acc.insert(c, (k, v)));
            if has_alias(n, a) {
                let j = choose|j: int| 0 <= j < n.len() && (#[trigger] n[j]).0 == a;
                if j < c {
                    assert(n[j] == acc[j]);
                } else if j > c {
                    assert(n[j] == acc[j - 1]);
                }
            }
            if a == k {
                assert(n[c].0 == a);
            } else if has_alias(acc, a) {
                let j = choose|j: int| 0 <= j < acc.len() && (#[trigger] acc[j]).0 == a;
                if j < c {
                    assert(n[j].0 == a);
                } else {
                    assert(n[j + 1].0 == a);
                }
            }
        },
    }
}

/// Merging succeeds exactly when no alias repeats, among the new entries or
/// between them and the entries already there.
pub proof fn lemma_merge_ok<V>(acc: Seq<(Seq<char>, V)>, es: Seq<(Seq<char>, V)>)
    ensures
        (merge_entries(acc, es) is Ok) <==> (aliases_distinct(es) && forall|j: int| 0 <= j < es.len() ==> !has_alias(acc, (#[trigger] es[j]).0)),
    decreases es.len(),
{
    if es.len() > 0 {
        let keys = acc.map_values(|e: (Seq<char>, V)| e.0);
        let acc2 = entries_insert(acc, es[0].0, es[0].1);
        let rest = es.drop_first();
        lemma_merge_ok(acc2, rest);
        assert(key_index(keys, es[0].0) is Some <==> has_alias(acc, es[0].0)) by {
            if has_alias(acc, es[0].0) {
                let j = choose|j: int| 0 <= j < acc.len() && (#[trigger] acc[j]).0 == es[0].0;
                assert(keys[j] == es[0].0);
            }
            if key_index(keys, es[0].0) is Some {
                let j = key_index(keys, es[0].0)->0;
                assert(acc[j].0 == es[0].0);
            }
        }
        assert forall|j: int| 0 <= j < rest.len() implies has_alias(acc2, (#[trigger] rest[j]).0) <==> (rest[j].0 == es[0].0 || has_alias(acc, rest[j].0)) by {
            lemma_insert_aliases(acc, es[0].0, es[0].1, rest[j].0);
        }
        if merge_entries(acc, es) is Ok {
            assert forall|a: int, b: int| 0 <= a < b < es.len() implies (#[trigger] es[a]).0 != (#[trigger] es[b]).0 by {
                if a == 0 {
                    assert(rest[b - 1] == es[b]);
                } else {
                    assert(rest[a - 1] == es[a] && rest[b - 1] == es[b]);
                }
            }
            assert forall|j: int| 0 <= j < es.len() implies !has_alias(acc, (#[trigger] es[j]).0) by {
                if j > 0 {
                    assert(rest[j - 1] == es[j]);
                }
            }
        }
        if aliases_distinct(es) && forall|j: int| 0 <= j < es.len() ==> !has_alias(acc, (#[trigger] es[j]).0) {
            assert(!has_alias(acc, es[0].0));
            assert forall|a: int, b: int| 0 <= a < b < rest.len() implies (#[trigger] rest[a]).0 != (#[trigger] rest[b]).0 by {
                assert(rest[a] == es[a + 1] && rest[b] == es[b + 1]);
            }
            assert forall|j: int| 0 <= j < rest.len() implies !has_alias(acc2, (#[trigger] rest[j]).0) by {
                assert(rest[j] == es[j + 1]);
                assert(es[0].0 != es[j + 1].0);
            }
        }
    }
}

/// Law: a manifest's dependencies can all be had exactly when no alias is used
/// twice across its standard, peer and dev dependencies.
pub proof fn law_all_dependencies_ok(m: Manifest)
    ensures
        (merge_entries(Seq::empty(), all_dependency_entries(m)) is Ok) <==> aliases_distinct(all_dependency_entries(m)),
{
    lemma_merge_ok(Seq::<(Seq<char>, (DependencySpecifier, DependencyType))>::empty(), all_dependency_entries(m));
}

} // verus!
