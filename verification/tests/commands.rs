use pesde::commands::{added_entry, AddedPackage, AddedSpecifier, DependencyTable,
    add_specifier, dependency_key, insert_into, outdated_message, remove_dependency, root_package, search_line, split_versioned,
};
use pesde::dependencies::git::GitDependencySpecifier;
use pesde::dependencies::registry::RegistryDependencySpecifier;
use pesde::dependencies::resolution::{IndexFileEntry, RootLockfileNode};
use pesde::dependencies::DependencySpecifier;
use pesde::manifest::target::{Target, TargetKind};
use pesde::manifest::{DependencyType, Manifest, Realm};
use pesde::package_name::{PackageName, StandardPackageName};
use pesde::strmap::StrMap;
use pesde::version::{Version, VersionReq};

fn name(s: &str) -> PackageName {
    PackageName::from_str(s).ok().unwrap()
}

fn req(s: &str) -> VersionReq {
    VersionReq::parse(s).ok().unwrap()
}

fn version(s: &str) -> Version {
    Version::parse(s).ok().unwrap()
}

fn keys(m: &StrMap<DependencySpecifier>) -> Vec<String> {
    (0..m.len()).map(|i| m.key_at(i).clone()).collect()
}

#[test]
fn test_add_specifier() {
    match add_specifier(name("acme/tool"), req("^1.2"), Some(Realm::Server), "https://wally".to_string()) {
        DependencySpecifier::Registry(r) => {
            assert_eq!(r.name.to_string(), "acme/tool");
            assert_eq!(r.version.as_str(), "^1.2");
            assert_eq!(r.index, "default");
            assert_eq!(r.realm, Some(Realm::Server));
        },
        _ => panic!("a standard name gives a registry dependency"),
    }
    match add_specifier(name("wally#roblox/roact"), req("^1"), None, "https://wally".to_string()) {
        DependencySpecifier::Wally(w) => {
            assert_eq!(w.name.to_string(), "wally#roblox/roact");
            assert_eq!(w.index_url, "https://wally");
            assert_eq!(w.realm, None);
        },
        _ => panic!("a wally name gives a wally dependency"),
    }
}

#[test]
fn test_insert_into_picks_free_key() {
    let mut deps = StrMap::new();
    let tool = name("acme/tool");
    let spec = || add_specifier(tool.clone(), req("^1"), None, String::new());
    insert_into(&mut deps, spec(), &tool);
    assert_eq!(keys(&deps), vec!["tool"]);
    // the short name is taken: the scoped name is used
    let other = name("other/tool");
    assert_eq!(dependency_key(&deps, &other).unwrap(), "other/tool");
    insert_into(&mut deps, add_specifier(other.clone(), req("^1"), None, String::new()), &other);
    assert_eq!(keys(&deps), vec!["other/tool", "tool"]);
    // a wally name falls back to its full name
    let w = name("wally#other/tool");
    insert_into(&mut deps, add_specifier(w.clone(), req("^1"), None, String::new()), &w);
    assert_eq!(keys(&deps), vec!["other/tool", "tool", "wally#other/tool"]);
    assert!(dependency_key(&deps, &w).is_none());
}

#[test]
fn test_remove_dependency() {
    let mut deps = StrMap::new();
    let tool = name("acme/tool");
    deps.insert("a".to_string(), add_specifier(tool.clone(), req("^1"), None, String::new()));
    deps.insert("b".to_string(), add_specifier(name("acme/other"), req("^1"), None, String::new()));
    deps.insert(
        "c".to_string(),
        DependencySpecifier::Git(GitDependencySpecifier { repo: "acme/tool".to_string(), rev: "main".to_string(), realm: None }),
    );
    deps.insert("d".to_string(), add_specifier(tool.clone(), req("^2"), None, String::new()));
    deps.insert("e".to_string(), add_specifier(name("wally#acme/tool"), req("^1"), None, String::new()));
    remove_dependency(&mut deps, &tool);
    assert_eq!(keys(&deps), vec!["b", "c", "e"]);
}

#[test]
fn test_outdated_message() {
    let n = name("acme/tool");
    assert_eq!(
        outdated_message(&n, &version("1.0.0"), &version("1.2.0")).unwrap(),
        "acme/tool@1.0.0 is outdated. latest version: 1.2.0"
    );
    assert!(outdated_message(&n, &version("1.2.0"), &version("1.2.0")).is_none());
    assert!(outdated_message(&n, &version("2.0.0"), &version("1.2.0")).is_none());
    assert!(outdated_message(&n, &version("1.0.0-beta"), &version("1.0.0")).is_some());
}

fn manifest(deps: Vec<(&str, DependencySpecifier)>) -> Manifest {
    let mut table = StrMap::new();
    for (k, v) in deps {
        table.insert(k.to_string(), v);
    }
    Manifest {
        name: pesde::names::PackageName::from_str("acme/app").ok().unwrap(),
        version: version("0.1.0"),
        description: None,
        license: None,
        authors: vec![],
        repository: None,
        target: Target::Luau { lib: None, bin: None },
        private: false,
        scripts: StrMap::new(),
        indices: StrMap::new(),
        wally_indices: StrMap::new(),
        overrides: vec![],
        includes: vec![],
        pesde_version: None,
        dependencies: table,
        peer_dependencies: StrMap::new(),
        dev_dependencies: StrMap::new(),
    }
}

fn reg(n: &str, r: &str) -> DependencySpecifier {
    DependencySpecifier::Registry(RegistryDependencySpecifier {
        name: StandardPackageName::from_str(n).ok().unwrap(),
        version: req(r),
        index: "default".to_string(),
        realm: None,
    })
}

#[test]
fn test_root_package() {
    let m = manifest(vec![("a", reg("acme/a", "^1"))]);
    let mut r = m.dependency_graph(false, None).ok().unwrap();
    let mut deps = StrMap::new();
    deps.insert("b".to_string(), (reg("acme/b", "^1"), DependencyType::Standard));
    let res = r.resolve_from_index(
        "https://index".to_string(),
        Some(vec![IndexFileEntry { version: version("1.0.0"), realm: None, dependencies: deps }]),
    );
    assert!(matches!(res, Some(Ok(()))));
    let res = r.resolve_from_index(
        "https://index".to_string(),
        Some(vec![IndexFileEntry { version: version("1.0.0"), realm: None, dependencies: StrMap::new() }]),
    );
    assert!(matches!(res, Some(Ok(()))));
    let lock: RootLockfileNode = r.finish().ok().unwrap();
    let i = root_package(&lock, &name("acme/a")).unwrap();
    assert_eq!(lock.children.entry_at(i).1.pkg_ref.to_string(), "acme/a@1.0.0");
    // acme/b is in the lockfile, but the project does not depend on it directly
    assert!(root_package(&lock, &name("acme/b")).is_none());
    assert!(root_package(&lock, &name("acme/c")).is_none());
}

#[test]
fn test_split_versioned() {
    assert_eq!(split_versioned("acme/tool@^1.0"), ("acme/tool".to_string(), Some("^1.0".to_string())));
    assert_eq!(split_versioned("acme/tool"), ("acme/tool".to_string(), None));
    assert_eq!(split_versioned("a@b@c"), ("a".to_string(), Some("b@c".to_string())));
    assert_eq!(split_versioned("@"), ("".to_string(), Some("".to_string())));
}

#[test]
fn test_add_then_remove() {
    let mut deps = StrMap::new();
    deps.insert("other".to_string(), add_specifier(name("acme/other"), req("^1"), None, String::new()));
    let before = keys(&deps);
    let tool = name("acme/tool");
    insert_into(&mut deps, add_specifier(tool.clone(), req("^1"), None, String::new()), &tool);
    assert_eq!(keys(&deps), vec!["other", "tool"]);
    remove_dependency(&mut deps, &tool);
    assert_eq!(keys(&deps), before);
}

#[test]
fn test_search_line() {
    assert_eq!(search_line("acme/tool", "1.0.0", Some("A tool")), "acme/tool@1.0.0\nA tool\n");
    assert_eq!(search_line("acme/tool", "1.0.0", Some("")), "acme/tool@1.0.0");
    assert_eq!(search_line("acme/tool", "1.0.0", None), "acme/tool@1.0.0");
}

#[test]
fn test_remove_twice() {
    let mut deps = StrMap::new();
    let tool = name("acme/tool");
    deps.insert("a".to_string(), add_specifier(tool.clone(), req("^1"), None, String::new()));
    deps.insert("b".to_string(), add_specifier(name("acme/other"), req("^1"), None, String::new()));
    remove_dependency(&mut deps, &tool);
    let once = keys(&deps);
    remove_dependency(&mut deps, &tool);
    assert_eq!(keys(&deps), once);
    assert_eq!(once, vec!["b"]);
}

#[test]
fn test_added_entry_pesde() {
    let package = AddedPackage::Pesde {
        name: pesde::names::PackageName::from_str("acme/tool").ok().unwrap(),
        version: Version::parse("1.2.3").unwrap(),
        target: TargetKind::Lune,
        index: Some("default".to_string()),
    };
    let entry = added_entry(&package, false, false, None, TargetKind::Luau);
    assert_eq!(entry.table, DependencyTable::Dependencies);
    assert_eq!(entry.table.key(), "dependencies");
    assert_eq!(entry.alias, "tool");
    match entry.specifier {
        AddedSpecifier::Pesde { name, version, target, index } => {
            assert_eq!(name, "acme/tool");
            assert_eq!(version, "^1.2.3");
            // the target differs from the project's, so it is kept; `default` is not
            assert_eq!(target, Some(TargetKind::Lune));
            assert_eq!(index, None);
        },
        _ => panic!("expected a pesde entry"),
    }
    let same_target = added_entry(&package, true, true, Some("t"), TargetKind::Lune);
    assert_eq!(same_target.table, DependencyTable::PeerDependencies);
    assert_eq!(same_target.alias, "t");
    assert!(matches!(same_target.specifier, AddedSpecifier::Pesde { target: None, .. }));
}

#[test]
fn test_added_entry_wally_and_git() {
    let wally = AddedPackage::Wally {
        name: pesde::names::wally::WallyPackageName::from_str("roblox/roact").ok().unwrap(),
        version: Version::parse("17.0.0").unwrap(),
        index: Some("mirror".to_string()),
    };
    let entry = added_entry(&wally, false, true, None, TargetKind::Roblox);
    assert_eq!(entry.table, DependencyTable::DevDependencies);
    assert_eq!(entry.table.key(), "dev_dependencies");
    assert_eq!(entry.alias, "roact");
    match entry.specifier {
        AddedSpecifier::Wally { wally, version, index } => {
            assert_eq!(wally, "wally#roblox/roact");
            assert_eq!(version, "^17.0.0");
            assert_eq!(index.as_deref(), Some("mirror"));
        },
        _ => panic!("expected a wally entry"),
    }
    let git = AddedPackage::Git {
        repo: "https://github.com/acme/tool.git".to_string(),
        path: "/acme/tool.git".to_string(),
        rev: "main".to_string(),
    };
    let entry = added_entry(&git, false, false, None, TargetKind::Luau);
    assert_eq!(entry.alias, "tool.git");
    assert!(matches!(entry.specifier, AddedSpecifier::Git { ref repo, ref rev } if repo == "https://github.com/acme/tool.git" && rev == "main"));
}
