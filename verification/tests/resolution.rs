use pesde::dependencies::git::GitDependencySpecifier;
use pesde::dependencies::registry::RegistryDependencySpecifier;
use pesde::dependencies::resolution::{
    find_realm, packages_folder, IndexFileEntry, ResolveError, Resolver, RootLockfileNode,
};
use pesde::dependencies::wally::WallyManifest;
use pesde::linking_file::{link_jobs, LinkDestination};
use pesde::dependencies::{DependencySpecifier, PackageRef};
use pesde::manifest::overrides::OverrideKey;
use pesde::manifest::target::Target;
use pesde::manifest::{DependencyType, Manifest, Realm};
use pesde::package_name::{PackageName, StandardPackageName};
use pesde::strmap::StrMap;
use pesde::version::{Version, VersionReq};

fn std_name(s: &str) -> StandardPackageName {
    StandardPackageName::from_str(s).ok().unwrap()
}

fn version(s: &str) -> Version {
    Version::parse(s).ok().unwrap()
}

fn reg(name: &str, req: &str, realm: Option<Realm>) -> DependencySpecifier {
    DependencySpecifier::Registry(RegistryDependencySpecifier {
        name: std_name(name),
        version: VersionReq::parse(req).ok().unwrap(),
        index: "default".to_string(),
        realm,
    })
}

fn git(repo: &str) -> DependencySpecifier {
    DependencySpecifier::Git(GitDependencySpecifier {
        repo: repo.to_string(),
        rev: "main".to_string(),
        realm: None,
    })
}

fn table(entries: Vec<(&str, DependencySpecifier)>) -> StrMap<DependencySpecifier> {
    let mut m = StrMap::new();
    for (k, v) in entries {
        m.insert(k.to_string(), v);
    }
    m
}

fn manifest(deps: Vec<(&str, DependencySpecifier)>, peer: Vec<(&str, DependencySpecifier)>) -> Manifest {
    Manifest {
        name: pesde::names::PackageName::from_str("acme/app").ok().unwrap(),
        version: version("0.1.0"),
        description: None,
        license: None,
        authors: vec![],
        repository: None,
        target: Target::Luau { lib: None, bin: None },
        private: false,
        scripts: StrMap::new(),
        indices: StrMap::new(),
        wally_indices: StrMap::new(),
        overrides: vec![],
        includes: vec![],
        pesde_version: None,
        dependencies: table(deps),
        peer_dependencies: table(peer),
        dev_dependencies: StrMap::new(),
    }
}

fn entry(v: &str, realm: Option<Realm>, deps: Vec<(&str, DependencySpecifier, DependencyType)>) -> IndexFileEntry {
    let mut m = StrMap::new();
    for (k, s, t) in deps {
        m.insert(k.to_string(), (s, t));
    }
    IndexFileEntry { version: version(v), realm, dependencies: m }
}

fn find<'a>(root: &'a RootLockfileNode, name: &str, v: &str) -> Option<&'a pesde::dependencies::resolution::ResolvedPackage> {
    let key = (PackageName::Standard(std_name(name)), version(v));
    root.children.get(&key)
}

fn front_name(r: &Resolver) -> String {
    r.next_dependency().unwrap().specifier.name()
}

const URL: &str = "https://example.com/index";

#[test]
fn test_resolution_picks_highest_matching_versions() {
    let m = manifest(vec![("a", reg("acme/a", "^1.0.0", None))], vec![]);
    let mut r = m.dependency_graph(false, None).ok().unwrap();
    assert_eq!(front_name(&r), "acme/a");
    let res = r.resolve_from_index(
        URL.to_string(),
        Some(vec![
            entry("1.0.0", None, vec![]),
            entry("1.2.0", None, vec![("b", reg("acme/b", "^0.1.0", None), DependencyType::Standard)]),
            entry("2.0.0", None, vec![]),
        ]),
    );
    assert!(matches!(res, Some(Ok(()))));
    assert_eq!(front_name(&r), "acme/b");
    let res = r.resolve_from_index(
        URL.to_string(),
        Some(vec![entry("0.1.0", None, vec![]), entry("0.1.5", None, vec![]), entry("0.2.0", None, vec![])]),
    );
    assert!(matches!(res, Some(Ok(()))));
    assert!(r.next_dependency().is_none());
    let root = r.finish().ok().unwrap();
    assert_eq!(root.children.len(), 2);
    let a = find(&root, "acme/a", "1.2.0").unwrap();
    assert!(find(&root, "acme/b", "0.1.5").is_some());
    let dep = a.dependencies.get(&PackageName::Standard(std_name("acme/b"))).unwrap();
    assert_eq!(dep.0.as_str(), "0.1.5");
    assert_eq!(dep.1, "b");
    let spec = root.specifiers.get(&(PackageName::Standard(std_name("acme/a")), version("1.2.0"))).unwrap();
    assert_eq!(spec.1, "a");
    assert_eq!(a.pkg_ref.to_string(), "acme/a@1.2.0");
    assert_eq!(a.pkg_ref.index_url().unwrap(), URL);
    // every root specifier names a package of the graph
    for i in 0..root.specifiers.len() {
        let (key, _) = root.specifiers.entry_at(i);
        assert!(root.children.get(key).is_some());
    }
    assert_eq!(root.specifiers.len(), 1);
}

#[test]
fn test_resolution_reuses_resolved_version() {
    // the second dependency takes the version already in the graph, not the highest of the index
    let m = manifest(vec![("a", reg("acme/c", "~1.1.0", None)), ("b", reg("acme/c", ">=1.0.0", None))], vec![]);
    let mut r = m.dependency_graph(false, None).ok().unwrap();
    let res = r.resolve_from_index(URL.to_string(), Some(vec![entry("1.1.0", None, vec![]), entry("2.0.0", None, vec![])]));
    assert!(matches!(res, Some(Ok(()))));
    let res = r.resolve_from_index(URL.to_string(), Some(vec![entry("1.1.0", None, vec![]), entry("2.0.0", None, vec![])]));
    assert!(matches!(res, Some(Ok(()))));
    let root = r.finish().ok().unwrap();
    assert_eq!(root.children.len(), 1);
    assert!(find(&root, "acme/c", "1.1.0").is_some());
    assert!(find(&root, "acme/c", "2.0.0").is_none());
    let spec = root.specifiers.get(&(PackageName::Standard(std_name("acme/c")), version("1.1.0"))).unwrap();
    assert_eq!(spec.1, "b");
}

#[test]
fn test_resolution_package_not_found() {
    let m = manifest(vec![("a", reg("acme/a", "^1.0.0", None))], vec![]);
    let mut r = m.dependency_graph(false, None).ok().unwrap();
    match r.resolve_from_index(URL.to_string(), None) {
        Some(Err(ResolveError::PackageNotFound(n))) => assert_eq!(n, "acme/a"),
        _ => panic!("expected PackageNotFound"),
    }
}

#[test]
fn test_resolution_no_satisfying_version() {
    let m = manifest(vec![("a", reg("acme/a", "^3.0.0", None))], vec![]);
    let mut r = m.dependency_graph(false, None).ok().unwrap();
    match r.resolve_from_index(URL.to_string(), Some(vec![entry("1.0.0", None, vec![])])) {
        Some(Err(ResolveError::NoSatisfyingVersion(s))) => assert_eq!(s.name(), "acme/a"),
        _ => panic!("expected NoSatisfyingVersion"),
    }
}

#[test]
fn test_resolution_incompatible_realms() {
    let m = manifest(vec![("a", reg("acme/a", "^1.0.0", Some(Realm::Shared)))], vec![]);
    let mut r = m.dependency_graph(false, None).ok().unwrap();
    match r.resolve_from_index(URL.to_string(), Some(vec![entry("1.0.0", Some(Realm::Server), vec![])])) {
        Some(Err(ResolveError::IncompatibleRealms(n, a, b))) => {
            assert_eq!(n, "acme/a");
            assert_eq!(a, Realm::Server);
            assert_eq!(b, Realm::Shared);
        },
        _ => panic!("expected IncompatibleRealms"),
    }
}

#[test]
fn test_resolution_realm_of_new_package() {
    let m = manifest(vec![("a", reg("acme/a", "^1.0.0", None))], vec![]);
    let mut r = m.dependency_graph(false, None).ok().unwrap();
    let res = r.resolve_from_index(URL.to_string(), Some(vec![entry("1.0.0", Some(Realm::Server), vec![])]));
    assert!(matches!(res, Some(Ok(()))));
    let root = r.finish().ok().unwrap();
    assert_eq!(find(&root, "acme/a", "1.0.0").unwrap().realm, Realm::Server);
}

#[test]
fn test_resolution_realm_pass_makes_mixed_shared() {
    // a server package that uses a shared one becomes shared
    let m = manifest(vec![("a", reg("acme/a", "^1.0.0", None))], vec![]);
    let mut r = m.dependency_graph(false, None).ok().unwrap();
    let res = r.resolve_from_index(
        URL.to_string(),
        Some(vec![entry("1.0.0", Some(Realm::Server), vec![("b", reg("acme/b", "^1.0.0", None), DependencyType::Standard)])]),
    );
    assert!(matches!(res, Some(Ok(()))));
    let res = r.resolve_from_index(URL.to_string(), Some(vec![entry("1.0.0", None, vec![])]));
    assert!(matches!(res, Some(Ok(()))));
    let root = r.finish().ok().unwrap();
    assert_eq!(find(&root, "acme/a", "1.0.0").unwrap().realm, Realm::Shared);
    assert_eq!(find(&root, "acme/b", "1.0.0").unwrap().realm, Realm::Shared);
}

#[test]
fn test_resolution_peer_not_installed() {
    let m = manifest(vec![("a", reg("acme/a", "^1.0.0", None))], vec![]);
    let mut r = m.dependency_graph(false, None).ok().unwrap();
    let res = r.resolve_from_index(
        URL.to_string(),
        Some(vec![entry("1.0.0", None, vec![("p", reg("acme/p", "^1.0.0", None), DependencyType::Peer)])]),
    );
    assert!(matches!(res, Some(Ok(()))));
    let res = r.resolve_from_index(URL.to_string(), Some(vec![entry("1.0.0", None, vec![])]));
    assert!(matches!(res, Some(Ok(()))));
    match r.finish() {
        Err(ResolveError::PeerNotInstalled(n, v)) => {
            assert_eq!(n, "acme/p");
            assert_eq!(v.as_str(), "1.0.0");
        },
        _ => panic!("expected PeerNotInstalled"),
    }
}

#[test]
fn test_resolution_peer_met_as_standard() {
    // a peer dependency that the project also asks for becomes a standard one
    let m = manifest(vec![("a", reg("acme/a", "^1.0.0", None)), ("p", reg("acme/p", "^1.0.0", None))], vec![]);
    let mut r = m.dependency_graph(false, None).ok().unwrap();
    let res = r.resolve_from_index(
        URL.to_string(),
        Some(vec![entry("1.0.0", None, vec![("p", reg("acme/p", "^1.0.0", None), DependencyType::Peer)])]),
    );
    assert!(matches!(res, Some(Ok(()))));
    assert_eq!(front_name(&r), "acme/p");
    let res = r.resolve_from_index(URL.to_string(), Some(vec![entry("1.0.0", None, vec![])]));
    assert!(matches!(res, Some(Ok(()))));
    let res = r.resolve_from_index(URL.to_string(), Some(vec![entry("1.0.0", None, vec![])]));
    assert!(matches!(res, Some(Ok(()))));
    let root = r.finish().ok().unwrap();
    assert_eq!(find(&root, "acme/p", "1.0.0").unwrap().dep_type, DependencyType::Standard);
}

#[test]
fn test_resolution_git_conflicts() {
    let m = manifest(vec![("a", reg("acme/a", "^1.0.0", None)), ("g", git("acme/a-repo"))], vec![]);
    let mut r = m.dependency_graph(false, None).ok().unwrap();
    let res = r.resolve_from_index(URL.to_string(), Some(vec![entry("1.0.0", None, vec![])]));
    assert!(matches!(res, Some(Ok(()))));
    let res = r.resolve_from_git(
        std_name("acme/a"),
        version("1.0.0"),
        None,
        StrMap::new(),
        "https://github.com/acme/a-repo".to_string(),
        "abc".to_string(),
    );
    match res {
        Err(ResolveError::GitConflict(n, v)) => {
            assert_eq!(n, "acme/a");
            assert_eq!(v.as_str(), "1.0.0");
        },
        _ => panic!("expected GitConflict"),
    }
}

#[test]
fn test_resolution_registry_conflict() {
    let m = manifest(vec![("a", reg("acme/a", "^1.0.0", None)), ("g", git("acme/a-repo"))], vec![]);
    // keys are in order: "a" before "g"; resolve the git one in a second graph first
    let m2 = manifest(vec![("g", git("acme/a-repo")), ("z", reg("acme/a", "^1.0.0", None))], vec![]);
    let mut r = m2.dependency_graph(false, None).ok().unwrap();
    let res = r.resolve_from_git(
        std_name("acme/a"),
        version("1.0.0"),
        None,
        StrMap::new(),
        "https://github.com/acme/a-repo".to_string(),
        "abc".to_string(),
    );
    assert!(res.is_ok());
    // the registry entry has the version git gave; the graph's version wins
    match r.resolve_from_index(URL.to_string(), Some(vec![entry("1.0.0", None, vec![])])) {
        Some(Err(ResolveError::RegistryConflict(n, v))) => {
            assert_eq!(n, "acme/a");
            assert_eq!(v.as_str(), "1.0.0");
        },
        _ => panic!("expected RegistryConflict"),
    }
    drop(m);
}

#[test]
fn test_resolution_version_missing_from_index() {
    // the graph's version of a package is not in the index: nothing is done
    let m2 = manifest(vec![("g", git("acme/a-repo")), ("z", reg("acme/a", "^1.0.0", None))], vec![]);
    let mut r = m2.dependency_graph(false, None).ok().unwrap();
    let res = r.resolve_from_git(
        std_name("acme/a"),
        version("1.5.0"),
        None,
        StrMap::new(),
        "https://github.com/acme/a-repo".to_string(),
        "abc".to_string(),
    );
    assert!(res.is_ok());
    let next = r.next;
    let res = r.resolve_from_index(URL.to_string(), Some(vec![entry("1.0.0", None, vec![])]));
    assert!(res.is_none());
    assert_eq!(r.next, next);
}

#[test]
fn test_resolution_git_dependency() {
    let m = manifest(vec![("g", git("acme/tools"))], vec![]);
    let mut r = m.dependency_graph(false, None).ok().unwrap();
    let mut deps = StrMap::new();
    deps.insert("b".to_string(), (reg("acme/b", "^1.0.0", None), DependencyType::Standard));
    let res = r.resolve_from_git(
        std_name("acme/tools"),
        version("0.3.0"),
        Some(Realm::Development),
        deps,
        "https://github.com/acme/tools".to_string(),
        "abc".to_string(),
    );
    assert!(res.is_ok());
    assert_eq!(front_name(&r), "acme/b");
    let res = r.resolve_from_index(URL.to_string(), Some(vec![entry("1.0.0", None, vec![])]));
    assert!(matches!(res, Some(Ok(()))));
    let root = r.finish().ok().unwrap();
    let tools = find(&root, "acme/tools", "0.3.0").unwrap();
    assert!(matches!(tools.pkg_ref, PackageRef::Git(_)));
    assert_eq!(tools.realm, Realm::Shared);
}

#[test]
fn test_resolution_override() {
    let mut m = manifest(vec![("a", reg("acme/a", "^1.0.0", None))], vec![]);
    let key = OverrideKey::from_str("a>b").ok().unwrap();
    m.overrides = vec![(key, reg("acme/b", "^2.0.0", None))];
    let mut r = m.dependency_graph(false, None).ok().unwrap();
    let res = r.resolve_from_index(
        URL.to_string(),
        Some(vec![entry("1.0.0", None, vec![("b", reg("acme/b", "^1.0.0", None), DependencyType::Standard)])]),
    );
    assert!(matches!(res, Some(Ok(()))));
    let next = r.next_dependency().unwrap();
    assert_eq!(next.specifier.version(), "^2.0.0");
    assert_eq!(next.desired_name, "b");
    assert_eq!(next.path, vec!["a".to_string()]);
}

#[test]
fn test_resolution_alias_conflict() {
    let m = manifest(vec![("a", reg("acme/a", "^1.0.0", None))], vec![("a", reg("acme/b", "^1.0.0", None))]);
    match m.dependency_graph(false, None) {
        Err(ResolveError::AllDependencies(pesde::manifest::AllDependenciesError::AliasConflict(a))) => assert_eq!(a, "a"),
        _ => panic!("expected AllDependencies"),
    }
}

fn resolved_root() -> (Manifest, RootLockfileNode) {
    let m = manifest(vec![("a", reg("acme/a", "^1.0.0", None))], vec![]);
    let mut r = m.dependency_graph(false, None).ok().unwrap();
    let res = r.resolve_from_index(
        URL.to_string(),
        Some(vec![entry("1.0.0", None, vec![("b", reg("acme/b", "^1.0.0", None), DependencyType::Standard)])]),
    );
    assert!(matches!(res, Some(Ok(()))));
    let res = r.resolve_from_index(URL.to_string(), Some(vec![entry("1.0.0", None, vec![])]));
    assert!(matches!(res, Some(Ok(()))));
    let root = r.finish().ok().unwrap();
    (m, root)
}

#[test]
fn test_lockfile_reuse() {
    let (m, lock) = resolved_root();
    assert!(lock.is_consistent());
    let r = m.dependency_graph(true, Some(&lock)).ok().unwrap();
    assert!(r.next_dependency().is_none());
    assert!(!r.settle);
    let root = r.finish().ok().unwrap();
    assert_eq!(root.children.len(), 2);
    assert!(find(&root, "acme/b", "1.0.0").is_some());
}

#[test]
fn test_lockfile_out_of_date_when_locked() {
    let (_, lock) = resolved_root();
    let m = manifest(vec![("a", reg("acme/a", "^1.0.0", None)), ("n", reg("acme/n", "^1.0.0", None))], vec![]);
    match m.dependency_graph(true, Some(&lock)) {
        Err(ResolveError::OutOfDateLockfile) => {},
        _ => panic!("expected OutOfDateLockfile"),
    }
    // unlocked, only the new dependency is left to resolve
    let r = m.dependency_graph(false, Some(&lock)).ok().unwrap();
    assert_eq!(r.queue.len(), 1);
    assert_eq!(front_name(&r), "acme/n");
    assert_eq!(r.root.children.len(), 2);
}

#[test]
fn test_lockfile_missing_package() {
    let (m, mut lock) = resolved_root();
    let pos = lock.children.find(&(PackageName::Standard(std_name("acme/b")), version("1.0.0"))).unwrap();
    lock.children.remove_at(pos);
    match m.dependency_graph(false, Some(&lock)) {
        Err(ResolveError::OutOfDateLockfile) => {},
        _ => panic!("expected OutOfDateLockfile"),
    }
}

#[test]
fn test_lockfile_with_other_overrides_is_not_used() {
    let (mut m, lock) = resolved_root();
    m.overrides = vec![(OverrideKey::from_str("a>b").ok().unwrap(), reg("acme/b", "^2.0.0", None))];
    let r = m.dependency_graph(true, Some(&lock)).ok().unwrap();
    assert_eq!(r.queue.len(), 1);
    assert_eq!(r.root.children.len(), 0);
}

#[test]
fn test_missing_dependencies_without_lockfile() {
    let m = manifest(vec![("a", reg("acme/a", "^1.0.0", None))], vec![("p", reg("acme/p", "^1.0.0", None))]);
    let mut root = RootLockfileNode::new(vec![]);
    let missing = m.missing_dependencies(&mut root, false, None).ok().unwrap();
    assert_eq!(missing.len(), 2);
    assert_eq!(missing.key_at(0), "a");
    assert_eq!(missing.value_at(1).1, DependencyType::Peer);
}

#[test]
fn test_find_realm() {
    assert_eq!(find_realm(&Realm::Server, &Realm::Server), Realm::Server);
    assert_eq!(find_realm(&Realm::Server, &Realm::Shared), Realm::Shared);
    assert_eq!(find_realm(&Realm::Development, &Realm::Server), Realm::Shared);
}

#[test]
fn test_realm_or() {
    assert_eq!(Realm::Shared.or(Realm::Server), Realm::Server);
    assert_eq!(Realm::Development.or(Realm::Server), Realm::Development);
    assert_eq!(Realm::Server.or(Realm::Shared), Realm::Server);
}

#[test]
fn test_packages_folder() {
    assert_eq!(packages_folder(Realm::Shared), "packages");
    assert_eq!(packages_folder(Realm::Server), "server_packages");
    assert_eq!(packages_folder(Realm::Development), "dev_packages");
}

#[test]
fn test_resolved_package_directory() {
    let (_, root) = resolved_root();
    let a = find(&root, "acme/a", "1.0.0").unwrap();
    let (container, inner) = a.directory();
    assert_eq!(container, vec!["packages", "pesde", "acme+a", "1.0.0"]);
    assert_eq!(inner, vec!["packages", "pesde", "acme+a", "1.0.0", "acme+a"]);
    let spec = root.root_specifier(a).unwrap();
    assert_eq!(spec.1, "a");
    let b = find(&root, "acme/b", "1.0.0").unwrap();
    assert!(root.root_specifier(b).is_none());
}

#[test]
fn test_index_entry_from_wally() {
    let mut deps = StrMap::new();
    deps.insert("roact".to_string(), "roblox/roact@^1.4.0".to_string());
    let mut server = StrMap::new();
    server.insert("profile".to_string(), "acme/profile-service@1.0.0".to_string());
    let wm = WallyManifest {
        registry: "https://github.com/UpliftGames/wally-index".to_string(),
        dependencies: deps,
        server_dependencies: server,
        dev_dependencies: StrMap::new(),
    };
    let e = IndexFileEntry::from_wally(version("1.0.0"), Some(Realm::Shared), &wm).ok().unwrap();
    assert_eq!(e.dependencies.len(), 2);
    assert_eq!(e.dependencies.key_at(0), "profile");
    let (spec, ty) = e.dependencies.value_at(0);
    assert_eq!(*ty, DependencyType::Standard);
    assert_eq!(spec.name(), "wally#acme/profile-service");
    assert_eq!(spec.realm(), Some(&Realm::Server));
    assert_eq!(spec.version(), "^1.0.0");
}

#[test]
fn test_link_jobs() {
    let m = manifest(vec![("a", reg("acme/a", "^1.0.0", None))], vec![]);
    let mut r = m.dependency_graph(false, None).ok().unwrap();
    let res = r.resolve_from_index(
        URL.to_string(),
        Some(vec![entry(
            "1.0.0",
            None,
            vec![
                ("x", reg("acme/x", "^1.0.0", None), DependencyType::Standard),
                ("y", reg("other/x", "^1.0.0", None), DependencyType::Standard),
            ],
        )]),
    );
    assert!(matches!(res, Some(Ok(()))));
    while r.next_dependency().is_some() {
        let res = r.resolve_from_index(URL.to_string(), Some(vec![entry("1.0.0", None, vec![])]));
        assert!(matches!(res, Some(Ok(()))));
    }
    let root = r.finish().ok().unwrap();
    assert_eq!(root.children.len(), 3);
    let jobs = link_jobs(&root);
    assert_eq!(jobs.len(), 3);
    let a_index = (0..root.children.len())
        .find(|i| root.children.entry_at(*i).1.pkg_ref.to_string() == "acme/a@1.0.0")
        .unwrap();
    let mut dependency_links = 0;
    for job in &jobs {
        assert!(!job.in_different_folders);
        match job.destination {
            // both dependencies are named `x`: their files carry the scope prefix
            LinkDestination::Container(i) => {
                assert_eq!(i, a_index);
                assert!(!job.only_name);
                dependency_links += 1;
            },
            LinkDestination::Realm(realm) => {
                assert_eq!(realm, Realm::Shared);
                assert_eq!(job.package, a_index);
                assert!(job.only_name);
            },
        }
    }
    assert_eq!(dependency_links, 2);
}

#[test]
fn test_resolved_graph_is_closed() {
    let (_, root) = resolved_root();
    for i in 0..root.children.len() {
        let (_, pkg) = root.children.entry_at(i);
        for j in 0..pkg.dependencies.len() {
            let (n, (v, _)) = pkg.dependencies.entry_at(j);
            assert!(root.children.get(&(n.clone(), v.clone())).is_some());
        }
    }
    assert_eq!(root.children.len(), 2);
}

#[test]
fn test_lockfile_inconsistent() {
    let (m, mut lock) = resolved_root();
    // store acme/b@1.0.0 under another version
    let pos = lock.children.find(&(PackageName::Standard(std_name("acme/b")), version("1.0.0"))).unwrap();
    let (_, node) = lock.children.remove_at(pos);
    lock.children.insert((PackageName::Standard(std_name("acme/b")), version("9.9.9")), node);
    assert!(!lock.is_consistent());
    match m.dependency_graph(false, Some(&lock)) {
        Err(ResolveError::InconsistentLockfile) => {},
        _ => panic!("expected InconsistentLockfile"),
    }
}
