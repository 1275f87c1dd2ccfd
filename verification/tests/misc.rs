use pesde::cli::{get_repo, script_contents, select_api_token_source, ApiTokenSource, TokenLookup};
use pesde::dependencies::git::{git_package_name, repository_package_name, to_snake_case, GitDependencySpecifier, GitNameError};
use pesde::dependencies::registry::{default_index_name, RegistryDependencySpecifier, RegistryPackageRef};
use pesde::dependencies::wally::{parse_wally_dependencies, WallyManifest, WallyManifestDependencyError, WallyPackageRef};
use pesde::dependencies::git::GitPackageRef;
use pesde::dependencies::resolution::IndexFileEntry;
use pesde::dependencies::{specifiers_eq, DependencySpecifier, PackageRef, UrlResolveError};
use pesde::index::{add_version_entry, dependency_index_url, get_index, get_index_by_url, package_download_url, scope_decision, create_package_version, CreatePackageVersionError, IndexConfig, ScopeDecision};
use pesde::keyed::KeyedMap;
use pesde::lockfile::{insert_node, DependencyGraphNode, Lockfile, PackageRefs, VersionId};
use pesde::manifest::target::{Target, TargetKind};
use pesde::manifest::{DependencyType, Manifest, Realm};
use pesde::names::PackageNames;
use pesde::package_name::{StandardPackageName, WallyPackageName};
use pesde::project::{is_up_to_date, require_default_index, InstallOptions, NewProjectError};
use pesde::strmap::{compare_str, KeyOrder, StrMap};
use pesde::version::{Version, VersionReq};

fn version(s: &str) -> Version {
    Version::parse(s).ok().unwrap()
}

fn reg(name: &str, req: &str) -> DependencySpecifier {
    DependencySpecifier::Registry(RegistryDependencySpecifier {
        name: StandardPackageName::from_str(name).ok().unwrap(),
        version: VersionReq::parse(req).ok().unwrap(),
        index: "default".to_string(),
        realm: None,
    })
}

#[test]
fn test_version_parse_and_compare() {
    let a = version("1.2.3");
    let b = version("1.10.0");
    assert_eq!(a.as_str(), "1.2.3");
    assert_eq!(a.compare(&b), KeyOrder::Less);
    assert_eq!(b.compare(&a), KeyOrder::Greater);
    assert_eq!(a.compare(&version("1.2.3")), KeyOrder::Equal);
    assert_eq!(version("1.0.0-alpha").compare(&version("1.0.0")), KeyOrder::Less);
    assert!(Version::parse("1.2").is_err());
    assert!(Version::parse("v1.2.3").is_err());
}

#[test]
fn test_version_req() {
    let r = VersionReq::parse("^1.2").ok().unwrap();
    assert_eq!(r.to_string(), "^1.2");
    assert!(r.matches(&version("1.9.0")));
    assert!(!r.matches(&version("2.0.0")));
    assert!(!r.matches(&version("1.1.0")));
    assert_eq!(VersionReq::parse(">=1,<2").ok().unwrap().as_str(), ">=1, <2");
    assert!(VersionReq::parse("not a req").is_err());
}

#[test]
fn test_compare_str() {
    assert_eq!(compare_str("a", "b"), KeyOrder::Less);
    assert_eq!(compare_str("ab", "a"), KeyOrder::Greater);
    assert_eq!(compare_str("", ""), KeyOrder::Equal);
    assert_eq!(compare_str("Z", "a"), KeyOrder::Less);
}

#[test]
fn test_strmap_insert_get() {
    let mut m: StrMap<u32> = StrMap::new();
    assert!(m.is_empty());
    assert_eq!(m.insert("b".to_string(), 1), None);
    assert_eq!(m.insert("a".to_string(), 2), None);
    assert_eq!(m.insert("b".to_string(), 3), Some(1));
    assert_eq!(m.len(), 2);
    assert_eq!(m.key_at(0), "a");
    assert_eq!(*m.get("b").unwrap(), 3);
    assert!(m.get("c").is_none());
    assert_eq!(m.find("b"), Some(1));
    let (k, v) = m.pop_first();
    assert_eq!((k.as_str(), v), ("a", 2));
    m.push_last("z".to_string(), 9);
    assert_eq!(m.key_at(1), "z");
}

#[test]
fn test_keyed_map() {
    let mut m: KeyedMap<String, u32> = KeyedMap::new();
    m.insert("x".to_string(), 1);
    m.insert("y".to_string(), 2);
    m.insert("x".to_string(), 3);
    assert_eq!(m.len(), 2);
    assert_eq!(*m.get(&"x".to_string()).unwrap(), 3);
    assert_eq!(m.find(&"y".to_string()), Some(1));
    let (k, v) = m.remove_at(0);
    assert_eq!((k.as_str(), v), ("x", 3));
    assert!(m.get(&"x".to_string()).is_none());
    m.insert_new_at(0, "w".to_string(), 7);
    assert_eq!(*m.entry_at(0).0, "w");
    assert_eq!(m.replace_at(0, 8), 7);
    assert_eq!(*m.entry_at(0).1, 8);
}

#[test]
fn test_to_snake_case() {
    assert_eq!(to_snake_case("ProfileService"), "profile_service");
    assert_eq!(to_snake_case("roact-router"), "roact_router");
    assert_eq!(to_snake_case("plain_name"), "plain_name");
    assert_eq!(to_snake_case("aB-C"), "a_b__c");
}

#[test]
fn test_default_index_name() {
    assert_eq!(default_index_name(), "default");
}

#[test]
fn test_specifier_accessors() {
    let s = reg("acme/a", "^1.0.0");
    assert_eq!(s.name(), "acme/a");
    assert_eq!(s.version(), "^1.0.0");
    assert!(s.realm().is_none());
    assert!(specifiers_eq(&s, &reg("acme/a", "^1.0.0")));
    assert!(!specifiers_eq(&s, &reg("acme/a", "^1.0.1")));
}

#[test]
fn test_index_config() {
    let c = IndexConfig {
        api: "https://api.example.com/".to_string(),
        download: None,
        git_allowed: false,
        custom_registry_allowed: false,
        github_oauth_client_id: "id".to_string(),
    };
    assert_eq!(c.api(), "https://api.example.com");
    assert_eq!(
        c.download(),
        "https://api.example.com/v0/packages/{PACKAGE_AUTHOR}/{PACKAGE_NAME}/{PACKAGE_VERSION}"
    );
    let custom = IndexConfig { download: Some("{API_URL}/dl/{PACKAGE_NAME}".to_string()), ..c.clone() };
    assert_eq!(custom.download(), "https://api.example.com/dl/{PACKAGE_NAME}");
    assert_eq!(package_download_url("{PACKAGE_AUTHOR}-{PACKAGE_NAME}@{PACKAGE_VERSION}", "a", "b", "1"), "a-b@1");
}

#[test]
fn test_registry_resolve_url() {
    let c = IndexConfig {
        api: "https://api.example.com".to_string(),
        download: None,
        git_allowed: false,
        custom_registry_allowed: false,
        github_oauth_client_id: "id".to_string(),
    };
    let r = RegistryPackageRef {
        name: StandardPackageName::from_str("acme/tool").ok().unwrap(),
        version: version("1.2.3"),
        index_url: "https://index".to_string(),
    };
    assert_eq!(r.resolve_url(&c).ok().unwrap(), "https://api.example.com/v0/packages/acme/tool/1.2.3");
    let bad = IndexConfig { api: "not a url".to_string(), ..c };
    assert!(r.resolve_url(&bad).is_err());
}

#[test]
fn test_wally_resolve_url() {
    let w = WallyPackageRef {
        name: WallyPackageName::from_str("roblox/roact").ok().unwrap(),
        version: version("1.4.0"),
        index_url: "https://index".to_string(),
    };
    assert_eq!(
        w.resolve_url("https://api.wally.run/").ok().unwrap(),
        "https://api.wally.run/v1/package-contents/roblox/roact/1.4.0"
    );
    assert!(w.resolve_url("::").is_err());
}

#[test]
fn test_package_ref_resolve_url() {
    let c = IndexConfig {
        api: "https://api.example.com".to_string(),
        download: None,
        git_allowed: false,
        custom_registry_allowed: false,
        github_oauth_client_id: "id".to_string(),
    };
    let reg_ref = PackageRef::Registry(RegistryPackageRef {
        name: StandardPackageName::from_str("acme/tool").ok().unwrap(),
        version: version("1.2.3"),
        index_url: "https://index".to_string(),
    });
    assert_eq!(
        reg_ref.resolve_url(&c, "::").ok().unwrap(),
        Some("https://api.example.com/v0/packages/acme/tool/1.2.3".to_string())
    );
    let bad = IndexConfig { api: "not a url".to_string(), ..c.clone() };
    assert!(matches!(reg_ref.resolve_url(&bad, "https://api.wally.run"), Err(UrlResolveError::Registry(_))));
    let git_ref = PackageRef::Git(GitPackageRef {
        name: StandardPackageName::from_str("acme/tool").ok().unwrap(),
        version: version("1.0.0"),
        repo_url: "https://example.com/repo.git".to_string(),
        rev: "abc".to_string(),
    });
    assert_eq!(git_ref.resolve_url(&bad, "::").ok().unwrap(), None);
    let wally_ref = PackageRef::Wally(WallyPackageRef {
        name: WallyPackageName::from_str("roblox/roact").ok().unwrap(),
        version: version("1.4.0"),
        index_url: "https://index".to_string(),
    });
    assert_eq!(
        wally_ref.resolve_url(&bad, "https://api.wally.run/").ok().unwrap(),
        Some("https://api.wally.run/v1/package-contents/roblox/roact/1.4.0".to_string())
    );
    assert!(matches!(wally_ref.resolve_url(&c, "::"), Err(UrlResolveError::Wally(_))));
}

#[test]
fn test_get_index() {
    let mut indices = StrMap::new();
    indices.insert("default".to_string(), "https://Example.com/default".to_string());
    indices.insert("other".to_string(), "https://example.com/other".to_string());
    assert_eq!(get_index(&indices, Some("other")), "https://example.com/other");
    // a missing index falls back to the default one
    assert_eq!(get_index(&indices, Some("missing")), "https://Example.com/default");
    assert_eq!(get_index(&indices, None), "https://Example.com/default");
    let parsed = vec![Some("https://example.com/default".to_string()), Some("https://example.com/other".to_string())];
    assert_eq!(get_index_by_url(&indices, &parsed, "https://example.com/other"), "https://example.com/other");
    assert_eq!(get_index_by_url(&indices, &parsed, "https://example.com/none"), "https://Example.com/default");
}

#[test]
fn test_dependency_index_url() {
    let mut indices = StrMap::new();
    indices.insert("default".to_string(), "https://Example.com/default".to_string());
    indices.insert("other".to_string(), "https://example.com/other".to_string());
    // the URL comes out parsed (the host in lower case)
    assert_eq!(dependency_index_url(&indices, "default", true).unwrap().ok().unwrap(), "https://example.com/default");
    assert_eq!(dependency_index_url(&indices, "missing", true).unwrap().ok().unwrap(), "https://example.com/default");
    assert_eq!(
        dependency_index_url(&indices, "https://EXAMPLE.com/other", false).unwrap().ok().unwrap(),
        "https://example.com/other"
    );
    assert_eq!(
        dependency_index_url(&indices, "https://example.com/unknown", false).unwrap().ok().unwrap(),
        "https://example.com/default"
    );
    assert!(dependency_index_url(&indices, "not a url", false).unwrap().is_err());
    let empty: StrMap<String> = StrMap::new();
    assert!(dependency_index_url(&empty, "default", true).is_none());
    assert!(dependency_index_url(&empty, "https://example.com/x", false).is_none());
}

#[test]
fn test_package_ref() {
    let p = PackageRef::Registry(RegistryPackageRef {
        name: StandardPackageName::from_str("acme/tool").ok().unwrap(),
        version: version("1.2.3"),
        index_url: "https://index".to_string(),
    });
    assert_eq!(p.name().to_string(), "acme/tool");
    assert_eq!(p.version().as_str(), "1.2.3");
    assert_eq!(p.to_string(), "acme/tool@1.2.3");
    assert_eq!(p.index_url().unwrap(), "https://index");
}

#[test]
fn test_scope_decision() {
    assert_eq!(scope_decision(None, false, 5), ScopeDecision::Create);
    // a scope folder without an owners file is refused
    assert_eq!(scope_decision(None, true, 5), ScopeDecision::NotOwner);
    assert_eq!(scope_decision(Some(&vec![1, 5]), true, 5), ScopeDecision::Owner);
    assert_eq!(scope_decision(Some(&vec![1]), true, 5), ScopeDecision::NotOwner);
}

#[test]
fn test_api_token_source() {
    assert!(!ApiTokenSource::EnvVar.persists());
    assert!(ApiTokenSource::Keyring.persists());
    assert_eq!(ApiTokenSource::sources().len(), 3);
    let found = vec![TokenLookup::Missing, TokenLookup::Found, TokenLookup::Found];
    assert_eq!(select_api_token_source(&found), ApiTokenSource::ConfigFile);
    let none = vec![TokenLookup::Missing, TokenLookup::Missing, TokenLookup::Missing];
    assert_eq!(select_api_token_source(&none), ApiTokenSource::Keyring);
    let failing = vec![TokenLookup::Missing, TokenLookup::Missing, TokenLookup::Failed];
    assert_eq!(select_api_token_source(&failing), ApiTokenSource::ConfigFile);
    let env = vec![TokenLookup::Found, TokenLookup::Failed, TokenLookup::Failed];
    assert_eq!(select_api_token_source(&env), ApiTokenSource::EnvVar);
}

#[test]
fn test_script_contents() {
    let s = script_contents("roblox_sync_config_generator.luau");
    assert!(s.starts_with("local process = require(\"@lune/process\")   \n"));
    assert!(s.ends_with("require(home_dir .. \"/.pesde/scripts/roblox_sync_config_generator.luau\")"));
}

#[test]
fn test_get_repo() {
    let (owner, repo) = get_repo("https://github.com/daimond113/pesde");
    assert_eq!(owner, "daimond113");
    assert_eq!(repo, "pesde");
}

#[test]
fn test_install_options() {
    let o = InstallOptions::new();
    assert!(!o.locked);
    assert!(o.auto_download);
    assert!(o.resolved_versions_map.is_none());
    let l = o.locked(true);
    assert!(l.locked);
    let d = l.auto_download(false);
    assert!(d.locked && !d.auto_download);
    let m = d.resolved_versions_map(KeyedMap::new());
    assert!(m.resolved_versions_map.is_some());
    assert!(!InstallOptions::default().locked);
}

#[test]
fn test_require_default_index() {
    assert!(require_default_index(&vec!["default".to_string()]).is_ok());
    assert!(matches!(
        require_default_index(&vec!["other".to_string()]),
        Err(NewProjectError::DefaultIndexNotProvided)
    ));
}

fn project_manifest(deps: Vec<(&str, DependencySpecifier)>) -> Manifest {
    let mut table = StrMap::new();
    for (k, v) in deps {
        table.insert(k.to_string(), v);
    }
    Manifest {
        name: pesde::names::PackageName::from_str("acme/app").ok().unwrap(),
        version: version("1.0.0"),
        description: None,
        license: None,
        authors: vec![],
        repository: None,
        target: Target::Luau { lib: Some("lib.luau".to_string()), bin: None },
        private: false,
        scripts: StrMap::new(),
        indices: StrMap::new(),
        wally_indices: StrMap::new(),
        overrides: vec![],
        includes: vec![],
        pesde_version: None,
        dependencies: table,
        peer_dependencies: StrMap::new(),
        dev_dependencies: StrMap::new(),
    }
}

fn graph_node(direct: Option<(&str, DependencySpecifier)>) -> DependencyGraphNode {
    DependencyGraphNode {
        direct: direct.map(|(a, s)| (a.to_string(), s)),
        dependencies: vec![],
        ty: DependencyType::Standard,
        pkg_ref: PackageRefs {
            source: PackageRef::Registry(RegistryPackageRef {
                name: StandardPackageName::from_str("acme/a").ok().unwrap(),
                version: version("1.0.0"),
                index_url: "https://index".to_string(),
            }),
            target: TargetKind::Luau,
            new_structure: true,
        },
    }
}

#[test]
fn test_insert_node() {
    let mut g = KeyedMap::new();
    let name = PackageNames::from_str("acme/alpha").ok().unwrap();
    let vid = VersionId { version: version("1.0.0"), target: TargetKind::Luau };
    insert_node(&mut g, name.clone(), vid.clone(), graph_node(Some(("a", reg("acme/a", "^1")))), false);
    assert!(g.entry_at(0).1.direct.is_none());
    insert_node(&mut g, name.clone(), vid.clone(), graph_node(Some(("a", reg("acme/a", "^1")))), true);
    assert_eq!(g.len(), 1);
    assert_eq!(g.entry_at(0).1.direct.as_ref().unwrap().0, "a");
    insert_node(&mut g, name, vid, graph_node(Some(("b", reg("acme/a", "^1")))), true);
    assert_eq!(g.entry_at(0).1.direct.as_ref().unwrap().0, "a");
    let node = g.entry_at(0).1;
    assert_eq!(
        node.container_folder(&PackageNames::from_str("acme/alpha").ok().unwrap(), &version("1.0.0")),
        vec!["acme+alpha".to_string(), "1.0.0".to_string(), "alpha".to_string()]
    );
    assert_eq!(node.base_folder(TargetKind::Luau, false), "packages");
    assert_eq!(node.base_folder(TargetKind::Lune, true), "luau_packages");
}

#[test]
fn test_is_up_to_date() {
    let m = project_manifest(vec![("a", reg("acme/a", "^1"))]);
    assert_eq!(is_up_to_date(&m, None, true).ok().unwrap(), false);
    let mut graph = KeyedMap::new();
    let name = PackageNames::from_str("acme/alpha").ok().unwrap();
    let vid = VersionId { version: version("1.0.0"), target: TargetKind::Luau };
    insert_node(&mut graph, name, vid, graph_node(Some(("a", reg("acme/a", "^1")))), true);
    let downloaded = {
        let mut d = KeyedMap::new();
        let (k, n) = graph.remove_at(0);
        d.insert(k, pesde::lockfile::DownloadedDependencyGraphNode { target: Target::Luau { lib: None, bin: None }, node: n });
        d
    };
    let lock = Lockfile {
        name: pesde::names::PackageName::from_str("acme/app").ok().unwrap(),
        version: version("1.0.0"),
        target: TargetKind::Luau,
        overrides: vec![],
        graph: downloaded,
    };
    assert_eq!(is_up_to_date(&m, Some(&lock), true).ok().unwrap(), true);
    let m2 = project_manifest(vec![("a", reg("acme/a", "^2"))]);
    assert_eq!(is_up_to_date(&m2, Some(&lock), true).ok().unwrap(), false);
    assert_eq!(is_up_to_date(&m2, Some(&lock), false).ok().unwrap(), true);
    let mut m3 = project_manifest(vec![("a", reg("acme/a", "^1"))]);
    m3.target = Target::Lune { lib: None, bin: None };
    assert_eq!(is_up_to_date(&m3, Some(&lock), false).ok().unwrap(), false);
}

#[test]
fn test_parse_wally_dependencies() {
    let mut deps = StrMap::new();
    deps.insert("roact".to_string(), "roblox/roact@^1.4.0".to_string());
    let mut dev = StrMap::new();
    dev.insert("roact".to_string(), "roblox/roact@1.3.0".to_string());
    let wm = WallyManifest {
        registry: "https://github.com/UpliftGames/wally-index".to_string(),
        dependencies: deps,
        server_dependencies: StrMap::new(),
        dev_dependencies: dev,
    };
    let m = parse_wally_dependencies(&wm).ok().unwrap();
    assert_eq!(m.len(), 1);
    let s = m.get("roact").unwrap();
    assert_eq!(s.realm(), Some(&Realm::Development));
    assert_eq!(s.version(), "^1.3.0");
    let mut bad = StrMap::new();
    bad.insert("x".to_string(), "roblox/roact".to_string());
    let wm2 = WallyManifest { registry: "r".to_string(), dependencies: bad, server_dependencies: StrMap::new(), dev_dependencies: StrMap::new() };
    assert!(matches!(parse_wally_dependencies(&wm2), Err(WallyManifestDependencyError::InvalidDependencySpecifier(s)) if s == "roblox/roact"));
    let mut bad_name = StrMap::new();
    bad_name.insert("x".to_string(), "roblox/Roact@1.0.0".to_string());
    let wm3 = WallyManifest { registry: "r".to_string(), dependencies: bad_name, server_dependencies: StrMap::new(), dev_dependencies: StrMap::new() };
    assert!(matches!(parse_wally_dependencies(&wm3), Err(WallyManifestDependencyError::PackageName(_))));
    let mut bad_req = StrMap::new();
    bad_req.insert("x".to_string(), "roblox/roact@abc".to_string());
    let wm4 = WallyManifest { registry: "r".to_string(), dependencies: bad_req, server_dependencies: StrMap::new(), dev_dependencies: StrMap::new() };
    assert!(matches!(parse_wally_dependencies(&wm4), Err(WallyManifestDependencyError::VersionReq(_))));
}

#[test]
fn test_repository_package_name() {
    use_name(repository_package_name("https://github.com/acme/my-repo.git"), "acme/my_repo");
    use_name(repository_package_name("https://github.com/acme/MyRepo.git.git"), "acme/my_repo");
    assert!(matches!(repository_package_name("https://github.com/acme"), Err(GitNameError::ScopeAndNameFromUrl)));
    assert!(matches!(repository_package_name("not a url"), Err(GitNameError::ScopeAndNameFromUrl)));
    assert!(matches!(repository_package_name("https://github.com/a.b/repo"), Err(GitNameError::Name(_))));
    assert!(matches!(git_package_name(Some(vec!["acme".to_string()])), Err(GitNameError::ScopeAndNameFromUrl)));
    use_name(git_package_name(Some(vec!["Acme".to_string(), "tool.git".to_string(), "x".to_string()])), "acme/tool");
}

fn use_name(r: Result<StandardPackageName, GitNameError>, expected: &str) {
    match r {
        Ok(n) => assert_eq!(n.to_string(), expected),
        Err(e) => panic!("expected {expected}, got {e:?}"),
    }
}

#[test]
fn test_add_version_entry() {
    let entry = |v: &str| IndexFileEntry { version: Version::parse(v).unwrap(), realm: None, dependencies: StrMap::new() };
    let mut file = vec![entry("1.0.0")];
    assert!(add_version_entry(&mut file, entry("1.1.0")));
    assert_eq!(file.len(), 2);
    assert_eq!(file[1].version.to_string(), "1.1.0");
    assert!(!add_version_entry(&mut file, entry("1.0.0")));
    assert_eq!(file.len(), 2);
    assert_eq!(file[0].version.to_string(), "1.0.0");
}

#[test]
fn test_git_repo_url() {
    let spec = |repo: &str| GitDependencySpecifier { repo: repo.to_string(), rev: "main".to_string(), realm: None };
    assert_eq!(spec("acme/tool").repo_url().unwrap(), "https://github.com/acme/tool.git");
    assert_eq!(spec("https://gitlab.com/acme/tool").repo_url().unwrap(), "https://gitlab.com/acme/tool");
    assert_eq!(spec("ssh://git@host.example/acme/tool.git").repo_url().unwrap(), "ssh://git@host.example/acme/tool.git");
    assert!(spec("git@github.com:acme/tool.git").repo_url().is_err());
}

#[test]
fn test_create_package_version() {
    let entry = |v: &str| IndexFileEntry { version: Version::parse(v).unwrap(), realm: None, dependencies: StrMap::new() };
    // a new scope: created with the uploader as its only owner
    let mut file = vec![];
    let update = create_package_version(None, false, 7, &mut file, entry("1.0.0")).unwrap();
    assert_eq!(update.new_scope_owners, Some(vec![7]));
    assert!(update.added);
    assert_eq!(file.len(), 1);
    // an owned scope: the version is added once
    let owners = vec![3, 7];
    let update = create_package_version(Some(&owners), true, 7, &mut file, entry("1.1.0")).unwrap();
    assert_eq!(update.new_scope_owners, None);
    assert!(update.added);
    let update = create_package_version(Some(&owners), true, 7, &mut file, entry("1.1.0")).unwrap();
    assert!(!update.added);
    assert_eq!(file.len(), 2);
    // someone else's scope, or a scope folder without owners: refused, nothing changes
    assert_eq!(
        create_package_version(Some(&owners), true, 9, &mut file, entry("2.0.0")).err(),
        Some(CreatePackageVersionError::MissingScopeOwnership)
    );
    assert_eq!(
        create_package_version(None, true, 7, &mut file, entry("2.0.0")).err(),
        Some(CreatePackageVersionError::MissingScopeOwnership)
    );
    assert_eq!(file.len(), 2);
}
