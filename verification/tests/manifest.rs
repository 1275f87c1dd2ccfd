use pesde::dependencies::registry::RegistryDependencySpecifier;
use pesde::dependencies::DependencySpecifier;
use pesde::manifest::overrides::OverrideKey;
use pesde::manifest::target::{Target, TargetKind, TargetKindFromStr, TargetValidatePublishError};
use pesde::manifest::{AllDependenciesError, DependencyType, Manifest, Realm, ScriptName};
use pesde::package_name::StandardPackageName;
use pesde::strmap::StrMap;
use pesde::version::{Version, VersionReq};

fn reg(name: &str, req: &str) -> DependencySpecifier {
    DependencySpecifier::Registry(RegistryDependencySpecifier {
        name: StandardPackageName::from_str(name).ok().unwrap(),
        version: VersionReq::parse(req).ok().unwrap(),
        index: "default".to_string(),
        realm: None,
    })
}

fn table(entries: Vec<(&str, DependencySpecifier)>) -> StrMap<DependencySpecifier> {
    let mut m = StrMap::new();
    for (k, v) in entries {
        m.insert(k.to_string(), v);
    }
    m
}

fn manifest(
    deps: Vec<(&str, DependencySpecifier)>,
    peer: Vec<(&str, DependencySpecifier)>,
    dev: Vec<(&str, DependencySpecifier)>,
) -> Manifest {
    Manifest {
        name: pesde::names::PackageName::from_str("acme/app").ok().unwrap(),
        version: Version::parse("1.0.0").ok().unwrap(),
        description: None,
        license: None,
        authors: vec![],
        repository: None,
        target: Target::Lune { lib: None, bin: Some("main.luau".to_string()) },
        private: false,
        scripts: StrMap::new(),
        indices: StrMap::new(),
        wally_indices: StrMap::new(),
        overrides: vec![],
        includes: vec![],
        pesde_version: None,
        dependencies: table(deps),
        peer_dependencies: table(peer),
        dev_dependencies: table(dev),
    }
}

#[test]
fn test_all_dependencies() {
    let m = manifest(vec![("b", reg("acme/b", "^1"))], vec![("p", reg("acme/p", "^1"))], vec![("a", reg("acme/a", "^1"))]);
    let all = m.all_dependencies().ok().unwrap();
    assert_eq!(all.len(), 3);
    assert_eq!(all.key_at(0), "a");
    assert_eq!(all.value_at(0).1, DependencyType::Dev);
    assert_eq!(all.value_at(1).1, DependencyType::Standard);
    assert_eq!(all.value_at(2).1, DependencyType::Peer);
    assert_eq!(all.get("p").unwrap().0.name(), "acme/p");
}

#[test]
fn test_all_dependencies_alias_conflict() {
    let m = manifest(vec![("b", reg("acme/b", "^1"))], vec![], vec![("b", reg("acme/c", "^1"))]);
    match m.all_dependencies() {
        Err(AllDependenciesError::AliasConflict(a)) => assert_eq!(a, "b"),
        _ => panic!("expected AliasConflict"),
    }
}

#[test]
fn test_target_kind_round_trip() {
    for k in TargetKind::variants() {
        let s = k.to_string();
        assert_eq!(TargetKind::from_str(&s).ok().unwrap(), k);
    }
    assert_eq!(TargetKind::Roblox.to_string(), "roblox");
    assert!(matches!(TargetKind::from_str("lua"), Err(TargetKindFromStr::Unknown(s)) if s == "lua"));
}

#[test]
fn test_target_kind_compatibility() {
    assert!(TargetKind::Lune.is_compatible_with(&TargetKind::Luau));
    assert!(!TargetKind::Luau.is_compatible_with(&TargetKind::Lune));
    assert!(TargetKind::Roblox.is_compatible_with(&TargetKind::Roblox));
    assert_eq!(TargetKind::Lune.packages_folder(&TargetKind::Lune), "packages");
    assert_eq!(TargetKind::Lune.packages_folder(&TargetKind::Luau), "luau_packages");
}

#[test]
fn test_target() {
    let t = Target::Lune { lib: Some("lib.luau".to_string()), bin: None };
    assert_eq!(t.kind(), TargetKind::Lune);
    assert_eq!(t.lib_path().unwrap(), "lib.luau");
    assert!(t.bin_path().is_none());
    assert_eq!(t.to_string(), "lune");
    assert!(t.validate_publish().is_ok());
    let r = Target::Roblox { lib: Some("lib.luau".to_string()), build_files: vec![] };
    assert!(r.bin_path().is_none());
    assert!(matches!(r.validate_publish(), Err(TargetValidatePublishError::NoBuildFiles)));
    let empty = Target::Luau { lib: None, bin: None };
    assert!(matches!(empty.validate_publish(), Err(TargetValidatePublishError::NoExportedFiles)));
}

#[test]
fn test_override_key() {
    let k = OverrideKey::from_str("a>b,c").ok().unwrap();
    assert_eq!(k.0, vec![vec!["a".to_string(), "b".to_string()], vec!["c".to_string()]]);
    assert_eq!(k.to_string(), "a>b,c");
    let e = OverrideKey::from_str("").ok().unwrap();
    assert_eq!(e.0, vec![vec!["".to_string()]]);
}

#[test]
fn test_script_name() {
    assert_eq!(ScriptName::RobloxSyncConfigGenerator.to_string(), "roblox_sync_config_generator");
    assert_eq!(ScriptName::SourcemapGenerator.to_string(), "sourcemap_generator");
}

#[test]
fn test_realm_default() {
    assert_eq!(Realm::default(), Realm::Shared);
}
