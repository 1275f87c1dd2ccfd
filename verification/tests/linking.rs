use pesde::linking::generator::{
    exported_type_line, generate_bin_linking_module, generate_lib_linking_module, get_bin_require_path,
    get_lib_require_path, luau_style_path, roblox_require_path, PathComponent, TypeGenerics,
};
use pesde::linking_file::{is_duplicate_in, link_beginning, link_file_name, link_path, link_path_between, LinkPathError};
use pesde::commands::{select_version, SelectVersionError};
use pesde::dependencies::registry::{RegistryDependencySpecifier, RegistryPackageRef};
use pesde::dependencies::{DependencySpecifier, PackageRef};
use pesde::keyed::KeyedMap;
use pesde::linking::{link_plan, LinkFolder, LinkKind, LinkingError};
use pesde::lockfile::{DependencyGraphNode, DownloadedDependencyGraphNode, DownloadedGraph, PackageRefs, VersionId};
use pesde::manifest::target::{Target, TargetKind};
use pesde::manifest::DependencyType;
use pesde::names::PackageNames;
use pesde::patches::{patch_plan, ApplyPatchesError};
use pesde::package_name::StandardPackageName;
use pesde::version::{Version, VersionReq};

fn normal(s: &str) -> PathComponent {
    PathComponent::Normal(s.to_string())
}

#[test]
fn test_lib_linking_module() {
    let types = vec!["export type A = module.A\n".to_string()];
    assert_eq!(
        generate_lib_linking_module("\"./x\"", &types),
        "local module = require(\"./x\")\nexport type A = module.A\nreturn module"
    );
    assert_eq!(generate_lib_linking_module("p", &vec![]), "local module = require(p)\nreturn module");
}

#[test]
fn test_bin_linking_module() {
    assert_eq!(
        generate_bin_linking_module("/root", "\"./bin\""),
        "_G.PESDE_ROOT = \"/root\"\nreturn require(\"./bin\")"
    );
}

#[test]
fn test_luau_style_path() {
    let cs = vec![PathComponent::ParentDir, PathComponent::CurDir, normal("pkg"), normal("init.luau")];
    assert_eq!(luau_style_path(&cs), "\"./.././pkg/init.luau\"");
    assert_eq!(get_bin_require_path(&vec![normal("bin.luau")]), "\"./bin.luau\"");
}

#[test]
fn test_roblox_require_path() {
    let cs = vec![PathComponent::ParentDir, normal("pkg"), normal("lib.lua"), normal("init.luau")];
    assert_eq!(roblox_require_path("script", &cs), "script.Parent[\"pkg\"][\"lib\"]");
    assert_eq!(
        get_lib_require_path(&TargetKind::Roblox, &vec![normal("src.luau")], "script.Parent"),
        "script.Parent[\"src\"]"
    );
    assert_eq!(get_lib_require_path(&TargetKind::Lune, &vec![normal("src.luau")], "script"), "\"./src.luau\"");
}

#[test]
fn test_exported_type_line() {
    assert_eq!(exported_type_line("Foo", &None), "export type Foo = module.Foo\n");
    let g = TypeGenerics {
        declared: vec!["T".to_string(), "U = string".to_string()],
        passed: vec!["T".to_string(), "U".to_string()],
    };
    assert_eq!(exported_type_line("Bar", &Some(g)), "export type Bar<T, U = string> = module.Bar<T, U>\n");
}

#[test]
fn test_is_duplicate_in() {
    let items = vec!["a".to_string(), "b".to_string(), "a".to_string()];
    assert!(is_duplicate_in("a", &items));
    assert!(!is_duplicate_in("b", &items));
    assert!(!is_duplicate_in("c", &items));
}

#[test]
fn test_link_path() {
    let cs = vec![PathComponent::ParentDir, normal("pesde"), normal("acme+tool")];
    assert_eq!(link_path("script.Parent", &cs, "tool"), "script.Parent.Parent[\"pesde\"][\"tool\"]");
    assert_eq!(link_path("script", &vec![], "init"), "script[\"init\"]");
}

#[test]
fn test_link_beginning() {
    let place = "game.ServerScriptService".to_string();
    assert_eq!(link_beginning(true, Some(&place), "x").unwrap(), "game.ServerScriptService");
    assert!(link_beginning(true, None, "x").is_none());
    assert_eq!(link_beginning(false, None, "init").unwrap(), "script");
    assert_eq!(link_beginning(false, None, "tool").unwrap(), "script.Parent");
}

#[test]
fn test_link_file_name() {
    assert_eq!(link_file_name(true, "wally#", "roact"), "roact.lua");
    assert_eq!(link_file_name(false, "wally#", "roact"), "wally#roact.lua");
}

fn vid(v: &str) -> VersionId {
    VersionId { version: Version::parse(v).ok().unwrap(), target: TargetKind::Luau }
}

fn downloaded(
    name: &str,
    direct: Option<&str>,
    deps: Vec<(&str, &str, &str)>,
    target: Target,
    new_structure: bool,
) -> DownloadedDependencyGraphNode {
    let spec = DependencySpecifier::Registry(RegistryDependencySpecifier {
        name: StandardPackageName::from_str(name).ok().unwrap(),
        version: VersionReq::parse("^1").ok().unwrap(),
        index: "default".to_string(),
        realm: None,
    });
    DownloadedDependencyGraphNode {
        target,
        node: DependencyGraphNode {
            direct: direct.map(|a| (a.to_string(), spec)),
            dependencies: deps
                .into_iter()
                .map(|(n, v, alias)| (PackageNames::from_str(n).ok().unwrap(), (vid(v), alias.to_string())))
                .collect(),
            ty: DependencyType::Standard,
            pkg_ref: PackageRefs {
                source: PackageRef::Registry(RegistryPackageRef {
                    name: StandardPackageName::from_str(name).ok().unwrap(),
                    version: Version::parse("1.0.0").ok().unwrap(),
                    index_url: "https://index".to_string(),
                }),
                target: TargetKind::Luau,
                new_structure,
            },
        },
    }
}

fn lib_target(lib: bool, bin: bool) -> Target {
    Target::Luau {
        lib: if lib { Some("init.luau".to_string()) } else { None },
        bin: if bin { Some("main.luau".to_string()) } else { None },
    }
}

#[test]
fn test_link_plan() {
    let mut g: DownloadedGraph = KeyedMap::new();
    g.insert(
        (PackageNames::from_str("acme/app").ok().unwrap(), vid("1.0.0")),
        downloaded(
            "acme/app",
            Some("app"),
            vec![("acme/lib", "2.0.0", "lib"), ("acme/tool", "1.0.0", "tool")],
            lib_target(true, true),
            false,
        ),
    );
    g.insert(
        (PackageNames::from_str("acme/lib").ok().unwrap(), vid("2.0.0")),
        downloaded("acme/lib", None, vec![], lib_target(true, false), true),
    );
    g.insert(
        (PackageNames::from_str("acme/tool").ok().unwrap(), vid("1.0.0")),
        downloaded("acme/tool", Some("tool"), vec![], lib_target(false, true), false),
    );
    let (plan, err) = link_plan(&g, TargetKind::Luau);
    assert!(err.is_none());
    assert_eq!(plan.len(), 3);
    assert!(matches!(&plan[0].folder, LinkFolder::Project(f) if f == "packages"));
    assert_eq!(plan[0].file_name, "app.luau");
    assert_eq!(plan[0].kind, LinkKind::Library);
    assert_eq!(plan[0].package, 0);
    assert!(!plan[0].through_file);
    assert_eq!(plan[1].file_name, "app.bin.luau");
    assert_eq!(plan[1].kind, LinkKind::Binary);
    assert!(plan[1].through_file);
    // the library of acme/lib, linked into the container of acme/app; the tool has no library
    assert!(matches!(&plan[2].folder, LinkFolder::Container(0, f) if f == "packages"));
    assert_eq!(plan[2].file_name, "lib.luau");
    assert_eq!(plan[2].package, 1);
    assert_eq!(plan[2].target, TargetKind::Luau);
    assert!(!plan[2].through_file);
}

#[test]
fn test_link_plan_missing_dependency() {
    let mut g: DownloadedGraph = KeyedMap::new();
    g.insert(
        (PackageNames::from_str("acme/app").ok().unwrap(), vid("1.0.0")),
        downloaded("acme/app", Some("app"), vec![("acme/gone", "3.0.0", "gone")], lib_target(true, false), false),
    );
    let (plan, err) = link_plan(&g, TargetKind::Luau);
    // the modules before the missing dependency are still planned
    assert_eq!(plan.len(), 1);
    assert_eq!(plan[0].file_name, "app.luau");
    match err {
        Some(LinkingError::DependencyNotFound(n, v)) => {
            assert_eq!(n.to_string(), "acme/gone");
            assert_eq!(v.version.as_str(), "3.0.0");
        },
        None => panic!("the plan should fail"),
    }
}

#[test]
fn test_select_version() {
    let mut g: DownloadedGraph = KeyedMap::new();
    let app = PackageNames::from_str("acme/app").ok().unwrap();
    let lib = PackageNames::from_str("acme/lib").ok().unwrap();
    g.insert((app.clone(), vid("1.0.0")), downloaded("acme/app", None, vec![], lib_target(true, false), false));
    g.insert((lib.clone(), vid("1.0.0")), downloaded("acme/lib", None, vec![], lib_target(true, false), false));
    g.insert((lib.clone(), vid("2.0.0")), downloaded("acme/lib", None, vec![], lib_target(true, false), false));
    assert_eq!(select_version(&g, &app, None).ok().unwrap().version.as_str(), "1.0.0");
    match select_version(&g, &lib, None) {
        Err(SelectVersionError::Multiple(all)) => {
            assert_eq!(all.iter().map(|v| v.version.as_str().to_string()).collect::<Vec<_>>(), vec!["1.0.0", "2.0.0"]);
        },
        _ => panic!("two versions are in the graph"),
    }
    // a named version is taken as it is
    assert_eq!(select_version(&g, &lib, Some(vid("3.0.0"))).ok().unwrap().version.as_str(), "3.0.0");
    let other = PackageNames::from_str("acme/none").ok().unwrap();
    assert!(matches!(select_version(&g, &other, None), Err(SelectVersionError::NotFound)));
}

#[test]
fn test_patch_plan() {
    let mut g: DownloadedGraph = KeyedMap::new();
    g.insert(
        (PackageNames::from_str("acme/app").ok().unwrap(), vid("1.0.0")),
        downloaded("acme/app", Some("app"), vec![], lib_target(true, false), false),
    );
    g.insert(
        (PackageNames::from_str("acme/lib").ok().unwrap(), vid("2.0.0")),
        downloaded("acme/lib", None, vec![], lib_target(true, false), true),
    );
    let patches = vec![
        (PackageNames::from_str("acme/lib").ok().unwrap(), vid("2.0.0"), "patches/lib.patch".to_string()),
        (PackageNames::from_str("acme/app").ok().unwrap(), vid("1.0.0"), "patches/app.patch".to_string()),
    ];
    let (jobs, err) = patch_plan(&g, &patches, TargetKind::Luau);
    assert!(err.is_none());
    assert_eq!(jobs.len(), 2);
    assert_eq!(jobs[0].package, 1);
    assert_eq!(jobs[0].patch_path, "patches/lib.patch");
    assert_eq!(jobs[0].container_folder, vec!["packages", ".pesde", "acme+lib", "2.0.0", "lib"]);
    assert_eq!(jobs[1].package, 0);
    assert_eq!(jobs[1].container_folder, vec!["packages", ".pesde", "acme+app", "1.0.0", "app"]);
}

#[test]
fn test_patch_plan_missing_package() {
    let mut g: DownloadedGraph = KeyedMap::new();
    g.insert(
        (PackageNames::from_str("acme/app").ok().unwrap(), vid("1.0.0")),
        downloaded("acme/app", Some("app"), vec![], lib_target(true, false), false),
    );
    let patches = vec![
        (PackageNames::from_str("acme/app").ok().unwrap(), vid("1.0.0"), "a.patch".to_string()),
        (PackageNames::from_str("acme/gone").ok().unwrap(), vid("1.0.0"), "b.patch".to_string()),
        (PackageNames::from_str("acme/app").ok().unwrap(), vid("1.0.0"), "c.patch".to_string()),
    ];
    let (jobs, err) = patch_plan(&g, &patches, TargetKind::Luau);
    assert_eq!(jobs.len(), 1);
    assert_eq!(jobs[0].patch_path, "a.patch");
    match err {
        Some(ApplyPatchesError::PackageNotFound(n, v)) => {
            assert_eq!(n.to_string(), "acme/gone");
            assert_eq!(v.version.to_string(), "1.0.0");
        },
        None => panic!("expected an error"),
    }
}

#[test]
fn test_link_path_between() {
    assert_eq!(
        link_path_between("script.Parent", "/p/packages/acme_lib", "/p/packages", "lib"),
        Ok("script.Parent[\"lib\"]".to_string())
    );
    assert_eq!(
        link_path_between("script.Parent", "/p/a/x", "/p/b", "x"),
        Ok("script.Parent.Parent[\"a\"][\"x\"]".to_string())
    );
    // a relative package folder seen from an absolute base has no relative path
    assert_eq!(link_path_between("script", "p/a", "/p", "a"), Err(LinkPathError::NoRelativePath));
    // an absolute package folder seen from a relative base keeps its root
    assert_eq!(link_path_between("script", "/p/a", "p", "a"), Err(LinkPathError::InvalidComponent));
}
