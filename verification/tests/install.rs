use pesde::dependencies::registry::{RegistryDependencySpecifier, RegistryPackageRef};
use pesde::dependencies::{DependencySpecifier, PackageRef};
use pesde::install::{bin_link_file, bin_links, lockfile_matches, BinLink};
use pesde::keyed::KeyedMap;
use pesde::lockfile::{DependencyGraphNode, DownloadedDependencyGraphNode, DownloadedGraph, Lockfile, PackageRefs, VersionId};
use pesde::manifest::target::{Target, TargetKind};
use pesde::manifest::{DependencyType, Manifest};
use pesde::names::PackageNames;
use pesde::package_name::StandardPackageName;
use pesde::strmap::StrMap;
use pesde::version::{Version, VersionReq};

fn version(s: &str) -> Version {
    Version::parse(s).ok().unwrap()
}

fn manifest(target: Target) -> Manifest {
    Manifest {
        name: pesde::names::PackageName::from_str("acme/app").ok().unwrap(),
        version: version("0.1.0"),
        description: None,
        license: None,
        authors: vec![],
        repository: None,
        target,
        private: false,
        scripts: StrMap::new(),
        indices: StrMap::new(),
        wally_indices: StrMap::new(),
        overrides: vec![],
        includes: vec![],
        pesde_version: None,
        dependencies: StrMap::new(),
        peer_dependencies: StrMap::new(),
        dev_dependencies: StrMap::new(),
    }
}

fn node(name: &str, direct: Option<&str>, ty: DependencyType, bin: bool) -> DownloadedDependencyGraphNode {
    let spec = DependencySpecifier::Registry(RegistryDependencySpecifier {
        name: StandardPackageName::from_str(name).ok().unwrap(),
        version: VersionReq::parse("^1").ok().unwrap(),
        index: "default".to_string(),
        realm: None,
    });
    DownloadedDependencyGraphNode {
        target: Target::Lune { lib: None, bin: if bin { Some("main.luau".to_string()) } else { None } },
        node: DependencyGraphNode {
            direct: direct.map(|a| (a.to_string(), spec)),
            dependencies: vec![],
            ty,
            pkg_ref: PackageRefs {
                source: PackageRef::Registry(RegistryPackageRef {
                    name: StandardPackageName::from_str(name).ok().unwrap(),
                    version: version("1.0.0"),
                    index_url: "https://index".to_string(),
                }),
                target: TargetKind::Lune,
                new_structure: true,
            },
        },
    }
}

fn key(name: &str) -> (PackageNames, VersionId) {
    (PackageNames::from_str(name).ok().unwrap(), VersionId { version: version("1.0.0"), target: TargetKind::Lune })
}

#[test]
fn test_lockfile_matches() {
    let m = manifest(Target::Lune { lib: None, bin: None });
    let lock = Lockfile {
        name: pesde::names::PackageName::from_str("acme/app").ok().unwrap(),
        version: version("0.1.0"),
        target: TargetKind::Lune,
        overrides: vec![],
        graph: KeyedMap::new(),
    };
    assert!(lockfile_matches(&m, &lock));
    let other = manifest(Target::Luau { lib: None, bin: None });
    assert!(!lockfile_matches(&other, &lock));
}

#[test]
fn test_bin_links() {
    let mut g: DownloadedGraph = KeyedMap::new();
    g.insert(key("acme/tool"), node("acme/tool", Some("tool"), DependencyType::Standard, true));
    g.insert(key("acme/lib"), node("acme/lib", Some("lib"), DependencyType::Standard, false));
    g.insert(key("acme/inner"), node("acme/inner", None, DependencyType::Standard, true));
    g.insert(key("acme/devtool"), node("acme/devtool", Some("devtool"), DependencyType::Dev, true));
    g.insert(key("acme/pesde"), node("acme/pesde", Some("pesde"), DependencyType::Standard, true));
    assert_eq!(bin_links(&g, "pesde", false), vec![BinLink::Write(0), BinLink::Write(3), BinLink::SameNameAsTool(4)]);
    assert_eq!(bin_links(&g, "pesde", true), vec![BinLink::Write(0), BinLink::SameNameAsTool(4)]);
}

#[test]
fn test_bin_link_file() {
    let all_folders = "\"luau_packages\", \"lune_packages\", \"packages\", \"roblox_packages\"";
    let alias = "tool";
    let manifest_file_name = "pesde.toml";
    let expected = |prefix: &str| {
        format!(
            r#"{prefix}local process = require("@lune/process")
local fs = require("@lune/fs")

local project_root = process.cwd
local path_components = string.split(string.gsub(project_root, "\\", "/"), "/")

for i = #path_components, 1, -1 do
    local path = table.concat(path_components, "/", 1, i)
    if fs.isFile(path .. "/{manifest_file_name}") then
        project_root = path
        break
    end
end

for _, packages_folder in {{ {all_folders} }} do
    local path = `{{project_root}}/{{packages_folder}}/{alias}.bin.luau`
    
    if fs.isFile(path) then
        require(path)
        break
    end
end
    "#,
        )
    };
    assert_eq!(bin_link_file(alias, true), expected("#!/usr/bin/env -S lune run\n"));
    assert_eq!(bin_link_file(alias, false), expected(""));
}
