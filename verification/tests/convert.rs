use pesde::dependencies::convert::{conversion_sources, pick_lib_file, sourcemap_lib};
use pesde::dependencies::git::GitPackageRef;
use pesde::dependencies::registry::RegistryPackageRef;
use pesde::dependencies::resolution::{ResolvedPackage, RootLockfileNode};
use pesde::dependencies::wally::WallyPackageRef;
use pesde::dependencies::PackageRef;
use pesde::keyed::KeyedMap;
use pesde::manifest::{DependencyType, Realm};
use pesde::package_name::{PackageName, StandardPackageName, WallyPackageName};
use pesde::version::Version;

fn strings(v: &[&str]) -> Vec<String> {
    v.iter().map(|s| s.to_string()).collect()
}

#[test]
fn test_pick_lib_file() {
    let paths = strings(&["default.project.json", "src/init.luau", "src/other.lua"]);
    let exts = vec![Some("json".to_string()), Some("luau".to_string()), Some("lua".to_string())];
    assert_eq!(pick_lib_file(&paths, &exts), "src/init.luau");
    assert_eq!(pick_lib_file(&paths, &vec![None, None, None]), "true");
    assert_eq!(pick_lib_file(&vec![], &vec![]), "true");
}

#[test]
fn test_sourcemap_lib() {
    assert_eq!(sourcemap_lib(&strings(&["default.project.json", "src/.lua", "src/init.lua"])), "src/init.lua");
    assert_eq!(sourcemap_lib(&strings(&["a.txt", "b"])), "true");
}

fn package(pkg_ref: PackageRef) -> ResolvedPackage {
    ResolvedPackage { pkg_ref, dependencies: KeyedMap::new(), realm: Realm::Shared, dep_type: DependencyType::Standard }
}

#[test]
fn test_conversion_sources() {
    let v = Version::parse("1.0.0").ok().unwrap();
    let mut lock = RootLockfileNode::new(vec![]);
    let std_name = StandardPackageName::from_str("acme/reg").ok().unwrap();
    lock.children.insert(
        (PackageName::Standard(std_name.clone()), v.clone()),
        package(PackageRef::Registry(RegistryPackageRef { name: std_name, version: v.clone(), index_url: "i".to_string() })),
    );
    let git_name = StandardPackageName::from_str("acme/git").ok().unwrap();
    lock.children.insert(
        (PackageName::Standard(git_name.clone()), v.clone()),
        package(PackageRef::Git(GitPackageRef { name: git_name, version: v.clone(), repo_url: "r".to_string(), rev: "x".to_string() })),
    );
    let wally_name = WallyPackageName::from_str("roblox/roact").ok().unwrap();
    lock.children.insert(
        (PackageName::Wally(wally_name.clone()), v.clone()),
        package(PackageRef::Wally(WallyPackageRef { name: wally_name, version: v.clone(), index_url: "w".to_string() })),
    );
    assert_eq!(conversion_sources(&lock), vec![1, 2]);
}
