use pesde::updates::{
    cached_latest, latest_version, select_asset, max_installed_version, release_version, update_message, CHECK_INTERVAL_NANOS,
};
use pesde::version::Version;

fn version(s: &str) -> Version {
    Version::parse(s).ok().unwrap()
}

#[test]
fn test_cached_latest() {
    let hour: i64 = 60 * 60 * 1_000_000_000;
    assert_eq!(CHECK_INTERVAL_NANOS, 6 * hour);
    let checked = Some((10 * hour, version("1.2.0")));
    assert_eq!(cached_latest(checked.clone(), 15 * hour).unwrap().as_str(), "1.2.0");
    assert!(cached_latest(checked.clone(), 16 * hour).is_none());
    assert!(cached_latest(None, 0).is_none());
    // no overflow on far apart times
    assert!(cached_latest(Some((i64::MIN, version("1.0.0"))), i64::MAX).is_none());
}

#[test]
fn test_release_version() {
    assert_eq!(release_version("v0.5.0").ok().unwrap().as_str(), "0.5.0");
    assert_eq!(release_version("vv1.0.0").ok().unwrap().as_str(), "1.0.0");
    assert_eq!(release_version("2.0.0-rc.1").ok().unwrap().as_str(), "2.0.0-rc.1");
    assert!(release_version("release-1").is_err());
}

#[test]
fn test_latest_version() {
    let vs = vec![version("0.4.0"), version("0.5.0-rc.1"), version("0.5.0"), version("0.3.9")];
    assert_eq!(latest_version(&vs).unwrap().as_str(), "0.5.0");
    assert!(latest_version(&vec![]).is_none());
}

#[test]
fn test_max_installed_version() {
    let current = version("0.5.0");
    assert_eq!(max_installed_version(&vec![version("0.4.0"), version("0.6.1")], &current).as_str(), "0.6.1");
    assert_eq!(max_installed_version(&vec![version("0.4.0")], &current).as_str(), "0.5.0");
    assert_eq!(max_installed_version(&vec![], &current).as_str(), "0.5.0");
}

#[test]
fn test_update_message() {
    assert_eq!(
        update_message("pesde", &version("0.6.0"), &version("0.5.0")).unwrap(),
        "a new version of pesde is available: 0.6.0"
    );
    assert!(update_message("pesde", &version("0.5.0"), &version("0.5.0")).is_none());
    assert!(update_message("pesde", &version("0.4.0"), &version("0.5.0")).is_none());
}

#[test]
fn test_select_asset() {
    let names: Vec<String> = ["pesde-0.5.0-windows-x86_64.tar.gz", "pesde-0.5.0-linux-x86_64.tar.gz", "pesde-0.5.0-linux-aarch64.tar.gz"]
        .iter()
        .map(|s| s.to_string())
        .collect();
    assert_eq!(select_asset(&names, "linux", "x86_64"), Some(1));
    assert_eq!(select_asset(&names, "linux", "aarch64"), Some(2));
    assert_eq!(select_asset(&names, "macos", "aarch64"), None);
}
