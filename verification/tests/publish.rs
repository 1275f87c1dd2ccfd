use pesde::publish::{
    archive_excess, check_build_files, check_export_contents, publish_includes, str_eq_ignore_ascii_case, BuildFileError, ExportKind,
    PublishWarning, MAX_ARCHIVE_SIZE,
};
use pesde::strmap::StrMap;

fn strings(v: &[&str]) -> Vec<String> {
    v.iter().map(|s| s.to_string()).collect()
}

fn names(m: &StrMap<()>) -> Vec<String> {
    (0..m.len()).map(|i| m.key_at(i).clone()).collect()
}

#[test]
fn test_publish_includes() {
    let includes = strings(&["src", ".git", "README.md"]);
    let exports = vec![(ExportKind::Lib, "lib".to_string()), (ExportKind::Bin, "src".to_string())];
    let (set, build, warnings) = publish_includes(&includes, &exports, None);
    assert_eq!(names(&set), vec!["README.md", "lib", "pesde.toml", "src"]);
    assert!(build.is_none());
    assert_eq!(warnings.len(), 3);
    // the manifest was not among the includes, so it is reported as added
    assert!(matches!(warnings[0], PublishWarning::ManifestAdded));
    assert!(matches!(warnings[1], PublishWarning::GitRemoved));
    assert!(matches!(&warnings[2], PublishWarning::ExportIncluded(ExportKind::Lib, p) if p == "lib"));
}

#[test]
fn test_publish_includes_roblox() {
    let includes = strings(&["pesde.toml", "src"]);
    let exports = vec![(ExportKind::Lib, "src".to_string())];
    let build_files = strings(&["assets"]);
    let (set, build, warnings) = publish_includes(&includes, &exports, Some(&build_files));
    assert_eq!(names(&set), vec!["pesde.toml", "src"]);
    assert_eq!(names(&build.unwrap()), vec!["assets", "src"]);
    // the manifest was already included: nothing is reported for it
    assert!(matches!(&warnings[0], PublishWarning::ExportInBuildFiles(ExportKind::Lib, p) if p == "src"));
    assert_eq!(warnings.len(), 1);
}

fn set(v: &[&str]) -> StrMap<()> {
    let mut m = StrMap::new();
    for s in v {
        m.insert(s.to_string(), ());
    }
    m
}

#[test]
fn test_check_build_files() {
    let includes = set(&["assets", "src"]);
    let (skipped, err) = check_build_files(&includes, &set(&["PESDE.toml", "assets", "src"]), &vec![true, true, true]);
    assert_eq!(skipped, 1);
    assert!(err.is_none());
    let (_, err) = check_build_files(&includes, &set(&["assets", "extra", "src"]), &vec![true, true, false]);
    assert!(matches!(err, Some(BuildFileError::NotIncluded(f)) if f == "extra"));
    let (_, err) = check_build_files(&includes, &set(&["assets", "src"]), &vec![false, true]);
    assert!(matches!(err, Some(BuildFileError::Missing(f)) if f == "assets"));
}

#[test]
fn test_eq_ignore_ascii_case() {
    assert!(str_eq_ignore_ascii_case("Pesde.TOML", "pesde.toml"));
    assert!(!str_eq_ignore_ascii_case("pesde.tom", "pesde.toml"));
    assert!(!str_eq_ignore_ascii_case("[", "{"));
}

#[test]
fn test_archive_excess() {
    assert_eq!(MAX_ARCHIVE_SIZE, 4 * 1024 * 1024);
    assert_eq!(archive_excess(MAX_ARCHIVE_SIZE), None);
    assert_eq!(archive_excess(MAX_ARCHIVE_SIZE + 10), Some(10));
    assert_eq!(archive_excess(0), None);
}

#[test]
fn test_publish_includes_settled() {
    let includes = strings(&[".git", "src"]);
    let exports = vec![(ExportKind::Lib, "lib".to_string())];
    let build_files = strings(&["assets"]);
    let (set, build, _) = publish_includes(&includes, &exports, Some(&build_files));
    let (again, build_again, warnings) = publish_includes(&names(&set), &exports, Some(&names(build.as_ref().unwrap())));
    assert_eq!(names(&again), names(&set));
    assert_eq!(names(&build_again.unwrap()), names(&build.unwrap()));
    // the second time everything is already included: nothing is reported
    assert_eq!(warnings.len(), 0);
}

#[test]
fn test_check_export_contents() {
    assert!(check_export_contents(ExportKind::Lib, "local x = 1\nreturn { x = x }\n").is_ok());
    match check_export_contents(ExportKind::Bin, "local x = ") {
        Err(e) => {
            assert_eq!(e.kind, ExportKind::Bin);
            assert!(!e.errors.is_empty());
        },
        Ok(()) => panic!("an incomplete statement is not valid Luau"),
    }
}
