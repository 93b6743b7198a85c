use engram::path_guard::{is_under, validate_repo_path, GuardError, Resolved};

fn place(canonical: &str, is_dir: bool) -> Option<Resolved> {
    Some(Resolved {
        canonical: canonical.into(),
        is_dir,
    })
}

fn roots(v: &[&str]) -> Vec<String> {
    v.iter().map(|s| s.to_string()).collect()
}

#[test]
fn rejects_missing_path() {
    let err = validate_repo_path(
        "/nonexistent/definitely/missing",
        None,
        Some("/home/u"),
        &vec![],
        &vec![],
    )
    .unwrap_err();
    assert!(err.message().contains("not accessible"));
    assert_eq!(
        err.message(),
        "repo_path \"/nonexistent/definitely/missing\" is not accessible"
    );
}

#[test]
fn rejects_file_path() {
    let err = validate_repo_path(
        "/tmp/f.txt",
        place("/tmp/f.txt", false),
        None,
        &vec![],
        &vec![],
    )
    .unwrap_err();
    assert!(err.message().contains("not a directory"));
}

#[test]
fn rejects_home_dir() {
    let err = validate_repo_path(
        "/home/u",
        place("/home/u", true),
        Some("/home/u"),
        &vec![],
        &vec![],
    )
    .unwrap_err();
    assert!(err.message().contains("home directory"));
}

#[test]
fn rejects_root() {
    let err =
        validate_repo_path("/", place("/", true), Some("/home/u"), &vec![], &vec![]).unwrap_err();
    assert!(err.message().contains("filesystem root"));
    assert!(matches!(err, GuardError::FilesystemRoot));
}

#[test]
fn accepts_normal_dir_and_canonicalizes() {
    let got = validate_repo_path(
        "./proj",
        place("/work/proj", true),
        Some("/home/u"),
        &vec![],
        &vec![],
    )
    .unwrap();
    assert_eq!(got, "/work/proj");
}

#[test]
fn enforces_allowed_roots() {
    let allowed = roots(&["/outer"]);
    assert!(validate_repo_path(
        "/outer/proj",
        place("/outer/proj", true),
        None,
        &allowed,
        &allowed
    )
    .is_ok());
    let err = validate_repo_path(
        "/outside",
        place("/outside", true),
        None,
        &allowed,
        &allowed,
    )
    .unwrap_err();
    assert!(err.message().contains("allowed_roots"));
    assert!(err.message().contains("[\"/outer\"]"));
}

#[test]
fn a_directory_is_compared_by_its_components() {
    assert!(is_under("/a/b", "/a"));
    assert!(is_under("/a", "/a/"));
    assert!(!is_under("/ab", "/a"));
    assert!(is_under("/anything", "/"));
}
