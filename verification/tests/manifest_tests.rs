use dvop::extensions::manifest::{
    canonicalize_path, canonicalize_script_path, path_starts_with_exec, resolve_canonical, validate_id,
    validate_script_path, validate_version,
};

#[test]
fn test_validate_id() {
    assert!(validate_id("hello-world").is_ok());
    assert!(validate_id("HelloWorld").is_err());
    assert!(validate_id("-hello").is_err());
    assert!(validate_id("hello-").is_err());
    assert!(validate_id("").is_err());
}

#[test]
fn test_validate_version() {
    assert!(validate_version("1.0.0").is_ok());
    assert!(validate_version("1.2.3").is_ok());
    assert!(validate_version("0.0.1").is_ok());
    assert!(validate_version("1.0").is_err());
    assert!(validate_version("1.0.0.0").is_err());
    assert!(validate_version("").is_err());
}

#[test]
fn test_validate_script_path() {
    assert!(validate_script_path("foo.sh").is_ok());
    assert!(validate_script_path("../foo.sh").is_err());
    assert!(validate_script_path("/foo.sh").is_err());
    assert!(validate_script_path("foo\\bar.sh").is_err());
}

#[test]
fn test_canonicalize_script_path() {
    assert!(canonicalize_script_path("foo.sh", "/tmp/base").is_some());
    assert!(canonicalize_script_path("../foo.sh", "/tmp/base").is_none());
}

#[test]
fn test_resolve_canonical_answers() {
    assert_eq!(resolve_canonical("x.sh", None, None), Some("x.sh".to_string()));
    assert_eq!(
        resolve_canonical("x.sh", Some("/a/b/x.sh".to_string()), Some("/a/b".to_string())),
        Some("/a/b/x.sh".to_string())
    );
    assert_eq!(resolve_canonical("x.sh", Some("/etc/hostname".to_string()), Some("/tmp/base".to_string())), None);
    assert_eq!(resolve_canonical("x.sh", Some("/a/bc/x.sh".to_string()), Some("/a/b".to_string())), None);
    assert_eq!(
        resolve_canonical("x.sh", Some("/etc/hostname".to_string()), None),
        Some("/etc/hostname".to_string())
    );
    assert!(path_starts_with_exec("/a/b/c", "/a/b"));
    assert!(path_starts_with_exec("/a/b", "/a/b"));
    assert!(!path_starts_with_exec("/a/bc", "/a/b"));
}

#[test]
fn test_canonicalize_path_refuses_escape() {
    let base = tempfile::tempdir().unwrap();
    let other = tempfile::tempdir().unwrap();
    let inside = tempfile::Builder::new().prefix("inside").tempfile_in(base.path()).unwrap();
    let outside = tempfile::Builder::new().prefix("outside").tempfile_in(other.path()).unwrap();
    let base_str = base.path().to_str().unwrap();
    let got = canonicalize_path(inside.path().to_str().unwrap(), base_str);
    let expected = inside.path().canonicalize().unwrap();
    assert_eq!(got, Some(expected.to_str().unwrap().to_string()));
    assert_eq!(canonicalize_path(outside.path().to_str().unwrap(), base_str), None);
    assert_eq!(canonicalize_path("/no/such/file.sh", base_str), Some("/no/such/file.sh".to_string()));
}

#[test]
fn test_version_is_three_digit_runs() {
    assert!(validate_version(" 1.0.0 ").is_ok());
    assert!(validate_version("01.2.3").is_ok());
    assert!(validate_version("1..0").is_err());
    assert!(validate_version("1.0.x").is_err());
    assert!(validate_version("1.0").is_err());
    assert!(validate_version("1.0.0.0").is_err());
}
