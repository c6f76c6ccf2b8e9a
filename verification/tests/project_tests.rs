use dvop::debugger::rust_project::{get_rust_project_info, project_from_facts, BinaryType};
use std::io::Write;
use std::path::{Path, PathBuf};
use tempfile::TempDir;

fn disk_exists(m: &str) -> bool {
    Path::new(m).exists()
}

fn make_file(dir: &Path, name: &str, content: &str) {
    let mut f = tempfile::Builder::new().rand_bytes(0).prefix(name).tempfile_in(dir).unwrap();
    f.write_all(content.as_bytes()).unwrap();
    f.keep().unwrap();
}

fn make_dir(dir: &Path, name: &str) -> PathBuf {
    tempfile::Builder::new().rand_bytes(0).prefix(name).tempdir_in(dir).unwrap().keep()
}

const TEST_PROJECT: &str = r#"
[package]
name = "test-project"
version = "0.1.0"
edition = "2021"

[[bin]]
name = "test-project"
path = "src/main.rs"
"#;

fn root(dir: &TempDir) -> String {
    dir.path().to_str().unwrap().to_string()
}

#[test]
fn test_get_rust_project_info() {
    let dir = TempDir::new().unwrap();
    make_file(dir.path(), "Cargo.toml", TEST_PROJECT);
    let info = get_rust_project_info(&root(&dir), Some(TEST_PROJECT), &vec![], disk_exists);
    assert!(info.is_some());
    let info = info.unwrap();
    assert_eq!(info.project_name, "test-project");
    assert_eq!(info.cargo_toml, dir.path().join("Cargo.toml").to_str().unwrap());
    assert!(!info.is_workspace);
    assert!(info.workspace_members.is_empty());
    assert_eq!(info.binaries.len(), 1);
    assert_eq!(info.binaries[0].name, "test-project");
    assert!(info.binaries[0].path.ends_with("target/debug/test_project"));
    assert!(!info.binaries[0].is_built);
}

#[test]
fn test_get_rust_project_info_with_workspace() {
    let dir = TempDir::new().unwrap();
    let cargo_toml = r#"
[workspace]
members = ["crate1", "crate2"]

[package]
name = "workspace-root"
version = "0.1.0"
edition = "2021"
"#;
    make_file(dir.path(), "Cargo.toml", cargo_toml);
    let info = get_rust_project_info(&root(&dir), Some(cargo_toml), &vec![], disk_exists);
    assert!(info.is_some());
    let info = info.unwrap();
    assert!(info.is_workspace);
    assert_eq!(info.workspace_members.len(), 2);
    assert!(info.workspace_members.contains(&"crate1".to_string()));
    assert!(info.workspace_members.contains(&"crate2".to_string()));
}

#[test]
fn test_no_project_found() {
    let temp = TempDir::new().unwrap();
    let r = root(&temp);
    assert!(dvop::debugger::rust_project::find_rust_project_root(&r, false, |m: &str| std::path::Path::new(m).exists()).is_none());
    assert!(get_rust_project_info(&root(&temp), None, &vec![], disk_exists).is_none());
}

#[test]
fn test_project_binaries_and_examples() {
    let dir = TempDir::new().unwrap();
    let cargo_toml = "[package]\nname = \"my-app\"\n\n[[bin]]\nname = \"my-app\"\n\n[[bin]]\nname = \"extra-tool\"\n";
    make_file(dir.path(), "Cargo.toml", cargo_toml);
    make_dir(dir.path(), "examples");
    let target = make_dir(dir.path(), "target");
    let release = make_dir(&target, "release");
    make_file(&release, "my_app", "");
    let info = get_rust_project_info(&root(&dir), Some(cargo_toml), &vec!["demo".to_string()], disk_exists).unwrap();
    let names: Vec<&str> = info.binaries.iter().map(|b| b.name.as_str()).collect();
    assert_eq!(names, vec!["my-app", "my-app (release)", "extra-tool", "demo"]);
    assert!(info.binaries[1].is_built);
    assert!(info.binaries[2].path.ends_with("target/debug/extra_tool"));
    assert!(info.binaries[3].binary_type == BinaryType::Example);
    assert!(info.binaries[3].path.ends_with("target/debug/examples/demo"));
    assert!(get_rust_project_info(&root(&dir), Some("not = [valid"), &vec![], disk_exists).is_none());
}

#[test]
fn test_root_search_takes_first_reported_manifest() {
    let only_p = |m: &str| m == "/p/Cargo.toml" || m == "/Cargo.toml";
    assert_eq!(dvop::debugger::rust_project::nearest_manifest_dir("/p/src/bin", only_p), Some("/p".to_string()));
    assert_eq!(dvop::debugger::rust_project::nearest_manifest_dir("/q/src", only_p), Some("/".to_string()));
    let nothing = |_m: &str| false;
    assert_eq!(dvop::debugger::rust_project::nearest_manifest_dir("/p/src", nothing), None);
    assert_eq!(dvop::debugger::rust_project::find_rust_project_root("/p/src/main.rs", true, only_p), Some("/p".to_string()));
    assert_eq!(dvop::debugger::rust_project::find_rust_project_root("/p/src/main.rs", false, |m: &str| m == "/p/src/main.rs/Cargo.toml"), Some("/p/src/main.rs".to_string()));
}

#[test]
fn test_project_info_without_manifest_file_uses_given_text() {
    let temp = TempDir::new().unwrap();
    let info = get_rust_project_info(&root(&temp), Some("[package]\nname = \"x\"\n"), &vec![], disk_exists);
    assert_eq!(info.unwrap().project_name, "x");
}

#[test]
fn test_project_from_manifest_facts() {
    let facts = (
        Some("my-app".to_string()),
        true,
        Some(vec![Some("crate1".to_string()), None, Some("crate2".to_string())]),
        Some(vec![Some("my-app".to_string()), Some("extra-tool".to_string()), None]),
    );
    let p = project_from_facts("/no/such/project", facts, &vec![], disk_exists);
    assert_eq!(p.project_name, "my-app");
    assert_eq!(p.cargo_toml, "/no/such/project/Cargo.toml");
    assert_eq!(p.target_dir, "/no/such/project/target");
    assert!(p.is_workspace);
    assert_eq!(p.workspace_members, vec!["crate1".to_string(), "crate2".to_string()]);
    let names: Vec<&str> = p.binaries.iter().map(|b| b.name.as_str()).collect();
    assert_eq!(names, vec!["my-app", "extra-tool"]);
    assert_eq!(p.binaries[0].path, "/no/such/project/target/debug/my_app");
    assert!(!p.binaries[0].is_built);
    let built = project_from_facts(
        "/p",
        (Some("a-b".to_string()), false, None, None),
        &vec!["demo".to_string()],
        |m: &str| m == "/p/target/release/a_b" || m == "/p/examples",
    );
    let names: Vec<&str> = built.binaries.iter().map(|b| b.name.as_str()).collect();
    assert_eq!(names, vec!["a-b", "a-b (release)", "demo"]);
    assert!(!built.binaries[0].is_built);
    assert!(built.binaries[1].is_built);
    assert_eq!(built.binaries[2].path, "/p/target/debug/examples/demo");
    let unnamed = project_from_facts("/no/such/project", (None, false, None, None), &vec![], |_m: &str| true);
    assert_eq!(unnamed.project_name, "unknown");
    assert!(unnamed.workspace_members.is_empty());
}
