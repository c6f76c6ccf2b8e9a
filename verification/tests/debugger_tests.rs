use dvop::debugger::cargo::{select_debug_target, CargoMetadata, MetadataPackage, MetadataTarget};
use dvop::debugger::rust_project::{find_rust_project_root, is_rust_project, BinaryType};
use dvop::debugger::ui::should_show_debugger;
use dvop::debugger::DebugConfig;
use std::io::Write;
use std::path::{Path, PathBuf};
use tempfile::TempDir;

fn make_file(dir: &Path, name: &str, content: &str) {
    let mut f = tempfile::Builder::new().rand_bytes(0).prefix(name).tempfile_in(dir).unwrap();
    f.write_all(content.as_bytes()).unwrap();
    f.keep().unwrap();
}

fn make_dir(dir: &Path, name: &str) -> PathBuf {
    tempfile::Builder::new().rand_bytes(0).prefix(name).tempdir_in(dir).unwrap().keep()
}

fn create_test_rust_project() -> TempDir {
    let dir = TempDir::new().unwrap();
    let cargo_toml = r#"
[package]
name = "test-project"
version = "0.1.0"
edition = "2021"

[[bin]]
name = "test-project"
path = "src/main.rs"
"#;
    make_file(dir.path(), "Cargo.toml", cargo_toml);
    let src = make_dir(dir.path(), "src");
    make_file(&src, "main.rs", "fn main() {}");
    dir
}

fn create_nested_rust_project() -> TempDir {
    let dir = TempDir::new().unwrap();
    let subdir = make_dir(dir.path(), "subdir");
    let nested = make_dir(&subdir, "nested");
    let cargo_toml = r#"
[package]
name = "nested-project"
version = "0.1.0"
edition = "2021"
"#;
    make_file(&nested, "Cargo.toml", cargo_toml);
    let src = make_dir(&nested, "src");
    make_file(&src, "main.rs", "fn main() {}");
    dir
}

fn s(p: &std::path::Path) -> String {
    p.to_str().unwrap().to_string()
}

fn manifest_exists(m: &str) -> bool {
    Path::new(m).exists()
}

fn root_of(p: &str) -> Option<String> {
    find_rust_project_root(p, Path::new(p).is_file(), manifest_exists)
}

fn in_project(p: &str) -> bool {
    is_rust_project(p, Path::new(p).is_file(), manifest_exists)
}

fn show_debugger(p: &str) -> bool {
    should_show_debugger(p, Path::new(p).is_file(), manifest_exists)
}

#[test]
fn test_default_config() {
    let config = DebugConfig::default();
    assert!(config.program.is_empty());
    assert!(config.args.is_empty());
    assert!(config.env_vars.is_empty());
    assert!(config.stop_on_entry);
}

#[test]
fn test_binary_type_display() {
    assert_eq!(BinaryType::Binary.to_display_string(), "Binary");
    assert_eq!(BinaryType::Example.to_display_string(), "Example");
    assert_eq!(BinaryType::Test.to_display_string(), "Test");
    assert_eq!(BinaryType::Benchmark.to_display_string(), "Benchmark");
}

#[test]
fn test_root_of() {
    let project = create_test_rust_project();
    let result = root_of(&s(project.path()));
    assert!(result.is_some());
    assert_eq!(result.unwrap(), s(project.path()));
    let src_dir = project.path().join("src");
    let result = root_of(&s(&src_dir));
    assert!(result.is_some());
    assert_eq!(result.unwrap(), s(project.path()));
}

#[test]
fn test_find_rust_project_root_from_file() {
    let project = create_test_rust_project();
    let main_rs = project.path().join("src/main.rs");
    let result = root_of(&s(&main_rs));
    assert!(result.is_some());
    assert_eq!(result.unwrap(), s(project.path()));
}

#[test]
fn test_nested_project_detection() {
    let dir = create_nested_rust_project();
    let deep_path = dir.path().join("subdir/nested/src");
    make_file(&deep_path, "lib.rs", "// lib");
    let file_path = deep_path.join("lib.rs");
    let result = root_of(&s(&file_path));
    assert!(result.is_some());
    assert!(result.unwrap().ends_with("nested"));
}

#[test]
fn test_in_project() {
    let project = create_test_rust_project();
    assert!(in_project(&s(project.path())));
    assert!(in_project(&s(&project.path().join("src"))));
    let temp = TempDir::new().unwrap();
    assert!(!in_project(&s(temp.path())));
}

#[test]
fn test_should_show_debugger_rust_project() {
    let temp_dir = TempDir::new().unwrap();
    make_file(temp_dir.path(), "Cargo.toml", "[package]\nname = \"test\"");
    assert!(show_debugger(&s(temp_dir.path())));
}

#[test]
fn test_should_show_debugger_subfolder() {
    let temp_dir = TempDir::new().unwrap();
    make_file(temp_dir.path(), "Cargo.toml", "[package]\nname = \"test\"");
    let src_dir = make_dir(temp_dir.path(), "src");
    assert!(show_debugger(&s(&src_dir)));
}

#[test]
fn test_should_show_debugger_non_rust() {
    let temp_dir = TempDir::new().unwrap();
    assert!(!show_debugger(&s(temp_dir.path())));
}

fn target(name: &str, kinds: &[&str], src: &str) -> MetadataTarget {
    MetadataTarget {
        name: name.to_string(),
        kind: kinds.iter().map(|k| k.to_string()).collect(),
        src_path: src.to_string(),
    }
}

#[test]
fn test_select_debug_target_first_member_bin() {
    let metadata = CargoMetadata {
        packages: vec![
            MetadataPackage {
                name: "dep".to_string(),
                id: "dep 0.1.0".to_string(),
                targets: vec![target("dep", &["bin"], "/dep/src/main.rs")],
                manifest_path: "/dep/Cargo.toml".to_string(),
            },
            MetadataPackage {
                name: "app".to_string(),
                id: "app 0.1.0".to_string(),
                targets: vec![
                    target("app", &["lib"], "/app/src/lib.rs"),
                    target("app-cli", &["bin"], "/app/src/main.rs"),
                ],
                manifest_path: "/app/Cargo.toml".to_string(),
            },
        ],
        workspace_members: vec!["app 0.1.0".to_string()],
    };
    let t = select_debug_target(&metadata).unwrap();
    assert_eq!(t.name, "app-cli");
    assert_eq!(t.bin_path, "/app/src/main.rs");
    assert_eq!(t.kind, "bin");
}

#[test]
fn test_select_debug_target_none() {
    let metadata = CargoMetadata {
        packages: vec![MetadataPackage {
            name: "lib".to_string(),
            id: "lib 0.1.0".to_string(),
            targets: vec![target("lib", &["lib"], "/lib/src/lib.rs")],
            manifest_path: "/lib/Cargo.toml".to_string(),
        }],
        workspace_members: vec!["lib 0.1.0".to_string()],
    };
    assert!(select_debug_target(&metadata).is_none());
}
