use dvop::extensions::code_completion;
use dvop::extensions::native::{
    config_path_from, flag_in, flags_text_with, load_enabled_state, persist_enabled_state, BuiltinExtension,
    NativeExtension, NativeRegistry,
};
use dvop::extensions::rust_completion;
use dvop::extensions::rust_diagnostics::{
    self, find_workspace_root, set_defer_rust_lsp_opens, LspOpenAction, RustLspOpens,
};
use dvop::extensions::rust_diagnostics::{DocumentVersions, RustDiagnosticsExtension};
use std::io::Write;
use std::path::{Path, PathBuf};
fn make_file(dir: &Path, name: &str, content: &str) {
    let mut f = tempfile::Builder::new().rand_bytes(0).prefix(name).tempfile_in(dir).unwrap();
    f.write_all(content.as_bytes()).unwrap();
    f.keep().unwrap();
}

fn make_dir(dir: &Path, name: &str) -> PathBuf {
    tempfile::Builder::new().rand_bytes(0).prefix(name).tempdir_in(dir).unwrap().keep()
}


#[test]
fn test_enabled_state_defaults_to_enabled() {
    assert!(load_enabled_state(None, "code-completion"));
    assert!(load_enabled_state(Some("not json"), "code-completion"));
    assert!(load_enabled_state(Some("{\"rust-completion\": false}"), "code-completion"));
    assert!(!load_enabled_state(Some("{\"code-completion\": false}"), "code-completion"));
    assert!(load_enabled_state(Some("{\"code-completion\": true}"), "code-completion"));
}

#[test]
fn test_persist_keeps_other_flags() {
    let text = persist_enabled_state(Some("{\"rust-diagnostics\": false}"), "code-completion", false);
    assert!(!load_enabled_state(Some(&text), "code-completion"));
    assert!(!load_enabled_state(Some(&text), "rust-diagnostics"));
    let text = persist_enabled_state(Some(&text), "code-completion", true);
    assert!(load_enabled_state(Some(&text), "code-completion"));
    let fresh = persist_enabled_state(None, "rust-completion", false);
    assert!(!load_enabled_state(Some(&fresh), "rust-completion"));
}

#[test]
fn test_config_path() {
    assert_eq!(
        config_path_from(Some("/home/u")),
        "/home/u/.config/dvop/native_extensions.json"
    );
    assert_eq!(config_path_from(None), ".config/dvop/native_extensions.json");
}

#[test]
fn test_registry_register_and_toggle() {
    let mut registry: NativeRegistry<BuiltinExtension> = NativeRegistry::new();
    let config = "{\"rust-completion\": false}";
    code_completion::register(&mut registry, Some(config));
    rust_completion::register(&mut registry, Some(config));
    rust_diagnostics::register(&mut registry, Some(config));
    assert_eq!(registry.len(), 3);
    assert!(registry.is_native_extension("code-completion"));
    assert!(registry.is_native_extension("rust-diagnostics"));
    assert!(!registry.is_native_extension("hello-world"));
    assert!(code_completion::is_enabled(&registry));
    assert!(!rust_completion::is_enabled(&registry));
    registry.set_native_enabled("rust-completion", true);
    assert!(rust_completion::is_enabled(&registry));
    registry.set_native_enabled("code-completion", false);
    assert!(!code_completion::is_enabled(&registry));
    let manifests = registry.get_native_manifests();
    let ids: Vec<&str> = manifests.iter().map(|m| m.id.as_str()).collect();
    assert_eq!(ids, vec!["code-completion", "rust-completion", "rust-diagnostics"]);
    assert!(!manifests[0].enabled);
    assert!(manifests.iter().all(|m| m.is_native && m.version == "1.0.0" && m.author == "Built-in"));
    registry.set_native_enabled("nope", false);
    assert_eq!(registry.len(), 3);
}

#[test]
fn test_unregistered_is_enabled() {
    let registry: NativeRegistry<BuiltinExtension> = NativeRegistry::new();
    assert!(code_completion::is_enabled(&registry));
    assert!(rust_diagnostics::is_enabled(&registry));
}

#[test]
fn test_diagnostics_manifest_has_rust_linter() {
    let ext = RustDiagnosticsExtension::new(None);
    let m = ext.manifest();
    assert_eq!(m.id, "rust-diagnostics");
    assert_eq!(m.name, "Rust Diagnostics");
    assert_eq!(m.contributions.linters.len(), 1);
    assert_eq!(m.contributions.linters[0].languages, vec!["rs".to_string()]);
    assert!(m.contributions.linters[0].script.is_empty());
}

#[test]
fn test_deferred_opens_queue_once() {
    let mut opens = RustLspOpens::new();
    assert!(opens.file_open_action(true, "/p/src/main.rs") == LspOpenAction::Open);
    assert!(opens.file_open_action(true, "/p/readme.md") == LspOpenAction::Skip);
    assert!(opens.file_open_action(false, "/p/src/main.rs") == LspOpenAction::Skip);
    set_defer_rust_lsp_opens(&mut opens, true);
    assert!(opens.file_open_action(true, "/p/src/a.rs") == LspOpenAction::Queued);
    assert!(opens.file_open_action(true, "/p/src/b.rs") == LspOpenAction::Queued);
    assert!(opens.file_open_action(true, "/p/src/a.rs") == LspOpenAction::Queued);
    set_defer_rust_lsp_opens(&mut opens, false);
    let flushed = opens.flush_deferred_rust_lsp_opens(true);
    assert_eq!(flushed, vec!["/p/src/a.rs".to_string(), "/p/src/b.rs".to_string()]);
    assert!(opens.flush_deferred_rust_lsp_opens(true).is_empty());
}

#[test]
fn test_flush_when_disabled_drops_queue() {
    let mut opens = RustLspOpens::new();
    set_defer_rust_lsp_opens(&mut opens, true);
    opens.file_open_action(true, "/p/src/a.rs");
    assert!(opens.flush_deferred_rust_lsp_opens(false).is_empty());
    assert!(opens.flush_deferred_rust_lsp_opens(true).is_empty());
}

#[test]
fn test_find_workspace_root_from_answers() {
    let only_w = |m: &str| m == "/w/Cargo.toml";
    assert_eq!(find_workspace_root("/w/src/bin/tool.rs", only_w), "/w");
    assert_eq!(find_workspace_root("/x/src/lib.rs", only_w), "/x/src");
    assert_eq!(find_workspace_root("", only_w), "");
}

#[test]
fn test_find_workspace_root() {
    let dir = tempfile::TempDir::new().unwrap();
    let root = dir.path().to_str().unwrap().to_string();
    make_file(dir.path(), "Cargo.toml", "[package]\nname = \"w\"");
    let src = make_dir(dir.path(), "src");
    let bin = make_dir(&src, "bin");
    let file = bin.join("tool.rs");
    assert_eq!(find_workspace_root(file.to_str().unwrap(), |m: &str| std::path::Path::new(m).exists()), root);
    let other = tempfile::TempDir::new().unwrap();
    let loose = other.path().join("loose.rs");
    assert_eq!(
        find_workspace_root(loose.to_str().unwrap(), |m: &str| std::path::Path::new(m).exists()),
        other.path().to_str().unwrap().to_string()
    );
}

#[test]
fn test_builtin_set_enabled() {
    let mut ext = BuiltinExtension::CodeCompletion(code_completion::CodeCompletionExtension::new(None));
    assert!(ext.is_enabled());
    ext.set_enabled(false);
    assert!(!ext.is_enabled());
    assert_eq!(ext.id(), "code-completion");
}

#[test]
fn test_document_versions_count_saves_per_document() {
    let mut v = DocumentVersions::new();
    assert_eq!(v.version_of("file:///p/a.rs"), None);
    assert_eq!(v.next_version("file:///p/a.rs"), 1);
    assert_eq!(v.next_version("file:///p/a.rs"), 2);
    assert_eq!(v.next_version("file:///p/b.rs"), 1);
    assert_eq!(v.next_version("file:///p/a.rs"), 3);
    assert_eq!(v.version_of("file:///p/a.rs"), Some(3));
    assert_eq!(v.version_of("file:///p/b.rs"), Some(1));
    v.clear();
    assert_eq!(v.version_of("file:///p/a.rs"), None);
    assert_eq!(v.next_version("file:///p/a.rs"), 1);
}

#[test]
fn test_flags_from_parsed_entries() {
    let entries = vec![("a".to_string(), false), ("b".to_string(), true), ("a".to_string(), true)];
    assert!(flag_in(&entries, "a"));
    assert!(flag_in(&entries, "b"));
    assert!(flag_in(&entries, "missing"));
    assert!(!flag_in(&vec![("x".to_string(), false)], "x"));
    let text = flags_text_with(vec![("b".to_string(), true)], "a", false);
    assert!(!load_enabled_state(Some(&text), "a"));
    assert!(load_enabled_state(Some(&text), "b"));
}
