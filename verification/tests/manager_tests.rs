use dvop::extensions::manager::{
    extensions_dir_from, get_status_bar_text, join_status_parts, update_status_bar_text,
    EnableOutcome, ExtensionManager, StatusBarCache,
};
use dvop::extensions::native::{BuiltinExtension, NativeRegistry};
use std::io::Write;
use std::path::{Path, PathBuf};
fn make_file(dir: &Path, name: &str, content: &str) {
    let mut f = tempfile::Builder::new().rand_bytes(0).prefix(name).tempfile_in(dir).unwrap();
    f.write_all(content.as_bytes()).unwrap();
    f.keep().unwrap();
}

fn make_dir(dir: &Path, name: &str) -> PathBuf {
    tempfile::Builder::new().rand_bytes(0).prefix(name).tempdir_in(dir).unwrap().keep()
}

use dvop::extensions::{
    code_completion, CommandContribution, ContextMenuContributions, CssContribution, Extension,
    ExtensionContributions, ExtensionManifest, FileExplorerContextMenu, SidebarPanelContribution,
    StatusBarContribution, TextTransformContribution,
};

fn manifest(id: &str, enabled: bool, contributions: ExtensionContributions) -> ExtensionManifest {
    ExtensionManifest {
        id: id.to_string(),
        name: format!("{} name", id),
        version: "1.0.0".to_string(),
        description: String::new(),
        author: "me".to_string(),
        enabled,
        icon: None,
        is_native: false,
        contributions,
    }
}

fn contributions() -> ExtensionContributions {
    let mut c = ExtensionContributions::default();
    c.commands.push(CommandContribution {
        id: "count".to_string(),
        title: "Count".to_string(),
        script: "count.sh".to_string(),
        keywords: vec!["words".to_string()],
    });
    c.text_transforms.push(TextTransformContribution {
        id: "upper".to_string(),
        title: "Upper".to_string(),
        script: "upper.sh".to_string(),
    });
    c.sidebar_panels.push(SidebarPanelContribution {
        id: "panel".to_string(),
        title: "Panel".to_string(),
        icon: "icon".to_string(),
        script: "panel.sh".to_string(),
    });
    c.context_menus = Some(ContextMenuContributions {
        editor: vec![],
        file_explorer: vec![FileExplorerContextMenu {
            label: "Open".to_string(),
            script: "open.sh".to_string(),
        }],
    });
    c.status_bar = Some(StatusBarContribution { script: "status.sh".to_string() });
    c.css = Some(CssContribution { file: "style.css".to_string() });
    c
}

fn manager() -> ExtensionManager {
    let mut m = ExtensionManager::new("/ext".to_string());
    m.load_extensions(vec![
        Extension::new(manifest("alpha", true, contributions()), "/ext/alpha".to_string()),
        Extension::new(manifest("beta", false, contributions()), "/ext/beta".to_string()),
    ]);
    m
}

#[test]
fn test_contributions_of_enabled_extensions() {
    let m = manager();
    assert_eq!(m.get_extensions().len(), 2);
    let cmds = m.get_extension_commands();
    assert_eq!(cmds.len(), 1);
    assert_eq!(cmds[0].0, "/ext/alpha");
    assert_eq!(cmds[0].1.id, "count");
    let transforms = m.get_extension_transforms();
    assert_eq!(transforms.len(), 1);
    assert_eq!(transforms[0].1.id, "upper");
    let entries = m.get_file_explorer_context_menu_entries();
    assert_eq!(entries.len(), 1);
    assert_eq!(entries[0].1.label, "Open");
    let panels = m.get_extension_sidebar_panels();
    assert_eq!(panels.len(), 2);
    assert_eq!((panels[0].0.as_str(), panels[0].2), ("alpha", true));
    assert_eq!((panels[1].0.as_str(), panels[1].2), ("beta", false));
    assert_eq!(m.status_bar_scripts(), vec!["/ext/alpha/status.sh".to_string()]);
    assert_eq!(m.css_candidates(), vec!["/ext/alpha/style.css".to_string()]);
    assert!(m.get_extension_css_paths(|p: &str| std::path::Path::new(p).exists()).is_empty());
    assert_eq!(m.get_extension_css_paths(|_p: &str| true), vec!["/ext/alpha/style.css".to_string()]);
}

#[test]
fn test_css_paths_that_exist() {
    let dir = tempfile::TempDir::new().unwrap();
    let ext_dir = make_dir(dir.path(), "alpha");
    make_file(&ext_dir, "style.css", "body {}");
    let mut m = ExtensionManager::new(dir.path().to_str().unwrap().to_string());
    m.load_extensions(vec![Extension::new(
        manifest("alpha", true, contributions()),
        ext_dir.to_str().unwrap().to_string(),
    )]);
    let paths = m.get_extension_css_paths(|p: &str| std::path::Path::new(p).exists());
    assert_eq!(paths, vec![ext_dir.join("style.css").to_str().unwrap().to_string()]);
}

#[test]
fn test_set_enabled_script_and_native() {
    let mut m = manager();
    let mut registry: NativeRegistry<BuiltinExtension> = NativeRegistry::new();
    code_completion::register(&mut registry, None);
    assert!(m.set_enabled(&mut registry, "beta", true) == EnableOutcome::Script(1));
    assert!(m.get_extensions()[1].manifest.enabled);
    assert!(m.set_enabled(&mut registry, "code-completion", false) == EnableOutcome::Native);
    assert!(!code_completion::is_enabled(&registry));
    assert!(m.set_enabled(&mut registry, "gamma", true) == EnableOutcome::NotFound);
    assert_eq!(m.get_extension_commands().len(), 2);
}

#[test]
fn test_remove_extension() {
    let mut m = manager();
    let removed = m.remove_extension("alpha").unwrap();
    assert_eq!(removed.manifest.name, "alpha name");
    assert_eq!(m.get_extensions().len(), 1);
    assert_eq!(m.remove_extension("alpha").unwrap_err(), "Extension not found");
}

#[test]
fn test_all_extensions_include_native() {
    let m = manager();
    let mut registry: NativeRegistry<BuiltinExtension> = NativeRegistry::new();
    code_completion::register(&mut registry, None);
    let all = m.get_all_extensions(registry.get_native_manifests());
    assert_eq!(all.len(), 3);
    assert_eq!(all[2].manifest.id, "code-completion");
    assert!(all[2].path.is_empty());
}

#[test]
fn test_status_bar_text() {
    let outputs = vec![Some("  12 words \n".to_string()), None, Some("   ".to_string()), Some("UTF-8".to_string())];
    assert_eq!(join_status_parts(&outputs), "12 words | UTF-8");
    let mut cache = StatusBarCache::new();
    assert_eq!(get_status_bar_text(&cache), "");
    update_status_bar_text(&mut cache, &outputs);
    assert_eq!(get_status_bar_text(&cache), "12 words | UTF-8");
}

#[test]
fn test_extensions_dir() {
    assert_eq!(extensions_dir_from(Some("/home/u")), "/home/u/.config/dvop/extensions");
    assert_eq!(extensions_dir_from(None), ".config/dvop/extensions");
}

#[test]
fn test_existing_css_paths_keeps_present_in_order() {
    let checked = vec![
        ("/e/a.css".to_string(), true),
        ("/e/b.css".to_string(), false),
        ("/e/c.css".to_string(), true),
    ];
    assert_eq!(
        dvop::extensions::manager::existing_css_paths(&checked),
        vec!["/e/a.css".to_string(), "/e/c.css".to_string()]
    );
}
