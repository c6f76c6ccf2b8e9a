use dvop::extensions::hooks::{refresh_steps, RefreshStep};
use dvop::extensions::native::{BuiltinExtension, NativeRegistry};
use dvop::extensions::{
    code_completion, ContextMenuContributions, CssContribution, EditorContextMenu, Extension,
    ExtensionContributions, ExtensionManifest, KeybindingContribution, SidebarPanelContribution,
    StatusBarContribution,
};

fn ext(id: &str, contributions: ExtensionContributions) -> Extension {
    Extension {
        manifest: ExtensionManifest {
            id: id.to_string(),
            name: id.to_string(),
            version: "1.0.0".to_string(),
            description: String::new(),
            author: String::new(),
            enabled: true,
            icon: None,
            is_native: false,
            contributions,
        },
        path: format!("/ext/{}", id),
    }
}

fn kind(step: &RefreshStep) -> String {
    match step {
        RefreshStep::Native => "native".to_string(),
        RefreshStep::Css => "css".to_string(),
        RefreshStep::StatusBar => "status".to_string(),
        RefreshStep::Keybindings => "keys".to_string(),
        RefreshStep::EditorMenus(v) => format!("menus:{}", v.join(",")),
        RefreshStep::SidebarPanels(v) => format!("panels:{}", v.join(",")),
    }
}

#[test]
fn refresh_steps_follow_contributions() {
    let mut full = ExtensionContributions::default();
    full.css = Some(CssContribution { file: "a.css".to_string() });
    full.status_bar = Some(StatusBarContribution { script: "s.sh".to_string() });
    full.keybindings.push(KeybindingContribution {
        key: "Ctrl+K".to_string(),
        title: "K".to_string(),
        script: "k.sh".to_string(),
    });
    full.context_menus = Some(ContextMenuContributions {
        editor: vec![EditorContextMenu { label: "Format Selection".to_string(), script: "f.sh".to_string() }],
        file_explorer: vec![],
    });
    full.sidebar_panels.push(SidebarPanelContribution {
        id: "p".to_string(),
        title: "Outline".to_string(),
        icon: "i".to_string(),
        script: "p.sh".to_string(),
    });
    let exts = vec![ext("full", full), ext("bare", ExtensionContributions::default())];
    let registry: NativeRegistry<BuiltinExtension> = NativeRegistry::new();
    let steps: Vec<String> = refresh_steps(&exts, &registry, "full").iter().map(kind).collect();
    assert_eq!(
        steps,
        vec!["css", "status", "keys", "menus:ext-editor-ctx-format-selection", "panels:Outline"]
    );
    assert!(refresh_steps(&exts, &registry, "bare").is_empty());
    assert!(refresh_steps(&exts, &registry, "missing").is_empty());
}

#[test]
fn refresh_steps_for_builtin_extension() {
    let mut registry: NativeRegistry<BuiltinExtension> = NativeRegistry::new();
    code_completion::register(&mut registry, None);
    let exts = vec![ext("code-completion", ExtensionContributions::default())];
    let steps: Vec<String> = refresh_steps(&exts, &registry, "code-completion").iter().map(kind).collect();
    assert_eq!(steps, vec!["native"]);
}

#[test]
fn refresh_steps_skip_empty_editor_menus() {
    let mut c = ExtensionContributions::default();
    c.context_menus = Some(ContextMenuContributions { editor: vec![], file_explorer: vec![] });
    let exts = vec![ext("x", c)];
    let registry: NativeRegistry<BuiltinExtension> = NativeRegistry::new();
    assert!(refresh_steps(&exts, &registry, "x").is_empty());
}
