use dvop::extensions::hooks::{
    editor_context_action_name, file_extension_lower, hook_scripts, key_string_to_gtk_accel,
    keybinding_action_name, linter_scripts, sanitize_action_name, severity_from,
    sidebar_panel_script, status_line_text, HookKind, LintSeverity,
};
use dvop::extensions::{
    Extension, ExtensionContributions, ExtensionManifest, HooksContribution, LinterContribution,
    SidebarPanelContribution,
};

fn ext(id: &str, enabled: bool, is_native: bool, c: ExtensionContributions) -> Extension {
    Extension::new(
        ExtensionManifest {
            id: id.to_string(),
            name: format!("{}-name", id),
            version: "1.0.0".to_string(),
            description: String::new(),
            author: String::new(),
            enabled,
            icon: None,
            is_native,
            contributions: c,
        },
        format!("/ext/{}", id),
    )
}

fn with_hooks() -> ExtensionContributions {
    let mut c = ExtensionContributions::default();
    c.hooks = Some(HooksContribution {
        on_file_open: Some("open.sh".to_string()),
        on_file_save: None,
        on_file_close: None,
        on_app_start: Some("start.sh".to_string()),
    });
    c.linters.push(LinterContribution {
        languages: vec!["PY".to_string(), "rs".to_string()],
        script: "lint.sh".to_string(),
    });
    c.sidebar_panels.push(SidebarPanelContribution {
        id: "todo".to_string(),
        title: "Todo".to_string(),
        icon: "icon".to_string(),
        script: "todo.sh".to_string(),
    });
    c
}

#[test]
fn test_hook_scripts_of_enabled_extensions() {
    let exts = vec![ext("a", true, false, with_hooks()), ext("b", false, false, with_hooks())];
    assert_eq!(hook_scripts(&exts, HookKind::FileOpen), vec!["/ext/a/open.sh".to_string()]);
    assert_eq!(hook_scripts(&exts, HookKind::AppStart), vec!["/ext/a/start.sh".to_string()]);
    assert!(hook_scripts(&exts, HookKind::FileSave).is_empty());
}

#[test]
fn test_linters_by_extension_case_insensitive() {
    let exts = vec![
        ext("a", true, false, with_hooks()),
        ext("n", true, true, with_hooks()),
        ext("c", false, false, with_hooks()),
    ];
    assert_eq!(file_extension_lower("/src/Main.PY"), "py");
    assert_eq!(file_extension_lower("/src/Makefile"), "");
    let l = linter_scripts(&exts, "py");
    assert_eq!(l, vec![("a-name".to_string(), "/ext/a/lint.sh".to_string())]);
    assert!(linter_scripts(&exts, "js").is_empty());
}

#[test]
fn test_severity_mapping() {
    assert!(severity_from("error") == LintSeverity::Error);
    assert!(severity_from("warning") == LintSeverity::Warning);
    assert!(severity_from("hint") == LintSeverity::Info);
    assert!(severity_from("Error") == LintSeverity::Info);
}

#[test]
fn test_sidebar_panel_script() {
    let exts = vec![ext("a", false, false, with_hooks()), ext("b", true, false, with_hooks())];
    assert_eq!(sidebar_panel_script(&exts, "b", "todo"), Some("/ext/b/todo.sh".to_string()));
    assert_eq!(sidebar_panel_script(&exts, "a", "todo"), None);
    assert_eq!(sidebar_panel_script(&exts, "b", "other"), None);
}

#[test]
fn test_accelerators_and_action_names() {
    assert_eq!(key_string_to_gtk_accel("Ctrl+Shift+L"), "<Control><Shift>l");
    assert_eq!(key_string_to_gtk_accel("Ctrl+Shift+K"), "<Control><Shift>k");
    assert_eq!(key_string_to_gtk_accel("control + alt + Delete"), "<Control><Alt>delete");
    assert_eq!(key_string_to_gtk_accel("Meta+F1"), "<Super>f1");
    assert_eq!(sanitize_action_name("Count Words!"), "count-words-");
    assert_eq!(keybinding_action_name("word-count", "Count Words"), "ext-word-count-count-words");
    assert_eq!(editor_context_action_name("Make Upper Case"), "ext-editor-ctx-make-upper-case");
}

#[test]
fn test_status_line() {
    assert_eq!(status_line_text(3, 14, None, "", "ext"), "3:14");
    assert_eq!(status_line_text(1, 1, Some("/home/u/notes.txt"), " | 12 B", ""), "1:1 | notes.txt | 12 B");
    assert_eq!(
        status_line_text(10, 2, Some("/home/u/main.rs"), "", "42 words"),
        "10:2 | main.rs | 42 words"
    );
}
