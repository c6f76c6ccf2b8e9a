use dvop::extensions::ui::{card_matches_query, collect_badges};
use dvop::extensions::{
    CssContribution, ExtensionContributions, LinterContribution, SidebarPanelContribution,
    StatusBarContribution,
};

#[test]
fn no_contributions_no_badges() {
    assert!(collect_badges(&ExtensionContributions::default()).is_empty());
}

#[test]
fn badges_follow_contributions_in_order() {
    let mut c = ExtensionContributions::default();
    c.sidebar_panels.push(SidebarPanelContribution {
        id: "p".to_string(),
        title: "P".to_string(),
        icon: "folder".to_string(),
        script: "p.sh".to_string(),
    });
    c.linters.push(LinterContribution {
        languages: vec!["rs".to_string()],
        script: "lint.sh".to_string(),
    });
    c.css = Some(CssContribution { file: "style.css".to_string() });
    c.status_bar = Some(StatusBarContribution { script: "status.sh".to_string() });
    assert_eq!(collect_badges(&c), vec!["Status Bar", "Theme", "Linter", "Panel"]);
}

#[test]
fn card_matches_any_label_ignoring_case() {
    let labels = vec!["Rust Diagnostics".to_string(), "Runs cargo check".to_string()];
    assert!(card_matches_query(&labels, "diag"));
    assert!(card_matches_query(&labels, "cargo"));
    assert!(!card_matches_query(&labels, "python"));
    assert!(card_matches_query(&labels, ""));
    assert!(!card_matches_query(&Vec::new(), ""));
}
