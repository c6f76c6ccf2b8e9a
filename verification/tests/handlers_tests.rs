use dvop::handlers::{
    close_empty_untitled_tabs, is_dirty_label, label_after_edit, opens_new_tab_after_close,
    should_handle_file_operations, tab_label_after_save, LastActiveArea, TabPaths,
};

#[test]
fn file_operations_decision_table() {
    use_area_cases();
}

fn use_area_cases() {
    let fm = LastActiveArea::FileManager;
    let te = LastActiveArea::TextEditor;
    // File manager used last with a selection wins even over editor focus.
    assert!(should_handle_file_operations(true, false, true, fm));
    // The file list having focus wins.
    assert!(should_handle_file_operations(true, true, false, te));
    // The text editor has focus and was used last.
    assert!(!should_handle_file_operations(true, false, true, te));
    // A selection without editor focus.
    assert!(should_handle_file_operations(false, false, true, te));
    // Editor focus, file manager last, nothing selected.
    assert!(!should_handle_file_operations(true, false, false, fm));
    // Nothing focused, nothing selected.
    assert!(should_handle_file_operations(false, false, false, te));
}

#[test]
fn tab_paths_insert_get_remove() {
    let mut t = TabPaths::new();
    assert_eq!(t.get(0), None);
    t.insert(2, "/a/two.rs".to_string());
    assert_eq!(t.get(2), Some("/a/two.rs"));
    assert_eq!(t.get(0), None);
    assert!(t.contains_key(2));
    assert!(!t.contains_key(1));
    t.insert(0, "/a/zero.rs".to_string());
    t.insert(2, "/a/TWO.rs".to_string());
    assert_eq!(t.get(2), Some("/a/TWO.rs"));
    t.remove(2);
    assert_eq!(t.get(2), None);
    assert_eq!(t.get(0), Some("/a/zero.rs"));
    t.remove(9);
    assert_eq!(t.get(9), None);
}

#[test]
fn closing_a_page_moves_later_pages_down() {
    let mut t = TabPaths::new();
    t.insert(0, "/p/a".to_string());
    t.insert(1, "/p/b".to_string());
    t.insert(3, "/p/d".to_string());
    t.close_page(1);
    assert_eq!(t.get(0), Some("/p/a"));
    assert_eq!(t.get(1), None);
    assert_eq!(t.get(2), Some("/p/d"));
    assert_eq!(t.get(3), None);
    t.close_page(7);
    assert_eq!(t.get(2), Some("/p/d"));
}

#[test]
fn page_of_compares_paths() {
    let mut t = TabPaths::new();
    t.insert(0, "/p/a.rs".to_string());
    t.insert(1, "/p//b.rs".to_string());
    t.insert(2, "/p/b.rs".to_string());
    assert_eq!(t.page_of("/p/b.rs", 3), Some(1));
    assert_eq!(t.page_of("/p/a.rs", 3), Some(0));
    assert_eq!(t.page_of("/p/a.rs", 0), None);
    assert_eq!(t.page_of("/p/c.rs", 3), None);
}

#[test]
fn closed_tab_names() {
    let mut t = TabPaths::new();
    t.insert(0, "/p/main.rs".to_string());
    assert_eq!(t.closed_tab_name(0), "main.rs");
    assert_eq!(t.closed_tab_name(1), "Untitled");
    t.insert(1, "/".to_string());
    assert_eq!(t.closed_tab_name(1), "Untitled");
}

#[test]
fn new_tab_after_closing_the_last() {
    assert!(opens_new_tab_after_close(2, 0, true));
    assert!(!opens_new_tab_after_close(1, 0, true));
    assert!(!opens_new_tab_after_close(2, 0, false));
    assert!(!opens_new_tab_after_close(3, 2, true));
}

#[test]
fn labels_after_save_and_edit() {
    assert!(is_dirty_label("*main.rs"));
    assert!(!is_dirty_label("main.rs"));
    assert_eq!(tab_label_after_save("*main.rs", None, false), "main.rs");
    assert_eq!(tab_label_after_save("*main.rs", Some("lib.rs"), false), "lib.rs");
    assert_eq!(tab_label_after_save("main.rs", None, true), "*main.rs");
    assert_eq!(tab_label_after_save("*main.rs", Some("lib.rs"), true), "*main.rs");
    assert_eq!(tab_label_after_save("Untitled", Some("a.txt"), true), "*a.txt");
    assert_eq!(tab_label_after_save("", None, false), "");
    assert_eq!(label_after_edit("main.rs", "main.rs"), "*main.rs");
    assert_eq!(label_after_edit("*main.rs", "other.rs"), "*main.rs");
}

#[test]
fn empty_untitled_tabs_close_from_the_last() {
    let mut t = TabPaths::new();
    t.insert(1, "/p/Untitled".to_string());
    let pages = vec![
        ("Untitled".to_string(), true),
        ("Untitled".to_string(), true),
        ("*Untitled".to_string(), true),
        ("Untitled".to_string(), false),
        ("notes.txt".to_string(), true),
        ("Untitled".to_string(), true),
    ];
    assert_eq!(close_empty_untitled_tabs(&t, &pages), vec![5, 2, 0]);
    assert!(close_empty_untitled_tabs(&t, &Vec::new()).is_empty());
}

#[test]
fn edit_then_save_restores_the_name() {
    let edited = label_after_edit("notes.txt", "notes.txt");
    assert!(is_dirty_label(&edited));
    assert_eq!(tab_label_after_save(&edited, None, false), "notes.txt");
}
